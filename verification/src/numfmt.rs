//! Decimal rendering of unsigned integers, used by the request builder
//! and the text exposition renderer, and the reader that inverts it.

use vstd::prelude::*;
use vstd::arithmetic::div_mod::lemma_fundamental_div_mod;

verus! {

/// The character of one decimal digit.
pub open spec fn spec_digit_char(d: int) -> char {
    seq!['0', '1', '2', '3', '4', '5', '6', '7', '8', '9'][d]
}

/// The decimal digits of `n`, most significant first, no leading
/// zeroes (a single zero for 0).
pub open spec fn dec_digits(n: nat) -> Seq<char>
    decreases n,
{
    if n < 10 {
        seq![spec_digit_char(n as int)]
    } else {
        dec_digits(n / 10).push(spec_digit_char((n % 10) as int))
    }
}

/// One decimal digit as a string slice.
fn digit_str(d: u64) -> (r: &'static str)
    requires
        d < 10,
    ensures
        r@ == seq![spec_digit_char(d as int)],
{
    match d {
        0 => {
            proof {
                reveal_strlit("0");
                assert("0"@ =~= seq![spec_digit_char(0)]);
            }
            "0"
        },
        1 => {
            proof {
                reveal_strlit("1");
                assert("1"@ =~= seq![spec_digit_char(1)]);
            }
            "1"
        },
        2 => {
            proof {
                reveal_strlit("2");
                assert("2"@ =~= seq![spec_digit_char(2)]);
            }
            "2"
        },
        3 => {
            proof {
                reveal_strlit("3");
                assert("3"@ =~= seq![spec_digit_char(3)]);
            }
            "3"
        },
        4 => {
            proof {
                reveal_strlit("4");
                assert("4"@ =~= seq![spec_digit_char(4)]);
            }
            "4"
        },
        5 => {
            proof {
                reveal_strlit("5");
                assert("5"@ =~= seq![spec_digit_char(5)]);
            }
            "5"
        },
        6 => {
            proof {
                reveal_strlit("6");
                assert("6"@ =~= seq![spec_digit_char(6)]);
            }
            "6"
        },
        7 => {
            proof {
                reveal_strlit("7");
                assert("7"@ =~= seq![spec_digit_char(7)]);
            }
            "7"
        },
        8 => {
            proof {
                reveal_strlit("8");
                assert("8"@ =~= seq![spec_digit_char(8)]);
            }
            "8"
        },
        _ => {
            proof {
                reveal_strlit("9");
                assert("9"@ =~= seq![spec_digit_char(9)]);
            }
            "9"
        },
    }
}

/// Whether `c` is a decimal digit.
pub open spec fn is_digit(c: char) -> bool {
    ('0' as int) <= c as int && c as int <= ('9' as int)
}

/// Ten to the `k`.
pub open spec fn pow10(k: nat) -> nat
    decreases k,
{
    if k == 0 {
        1
    } else {
        10 * pow10((k - 1) as nat)
    }
}

/// Reads a decimal digit run from the front of `s` into `acc`,
/// returning the read value and what follows the digits.
pub open spec fn spec_parse_dec(s: Seq<char>, acc: nat) -> (nat, Seq<char>)
    decreases s.len(),
{
    if s.len() > 0 && is_digit(s[0]) {
        spec_parse_dec(s.drop_first(), acc * 10 + (s[0] as int - ('0' as int)) as nat)
    } else {
        (acc, s)
    }
}

/// Each digit character reads back as its value.
proof fn lemma_digit_char_val(d: int)
    requires
        0 <= d < 10,
    ensures
        is_digit(spec_digit_char(d)),
        spec_digit_char(d) as int - ('0' as int) == d,
{
    if d == 0 {
        assert(spec_digit_char(0) == '0');
    } else if d == 1 {
        assert(spec_digit_char(1) == '1');
    } else if d == 2 {
        assert(spec_digit_char(2) == '2');
    } else if d == 3 {
        assert(spec_digit_char(3) == '3');
    } else if d == 4 {
        assert(spec_digit_char(4) == '4');
    } else if d == 5 {
        assert(spec_digit_char(5) == '5');
    } else if d == 6 {
        assert(spec_digit_char(6) == '6');
    } else if d == 7 {
        assert(spec_digit_char(7) == '7');
    } else if d == 8 {
        assert(spec_digit_char(8) == '8');
    } else {
        assert(spec_digit_char(9) == '9');
    }
}

/// Reading the digits of `n` multiplies the accumulator past them and
/// adds `n`, then goes on with what follows.
proof fn lemma_parse_dec_digits(n: nat, rest: Seq<char>, acc: nat)
    ensures
        spec_parse_dec(dec_digits(n) + rest, acc) == spec_parse_dec(
            rest,
            acc * pow10(dec_digits(n).len()) + n,
        ),
    decreases n,
{
    if n < 10 {
        lemma_digit_char_val(n as int);
        let s = dec_digits(n) + rest;
        assert(s[0] == spec_digit_char(n as int));
        assert(s.drop_first() =~= rest);
        assert(dec_digits(n).len() == 1);
        assert(pow10(1) == 10 * pow10(0));
        assert(acc * pow10(1) + n == acc * 10 + n) by (nonlinear_arith)
            requires
                pow10(1) == 10,
        ;
    } else {
        let a = dec_digits(n / 10);
        let c = spec_digit_char((n % 10) as int);
        assert(dec_digits(n) == a.push(c));
        assert(dec_digits(n) + rest =~= a + (seq![c] + rest));
        lemma_parse_dec_digits(n / 10, seq![c] + rest, acc);
        lemma_digit_char_val((n % 10) as int);
        let acc2 = acc * pow10(a.len()) + n / 10;
        let s2 = seq![c] + rest;
        assert(s2[0] == c);
        assert(s2.drop_first() =~= rest);
        assert(spec_parse_dec(s2, acc2) == spec_parse_dec(rest, acc2 * 10 + n % 10));
        assert(dec_digits(n).len() == a.len() + 1);
        assert(pow10(a.len() + 1) == 10 * pow10(a.len()));
        lemma_fundamental_div_mod(n as int, 10);
        assert(acc2 * 10 + n % 10 == acc * pow10(a.len() + 1) + n) by (nonlinear_arith)
            requires
                acc2 == acc * pow10(a.len()) + n / 10,
                pow10(a.len() + 1) == 10 * pow10(a.len()),
                n == 10 * (n / 10) + n % 10,
        ;
    }
}

/// Law: the decimal rendering of `n` reads back as exactly `n`, with
/// whatever follows the digits untouched.
pub proof fn lemma_dec_digits_read_back(n: nat, rest: Seq<char>)
    requires
        rest.len() == 0 || !is_digit(rest[0]),
    ensures
        spec_parse_dec(dec_digits(n) + rest, 0) == (n, rest),
{
    lemma_parse_dec_digits(n, rest, 0);
    assert(0 * pow10(dec_digits(n).len()) + n == n) by (nonlinear_arith);
    assert(spec_parse_dec(rest, n) == (n, rest));
}

/// Renders `n` in decimal.
pub fn u64_to_string(n: u64) -> (r: String)
    ensures
        r@ == dec_digits(n as nat),
    decreases n,
{
    if n < 10 {
        String::from_str(digit_str(n))
    } else {
        let mut s = u64_to_string(n / 10);
        let d = digit_str(n % 10);
        s.append(d);
        proof {
            assert(dec_digits((n / 10) as nat) + seq![spec_digit_char((n % 10) as int)]
                =~= dec_digits((n / 10) as nat).push(spec_digit_char((n % 10) as int)));
        }
        s
    }
}

} // verus!
