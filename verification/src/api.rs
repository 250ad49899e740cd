//! The strings of the two remote API requests: trimmed base URL,
//! percent-escaped path and query values, and the bearer credential.
//! The HTTP calls themselves are made outside the library.

use vstd::prelude::*;
use crate::numfmt::{dec_digits, u64_to_string};

verus! {

/// The base URL without its trailing slashes.
pub open spec fn spec_trim_slashes(s: Seq<char>) -> Seq<char>
    decreases s.len(),
{
    if s.len() > 0 && s.last() == '/' {
        spec_trim_slashes(s.drop_last())
    } else {
        s
    }
}

/// Characters embedded in a URL without escaping: letters, digits,
/// `-`, `_`, `.`, `~`. Everything else in the ASCII range is escaped;
/// characters beyond ASCII pass through for the transport to handle.
pub open spec fn is_unreserved(c: char) -> bool {
    let n = c as int;
    (('0' as int) <= n && n <= ('9' as int)) || (('A' as int) <= n && n <= ('Z' as int)) || ((
    'a' as int) <= n && n <= ('z' as int)) || c == '-' || c == '_' || c == '.' || c == '~'
}

/// The character of one hexadecimal digit, upper case.
pub open spec fn spec_hex_char(d: int) -> char {
    seq!['0', '1', '2', '3', '4', '5', '6', '7', '8', '9', 'A', 'B', 'C', 'D', 'E', 'F'][d]
}

/// One character as it is embedded in a URL: itself, or `%` and two
/// hex digits of its code.
pub open spec fn spec_pct_char(c: char) -> Seq<char> {
    if is_unreserved(c) || c as int >= 128 {
        seq![c]
    } else {
        seq!['%', spec_hex_char(c as int / 16), spec_hex_char(c as int % 16)]
    }
}

/// A whole value percent-escaped.
pub open spec fn spec_pct_encode(s: Seq<char>) -> Seq<char>
    decreases s.len(),
{
    if s.len() == 0 {
        Seq::empty()
    } else {
        spec_pct_char(s[0]) + spec_pct_encode(s.drop_first())
    }
}

/// Escaping distributes over concatenation.
proof fn lemma_pct_encode_concat(s1: Seq<char>, s2: Seq<char>)
    ensures
        spec_pct_encode(s1 + s2) == spec_pct_encode(s1) + spec_pct_encode(s2),
    decreases s1.len(),
{
    if s1.len() == 0 {
        assert(s1 + s2 =~= s2);
        assert(spec_pct_encode(s1) + spec_pct_encode(s2) =~= spec_pct_encode(s2));
    } else {
        assert((s1 + s2)[0] == s1[0]);
        assert((s1 + s2).drop_first() =~= s1.drop_first() + s2);
        lemma_pct_encode_concat(s1.drop_first(), s2);
        assert(spec_pct_char(s1[0]) + (spec_pct_encode(s1.drop_first()) + spec_pct_encode(s2))
            =~= (spec_pct_char(s1[0]) + spec_pct_encode(s1.drop_first())) + spec_pct_encode(s2));
    }
}

/// Escaping one more character appends its escape.
proof fn lemma_pct_encode_take_snoc(s: Seq<char>, i: int)
    requires
        0 <= i < s.len(),
    ensures
        spec_pct_encode(s.take(i + 1)) == spec_pct_encode(s.take(i)) + spec_pct_char(s[i]),
{
    assert(s.take(i + 1) =~= s.take(i) + seq![s[i]]);
    lemma_pct_encode_concat(s.take(i), seq![s[i]]);
    let one = seq![s[i]];
    assert(one[0] == s[i]);
    assert(one.drop_first() =~= Seq::<char>::empty());
    assert(spec_pct_encode(Seq::<char>::empty()) =~= Seq::<char>::empty());
    assert(spec_pct_char(s[i]) + Seq::<char>::empty() =~= spec_pct_char(s[i]));
}

/// Whether `c` goes into a URL unescaped.
fn is_unreserved_char(c: char) -> (r: bool)
    ensures
        r == is_unreserved(c),
{
    let n = c as u32;
    (48 <= n && n <= 57) || (65 <= n && n <= 90) || (97 <= n && n <= 122) || n == 45 || n == 95
        || n == 46 || n == 126
}

/// One hexadecimal digit as a string slice, upper case.
fn hex_str(d: u32) -> (r: &'static str)
    requires
        d < 16,
    ensures
        r@ == seq![spec_hex_char(d as int)],
{
    match d {
        0 => {
            proof {
                reveal_strlit("0");
                assert("0"@ =~= seq![spec_hex_char(0)]);
            }
            "0"
        },
        1 => {
            proof {
                reveal_strlit("1");
                assert("1"@ =~= seq![spec_hex_char(1)]);
            }
            "1"
        },
        2 => {
            proof {
                reveal_strlit("2");
                assert("2"@ =~= seq![spec_hex_char(2)]);
            }
            "2"
        },
        3 => {
            proof {
                reveal_strlit("3");
                assert("3"@ =~= seq![spec_hex_char(3)]);
            }
            "3"
        },
        4 => {
            proof {
                reveal_strlit("4");
                assert("4"@ =~= seq![spec_hex_char(4)]);
            }
            "4"
        },
        5 => {
            proof {
                reveal_strlit("5");
                assert("5"@ =~= seq![spec_hex_char(5)]);
            }
            "5"
        },
        6 => {
            proof {
                reveal_strlit("6");
                assert("6"@ =~= seq![spec_hex_char(6)]);
            }
            "6"
        },
        7 => {
            proof {
                reveal_strlit("7");
                assert("7"@ =~= seq![spec_hex_char(7)]);
            }
            "7"
        },
        8 => {
            proof {
                reveal_strlit("8");
                assert("8"@ =~= seq![spec_hex_char(8)]);
            }
            "8"
        },
        9 => {
            proof {
                reveal_strlit("9");
                assert("9"@ =~= seq![spec_hex_char(9)]);
            }
            "9"
        },
        10 => {
            proof {
                reveal_strlit("A");
                assert("A"@ =~= seq![spec_hex_char(10)]);
            }
            "A"
        },
        11 => {
            proof {
                reveal_strlit("B");
                assert("B"@ =~= seq![spec_hex_char(11)]);
            }
            "B"
        },
        12 => {
            proof {
                reveal_strlit("C");
                assert("C"@ =~= seq![spec_hex_char(12)]);
            }
            "C"
        },
        13 => {
            proof {
                reveal_strlit("D");
                assert("D"@ =~= seq![spec_hex_char(13)]);
            }
            "D"
        },
        14 => {
            proof {
                reveal_strlit("E");
                assert("E"@ =~= seq![spec_hex_char(14)]);
            }
            "E"
        },
        _ => {
            proof {
                reveal_strlit("F");
                assert("F"@ =~= seq![spec_hex_char(15)]);
            }
            "F"
        },
    }
}

/// Percent-escapes a value for embedding in a request path or query.
pub fn percent_encode(s: &str) -> (r: String)
    ensures
        r@ == spec_pct_encode(s@),
{
    let n = s.unicode_len();
    let mut r = String::new();
    let mut i: usize = 0;
    proof {
        assert(s@.take(0) =~= Seq::<char>::empty());
    }
    while i < n
        invariant
            n == s@.len(),
            i <= n,
            r@ == spec_pct_encode(s@.take(i as int)),
        decreases n - i,
    {
        let c = s.get_char(i);
        proof {
            lemma_pct_encode_take_snoc(s@, i as int);
        }
        let code = c as u32;
        if is_unreserved_char(c) || code >= 128 {
            let piece = s.substring_char(i, i + 1);
            r.append(piece);
            proof {
                assert(piece@ =~= seq![s@[i as int]]);
            }
        } else {
            r.append("%");
            let hi = hex_str(code / 16);
            r.append(hi);
            let lo = hex_str(code % 16);
            r.append(lo);
            proof {
                reveal_strlit("%");
                assert("%"@ =~= seq!['%']);
                assert(spec_pct_char(s@[i as int]) == seq![
                    '%',
                    spec_hex_char(code as int / 16),
                    spec_hex_char(code as int % 16),
                ]);
                assert(r@ =~= spec_pct_encode(s@.take(i as int)) + spec_pct_char(s@[i as int]));
            }
        }
        i = i + 1;
    }
    proof {
        assert(s@.take(n as int) =~= s@);
    }
    r
}

/// The base URL with trailing slashes removed.
pub fn trim_trailing_slashes(s: &str) -> (r: String)
    ensures
        r@ == spec_trim_slashes(s@),
{
    let mut end = s.unicode_len();
    proof {
        assert(s@.take(end as int) =~= s@);
    }
    while end > 0 && s.get_char(end - 1) == '/'
        invariant
            end <= s@.len(),
            spec_trim_slashes(s@) == spec_trim_slashes(s@.take(end as int)),
        decreases end,
    {
        proof {
            let t = s@.take(end as int);
            assert(t.last() == s@[end as int - 1]);
            assert(t.drop_last() =~= s@.take(end as int - 1));
        }
        end = end - 1;
    }
    let piece = s.substring_char(0, end);
    proof {
        let t = s@.take(end as int);
        if end > 0 {
            assert(t.last() == s@[end as int - 1]);
        }
        assert(spec_trim_slashes(t) == t);
        assert(piece@ =~= t);
    }
    String::from_str(piece)
}

/// The request string that asks the remote service to probe every
/// member of `group_name` against `test_url` within `timeout_ms`.
pub open spec fn spec_delay_test_url(
    api: Seq<char>,
    group: Seq<char>,
    test_url: Seq<char>,
    timeout_ms: u64,
) -> Seq<char> {
    spec_trim_slashes(api) + "/group/"@ + spec_pct_encode(group) + "/delay?url="@
        + spec_pct_encode(test_url) + "&timeout="@ + dec_digits(timeout_ms as nat)
}

/// Builds the delay-test request string.
pub fn build_delay_test_url(
    api_url: &str,
    group_name: &str,
    test_url: &str,
    timeout_ms: u64,
) -> (r: String)
    ensures
        r@ == spec_delay_test_url(api_url@, group_name@, test_url@, timeout_ms),
{
    let mut r = trim_trailing_slashes(api_url);
    r.append("/group/");
    let g = percent_encode(group_name);
    r.append(g.as_str());
    r.append("/delay?url=");
    let t = percent_encode(test_url);
    r.append(t.as_str());
    r.append("&timeout=");
    let ms = u64_to_string(timeout_ms);
    r.append(ms.as_str());
    proof {
        assert(r@ =~= spec_delay_test_url(api_url@, group_name@, test_url@, timeout_ms));
    }
    r
}

/// The request string that fetches the whole topology snapshot.
pub open spec fn spec_proxies_url(api: Seq<char>) -> Seq<char> {
    spec_trim_slashes(api) + "/proxies"@
}

/// Builds the topology-fetch request string.
pub fn build_proxies_url(api_url: &str) -> (r: String)
    ensures
        r@ == spec_proxies_url(api_url@),
{
    let mut r = trim_trailing_slashes(api_url);
    r.append("/proxies");
    r
}

/// The bearer credential header value: present exactly when the
/// configured secret is non-empty.
pub fn bearer_token(api_secret: &str) -> (r: Option<String>)
    ensures
        match r {
            Some(t) => api_secret@.len() > 0 && t@ == "Bearer "@ + api_secret@,
            None => api_secret@.len() == 0,
        },
{
    if api_secret.unicode_len() == 0 {
        None
    } else {
        let mut s = String::from_str("Bearer ");
        s.append(api_secret);
        Some(s)
    }
}

} // verus!
