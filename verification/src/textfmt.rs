//! The Prometheus text exposition rendering of the registry: one gauge,
//! one line per sample, label values escaped as the format demands.

use vstd::prelude::*;
use crate::numfmt::{dec_digits, is_digit, spec_parse_dec, u64_to_string,
    lemma_dec_digits_read_back};
use crate::registry::{DelayRegistry, SampleSeq};

verus! {

/// One character as it appears inside a quoted label value: backslash,
/// quote and newline are escaped, everything else is itself.
pub open spec fn spec_escape_char(c: char) -> Seq<char> {
    if c == '\\' {
        seq!['\\', '\\']
    } else if c == '"' {
        seq!['\\', '"']
    } else if c == '\n' {
        seq!['\\', 'n']
    } else {
        seq![c]
    }
}

/// A whole label value escaped.
pub open spec fn spec_escape(s: Seq<char>) -> Seq<char>
    decreases s.len(),
{
    if s.len() == 0 {
        Seq::empty()
    } else {
        spec_escape_char(s[0]) + spec_escape(s.drop_first())
    }
}

/// What a text-format reader makes of an escaped label value; `None`
/// for a dangling or unknown escape.
pub open spec fn spec_unescape(s: Seq<char>) -> Option<Seq<char>>
    decreases s.len(),
{
    if s.len() == 0 {
        Some(Seq::empty())
    } else if s[0] == '\\' {
        if s.len() < 2 {
            None
        } else {
            let c = if s[1] == '\\' {
                Some('\\')
            } else if s[1] == '"' {
                Some('"')
            } else if s[1] == 'n' {
                Some('\n')
            } else {
                None
            };
            match c {
                Some(ch) => match spec_unescape(s.skip(2)) {
                    Some(t) => Some(seq![ch] + t),
                    None => None,
                },
                None => None,
            }
        }
    } else {
        match spec_unescape(s.drop_first()) {
            Some(t) => Some(seq![s[0]] + t),
            None => None,
        }
    }
}

/// Law: escaping loses nothing — a reader of the escaped label value
/// recovers exactly the original value.
pub proof fn lemma_escape_round_trip(s: Seq<char>)
    ensures
        spec_unescape(spec_escape(s)) == Some(s),
    decreases s.len(),
{
    if s.len() == 0 {
    } else {
        let c = s[0];
        let rest = s.drop_first();
        lemma_escape_round_trip(rest);
        let esc = spec_escape_char(c);
        let e = spec_escape(s);
        assert(e == esc + spec_escape(rest));
        if c == '\\' || c == '"' || c == '\n' {
            assert(esc.len() == 2);
            assert(e[0] == esc[0]);
            assert(e[1] == esc[1]);
            assert(e[0] == '\\');
            assert(e.skip(2) =~= spec_escape(rest));
            assert(seq![c] + rest =~= s);
        } else {
            assert(esc.len() == 1);
            assert(e[0] == esc[0]);
            assert(e[0] == c);
            assert(e.drop_first() =~= spec_escape(rest));
            assert(seq![c] + rest =~= s);
        }
    }
}

/// Escaping distributes over concatenation.
proof fn lemma_escape_concat(s1: Seq<char>, s2: Seq<char>)
    ensures
        spec_escape(s1 + s2) == spec_escape(s1) + spec_escape(s2),
    decreases s1.len(),
{
    if s1.len() == 0 {
        assert(s1 + s2 =~= s2);
        assert(spec_escape(s1) + spec_escape(s2) =~= spec_escape(s2));
    } else {
        assert((s1 + s2)[0] == s1[0]);
        assert((s1 + s2).drop_first() =~= s1.drop_first() + s2);
        lemma_escape_concat(s1.drop_first(), s2);
        assert(spec_escape_char(s1[0]) + (spec_escape(s1.drop_first()) + spec_escape(s2))
            =~= (spec_escape_char(s1[0]) + spec_escape(s1.drop_first())) + spec_escape(s2));
    }
}

/// Escaping one more character appends its escape.
proof fn lemma_escape_take_snoc(s: Seq<char>, i: int)
    requires
        0 <= i < s.len(),
    ensures
        spec_escape(s.take(i + 1)) == spec_escape(s.take(i)) + spec_escape_char(s[i]),
{
    assert(s.take(i + 1) =~= s.take(i) + seq![s[i]]);
    lemma_escape_concat(s.take(i), seq![s[i]]);
    let one = seq![s[i]];
    assert(one[0] == s[i]);
    assert(one.drop_first() =~= Seq::<char>::empty());
    assert(spec_escape(Seq::<char>::empty()) =~= Seq::<char>::empty());
    assert(spec_escape_char(s[i]) + Seq::<char>::empty() =~= spec_escape_char(s[i]));
}

/// Escapes a label value for the text exposition format.
pub fn escape_label_value(s: &str) -> (r: String)
    ensures
        r@ == spec_escape(s@),
{
    let n = s.unicode_len();
    let mut r = String::new();
    let mut i: usize = 0;
    proof {
        assert(s@.take(0) =~= Seq::<char>::empty());
    }
    while i < n
        invariant
            n == s@.len(),
            i <= n,
            r@ == spec_escape(s@.take(i as int)),
        decreases n - i,
    {
        let c = s.get_char(i);
        proof {
            lemma_escape_take_snoc(s@, i as int);
        }
        if c == '\\' {
            r.append("\\\\");
            proof {
                reveal_strlit("\\\\");
                assert("\\\\"@ =~= seq!['\\', '\\']);
            }
        } else if c == '"' {
            r.append("\\\"");
            proof {
                reveal_strlit("\\\"");
                assert("\\\""@ =~= seq!['\\', '"']);
            }
        } else if c == '\n' {
            r.append("\\n");
            proof {
                reveal_strlit("\\n");
                assert("\\n"@ =~= seq!['\\', 'n']);
            }
        } else {
            let piece = s.substring_char(i, i + 1);
            r.append(piece);
            proof {
                assert(piece@ =~= seq![s@[i as int]]);
            }
        }
        i = i + 1;
    }
    proof {
        assert(s@.take(n as int) =~= s@);
    }
    r
}

/// One sample's line: the gauge name, both labels escaped and quoted,
/// and the value in decimal.
pub open spec fn spec_sample_line(g: Seq<char>, p: Seq<char>, d: u32) -> Seq<char> {
    "proxy_delay_ms{group_name=\""@ + spec_escape(g) + "\",proxy_name=\""@ + spec_escape(p)
        + "\"} "@ + dec_digits(d as nat) + "\n"@
}

/// The sample lines in registry order.
pub open spec fn spec_render_samples(s: SampleSeq) -> Seq<char>
    decreases s.len(),
{
    if s.len() == 0 {
        Seq::empty()
    } else {
        spec_sample_line(s[0].0, s[0].1, s[0].2) + spec_render_samples(s.drop_first())
    }
}

/// The whole scrape body: the HELP and TYPE comments, then one line
/// per sample.
pub open spec fn spec_render(s: SampleSeq) -> Seq<char> {
    "# HELP proxy_delay_ms Proxy delay in milliseconds\n"@
        + "# TYPE proxy_delay_ms gauge\n"@ + spec_render_samples(s)
}

/// One more sample appends its line.
proof fn lemma_render_samples_take_snoc(s: SampleSeq, i: int)
    requires
        0 <= i < s.len(),
    ensures
        spec_render_samples(s.take(i + 1)) == spec_render_samples(s.take(i)) + spec_sample_line(
            s[i].0,
            s[i].1,
            s[i].2,
        ),
    decreases i,
{
    if i == 0 {
        let one = s.take(1);
        assert(one[0] == s[0]);
        assert(one.drop_first() =~= Seq::<(Seq<char>, Seq<char>, u32)>::empty());
        assert(spec_render_samples(Seq::<(Seq<char>, Seq<char>, u32)>::empty())
            =~= Seq::<char>::empty());
        assert(spec_render_samples(s.take(0)) =~= Seq::<char>::empty());
        assert(Seq::<char>::empty() + spec_sample_line(s[0].0, s[0].1, s[0].2)
            =~= spec_sample_line(s[0].0, s[0].1, s[0].2));
        assert(spec_sample_line(s[0].0, s[0].1, s[0].2) + Seq::<char>::empty()
            =~= spec_sample_line(s[0].0, s[0].1, s[0].2));
    } else {
        let t = s.drop_first();
        assert(t[i - 1] == s[i]);
        assert(t.take(i - 1) =~= s.take(i).drop_first());
        assert(t.take(i) =~= s.take(i + 1).drop_first());
        assert(s.take(i + 1)[0] == s[0]);
        assert(s.take(i)[0] == s[0]);
        lemma_render_samples_take_snoc(t, i - 1);
        assert(spec_sample_line(s[0].0, s[0].1, s[0].2) + (spec_render_samples(t.take(i - 1))
            + spec_sample_line(s[i].0, s[i].1, s[i].2)) =~= (spec_sample_line(
            s[0].0,
            s[0].1,
            s[0].2,
        ) + spec_render_samples(t.take(i - 1))) + spec_sample_line(s[i].0, s[i].1, s[i].2));
    }
}

/// `rest` after the prefix `p`, when `s` starts with `p`.
pub open spec fn spec_strip_prefix(s: Seq<char>, p: Seq<char>) -> Option<Seq<char>> {
    if s.len() >= p.len() && s.take(p.len() as int) == p {
        Some(s.skip(p.len() as int))
    } else {
        None
    }
}

proof fn lemma_strip_prefix_concat(p: Seq<char>, rest: Seq<char>)
    ensures
        spec_strip_prefix(p + rest, p) == Some(rest),
{
    assert((p + rest).take(p.len() as int) =~= p);
    assert((p + rest).skip(p.len() as int) =~= rest);
}

/// Reads a quoted label value up to its unescaped closing quote,
/// returning the still-escaped value and what follows the quote.
pub open spec fn spec_scan_label(s: Seq<char>) -> Option<(Seq<char>, Seq<char>)>
    decreases s.len(),
{
    if s.len() == 0 {
        None
    } else if s[0] == '"' {
        Some((Seq::empty(), s.drop_first()))
    } else if s[0] == '\\' {
        if s.len() < 2 {
            None
        } else {
            match spec_scan_label(s.skip(2)) {
                Some((v, rest)) => Some((seq![s[0], s[1]] + v, rest)),
                None => None,
            }
        }
    } else {
        match spec_scan_label(s.drop_first()) {
            Some((v, rest)) => Some((seq![s[0]] + v, rest)),
            None => None,
        }
    }
}

/// The scanner stops exactly at the quote that closes an escaped value.
proof fn lemma_scan_escaped(g: Seq<char>, rest: Seq<char>)
    ensures
        spec_scan_label(spec_escape(g) + (seq!['"'] + rest)) == Some((spec_escape(g), rest)),
    decreases g.len(),
{
    if g.len() == 0 {
        let s = spec_escape(g) + (seq!['"'] + rest);
        assert(s =~= seq!['"'] + rest);
        assert(s[0] == '"');
        assert(s.drop_first() =~= rest);
        assert(spec_escape(g) =~= Seq::<char>::empty());
    } else {
        let c = g[0];
        let tail = g.drop_first();
        let ec = spec_escape_char(c);
        let s_tail = spec_escape(tail) + (seq!['"'] + rest);
        let s = spec_escape(g) + (seq!['"'] + rest);
        assert(spec_escape(g) == ec + spec_escape(tail));
        assert(s =~= ec + s_tail);
        lemma_scan_escaped(tail, rest);
        if c == '\\' || c == '"' || c == '\n' {
            assert(ec.len() == 2);
            assert(s[0] == ec[0]);
            assert(s[1] == ec[1]);
            assert(s[0] == '\\');
            assert(s.skip(2) =~= s_tail);
            assert(seq![s[0], s[1]] + spec_escape(tail) =~= spec_escape(g));
        } else {
            assert(ec.len() == 1);
            assert(s[0] == ec[0]);
            assert(s[0] == c);
            assert(s[0] != '"' && s[0] != '\\');
            assert(s.drop_first() =~= s_tail);
            assert(seq![s[0]] + spec_escape(tail) =~= spec_escape(g));
        }
    }
}

/// Reads one sample line as a scraper would: the gauge name, the two
/// quoted labels unescaped, the decimal value; returns the triple and
/// what follows the line.
pub open spec fn spec_parse_line(s: Seq<char>) -> Option<((Seq<char>, Seq<char>, u32), Seq<char>)> {
    match spec_strip_prefix(s, "proxy_delay_ms{group_name=\""@) {
        Some(s1) => match spec_scan_label(s1) {
            Some((eg, s2)) => match spec_unescape(eg) {
                Some(g) => match spec_strip_prefix(s2, ",proxy_name=\""@) {
                    Some(s3) => match spec_scan_label(s3) {
                        Some((ep, s4)) => match spec_unescape(ep) {
                            Some(p) => match spec_strip_prefix(s4, "} "@) {
                                Some(s5) => {
                                    let (v, s6) = spec_parse_dec(s5, 0);
                                    match spec_strip_prefix(s6, "\n"@) {
                                        Some(s7) => if v <= u32::MAX as nat {
                                            Some(((g, p, v as u32), s7))
                                        } else {
                                            None
                                        },
                                        None => None,
                                    }
                                },
                                None => None,
                            },
                            None => None,
                        },
                        None => None,
                    },
                    None => None,
                },
                None => None,
            },
            None => None,
        },
        None => None,
    }
}

/// A rendered sample line reads back as exactly its triple.
proof fn lemma_parse_line(g: Seq<char>, p: Seq<char>, d: u32, rest: Seq<char>)
    ensures
        spec_parse_line(spec_sample_line(g, p, d) + rest) == Some(((g, p, d), rest)),
{
    let l1 = "proxy_delay_ms{group_name=\""@;
    let l2 = "\",proxy_name=\""@;
    let l3 = "\"} "@;
    let nl = "\n"@;
    let eg = spec_escape(g);
    let ep = spec_escape(p);
    let dd = dec_digits(d as nat);
    let s = spec_sample_line(g, p, d) + rest;
    reveal_strlit("proxy_delay_ms{group_name=\"");
    reveal_strlit("\",proxy_name=\"");
    reveal_strlit(",proxy_name=\"");
    reveal_strlit("\"} ");
    reveal_strlit("} ");
    reveal_strlit("\n");
    let t1 = eg + (seq!['"'] + (",proxy_name=\""@ + (ep + (seq!['"'] + ("} "@ + (dd + (nl
        + rest)))))));
    assert(l2 =~= seq!['"'] + ",proxy_name=\""@);
    assert(l3 =~= seq!['"'] + "} "@);
    assert(s =~= l1 + t1);
    lemma_strip_prefix_concat(l1, t1);
    let t2 = ",proxy_name=\""@ + (ep + (seq!['"'] + ("} "@ + (dd + (nl + rest)))));
    assert(t1 =~= eg + (seq!['"'] + t2));
    lemma_scan_escaped(g, t2);
    assert(spec_scan_label(t1) == Some((eg, t2)));
    lemma_escape_round_trip(g);
    let t3 = ep + (seq!['"'] + ("} "@ + (dd + (nl + rest))));
    lemma_strip_prefix_concat(",proxy_name=\""@, t3);
    assert(t2 =~= ",proxy_name=\""@ + t3);
    let t4 = "} "@ + (dd + (nl + rest));
    assert(t3 =~= ep + (seq!['"'] + t4));
    lemma_scan_escaped(p, t4);
    assert(spec_scan_label(t3) == Some((ep, t4)));
    lemma_escape_round_trip(p);
    let t5 = dd + (nl + rest);
    lemma_strip_prefix_concat("} "@, t5);
    assert(t4 =~= "} "@ + t5);
    assert((nl + rest).len() > 0 && !is_digit((nl + rest)[0])) by {
        assert((nl + rest)[0] == '\n');
    }
    lemma_dec_digits_read_back(d as nat, nl + rest);
    assert(spec_parse_dec(t5, 0) == ((d as nat), nl + rest));
    lemma_strip_prefix_concat(nl, rest);
    assert(d as nat <= u32::MAX as nat);
    assert((d as nat) as u32 == d);
}

/// Reads sample lines to the end of the body.
pub open spec fn spec_parse_lines(s: Seq<char>) -> Option<SampleSeq>
    decreases s.len(),
{
    if s.len() == 0 {
        Some(Seq::empty())
    } else {
        match spec_parse_line(s) {
            Some((t, rest)) => if rest.len() < s.len() {
                match spec_parse_lines(rest) {
                    Some(ts) => Some(seq![t] + ts),
                    None => None,
                }
            } else {
                None
            },
            None => None,
        }
    }
}

/// Rendered sample lines read back as exactly the rendered samples.
proof fn lemma_parse_lines_read_back(s: SampleSeq)
    ensures
        spec_parse_lines(spec_render_samples(s)) == Some(s),
    decreases s.len(),
{
    if s.len() == 0 {
    } else {
        let line = spec_sample_line(s[0].0, s[0].1, s[0].2);
        let rest = spec_render_samples(s.drop_first());
        assert(spec_render_samples(s) == line + rest);
        lemma_parse_line(s[0].0, s[0].1, s[0].2, rest);
        assert((s[0].0, s[0].1, s[0].2) == s[0]);
        reveal_strlit("proxy_delay_ms{group_name=\"");
        assert(line.len() >= "proxy_delay_ms{group_name=\""@.len()) by {
            assert(line =~= "proxy_delay_ms{group_name=\""@ + (spec_escape(s[0].0)
                + ("\",proxy_name=\""@ + (spec_escape(s[0].1) + ("\"} "@ + (dec_digits(
                s[0].2 as nat,
            ) + "\n"@))))));
        }
        assert(rest.len() < (line + rest).len());
        lemma_parse_lines_read_back(s.drop_first());
        assert(seq![s[0]] + s.drop_first() =~= s);
    }
}

/// Reads a whole scrape body: the two comment lines, then the samples.
pub open spec fn spec_parse_body(s: Seq<char>) -> Option<SampleSeq> {
    match spec_strip_prefix(s, "# HELP proxy_delay_ms Proxy delay in milliseconds\n"@) {
        Some(s1) => match spec_strip_prefix(s1, "# TYPE proxy_delay_ms gauge\n"@) {
            Some(s2) => spec_parse_lines(s2),
            None => None,
        },
        None => None,
    }
}

/// Law: a rendered scrape body, read back by a reader of the text
/// exposition format, reproduces exactly the samples it was rendered
/// from — keys, order and values.
pub proof fn lemma_render_read_back(s: SampleSeq)
    ensures
        spec_parse_body(spec_render(s)) == Some(s),
{
    let h1 = "# HELP proxy_delay_ms Proxy delay in milliseconds\n"@;
    let h2 = "# TYPE proxy_delay_ms gauge\n"@;
    let lines = spec_render_samples(s);
    assert(spec_render(s) =~= h1 + (h2 + lines));
    lemma_strip_prefix_concat(h1, h2 + lines);
    lemma_strip_prefix_concat(h2, lines);
    lemma_parse_lines_read_back(s);
}

/// Renders the registry in the text exposition format.
pub fn render_metrics(registry: &DelayRegistry) -> (r: String)
    ensures
        r@ == spec_render(registry@),
{
    let mut r = String::from_str("# HELP proxy_delay_ms Proxy delay in milliseconds\n");
    r.append("# TYPE proxy_delay_ms gauge\n");
    let n = registry.len();
    let mut i: usize = 0;
    proof {
        assert(registry@.take(0) =~= Seq::<(Seq<char>, Seq<char>, u32)>::empty());
        assert(spec_render_samples(Seq::<(Seq<char>, Seq<char>, u32)>::empty())
            =~= Seq::<char>::empty());
        assert(r@ =~= "# HELP proxy_delay_ms Proxy delay in milliseconds\n"@
            + "# TYPE proxy_delay_ms gauge\n"@ + spec_render_samples(registry@.take(0)));
    }
    while i < n
        invariant
            n == registry@.len(),
            i <= n,
            r@ == "# HELP proxy_delay_ms Proxy delay in milliseconds\n"@
                + "# TYPE proxy_delay_ms gauge\n"@ + spec_render_samples(
                registry@.take(i as int),
            ),
        decreases n - i,
    {
        let sample = registry.sample_at(i);
        r.append("proxy_delay_ms{group_name=\"");
        let eg = escape_label_value(sample.group_name.as_str());
        r.append(eg.as_str());
        r.append("\",proxy_name=\"");
        let ep = escape_label_value(sample.proxy_name.as_str());
        r.append(ep.as_str());
        r.append("\"} ");
        let ds = u64_to_string(sample.delay_ms as u64);
        r.append(ds.as_str());
        r.append("\n");
        proof {
            lemma_render_samples_take_snoc(registry@, i as int);
            assert((sample.group_name@, sample.proxy_name@, sample.delay_ms)
                == registry@[i as int]);
            assert(r@ =~= "# HELP proxy_delay_ms Proxy delay in milliseconds\n"@
                + "# TYPE proxy_delay_ms gauge\n"@ + spec_render_samples(
                registry@.take(i as int + 1),
            ));
        }
        i = i + 1;
    }
    proof {
        assert(registry@.take(n as int) =~= registry@);
    }
    r
}

} // verus!
