//! The metric registry: a flat set of (group, proxy) -> delay samples
//! with last-write-wins overwrite semantics, and the lemmas that pin
//! down how a sequence of writes changes it.

use vstd::prelude::*;
use crate::model::str_eq;

verus! {

/// One exported sample: logical key (group_name, proxy_name), value the
/// latest known delay in milliseconds (0 is the no-data sentinel).
pub struct MetricSample {
    pub group_name: String,
    pub proxy_name: String,
    pub delay_ms: u32,
}

/// A registry's mathematical content: one triple per sample, in the
/// order the keys were first written.
pub type SampleSeq = Seq<(Seq<char>, Seq<char>, u32)>;

/// The key part of each triple, in order.
pub open spec fn keys_of(s: SampleSeq) -> Seq<(Seq<char>, Seq<char>)> {
    Seq::new(s.len(), |i: int| (s[i].0, s[i].1))
}

/// No two samples share a key.
pub open spec fn keys_distinct(s: SampleSeq) -> bool {
    forall|i: int, j: int| 0 <= i < j < s.len() ==> keys_of(s)[i] != keys_of(s)[j]
}

/// The value filed under (g, p): the first (with distinct keys, the
/// only) matching triple's delay.
pub open spec fn lookup(s: SampleSeq, g: Seq<char>, p: Seq<char>) -> Option<u32>
    decreases s.len(),
{
    if s.len() == 0 {
        None
    } else if s[0].0 == g && s[0].1 == p {
        Some(s[0].2)
    } else {
        lookup(s.drop_first(), g, p)
    }
}

/// One overwrite: replace the value under (g, p) in place, or append
/// the sample when the key is new.
pub open spec fn spec_set(s: SampleSeq, g: Seq<char>, p: Seq<char>, d: u32) -> SampleSeq
    decreases s.len(),
{
    if s.len() == 0 {
        seq![(g, p, d)]
    } else if s[0].0 == g && s[0].1 == p {
        seq![(g, p, d)] + s.drop_first()
    } else {
        seq![s[0]] + spec_set(s.drop_first(), g, p, d)
    }
}

/// A whole sequence of overwrites, applied first to last.
pub open spec fn apply_writes(s: SampleSeq, ws: SampleSeq) -> SampleSeq
    decreases ws.len(),
{
    if ws.len() == 0 {
        s
    } else {
        apply_writes(spec_set(s, ws[0].0, ws[0].1, ws[0].2), ws.drop_first())
    }
}

/// The value the last write to (g, p) in `ws` carries, if any write
/// touches that key.
pub open spec fn last_write(ws: SampleSeq, g: Seq<char>, p: Seq<char>) -> Option<u32>
    decreases ws.len(),
{
    if ws.len() == 0 {
        None
    } else {
        match last_write(ws.drop_first(), g, p) {
            Some(v) => Some(v),
            None => if ws[0].0 == g && ws[0].1 == p {
                Some(ws[0].2)
            } else {
                None
            },
        }
    }
}

/// After one overwrite, (g, p) holds the written value and every other
/// key is untouched.
pub proof fn lemma_set_lookup(
    s: SampleSeq,
    g: Seq<char>,
    p: Seq<char>,
    d: u32,
    g2: Seq<char>,
    p2: Seq<char>,
)
    ensures
        lookup(spec_set(s, g, p, d), g2, p2) == if g2 == g && p2 == p {
            Some(d)
        } else {
            lookup(s, g2, p2)
        },
    decreases s.len(),
{
    if s.len() == 0 {
        let s2 = seq![(g, p, d)];
        assert(s2[0] == (g, p, d));
        assert(s2.drop_first() =~= Seq::<(Seq<char>, Seq<char>, u32)>::empty());
        if g2 == g && p2 == p {
            assert(lookup(s2, g2, p2) == Some(d));
        } else {
            assert(lookup(Seq::<(Seq<char>, Seq<char>, u32)>::empty(), g2, p2) is None);
            assert(lookup(s2, g2, p2) is None);
        }
    } else if s[0].0 == g && s[0].1 == p {
        let s2 = seq![(g, p, d)] + s.drop_first();
        assert(s2[0] == (g, p, d));
        assert(s2.drop_first() =~= s.drop_first());
        if g2 == g && p2 == p {
            assert(lookup(s2, g2, p2) == Some(d));
        } else {
            assert(lookup(s2, g2, p2) == lookup(s.drop_first(), g2, p2));
            assert(!(s[0].0 == g2 && s[0].1 == p2));
            assert(lookup(s, g2, p2) == lookup(s.drop_first(), g2, p2));
        }
    } else {
        let x = spec_set(s.drop_first(), g, p, d);
        let s2 = seq![s[0]] + x;
        lemma_set_lookup(s.drop_first(), g, p, d, g2, p2);
        assert(s2[0] == s[0]);
        assert(s2.drop_first() =~= x);
        if s[0].0 == g2 && s[0].1 == p2 {
            assert(lookup(s2, g2, p2) == Some(s[0].2));
            assert(!(g2 == g && p2 == p));
            assert(lookup(s, g2, p2) == Some(s[0].2));
        } else {
            assert(lookup(s2, g2, p2) == lookup(x, g2, p2));
            assert(lookup(s, g2, p2) == lookup(s.drop_first(), g2, p2));
        }
    }
}

/// One overwrite keeps the key order; a new key is appended at the end.
pub proof fn lemma_set_keys(s: SampleSeq, g: Seq<char>, p: Seq<char>, d: u32)
    ensures
        keys_of(spec_set(s, g, p, d)) == if lookup(s, g, p) is Some {
            keys_of(s)
        } else {
            keys_of(s).push((g, p))
        },
    decreases s.len(),
{
    if s.len() == 0 {
        let s2 = seq![(g, p, d)];
        assert(s2[0] == (g, p, d));
        assert(keys_of(s2) =~= keys_of(s).push((g, p)));
    } else if s[0].0 == g && s[0].1 == p {
        let s2 = seq![(g, p, d)] + s.drop_first();
        assert(lookup(s, g, p) == Some(s[0].2));
        assert forall|k: int| 0 <= k < s2.len() implies keys_of(s2)[k] == keys_of(s)[k] by {
            if k == 0 {
                assert(s2[0] == (g, p, d));
            } else {
                assert(s2[k] == s.drop_first()[k - 1]);
                assert(s.drop_first()[k - 1] == s[k]);
            }
        }
        assert(keys_of(s2) =~= keys_of(s));
    } else {
        let x = spec_set(s.drop_first(), g, p, d);
        let s2 = seq![s[0]] + x;
        lemma_set_keys(s.drop_first(), g, p, d);
        assert(lookup(s, g, p) == lookup(s.drop_first(), g, p));
        if lookup(s.drop_first(), g, p) is Some {
            assert(keys_of(x) == keys_of(s.drop_first()));
            assert forall|k: int| 0 <= k < s2.len() implies keys_of(s2)[k] == keys_of(s)[k] by {
                if k == 0 {
                    assert(s2[0] == s[0]);
                } else {
                    assert(s2[k] == x[k - 1]);
                    assert(keys_of(x)[k - 1] == (x[k - 1].0, x[k - 1].1));
                    assert(keys_of(s.drop_first())[k - 1]
                        == (s.drop_first()[k - 1].0, s.drop_first()[k - 1].1));
                    assert(s.drop_first()[k - 1] == s[k]);
                }
            }
            assert(keys_of(s2) =~= keys_of(s));
        } else {
            assert(keys_of(x) == keys_of(s.drop_first()).push((g, p)));
            let goal = keys_of(s).push((g, p));
            assert forall|k: int| 0 <= k < s2.len() implies keys_of(s2)[k] == goal[k] by {
                if k == 0 {
                    assert(s2[0] == s[0]);
                } else {
                    assert(s2[k] == x[k - 1]);
                    assert(keys_of(x)[k - 1] == (x[k - 1].0, x[k - 1].1));
                    if k < s.len() {
                        assert(keys_of(x)[k - 1] == keys_of(s.drop_first())[k - 1]);
                        assert(s.drop_first()[k - 1] == s[k]);
                    } else {
                        assert(keys_of(x)[k - 1] == (g, p));
                    }
                }
            }
            assert(keys_of(s2) =~= goal);
        }
    }
}

/// A key is absent exactly when no triple carries it.
pub proof fn lemma_lookup_none_iff(s: SampleSeq, g: Seq<char>, p: Seq<char>)
    ensures
        lookup(s, g, p) is None <==> (forall|i: int|
            0 <= i < s.len() ==> !(s[i].0 == g && s[i].1 == p)),
    decreases s.len(),
{
    if s.len() > 0 {
        lemma_lookup_none_iff(s.drop_first(), g, p);
        if lookup(s, g, p) is None {
            assert(!(s[0].0 == g && s[0].1 == p));
            assert(lookup(s.drop_first(), g, p) is None);
            assert forall|i: int| 0 <= i < s.len() implies !(s[i].0 == g && s[i].1 == p) by {
                if i > 0 {
                    assert(s.drop_first()[i - 1] == s[i]);
                }
            }
        } else {
            if s[0].0 == g && s[0].1 == p {
            } else {
                assert(lookup(s.drop_first(), g, p) is Some);
                let i = choose|i: int|
                    0 <= i < s.drop_first().len()
                        && (s.drop_first()[i].0 == g && s.drop_first()[i].1 == p);
                assert(s[i + 1] == s.drop_first()[i]);
            }
        }
    }
}

/// With distinct keys, each triple is what its own key looks up.
pub proof fn lemma_lookup_at_index(s: SampleSeq, i: int)
    requires
        keys_distinct(s),
        0 <= i < s.len(),
    ensures
        lookup(s, s[i].0, s[i].1) == Some(s[i].2),
    decreases s.len(),
{
    if i == 0 {
    } else {
        assert(keys_of(s)[0] != keys_of(s)[i]);
        assert(keys_of(s)[0] == (s[0].0, s[0].1));
        assert(keys_of(s)[i] == (s[i].0, s[i].1));
        assert(!(s[0].0 == s[i].0 && s[0].1 == s[i].1));
        let t = s.drop_first();
        assert forall|a: int, b: int| 0 <= a < b < t.len() implies keys_of(t)[a] != keys_of(t)[b] by {
            assert(t[a] == s[a + 1]);
            assert(t[b] == s[b + 1]);
            assert(keys_of(s)[a + 1] != keys_of(s)[b + 1]);
        }
        assert(t[i - 1] == s[i]);
        lemma_lookup_at_index(t, i - 1);
    }
}

/// One overwrite keeps the keys distinct.
pub proof fn lemma_set_keys_distinct(s: SampleSeq, g: Seq<char>, p: Seq<char>, d: u32)
    requires
        keys_distinct(s),
    ensures
        keys_distinct(spec_set(s, g, p, d)),
{
    let s2 = spec_set(s, g, p, d);
    lemma_set_keys(s, g, p, d);
    if lookup(s, g, p) is Some {
        assert(keys_of(s2) == keys_of(s));
    } else {
        lemma_lookup_none_iff(s, g, p);
        assert(keys_of(s2) == keys_of(s).push((g, p)));
        assert forall|i: int, j: int|
            0 <= i < j < s2.len() implies keys_of(s2)[i] != keys_of(s2)[j] by {
            assert(s2.len() == keys_of(s2).len());
            if j < s.len() {
                assert(keys_of(s2)[i] == keys_of(s)[i]);
                assert(keys_of(s2)[j] == keys_of(s)[j]);
            } else {
                assert(keys_of(s2)[j] == (g, p));
                assert(keys_of(s2)[i] == keys_of(s)[i]);
                assert(keys_of(s)[i] == (s[i].0, s[i].1));
                assert(!(s[i].0 == g && s[i].1 == p));
            }
        }
    }
}

/// Applying writes one after another equals applying the concatenation.
pub proof fn lemma_apply_writes_concat(s: SampleSeq, ws1: SampleSeq, ws2: SampleSeq)
    ensures
        apply_writes(s, ws1 + ws2) == apply_writes(apply_writes(s, ws1), ws2),
    decreases ws1.len(),
{
    if ws1.len() == 0 {
        assert(ws1 + ws2 =~= ws2);
    } else {
        let w = (ws1 + ws2)[0];
        assert(w == ws1[0]);
        let s2 = spec_set(s, ws1[0].0, ws1[0].1, ws1[0].2);
        assert((ws1 + ws2).drop_first() =~= ws1.drop_first() + ws2);
        lemma_apply_writes_concat(s2, ws1.drop_first(), ws2);
    }
}

/// After a write sequence, each key touched by it holds the value of
/// its last write, and every other key is untouched.
pub proof fn lemma_apply_writes_lookup(s: SampleSeq, ws: SampleSeq, g: Seq<char>, p: Seq<char>)
    ensures
        lookup(apply_writes(s, ws), g, p) == match last_write(ws, g, p) {
            Some(v) => Some(v),
            None => lookup(s, g, p),
        },
    decreases ws.len(),
{
    if ws.len() > 0 {
        let s2 = spec_set(s, ws[0].0, ws[0].1, ws[0].2);
        lemma_apply_writes_lookup(s2, ws.drop_first(), g, p);
        lemma_set_lookup(s, ws[0].0, ws[0].1, ws[0].2, g, p);
    }
}

/// When every written key is already present, a write sequence keeps
/// the key order unchanged.
pub proof fn lemma_apply_writes_keys_present(s: SampleSeq, ws: SampleSeq)
    requires
        forall|k: int| 0 <= k < ws.len() ==> #[trigger] lookup(s, ws[k].0, ws[k].1) is Some,
    ensures
        keys_of(apply_writes(s, ws)) == keys_of(s),
    decreases ws.len(),
{
    if ws.len() > 0 {
        let s2 = spec_set(s, ws[0].0, ws[0].1, ws[0].2);
        assert(lookup(s, ws[0].0, ws[0].1) is Some);
        lemma_set_keys(s, ws[0].0, ws[0].1, ws[0].2);
        assert forall|k: int|
            0 <= k < ws.drop_first().len() implies #[trigger] lookup(
            s2,
            ws.drop_first()[k].0,
            ws.drop_first()[k].1,
        ) is Some by {
            assert(ws.drop_first()[k] == ws[k + 1]);
            assert(lookup(s, ws[k + 1].0, ws[k + 1].1) is Some);
            lemma_set_lookup(s, ws[0].0, ws[0].1, ws[0].2, ws[k + 1].0, ws[k + 1].1);
        }
        lemma_apply_writes_keys_present(s2, ws.drop_first());
    }
}

/// A write sequence keeps the keys distinct.
pub proof fn lemma_apply_writes_keys_distinct(s: SampleSeq, ws: SampleSeq)
    requires
        keys_distinct(s),
    ensures
        keys_distinct(apply_writes(s, ws)),
    decreases ws.len(),
{
    if ws.len() > 0 {
        lemma_set_keys_distinct(s, ws[0].0, ws[0].1, ws[0].2);
        lemma_apply_writes_keys_distinct(spec_set(s, ws[0].0, ws[0].1, ws[0].2), ws.drop_first());
    }
}

/// Each write in a sequence leaves its key with a recorded last value.
pub proof fn lemma_last_write_of_member(ws: SampleSeq, i: int)
    requires
        0 <= i < ws.len(),
    ensures
        last_write(ws, ws[i].0, ws[i].1) is Some,
    decreases ws.len(),
{
    if i > 0 {
        assert(ws.drop_first()[i - 1] == ws[i]);
        lemma_last_write_of_member(ws.drop_first(), i - 1);
    }
}

/// Two registries with distinct keys, the same key order and the same
/// value under every key are equal.
pub proof fn lemma_samples_ext(s1: SampleSeq, s2: SampleSeq)
    requires
        keys_distinct(s1),
        keys_distinct(s2),
        keys_of(s1) == keys_of(s2),
        forall|g: Seq<char>, p: Seq<char>| #[trigger] lookup(s1, g, p) == lookup(s2, g, p),
    ensures
        s1 == s2,
{
    assert(keys_of(s1).len() == s1.len());
    assert(keys_of(s2).len() == s2.len());
    assert(s1.len() == s2.len());
    assert forall|i: int| 0 <= i < s1.len() implies s1[i] == s2[i] by {
        assert(keys_of(s1)[i] == (s1[i].0, s1[i].1));
        assert(keys_of(s2)[i] == (s2[i].0, s2[i].1));
        assert(s1[i].0 == s2[i].0 && s1[i].1 == s2[i].1);
        lemma_lookup_at_index(s1, i);
        lemma_lookup_at_index(s2, i);
        assert(lookup(s1, s1[i].0, s1[i].1) == lookup(s2, s1[i].0, s1[i].1));
        assert(s1[i].2 == s2[i].2);
    }
    assert(s1 =~= s2);
}

/// Applying the same write sequence a second time changes nothing:
/// every key is already present with its last-written value.
pub proof fn lemma_apply_writes_idempotent(s: SampleSeq, ws: SampleSeq)
    requires
        keys_distinct(s),
    ensures
        apply_writes(apply_writes(s, ws), ws) == apply_writes(s, ws),
{
    let s1 = apply_writes(s, ws);
    lemma_apply_writes_keys_distinct(s, ws);
    assert forall|k: int|
        0 <= k < ws.len() implies #[trigger] lookup(s1, ws[k].0, ws[k].1) is Some by {
        lemma_last_write_of_member(ws, k);
        lemma_apply_writes_lookup(s, ws, ws[k].0, ws[k].1);
    }
    lemma_apply_writes_keys_present(s1, ws);
    lemma_apply_writes_keys_distinct(s1, ws);
    assert forall|g: Seq<char>, p: Seq<char>|
        #[trigger] lookup(apply_writes(s1, ws), g, p) == lookup(s1, g, p) by {
        lemma_apply_writes_lookup(s1, ws, g, p);
        lemma_apply_writes_lookup(s, ws, g, p);
    }
    lemma_samples_ext(apply_writes(s1, ws), s1);
}

/// The canonical set of exported series. Samples keep the order in
/// which their keys were first written; a repeated key overwrites its
/// value in place.
pub struct DelayRegistry {
    samples: Vec<MetricSample>,
}

impl View for DelayRegistry {
    type V = SampleSeq;

    closed spec fn view(&self) -> SampleSeq {
        Seq::new(
            self.samples@.len(),
            |i: int|
                (
                    self.samples@[i].group_name@,
                    self.samples@[i].proxy_name@,
                    self.samples@[i].delay_ms,
                ),
        )
    }
}

impl DelayRegistry {
    /// Distinct keys: the invariant every operation preserves.
    pub open spec fn wf(self) -> bool {
        keys_distinct(self@)
    }

    /// An empty registry.
    pub fn new() -> (r: Self)
        ensures
            r@ == Seq::<(Seq<char>, Seq<char>, u32)>::empty(),
            r.wf(),
    {
        let r = DelayRegistry { samples: Vec::new() };
        proof {
            assert(r@ =~= Seq::<(Seq<char>, Seq<char>, u32)>::empty());
        }
        r
    }

    /// How many series are exported.
    pub fn len(&self) -> (n: usize)
        ensures
            n == self@.len(),
    {
        self.samples.len()
    }

    /// The sample at position `i`.
    pub fn sample_at(&self, i: usize) -> (r: &MetricSample)
        requires
            i < self@.len(),
        ensures
            (r.group_name@, r.proxy_name@, r.delay_ms) == self@[i as int],
    {
        &self.samples[i]
    }

    /// The value currently filed under (group, proxy), if any.
    pub fn lookup_delay(&self, group: &str, proxy: &str) -> (r: Option<u32>)
        ensures
            r == lookup(self@, group@, proxy@),
    {
        let n = self.samples.len();
        let mut i: usize = 0;
        proof {
            assert(self@.skip(0) =~= self@);
        }
        while i < n
            invariant
                n == self@.len(),
                i <= n,
                lookup(self@, group@, proxy@) == lookup(self@.skip(i as int), group@, proxy@),
            decreases n - i,
        {
            let s = &self.samples[i];
            let g_eq = str_eq(s.group_name.as_str(), group);
            let p_eq = if g_eq {
                str_eq(s.proxy_name.as_str(), proxy)
            } else {
                false
            };
            proof {
                assert(self@.skip(i as int)[0] == self@[i as int]);
                assert(self@.skip(i as int).drop_first() =~= self@.skip(i as int + 1));
            }
            if g_eq && p_eq {
                return Some(s.delay_ms);
            }
            i = i + 1;
        }
        proof {
            assert(self@.skip(n as int) =~= Seq::<(Seq<char>, Seq<char>, u32)>::empty());
        }
        None
    }

    /// Overwrite the value under (group, proxy), appending the key when
    /// it is new.
    pub fn set_delay(&mut self, group: &str, proxy: &str, delay_ms: u32)
        requires
            old(self).wf(),
        ensures
            final(self).wf(),
            final(self)@ == spec_set(old(self)@, group@, proxy@, delay_ms),
    {
        let ghost s0 = self@;
        let ghost v0 = self.samples@;
        let n = self.samples.len();
        let mut i: usize = 0;
        while i < n
            invariant
                self.samples@ == v0,
                s0 == self@,
                s0 == old(self)@,
                keys_distinct(s0),
                n == self@.len(),
                i <= n,
                forall|j: int| 0 <= j < i ==> !(s0[j].0 == group@ && s0[j].1 == proxy@),
            decreases n - i,
        {
            let g_eq = str_eq(self.samples[i].group_name.as_str(), group);
            let p_eq = if g_eq {
                str_eq(self.samples[i].proxy_name.as_str(), proxy)
            } else {
                false
            };
            if g_eq && p_eq {
                let sample = MetricSample {
                    group_name: String::from_str(group),
                    proxy_name: String::from_str(proxy),
                    delay_ms,
                };
                self.samples.remove(i);
                self.samples.insert(i, sample);
                proof {
                    v0.remove_ensures(i as int);
                    v0.remove(i as int).insert_ensures(i as int, sample);
                    assert(self.samples@ == v0.remove(i as int).insert(i as int, sample));
                    assert forall|j: int|
                        0 <= j < s0.len() implies self@[j] == s0.update(
                        i as int,
                        (group@, proxy@, delay_ms),
                    )[j] by {
                        if j < i as int {
                            assert(self.samples@[j] == v0[j]);
                        } else if j == i as int {
                            assert(self.samples@[j] == sample);
                        } else {
                            assert(v0.remove(i as int).insert(i as int, sample)[j]
                                == v0.remove(i as int)[j - 1]);
                            assert(v0.remove(i as int)[j - 1] == v0[j]);
                        }
                    }
                    assert(self@ =~= s0.update(i as int, (group@, proxy@, delay_ms)));
                    lemma_set_found_at(s0, group@, proxy@, delay_ms, i as int);
                    lemma_set_keys_distinct(s0, group@, proxy@, delay_ms);
                }
                return;
            }
            i = i + 1;
        }
        let sample = MetricSample {
            group_name: String::from_str(group),
            proxy_name: String::from_str(proxy),
            delay_ms,
        };
        self.samples.push(sample);
        proof {
            assert(self.samples@ == v0.push(sample));
            assert(self@ =~= s0.push((group@, proxy@, delay_ms)));
            lemma_set_not_found(s0, group@, proxy@, delay_ms);
            lemma_set_keys_distinct(s0, group@, proxy@, delay_ms);
        }
    }
}

/// When (g, p) first occurs at position `i`, the overwrite is an
/// in-place update there.
proof fn lemma_set_found_at(s: SampleSeq, g: Seq<char>, p: Seq<char>, d: u32, i: int)
    requires
        0 <= i < s.len(),
        forall|j: int| 0 <= j < i ==> !(s[j].0 == g && s[j].1 == p),
        s[i].0 == g && s[i].1 == p,
    ensures
        spec_set(s, g, p, d) == s.update(i, (g, p, d)),
    decreases i,
{
    if i == 0 {
        assert(spec_set(s, g, p, d) == seq![(g, p, d)] + s.drop_first());
        assert(seq![(g, p, d)] + s.drop_first() =~= s.update(0, (g, p, d)));
    } else {
        assert(!(s[0].0 == g && s[0].1 == p));
        let t = s.drop_first();
        assert forall|j: int| 0 <= j < i - 1 implies !(t[j].0 == g && t[j].1 == p) by {
            assert(t[j] == s[j + 1]);
        }
        assert(t[i - 1] == s[i]);
        lemma_set_found_at(t, g, p, d, i - 1);
        assert(seq![s[0]] + t.update(i - 1, (g, p, d)) =~= s.update(i, (g, p, d)));
    }
}

/// When (g, p) occurs nowhere, the overwrite is an append.
proof fn lemma_set_not_found(s: SampleSeq, g: Seq<char>, p: Seq<char>, d: u32)
    requires
        forall|j: int| 0 <= j < s.len() ==> !(s[j].0 == g && s[j].1 == p),
    ensures
        spec_set(s, g, p, d) == s.push((g, p, d)),
    decreases s.len(),
{
    if s.len() == 0 {
        assert(seq![(g, p, d)] =~= s.push((g, p, d)));
    } else {
        let t = s.drop_first();
        assert forall|j: int| 0 <= j < t.len() implies !(t[j].0 == g && t[j].1 == p) by {
            assert(t[j] == s[j + 1]);
        }
        lemma_set_not_found(t, g, p, d);
        assert(seq![s[0]] + t.push((g, p, d)) =~= s.push((g, p, d)));
    }
}

} // verus!
