//! Laws of the reshaper, proved against the write-sequence semantics:
//! coverage of every resolvable (group, member) pair, the delay
//! resolution precedence, skipping of unresolvable names, and
//! idempotence of a repeated update.

use vstd::prelude::*;
use crate::model::{extra_lookup, proxy_lookup, spec_resolved_delay, ProxyDetail, ProxyEntry};
use crate::registry::{
    apply_writes, keys_distinct, last_write, lemma_apply_writes_idempotent,
    lemma_apply_writes_keys_distinct, lemma_apply_writes_lookup, lemma_last_write_of_member,
    lookup, SampleSeq,
};
use crate::reshape::{
    group_writes, lemma_topology_writes_concat, lemma_topology_writes_singleton, member_write,
    member_writes, topology_writes,
};

verus! {

/// A write the reshaper can emit: its proxy name resolves in the
/// topology, and its value is that proxy's resolved delay.
pub open spec fn write_resolved(
    ps: Seq<ProxyEntry>,
    url: Seq<char>,
    w: (Seq<char>, Seq<char>, u32),
) -> bool {
    &&& proxy_lookup(ps, w.1) is Some
    &&& w.2 == spec_resolved_delay(proxy_lookup(ps, w.1).unwrap(), url)
}

/// Every write of a member list is a resolved write for its group.
proof fn lemma_member_writes_resolved(
    ps: Seq<ProxyEntry>,
    g: Seq<char>,
    members: Seq<String>,
    url: Seq<char>,
)
    ensures
        forall|k: int|
            0 <= k < member_writes(ps, g, members, url).len() ==> write_resolved(
                ps,
                url,
                #[trigger] member_writes(ps, g, members, url)[k],
            ),
    decreases members.len(),
{
    if members.len() > 0 {
        let head = member_write(ps, g, members[0]@, url);
        let tail = member_writes(ps, g, members.drop_first(), url);
        lemma_member_writes_resolved(ps, g, members.drop_first(), url);
        assert forall|k: int|
            0 <= k < member_writes(ps, g, members, url).len() implies write_resolved(
            ps,
            url,
            #[trigger] member_writes(ps, g, members, url)[k],
        ) by {
            if k < head.len() {
                assert(member_writes(ps, g, members, url)[k] == head[k]);
            } else {
                assert(member_writes(ps, g, members, url)[k] == tail[k - head.len()]);
            }
        }
    }
}

/// Every write of a whole update is a resolved write.
proof fn lemma_topology_writes_resolved(ps: Seq<ProxyEntry>, groups: Seq<String>, url: Seq<char>)
    ensures
        forall|k: int|
            0 <= k < topology_writes(ps, groups, url).len() ==> write_resolved(
                ps,
                url,
                #[trigger] topology_writes(ps, groups, url)[k],
            ),
    decreases groups.len(),
{
    if groups.len() > 0 {
        let head = group_writes(ps, groups[0]@, url);
        let tail = topology_writes(ps, groups.drop_first(), url);
        lemma_topology_writes_resolved(ps, groups.drop_first(), url);
        match proxy_lookup(ps, groups[0]@) {
            Some(d) => {
                match d.all {
                    Some(members) => {
                        lemma_member_writes_resolved(ps, groups[0]@, members@, url);
                    },
                    None => {},
                }
            },
            None => {},
        }
        assert forall|k: int|
            0 <= k < topology_writes(ps, groups, url).len() implies write_resolved(
            ps,
            url,
            #[trigger] topology_writes(ps, groups, url)[k],
        ) by {
            if k < head.len() {
                assert(topology_writes(ps, groups, url)[k] == head[k]);
            } else {
                assert(topology_writes(ps, groups, url)[k] == tail[k - head.len()]);
            }
        }
    }
}

/// A resolvable member at position `mi` has its write in the member list's writes.
proof fn lemma_member_writes_contains(
    ps: Seq<ProxyEntry>,
    g: Seq<char>,
    members: Seq<String>,
    url: Seq<char>,
    mi: int,
)
    requires
        0 <= mi < members.len(),
        proxy_lookup(ps, members[mi]@) is Some,
    ensures
        exists|k: int|
            0 <= k < member_writes(ps, g, members, url).len()
                && #[trigger] member_writes(ps, g, members, url)[k] == (
                g,
                members[mi]@,
                spec_resolved_delay(proxy_lookup(ps, members[mi]@).unwrap(), url),
            ),
    decreases mi,
{
    let ws = member_writes(ps, g, members, url);
    let head = member_write(ps, g, members[0]@, url);
    let tail = member_writes(ps, g, members.drop_first(), url);
    if mi == 0 {
        let w = (g, members[0]@, spec_resolved_delay(proxy_lookup(ps, members[0]@).unwrap(), url));
        assert(head == seq![w]);
        assert(ws[0] == head[0]);
        assert(ws[0] == w);
    } else {
        assert(members.drop_first()[mi - 1] == members[mi]);
        lemma_member_writes_contains(ps, g, members.drop_first(), url, mi - 1);
        let k = choose|k: int|
            0 <= k < tail.len() && #[trigger] tail[k] == (
                g,
                members[mi]@,
                spec_resolved_delay(proxy_lookup(ps, members[mi]@).unwrap(), url),
            );
        assert(ws[head.len() + k] == tail[k]);
    }
}

/// The whole update's writes decompose around the group at position `gi`.
proof fn lemma_topology_writes_decompose(
    ps: Seq<ProxyEntry>,
    groups: Seq<String>,
    url: Seq<char>,
    gi: int,
)
    requires
        0 <= gi < groups.len(),
    ensures
        topology_writes(ps, groups, url) == (topology_writes(ps, groups.take(gi), url)
            + group_writes(ps, groups[gi]@, url)) + topology_writes(
            ps,
            groups.skip(gi + 1),
            url,
        ),
{
    let a = groups.take(gi);
    let b = seq![groups[gi]];
    let c = groups.skip(gi + 1);
    assert(groups =~= (a + b) + c);
    lemma_topology_writes_concat(ps, a + b, c, url);
    lemma_topology_writes_concat(ps, a, b, url);
    lemma_topology_writes_singleton(ps, groups[gi], url);
}

/// When every write touching key (g, p) carries value `v`, the last one does.
proof fn lemma_last_write_same_value(
    ws: SampleSeq,
    g: Seq<char>,
    p: Seq<char>,
    v: u32,
)
    requires
        forall|k: int|
            0 <= k < ws.len() ==> ((#[trigger] ws[k].0 == g && ws[k].1 == p) ==> ws[k].2 == v),
        last_write(ws, g, p) is Some,
    ensures
        last_write(ws, g, p) == Some(v),
    decreases ws.len(),
{
    let tail = ws.drop_first();
    assert(forall|k: int| 0 <= k < tail.len() ==> #[trigger] tail[k] == ws[k + 1]);
    if last_write(tail, g, p) is Some {
        lemma_last_write_same_value(tail, g, p, v);
    } else {
        assert(ws[0].0 == g && ws[0].1 == p);
    }
}

/// Law: for every monitored group that resolves to a node with a member
/// list, and every member of it that resolves in the topology, one
/// update writes exactly one sample under (group, member) — the keys
/// stay distinct — and its value is the member's resolved delay.
pub proof fn lemma_update_writes_each_member(
    r0: SampleSeq,
    ps: Seq<ProxyEntry>,
    groups: Seq<String>,
    url: Seq<char>,
    gi: int,
    mi: int,
)
    requires
        keys_distinct(r0),
        0 <= gi < groups.len(),
        proxy_lookup(ps, groups[gi]@) is Some,
        proxy_lookup(ps, groups[gi]@).unwrap().all is Some,
        0 <= mi < proxy_lookup(ps, groups[gi]@).unwrap().all.unwrap()@.len(),
        proxy_lookup(
            ps,
            proxy_lookup(ps, groups[gi]@).unwrap().all.unwrap()@[mi]@,
        ) is Some,
    ensures
        keys_distinct(apply_writes(r0, topology_writes(ps, groups, url))),
        lookup(
            apply_writes(r0, topology_writes(ps, groups, url)),
            groups[gi]@,
            proxy_lookup(ps, groups[gi]@).unwrap().all.unwrap()@[mi]@,
        ) == Some(
            spec_resolved_delay(
                proxy_lookup(
                    ps,
                    proxy_lookup(ps, groups[gi]@).unwrap().all.unwrap()@[mi]@,
                ).unwrap(),
                url,
            ),
        ),
{
    let g = groups[gi]@;
    let members = proxy_lookup(ps, g).unwrap().all.unwrap()@;
    let m = members[mi]@;
    let v = spec_resolved_delay(proxy_lookup(ps, m).unwrap(), url);
    let tw = topology_writes(ps, groups, url);
    lemma_apply_writes_keys_distinct(r0, tw);
    lemma_member_writes_contains(ps, g, members, url, mi);
    let gw = group_writes(ps, g, url);
    assert(gw == member_writes(ps, g, members, url));
    let k = choose|k: int|
        0 <= k < member_writes(ps, g, members, url).len() && #[trigger] member_writes(
            ps,
            g,
            members,
            url,
        )[k] == (g, m, v);
    lemma_topology_writes_decompose(ps, groups, url, gi);
    let twa = topology_writes(ps, groups.take(gi), url);
    let k2 = twa.len() + k;
    assert(tw[k2] == (twa + gw)[k2]);
    assert((twa + gw)[k2] == gw[k]);
    lemma_last_write_of_member(tw, k2);
    assert(tw[k2].0 == g && tw[k2].1 == m);
    lemma_topology_writes_resolved(ps, groups, url);
    assert forall|j: int|
        0 <= j < tw.len() && #[trigger] tw[j].0 == g && tw[j].1 == m implies tw[j].2 == v by {
        assert(write_resolved(ps, url, tw[j]));
    }
    lemma_last_write_same_value(tw, g, m, v);
    lemma_apply_writes_lookup(r0, tw, g, m);
}

/// Whether (g, p) is a pair the reshaper can write: `g` is monitored
/// and resolves to a node with a member list naming `p`.
pub open spec fn monitored_pair(
    ps: Seq<ProxyEntry>,
    groups: Seq<String>,
    g: Seq<char>,
    p: Seq<char>,
) -> bool {
    exists|gi: int, mi: int|
        #![trigger groups[gi], proxy_lookup(ps, g).unwrap().all.unwrap()@[mi]]
        0 <= gi < groups.len() && groups[gi]@ == g && proxy_lookup(ps, g) is Some
            && proxy_lookup(ps, g).unwrap().all is Some && 0 <= mi < proxy_lookup(
            ps,
            g,
        ).unwrap().all.unwrap()@.len() && proxy_lookup(ps, g).unwrap().all.unwrap()@[mi]@ == p
}

/// Every write of a member list carries the group's name.
proof fn lemma_member_writes_group(
    ps: Seq<ProxyEntry>,
    g: Seq<char>,
    members: Seq<String>,
    url: Seq<char>,
)
    ensures
        forall|k: int|
            0 <= k < member_writes(ps, g, members, url).len() ==> (#[trigger] member_writes(
                ps,
                g,
                members,
                url,
            )[k]).0 == g,
    decreases members.len(),
{
    if members.len() > 0 {
        let head = member_write(ps, g, members[0]@, url);
        let tail = member_writes(ps, g, members.drop_first(), url);
        lemma_member_writes_group(ps, g, members.drop_first(), url);
        assert forall|k: int|
            0 <= k < member_writes(ps, g, members, url).len() implies (#[trigger] member_writes(
            ps,
            g,
            members,
            url,
        )[k]).0 == g by {
            if k < head.len() {
                assert(member_writes(ps, g, members, url)[k] == head[k]);
            } else {
                assert(member_writes(ps, g, members, url)[k] == tail[k - head.len()]);
            }
        }
    }
}

/// A name outside the member list is written by none of its writes.
proof fn lemma_member_writes_no_key(
    ps: Seq<ProxyEntry>,
    g: Seq<char>,
    members: Seq<String>,
    url: Seq<char>,
    p: Seq<char>,
)
    requires
        forall|mi: int| 0 <= mi < members.len() ==> (#[trigger] members[mi])@ != p,
    ensures
        forall|k: int|
            0 <= k < member_writes(ps, g, members, url).len() ==> (#[trigger] member_writes(
                ps,
                g,
                members,
                url,
            )[k]).1 != p,
    decreases members.len(),
{
    if members.len() > 0 {
        let head = member_write(ps, g, members[0]@, url);
        let tail = member_writes(ps, g, members.drop_first(), url);
        assert(forall|mi: int|
            0 <= mi < members.drop_first().len() ==> #[trigger] members.drop_first()[mi]
                == members[mi + 1]);
        lemma_member_writes_no_key(ps, g, members.drop_first(), url, p);
        assert forall|k: int|
            0 <= k < member_writes(ps, g, members, url).len() implies (#[trigger] member_writes(
            ps,
            g,
            members,
            url,
        )[k]).1 != p by {
            if k < head.len() {
                assert(member_writes(ps, g, members, url)[k] == head[k]);
                assert(head[k].1 == members[0]@);
            } else {
                assert(member_writes(ps, g, members, url)[k] == tail[k - head.len()]);
            }
        }
    }
}

/// A pair the reshaper cannot write is touched by no write of the update.
proof fn lemma_topology_writes_no_key(
    ps: Seq<ProxyEntry>,
    groups: Seq<String>,
    url: Seq<char>,
    g: Seq<char>,
    p: Seq<char>,
)
    requires
        !monitored_pair(ps, groups, g, p),
    ensures
        forall|k: int|
            0 <= k < topology_writes(ps, groups, url).len() ==> !((#[trigger] topology_writes(
                ps,
                groups,
                url,
            )[k]).0 == g && topology_writes(ps, groups, url)[k].1 == p),
    decreases groups.len(),
{
    if groups.len() > 0 {
        let head = group_writes(ps, groups[0]@, url);
        let tail = topology_writes(ps, groups.drop_first(), url);
        if monitored_pair(ps, groups.drop_first(), g, p) {
            let (gi, mi) = choose|gi: int, mi: int|
                #![trigger groups.drop_first()[gi], proxy_lookup(ps, g).unwrap().all.unwrap()@[mi]]
                0 <= gi < groups.drop_first().len() && groups.drop_first()[gi]@ == g
                    && proxy_lookup(ps, g) is Some && proxy_lookup(ps, g).unwrap().all is Some && 0
                    <= mi < proxy_lookup(ps, g).unwrap().all.unwrap()@.len() && proxy_lookup(
                    ps,
                    g,
                ).unwrap().all.unwrap()@[mi]@ == p;
            assert(groups[gi + 1] == groups.drop_first()[gi]);
            assert(monitored_pair(ps, groups, g, p));
        }
        lemma_topology_writes_no_key(ps, groups.drop_first(), url, g, p);
        if groups[0]@ != g {
            match proxy_lookup(ps, groups[0]@) {
                Some(d) => match d.all {
                    Some(members) => {
                        lemma_member_writes_group(ps, groups[0]@, members@, url);
                    },
                    None => {},
                },
                None => {},
            }
        } else {
            match proxy_lookup(ps, g) {
                Some(d) => match d.all {
                    Some(members) => {
                        assert forall|mi: int|
                            0 <= mi < members@.len() implies (#[trigger] members@[mi])@ != p by {
                            if members@[mi]@ == p {
                                assert(groups[0]@ == g);
                                assert(proxy_lookup(ps, g).unwrap().all.unwrap()@[mi]@ == p);
                                assert(monitored_pair(ps, groups, g, p));
                            }
                        }
                        lemma_member_writes_no_key(ps, g, members@, url, p);
                    },
                    None => {},
                },
                None => {},
            }
        }
        assert forall|k: int|
            0 <= k < topology_writes(ps, groups, url).len() implies !((#[trigger] topology_writes(
            ps,
            groups,
            url,
        )[k]).0 == g && topology_writes(ps, groups, url)[k].1 == p) by {
            if k < head.len() {
                assert(topology_writes(ps, groups, url)[k] == head[k]);
            } else {
                assert(topology_writes(ps, groups, url)[k] == tail[k - head.len()]);
            }
        }
    }
}

/// A key that no write touches has no last write.
proof fn lemma_last_write_none(ws: SampleSeq, g: Seq<char>, p: Seq<char>)
    requires
        forall|k: int| 0 <= k < ws.len() ==> !((#[trigger] ws[k]).0 == g && ws[k].1 == p),
    ensures
        last_write(ws, g, p) is None,
    decreases ws.len(),
{
    if ws.len() > 0 {
        assert(forall|k: int|
            0 <= k < ws.drop_first().len() ==> #[trigger] ws.drop_first()[k] == ws[k + 1]);
        lemma_last_write_none(ws.drop_first(), g, p);
    }
}

/// Law: the update writes nothing else — a key that is not a
/// (monitored group, member) pair of the topology keeps exactly the
/// value it had, and stays absent when it was absent.
pub proof fn lemma_update_leaves_other_keys(
    r0: SampleSeq,
    ps: Seq<ProxyEntry>,
    groups: Seq<String>,
    url: Seq<char>,
    g: Seq<char>,
    p: Seq<char>,
)
    requires
        !monitored_pair(ps, groups, g, p),
    ensures
        lookup(apply_writes(r0, topology_writes(ps, groups, url)), g, p) == lookup(r0, g, p),
{
    lemma_topology_writes_no_key(ps, groups, url, g, p);
    lemma_last_write_none(topology_writes(ps, groups, url), g, p);
    lemma_apply_writes_lookup(r0, topology_writes(ps, groups, url), g, p);
}

/// Law: a monitored name absent from the topology contributes no
/// writes, and the update is the update of the remaining groups.
pub proof fn lemma_absent_group_skipped(
    ps: Seq<ProxyEntry>,
    groups: Seq<String>,
    url: Seq<char>,
    gi: int,
)
    requires
        0 <= gi < groups.len(),
        proxy_lookup(ps, groups[gi]@) is None,
    ensures
        group_writes(ps, groups[gi]@, url) == Seq::<(Seq<char>, Seq<char>, u32)>::empty(),
        topology_writes(ps, groups, url) == topology_writes(ps, groups.remove(gi), url),
{
    let a = groups.take(gi);
    let b = seq![groups[gi]];
    let c = groups.skip(gi + 1);
    assert(groups =~= (a + b) + c);
    lemma_topology_writes_concat(ps, a + b, c, url);
    lemma_topology_writes_concat(ps, a, b, url);
    lemma_topology_writes_singleton(ps, groups[gi], url);
    assert(groups.remove(gi) =~= a + c);
    lemma_topology_writes_concat(ps, a, c, url);
    assert(topology_writes(ps, a, url) + Seq::<(Seq<char>, Seq<char>, u32)>::empty()
        =~= topology_writes(ps, a, url));
    assert(topology_writes(ps, groups, url) == topology_writes(ps, groups.remove(gi), url));
}

/// Law: a second update with the identical topology, monitored list and
/// probe URL leaves the registry exactly as the first left it — no new
/// keys, no changed values.
pub proof fn lemma_update_idempotent(
    r0: SampleSeq,
    ps: Seq<ProxyEntry>,
    groups: Seq<String>,
    url: Seq<char>,
)
    requires
        keys_distinct(r0),
    ensures
        apply_writes(
            apply_writes(r0, topology_writes(ps, groups, url)),
            topology_writes(ps, groups, url),
        ) == apply_writes(r0, topology_writes(ps, groups, url)),
{
    lemma_apply_writes_idempotent(r0, topology_writes(ps, groups, url));
}

/// Law: when a node has a non-empty history under `extra[url]`, its
/// resolved delay is the last entry of that history — the generic
/// history does not decide.
pub proof fn lemma_delay_precedence_extra(d: ProxyDetail, url: Seq<char>)
    requires
        d.extra is Some,
        extra_lookup(d.extra.unwrap()@, url) is Some,
        extra_lookup(d.extra.unwrap()@, url).unwrap().history@.len() > 0,
    ensures
        spec_resolved_delay(d, url) == extra_lookup(
            d.extra.unwrap()@,
            url,
        ).unwrap().history@.last().delay,
{
}

/// Law: with no `extra` entry for `url`, a non-empty generic history
/// decides: the resolved delay is its last entry.
pub proof fn lemma_delay_from_history(d: ProxyDetail, url: Seq<char>)
    requires
        match d.extra {
            Some(ex) => extra_lookup(ex@, url) is None,
            None => true,
        },
        d.history is Some,
        d.history.unwrap()@.len() > 0,
    ensures
        spec_resolved_delay(d, url) == d.history.unwrap()@.last().delay,
{
}

/// Law: with no `extra` entry for `url` and no recorded generic
/// history, the resolved delay is exactly the 0 sentinel.
pub proof fn lemma_delay_default_zero(d: ProxyDetail, url: Seq<char>)
    requires
        match d.extra {
            Some(ex) => extra_lookup(ex@, url) is None,
            None => true,
        },
        match d.history {
            Some(h) => h@.len() == 0,
            None => true,
        },
    ensures
        spec_resolved_delay(d, url) == 0,
{
}

} // verus!
