//! The metrics reshaper: walks a fetched topology and writes one delay
//! sample per (monitored group, member) pair into the registry.
//!
//! The writes a topology produces are described first as a sequence of
//! (group, proxy, delay) triples; `update_proxy_metrics` is proved to
//! apply exactly that sequence to the registry.

use vstd::prelude::*;
use crate::model::{
    extra_lookup, proxy_lookup, spec_resolved_delay, str_eq,
    get_latest_delay_from_testdata, ProxiesResponse, ProxyDetail, ProxyEntry, TestData,
    UrlTestData,
};
use crate::registry::{
    apply_writes, lemma_apply_writes_concat, spec_set, DelayRegistry, SampleSeq,
};

verus! {

/// The writes one member contributes: its resolved delay when the
/// member name resolves in the topology, nothing when it does not.
pub open spec fn member_write(
    ps: Seq<ProxyEntry>,
    g: Seq<char>,
    m: Seq<char>,
    url: Seq<char>,
) -> SampleSeq {
    match proxy_lookup(ps, m) {
        Some(d) => seq![(g, m, spec_resolved_delay(d, url))],
        None => Seq::empty(),
    }
}

/// The writes a member list contributes, in list order.
pub open spec fn member_writes(
    ps: Seq<ProxyEntry>,
    g: Seq<char>,
    members: Seq<String>,
    url: Seq<char>,
) -> SampleSeq
    decreases members.len(),
{
    if members.len() == 0 {
        Seq::empty()
    } else {
        member_write(ps, g, members[0]@, url) + member_writes(
            ps,
            g,
            members.drop_first(),
            url,
        )
    }
}

/// The writes one monitored group contributes: one per member when the
/// group resolves to a node with a member list, nothing otherwise.
pub open spec fn group_writes(ps: Seq<ProxyEntry>, g: Seq<char>, url: Seq<char>) -> SampleSeq {
    match proxy_lookup(ps, g) {
        Some(d) => match d.all {
            Some(members) => member_writes(ps, g, members@, url),
            None => Seq::empty(),
        },
        None => Seq::empty(),
    }
}

/// The writes a whole update produces, group by group in monitored order.
pub open spec fn topology_writes(
    ps: Seq<ProxyEntry>,
    groups: Seq<String>,
    url: Seq<char>,
) -> SampleSeq
    decreases groups.len(),
{
    if groups.len() == 0 {
        Seq::empty()
    } else {
        group_writes(ps, groups[0]@, url) + topology_writes(ps, groups.drop_first(), url)
    }
}

/// Member writes distribute over list concatenation.
pub proof fn lemma_member_writes_concat(
    ps: Seq<ProxyEntry>,
    g: Seq<char>,
    m1: Seq<String>,
    m2: Seq<String>,
    url: Seq<char>,
)
    ensures
        member_writes(ps, g, m1 + m2, url) == member_writes(ps, g, m1, url) + member_writes(
            ps,
            g,
            m2,
            url,
        ),
    decreases m1.len(),
{
    if m1.len() == 0 {
        assert(m1 + m2 =~= m2);
        assert(member_writes(ps, g, m1, url) + member_writes(ps, g, m2, url) =~= member_writes(
            ps,
            g,
            m2,
            url,
        ));
    } else {
        assert((m1 + m2)[0] == m1[0]);
        assert((m1 + m2).drop_first() =~= m1.drop_first() + m2);
        lemma_member_writes_concat(ps, g, m1.drop_first(), m2, url);
        assert(member_write(ps, g, m1[0]@, url) + (member_writes(ps, g, m1.drop_first(), url)
            + member_writes(ps, g, m2, url)) =~= (member_write(ps, g, m1[0]@, url)
            + member_writes(ps, g, m1.drop_first(), url)) + member_writes(ps, g, m2, url));
    }
}

/// Group writes distribute over monitored-list concatenation.
pub proof fn lemma_topology_writes_concat(
    ps: Seq<ProxyEntry>,
    g1: Seq<String>,
    g2: Seq<String>,
    url: Seq<char>,
)
    ensures
        topology_writes(ps, g1 + g2, url) == topology_writes(ps, g1, url) + topology_writes(
            ps,
            g2,
            url,
        ),
    decreases g1.len(),
{
    if g1.len() == 0 {
        assert(g1 + g2 =~= g2);
        assert(topology_writes(ps, g1, url) + topology_writes(ps, g2, url) =~= topology_writes(
            ps,
            g2,
            url,
        ));
    } else {
        assert((g1 + g2)[0] == g1[0]);
        assert((g1 + g2).drop_first() =~= g1.drop_first() + g2);
        lemma_topology_writes_concat(ps, g1.drop_first(), g2, url);
        assert(group_writes(ps, g1[0]@, url) + (topology_writes(ps, g1.drop_first(), url)
            + topology_writes(ps, g2, url)) =~= (group_writes(ps, g1[0]@, url)
            + topology_writes(ps, g1.drop_first(), url)) + topology_writes(ps, g2, url));
    }
}

/// A singleton member list contributes exactly its one member's write.
pub proof fn lemma_member_writes_singleton(
    ps: Seq<ProxyEntry>,
    g: Seq<char>,
    x: String,
    url: Seq<char>,
)
    ensures
        member_writes(ps, g, seq![x], url) == member_write(ps, g, x@, url),
{
    let s = seq![x];
    assert(s[0] == x);
    assert(s.drop_first() =~= Seq::<String>::empty());
    assert(member_writes(ps, g, Seq::<String>::empty(), url) =~= Seq::empty());
    assert(member_write(ps, g, x@, url) + Seq::empty() =~= member_write(ps, g, x@, url));
}

/// A singleton monitored list contributes exactly its one group's writes.
pub proof fn lemma_topology_writes_singleton(ps: Seq<ProxyEntry>, x: String, url: Seq<char>)
    ensures
        topology_writes(ps, seq![x], url) == group_writes(ps, x@, url),
{
    let s = seq![x];
    assert(s[0] == x);
    assert(s.drop_first() =~= Seq::<String>::empty());
    assert(topology_writes(ps, Seq::<String>::empty(), url) =~= Seq::empty());
    assert(group_writes(ps, x@, url) + Seq::empty() =~= group_writes(ps, x@, url));
}

/// Extending a member prefix by one appends that member's write.
pub proof fn lemma_member_writes_take_snoc(
    ps: Seq<ProxyEntry>,
    g: Seq<char>,
    members: Seq<String>,
    url: Seq<char>,
    i: int,
)
    requires
        0 <= i < members.len(),
    ensures
        member_writes(ps, g, members.take(i + 1), url) == member_writes(
            ps,
            g,
            members.take(i),
            url,
        ) + member_write(ps, g, members[i]@, url),
{
    assert(members.take(i + 1) =~= members.take(i) + seq![members[i]]);
    lemma_member_writes_concat(ps, g, members.take(i), seq![members[i]], url);
    lemma_member_writes_singleton(ps, g, members[i], url);
}

/// Extending a monitored prefix by one appends that group's writes.
pub proof fn lemma_topology_writes_take_snoc(
    ps: Seq<ProxyEntry>,
    groups: Seq<String>,
    url: Seq<char>,
    i: int,
)
    requires
        0 <= i < groups.len(),
    ensures
        topology_writes(ps, groups.take(i + 1), url) == topology_writes(
            ps,
            groups.take(i),
            url,
        ) + group_writes(ps, groups[i]@, url),
{
    assert(groups.take(i + 1) =~= groups.take(i) + seq![groups[i]]);
    lemma_topology_writes_concat(ps, groups.take(i), seq![groups[i]], url);
    lemma_topology_writes_singleton(ps, groups[i], url);
}

/// Applying one write is one overwrite.
pub proof fn lemma_apply_writes_singleton(s: SampleSeq, w: (Seq<char>, Seq<char>, u32))
    ensures
        apply_writes(s, seq![w]) == spec_set(s, w.0, w.1, w.2),
{
    let ws = seq![w];
    assert(ws[0] == w);
    assert(ws.drop_first() =~= Seq::<(Seq<char>, Seq<char>, u32)>::empty());
    assert(apply_writes(spec_set(s, w.0, w.1, w.2), Seq::empty()) == spec_set(s, w.0, w.1, w.2));
}

/// The first entry of `entries` recorded under `url`, if any.
pub fn find_extra<'a>(entries: &'a Vec<UrlTestData>, url: &str) -> (r: Option<&'a TestData>)
    ensures
        match r {
            Some(td) => extra_lookup(entries@, url@) == Some(*td),
            None => extra_lookup(entries@, url@) is None,
        },
{
    let n = entries.len();
    let mut i: usize = 0;
    proof {
        assert(entries@.skip(0) =~= entries@);
    }
    while i < n
        invariant
            n == entries@.len(),
            i <= n,
            extra_lookup(entries@, url@) == extra_lookup(entries@.skip(i as int), url@),
        decreases n - i,
    {
        proof {
            assert(entries@.skip(i as int)[0] == entries@[i as int]);
            assert(entries@.skip(i as int).drop_first() =~= entries@.skip(i as int + 1));
        }
        if str_eq(entries[i].url.as_str(), url) {
            return Some(&entries[i].data);
        }
        i = i + 1;
    }
    proof {
        assert(entries@.skip(n as int) =~= Seq::<UrlTestData>::empty());
    }
    None
}

/// The first node of the topology filed under `name`, if any.
pub fn find_proxy<'a>(resp: &'a ProxiesResponse, name: &str) -> (r: Option<&'a ProxyDetail>)
    ensures
        match r {
            Some(d) => proxy_lookup(resp.proxies@, name@) == Some(*d),
            None => proxy_lookup(resp.proxies@, name@) is None,
        },
{
    let n = resp.proxies.len();
    let mut i: usize = 0;
    proof {
        assert(resp.proxies@.skip(0) =~= resp.proxies@);
    }
    while i < n
        invariant
            n == resp.proxies@.len(),
            i <= n,
            proxy_lookup(resp.proxies@, name@) == proxy_lookup(
                resp.proxies@.skip(i as int),
                name@,
            ),
        decreases n - i,
    {
        proof {
            assert(resp.proxies@.skip(i as int)[0] == resp.proxies@[i as int]);
            assert(resp.proxies@.skip(i as int).drop_first() =~= resp.proxies@.skip(i as int + 1));
        }
        if str_eq(resp.proxies[i].name.as_str(), name) {
            return Some(&resp.proxies[i].detail);
        }
        i = i + 1;
    }
    proof {
        assert(resp.proxies@.skip(n as int) =~= Seq::<ProxyEntry>::empty());
    }
    None
}

/// The delay reported for `detail` when probed against `url`, by the
/// resolution precedence: last sample under `extra[url]`, else last
/// sample of the generic history, else 0.
pub fn resolve_delay(detail: &ProxyDetail, url: &str) -> (r: u32)
    ensures
        r == spec_resolved_delay(*detail, url@),
{
    let mut from_extra: Option<u32> = None;
    match &detail.extra {
        Some(ex) => {
            match find_extra(ex, url) {
                Some(td) => {
                    from_extra = get_latest_delay_from_testdata(td);
                }
                None => {},
            }
        },
        None => {},
    }
    match from_extra {
        Some(v) => v,
        None => {
            match &detail.history {
                Some(h) => {
                    let n = h.len();
                    if n == 0 {
                        0
                    } else {
                        h[n - 1].delay
                    }
                },
                None => 0,
            }
        },
    }
}

/// For each monitored group, resolve it and write one sample per
/// member: the update applies exactly the topology's write sequence to
/// the registry, in monitored order. Unresolvable group or member
/// names contribute nothing and stop nothing.
pub fn update_proxy_metrics(
    registry: &mut DelayRegistry,
    proxies_response: &ProxiesResponse,
    monitored_groups: &Vec<String>,
    config_test_url: &str,
)
    requires
        old(registry).wf(),
    ensures
        final(registry).wf(),
        final(registry)@ == apply_writes(
            old(registry)@,
            topology_writes(proxies_response.proxies@, monitored_groups@, config_test_url@),
        ),
{
    let ghost r0 = registry@;
    let ghost ps = proxies_response.proxies@;
    let ghost url = config_test_url@;
    let ghost gseq = monitored_groups@;
    let n_groups = monitored_groups.len();
    let mut gi: usize = 0;
    proof {
        assert(gseq.take(0) =~= Seq::<String>::empty());
        assert(topology_writes(ps, Seq::<String>::empty(), url) =~= Seq::empty());
        assert(apply_writes(r0, Seq::empty()) == r0);
    }
    while gi < n_groups
        invariant
            r0 == old(registry)@,
            old(registry).wf(),
            ps == proxies_response.proxies@,
            url == config_test_url@,
            gseq == monitored_groups@,
            n_groups == gseq.len(),
            gi <= n_groups,
            registry.wf(),
            registry@ == apply_writes(r0, topology_writes(ps, gseq.take(gi as int), url)),
        decreases n_groups - gi,
    {
        let group_name = &monitored_groups[gi];
        let ghost g = group_name@;
        let ghost tw_pre = topology_writes(ps, gseq.take(gi as int), url);
        match find_proxy(proxies_response, group_name.as_str()) {
            None => {
                proof {
                    lemma_topology_writes_take_snoc(ps, gseq, url, gi as int);
                    assert(group_writes(ps, g, url) =~= Seq::empty());
                    assert(tw_pre + group_writes(ps, g, url) =~= tw_pre);
                }
            },
            Some(detail) => {
                match &detail.all {
                    None => {
                        proof {
                            lemma_topology_writes_take_snoc(ps, gseq, url, gi as int);
                            assert(group_writes(ps, g, url) =~= Seq::empty());
                            assert(tw_pre + group_writes(ps, g, url) =~= tw_pre);
                        }
                    },
                    Some(members) => {
                        let n_members = members.len();
                        let mut mi: usize = 0;
                        proof {
                            assert(members@.take(0) =~= Seq::<String>::empty());
                            assert(member_writes(ps, g, Seq::<String>::empty(), url)
                                =~= Seq::empty());
                            assert(tw_pre + Seq::empty() =~= tw_pre);
                        }
                        while mi < n_members
                            invariant
                                r0 == old(registry)@,
                                old(registry).wf(),
                                ps == proxies_response.proxies@,
                                url == config_test_url@,
                                gseq == monitored_groups@,
                                n_groups == gseq.len(),
                                gi < n_groups,
                                g == gseq[gi as int]@,
                                group_name@ == g,
                                tw_pre == topology_writes(ps, gseq.take(gi as int), url),
                                proxy_lookup(ps, g) == Some(*detail),
                                detail.all == Some(*members),
                                n_members == members@.len(),
                                mi <= n_members,
                                registry.wf(),
                                registry@ == apply_writes(
                                    r0,
                                    tw_pre + member_writes(ps, g, members@.take(mi as int), url),
                                ),
                            decreases n_members - mi,
                        {
                            let member_name = &members[mi];
                            let ghost m = member_name@;
                            let ghost mw_pre = member_writes(ps, g, members@.take(mi as int), url);
                            match find_proxy(proxies_response, member_name.as_str()) {
                                None => {
                                    proof {
                                        lemma_member_writes_take_snoc(
                                            ps,
                                            g,
                                            members@,
                                            url,
                                            mi as int,
                                        );
                                        assert(member_write(ps, g, m, url) =~= Seq::empty());
                                        assert(mw_pre + member_write(ps, g, m, url) =~= mw_pre);
                                    }
                                },
                                Some(member_detail) => {
                                    let delay = resolve_delay(member_detail, config_test_url);
                                    let ghost before = registry@;
                                    registry.set_delay(
                                        group_name.as_str(),
                                        member_name.as_str(),
                                        delay,
                                    );
                                    proof {
                                        let w = (g, m, delay);
                                        assert(registry@ == spec_set(before, g, m, delay));
                                        assert(member_write(ps, g, m, url) == seq![w]);
                                        lemma_apply_writes_singleton(before, w);
                                        lemma_apply_writes_concat(
                                            r0,
                                            tw_pre + member_writes(
                                                ps,
                                                g,
                                                members@.take(mi as int),
                                                url,
                                            ),
                                            seq![w],
                                        );
                                        lemma_member_writes_take_snoc(
                                            ps,
                                            g,
                                            members@,
                                            url,
                                            mi as int,
                                        );
                                        assert(registry@ == apply_writes(
                                            r0,
                                            (tw_pre + mw_pre) + seq![w],
                                        ));
                                        assert((tw_pre + mw_pre) + seq![w] =~= tw_pre + (mw_pre
                                            + seq![w]));
                                        assert(tw_pre + member_writes(
                                            ps,
                                            g,
                                            members@.take(mi as int + 1),
                                            url,
                                        ) =~= (tw_pre + mw_pre) + seq![w]);
                                        assert(registry@ == apply_writes(
                                            r0,
                                            tw_pre + member_writes(
                                                ps,
                                                g,
                                                members@.take(mi as int + 1),
                                                url,
                                            ),
                                        ));
                                    }
                                },
                            }
                            mi = mi + 1;
                        }
                        proof {
                            assert(members@.take(n_members as int) =~= members@);
                            lemma_topology_writes_take_snoc(ps, gseq, url, gi as int);
                            assert(group_writes(ps, g, url) == member_writes(ps, g, members@, url));
                        }
                    },
                }
            },
        }
        gi = gi + 1;
    }
    proof {
        assert(gseq.take(n_groups as int) =~= gseq);
    }
}

} // verus!
