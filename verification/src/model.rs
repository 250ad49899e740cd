//! Data model of one fetched proxy/group topology snapshot, and the
//! lookups the reshaper needs: resolving a name to its node and picking
//! the freshest delay sample for a proxy.

use vstd::prelude::*;

verus! {

/// One timestamped delay sample, most-recent-last in a history.
pub struct HistoryEntry {
    pub time: String,
    pub delay: u32,
}

/// Delay history recorded for one specific probe target URL.
pub struct TestData {
    pub alive: bool,
    pub history: Vec<HistoryEntry>,
}

/// One entry of a node's per-target delay map: the probe target URL and
/// the history recorded under it.
pub struct UrlTestData {
    pub url: String,
    pub data: TestData,
}

/// One proxy or group node of the topology.
pub struct ProxyDetail {
    pub name: String,
    pub alive: bool,
    /// Member names; present only when the node is a group.
    pub all: Option<Vec<String>>,
    /// Generic delay history, used when no per-target entry matches.
    pub history: Option<Vec<HistoryEntry>>,
    pub proxy_type: String,
    /// Per-probe-target delay histories, keyed by target URL.
    pub extra: Option<Vec<UrlTestData>>,
    /// Name of the member currently selected, if the node is a group.
    pub now: Option<String>,
    pub udp: Option<bool>,
}

/// One entry of the topology: the name a node is filed under, and the node.
pub struct ProxyEntry {
    pub name: String,
    pub detail: ProxyDetail,
}

/// A full topology snapshot: a name-to-node association, fresh per cycle.
pub struct ProxiesResponse {
    pub proxies: Vec<ProxyEntry>,
}

/// The delay of the last entry of a history, if the history is non-empty.
pub open spec fn latest_delay(h: Seq<HistoryEntry>) -> Option<u32> {
    if h.len() == 0 {
        None
    } else {
        Some(h.last().delay)
    }
}

/// First entry of `entries` whose URL is `url`, if any.
pub open spec fn extra_lookup(entries: Seq<UrlTestData>, url: Seq<char>) -> Option<TestData>
    decreases entries.len(),
{
    if entries.len() == 0 {
        None
    } else if entries[0].url@ == url {
        Some(entries[0].data)
    } else {
        extra_lookup(entries.drop_first(), url)
    }
}

/// First node of `entries` filed under `name`, if any.
pub open spec fn proxy_lookup(entries: Seq<ProxyEntry>, name: Seq<char>) -> Option<ProxyDetail>
    decreases entries.len(),
{
    if entries.len() == 0 {
        None
    } else if entries[0].name@ == name {
        Some(entries[0].detail)
    } else {
        proxy_lookup(entries.drop_first(), name)
    }
}

/// The delay reported for a node when probed against `url`: the last
/// sample under `extra[url]` when that yields one, else the last sample
/// of the generic history, else 0 (the no-data sentinel).
pub open spec fn spec_resolved_delay(d: ProxyDetail, url: Seq<char>) -> u32 {
    let from_extra = match d.extra {
        Some(ex) => match extra_lookup(ex@, url) {
            Some(td) => latest_delay(td.history@),
            None => None,
        },
        None => None,
    };
    match from_extra {
        Some(v) => v,
        None => match d.history {
            Some(h) => match latest_delay(h@) {
                Some(v) => v,
                None => 0,
            },
            None => 0,
        },
    }
}

/// Character-for-character string equality.
pub fn str_eq(a: &str, b: &str) -> (r: bool)
    ensures
        r == (a@ == b@),
{
    let a_len = a.unicode_len();
    let b_len = b.unicode_len();
    if a_len != b_len {
        assert(a@ != b@) by {
            assert(a@.len() != b@.len());
        }
        return false;
    }
    let mut i: usize = 0;
    while i < a_len
        invariant
            a_len == a@.len(),
            b_len == b@.len(),
            a_len == b_len,
            i <= a_len,
            forall|j: int| 0 <= j < i ==> a@[j] == b@[j],
        decreases a_len - i,
    {
        if a.get_char(i) != b.get_char(i) {
            assert(a@ != b@) by {
                assert(a@[i as int] != b@[i as int]);
            }
            return false;
        }
        i = i + 1;
    }
    assert(a@ =~= b@);
    true
}

/// The delay of the most recent sample in `test_data`, if any was recorded.
pub fn get_latest_delay_from_testdata(test_data: &TestData) -> (r: Option<u32>)
    ensures
        r == latest_delay(test_data.history@),
{
    let n = test_data.history.len();
    if n == 0 {
        None
    } else {
        Some(test_data.history[n - 1].delay)
    }
}

} // verus!
