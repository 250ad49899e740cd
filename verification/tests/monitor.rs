use proxy_health_monitor::config::{Config, PrometheusConfig};
use proxy_health_monitor::errors::MonitorError;
use proxy_health_monitor::model::{
    get_latest_delay_from_testdata, HistoryEntry, ProxiesResponse, ProxyDetail, ProxyEntry,
    TestData, UrlTestData,
};
use proxy_health_monitor::registry::DelayRegistry;
use proxy_health_monitor::reshape::{find_proxy, resolve_delay, update_proxy_metrics};
use proxy_health_monitor::schedule::{
    parse_export_mode, plan_after_fetch, trigger_timeout_ms, wait_seconds, AfterFetch, ExportMode,
};
use proxy_health_monitor::textfmt::render_metrics;

fn hist(delays: &[u32]) -> Vec<HistoryEntry> {
    delays
        .iter()
        .map(|d| HistoryEntry { time: "2024-01-01T00:00:00Z".to_string(), delay: *d })
        .collect()
}

fn node(name: &str) -> ProxyDetail {
    ProxyDetail {
        name: name.to_string(),
        alive: true,
        all: None,
        history: None,
        proxy_type: "Shadowsocks".to_string(),
        extra: None,
        now: None,
        udp: None,
    }
}

fn group(name: &str, members: &[&str]) -> ProxyDetail {
    let mut d = node(name);
    d.proxy_type = "Selector".to_string();
    d.all = Some(members.iter().map(|m| m.to_string()).collect());
    d
}

fn entry(name: &str, detail: ProxyDetail) -> ProxyEntry {
    ProxyEntry { name: name.to_string(), detail }
}

fn registry_pairs(reg: &DelayRegistry) -> Vec<(String, String, u32)> {
    let mut out = Vec::new();
    let mut i = 0;
    while i < reg.len() {
        let s = reg.sample_at(i);
        out.push((s.group_name.clone(), s.proxy_name.clone(), s.delay_ms));
        i += 1;
    }
    out
}

#[test]
fn scenario_two_members_precedence() {
    // Topology: A -> [B, C]; B has a generic history ending in 42;
    // C has an extra entry for the probe URL ending in 7.
    let mut b = node("B");
    b.history = Some(hist(&[10, 42]));
    let mut c = node("C");
    c.extra = Some(vec![UrlTestData {
        url: "http://t".to_string(),
        data: TestData { alive: true, history: hist(&[7]) },
    }]);
    let topo = ProxiesResponse {
        proxies: vec![entry("A", group("A", &["B", "C"])), entry("B", b), entry("C", c)],
    };
    let mut reg = DelayRegistry::new();
    update_proxy_metrics(&mut reg, &topo, &vec!["A".to_string()], "http://t");
    assert_eq!(reg.len(), 2);
    assert_eq!(reg.lookup_delay("A", "B"), Some(42));
    assert_eq!(reg.lookup_delay("A", "C"), Some(7));
}

#[test]
fn one_sample_per_group_member_pair() {
    let mut b = node("B");
    b.history = Some(hist(&[5]));
    let mut c = node("C");
    c.history = Some(hist(&[6]));
    let topo = ProxiesResponse {
        proxies: vec![entry("G", group("G", &["B", "C"])), entry("B", b), entry("C", c)],
    };
    let mut reg = DelayRegistry::new();
    update_proxy_metrics(&mut reg, &topo, &vec!["G".to_string()], "http://t");
    let pairs = registry_pairs(&reg);
    assert_eq!(pairs.len(), 2);
    assert_eq!(pairs[0], ("G".to_string(), "B".to_string(), 5));
    assert_eq!(pairs[1], ("G".to_string(), "C".to_string(), 6));
}

#[test]
fn extra_wins_over_history() {
    let mut d = node("P");
    d.history = Some(hist(&[100, 200]));
    d.extra = Some(vec![UrlTestData {
        url: "http://probe".to_string(),
        data: TestData { alive: true, history: hist(&[31, 17]) },
    }]);
    assert_eq!(resolve_delay(&d, "http://probe"), 17);
}

#[test]
fn history_used_when_no_extra_entry_matches() {
    let mut d = node("P");
    d.history = Some(hist(&[100, 250]));
    d.extra = Some(vec![UrlTestData {
        url: "http://other".to_string(),
        data: TestData { alive: true, history: hist(&[1]) },
    }]);
    assert_eq!(resolve_delay(&d, "http://probe"), 250);
}

#[test]
fn history_used_when_no_extra_at_all() {
    let mut d = node("P");
    d.history = Some(hist(&[9]));
    assert_eq!(resolve_delay(&d, "http://probe"), 9);
}

#[test]
fn empty_extra_history_falls_back_to_history() {
    let mut d = node("P");
    d.history = Some(hist(&[33]));
    d.extra = Some(vec![UrlTestData {
        url: "http://probe".to_string(),
        data: TestData { alive: false, history: hist(&[]) },
    }]);
    assert_eq!(resolve_delay(&d, "http://probe"), 33);
}

#[test]
fn no_data_yields_zero() {
    let d = node("P");
    assert_eq!(resolve_delay(&d, "http://probe"), 0);
}

#[test]
fn latest_delay_of_testdata() {
    let td = TestData { alive: true, history: hist(&[3, 8, 21]) };
    assert_eq!(get_latest_delay_from_testdata(&td), Some(21));
    let empty = TestData { alive: false, history: hist(&[]) };
    assert_eq!(get_latest_delay_from_testdata(&empty), None);
}

#[test]
fn absent_group_skipped_others_processed() {
    let mut b = node("B");
    b.history = Some(hist(&[4]));
    let topo = ProxiesResponse {
        proxies: vec![entry("Real", group("Real", &["B"])), entry("B", b)],
    };
    let mut reg = DelayRegistry::new();
    update_proxy_metrics(
        &mut reg,
        &topo,
        &vec!["Ghost".to_string(), "Real".to_string()],
        "http://t",
    );
    assert_eq!(reg.len(), 1);
    assert_eq!(reg.lookup_delay("Real", "B"), Some(4));
    assert_eq!(reg.lookup_delay("Ghost", "B"), None);
}

#[test]
fn non_group_node_skipped() {
    let mut b = node("B");
    b.history = Some(hist(&[4]));
    let topo = ProxiesResponse { proxies: vec![entry("B", b)] };
    let mut reg = DelayRegistry::new();
    update_proxy_metrics(&mut reg, &topo, &vec!["B".to_string()], "http://t");
    assert_eq!(reg.len(), 0);
}

#[test]
fn missing_member_skipped() {
    let mut b = node("B");
    b.history = Some(hist(&[4]));
    let topo = ProxiesResponse {
        proxies: vec![entry("G", group("G", &["B", "Gone"])), entry("B", b)],
    };
    let mut reg = DelayRegistry::new();
    update_proxy_metrics(&mut reg, &topo, &vec!["G".to_string()], "http://t");
    assert_eq!(reg.len(), 1);
    assert_eq!(reg.lookup_delay("G", "B"), Some(4));
}

#[test]
fn update_twice_is_idempotent() {
    let mut b = node("B");
    b.history = Some(hist(&[11]));
    let mut c = node("C");
    c.history = Some(hist(&[22]));
    let topo = ProxiesResponse {
        proxies: vec![entry("G", group("G", &["B", "C"])), entry("B", b), entry("C", c)],
    };
    let groups = vec!["G".to_string()];
    let mut reg = DelayRegistry::new();
    update_proxy_metrics(&mut reg, &topo, &groups, "http://t");
    let once = registry_pairs(&reg);
    let rendered_once = render_metrics(&reg);
    update_proxy_metrics(&mut reg, &topo, &groups, "http://t");
    assert_eq!(registry_pairs(&reg), once);
    assert_eq!(render_metrics(&reg), rendered_once);
}

#[test]
fn overwrite_keeps_one_key() {
    let mut b = node("B");
    b.history = Some(hist(&[11]));
    let topo1 = ProxiesResponse {
        proxies: vec![entry("G", group("G", &["B"])), entry("B", b)],
    };
    let mut b2 = node("B");
    b2.history = Some(hist(&[99]));
    let topo2 = ProxiesResponse {
        proxies: vec![entry("G", group("G", &["B"])), entry("B", b2)],
    };
    let groups = vec!["G".to_string()];
    let mut reg = DelayRegistry::new();
    update_proxy_metrics(&mut reg, &topo1, &groups, "http://t");
    update_proxy_metrics(&mut reg, &topo2, &groups, "http://t");
    assert_eq!(reg.len(), 1);
    assert_eq!(reg.lookup_delay("G", "B"), Some(99));
}

#[test]
fn empty_member_list_writes_nothing() {
    let topo = ProxiesResponse { proxies: vec![entry("G", group("G", &[]))] };
    let mut reg = DelayRegistry::new();
    update_proxy_metrics(&mut reg, &topo, &vec!["G".to_string()], "http://t");
    assert_eq!(reg.len(), 0);
}

#[test]
fn empty_monitored_list_writes_nothing() {
    let topo = ProxiesResponse { proxies: vec![entry("G", group("G", &["B"]))] };
    let mut reg = DelayRegistry::new();
    update_proxy_metrics(&mut reg, &topo, &Vec::new(), "http://t");
    assert_eq!(reg.len(), 0);
}

#[test]
fn find_proxy_resolves_first_match() {
    let topo = ProxiesResponse { proxies: vec![entry("X", node("X"))] };
    assert!(find_proxy(&topo, "X").is_some());
    assert!(find_proxy(&topo, "Y").is_none());
}

// --- scheduler decisions ---

#[test]
fn wait_is_half_timeout_at_least_one_second() {
    assert_eq!(wait_seconds(0), 1);
    assert_eq!(wait_seconds(1), 1);
    assert_eq!(wait_seconds(2), 1);
    assert_eq!(wait_seconds(3), 1);
    assert_eq!(wait_seconds(10), 5);
    assert_eq!(wait_seconds(11), 5);
}

#[test]
fn timeout_in_milliseconds_saturates() {
    assert_eq!(trigger_timeout_ms(5), 5000);
    assert_eq!(trigger_timeout_ms(0), 0);
    assert_eq!(trigger_timeout_ms(u64::MAX), u64::MAX);
}

#[test]
fn export_mode_words() {
    assert_eq!(parse_export_mode("pull"), ExportMode::Pull);
    assert_eq!(parse_export_mode("push"), ExportMode::Push);
    assert_eq!(parse_export_mode("gopher"), ExportMode::Disabled);
    assert_eq!(parse_export_mode(""), ExportMode::Disabled);
}

#[test]
fn push_mode_without_url_warns_and_continues() {
    let r = plan_after_fetch(true, "push", &None);
    assert!(matches!(r, AfterFetch::UpdateWarnNoPushUrl));
}

#[test]
fn push_mode_with_url_pushes() {
    let r = plan_after_fetch(true, "push", &Some("http://rw.example/api".to_string()));
    match r {
        AfterFetch::UpdateAndPush { url } => assert_eq!(url, "http://rw.example/api"),
        _ => panic!("expected a push plan"),
    }
}

#[test]
fn failed_fetch_skips_cycle() {
    let r = plan_after_fetch(false, "push", &Some("http://rw.example".to_string()));
    assert!(matches!(r, AfterFetch::SkipCycle));
}

#[test]
fn pull_and_disabled_modes_update_only() {
    assert!(matches!(plan_after_fetch(true, "pull", &None), AfterFetch::UpdateOnly));
    assert!(matches!(plan_after_fetch(true, "what", &None), AfterFetch::UpdateOnly));
}

// --- configuration and errors ---

fn sample_config() -> Config {
    Config {
        api_url: "http://127.0.0.1:9090".to_string(),
        api_secret: "".to_string(),
        groups_to_monitor: vec!["G".to_string()],
        interval_seconds: 60,
        test_url: "http://t".to_string(),
        test_timeout_seconds: 5,
        prometheus: PrometheusConfig {
            mode: "pull".to_string(),
            push_url: None,
            listen_address: "127.0.0.1:9100".to_string(),
        },
        reporter: None,
    }
}

#[test]
fn config_validation() {
    assert!(sample_config().validate());
    let mut c = sample_config();
    c.interval_seconds = 0;
    assert!(!c.validate());
    let mut c2 = sample_config();
    c2.test_timeout_seconds = 0;
    assert!(!c2.validate());
}

#[test]
fn only_config_errors_are_fatal() {
    let fatal = MonitorError::ConfigError { message: "bad file".to_string() };
    assert!(fatal.is_fatal());
    let api = MonitorError::ApiError {
        group: Some("G".to_string()),
        status: Some(502),
        body: Some("bad gateway".to_string()),
    };
    assert!(!api.is_fatal());
    let dec = MonitorError::DecodeError { message: "not json".to_string() };
    assert!(!dec.is_fatal());
    let exp = MonitorError::ExportError { message: "refused".to_string() };
    assert!(!exp.is_fatal());
}
