use proxy_health_monitor::api::{
    bearer_token, build_delay_test_url, build_proxies_url, percent_encode, trim_trailing_slashes,
};
use proxy_health_monitor::numfmt::u64_to_string;
use proxy_health_monitor::registry::DelayRegistry;
use proxy_health_monitor::textfmt::{escape_label_value, render_metrics};

#[test]
fn decimal_rendering() {
    assert_eq!(u64_to_string(0), "0");
    assert_eq!(u64_to_string(7), "7");
    assert_eq!(u64_to_string(10), "10");
    assert_eq!(u64_to_string(40964), "40964");
    assert_eq!(u64_to_string(u64::MAX), "18446744073709551615");
}

#[test]
fn trailing_slashes_trimmed() {
    assert_eq!(trim_trailing_slashes("http://h:1/"), "http://h:1");
    assert_eq!(trim_trailing_slashes("http://h:1///"), "http://h:1");
    assert_eq!(trim_trailing_slashes("http://h:1"), "http://h:1");
    assert_eq!(trim_trailing_slashes(""), "");
    assert_eq!(trim_trailing_slashes("///"), "");
}

#[test]
fn percent_escaping() {
    assert_eq!(percent_encode("abc-XYZ_0.9~"), "abc-XYZ_0.9~");
    assert_eq!(percent_encode("my group"), "my%20group");
    assert_eq!(percent_encode("http://t/p?x=1&y=2"), "http%3A%2F%2Ft%2Fp%3Fx%3D1%26y%3D2");
    assert_eq!(percent_encode("%"), "%25");
    assert_eq!(percent_encode(""), "");
    // Characters beyond ASCII pass through for the transport to handle.
    assert_eq!(percent_encode("日本"), "日本");
}

#[test]
fn render_empty_registry_is_headers_only() {
    let reg = DelayRegistry::new();
    assert_eq!(
        render_metrics(&reg),
        "# HELP proxy_delay_ms Proxy delay in milliseconds\n# TYPE proxy_delay_ms gauge\n",
    );
    assert_eq!(parse_metrics(&render_metrics(&reg)), Vec::new());
}

#[test]
fn delay_test_request_string() {
    let url = build_delay_test_url(
        "http://127.0.0.1:9090/",
        "my group",
        "http://t.example/p?x=1",
        5000,
    );
    assert_eq!(
        url,
        "http://127.0.0.1:9090/group/my%20group/delay?url=http%3A%2F%2Ft.example%2Fp%3Fx%3D1&timeout=5000",
    );
}

#[test]
fn proxies_request_string() {
    assert_eq!(build_proxies_url("http://127.0.0.1:9090/"), "http://127.0.0.1:9090/proxies");
}

#[test]
fn bearer_only_for_non_empty_secret() {
    assert_eq!(bearer_token(""), None);
    assert_eq!(bearer_token("abc123"), Some("Bearer abc123".to_string()));
}

#[test]
fn label_escaping() {
    assert_eq!(escape_label_value("plain"), "plain");
    assert_eq!(escape_label_value("a\"b"), "a\\\"b");
    assert_eq!(escape_label_value("a\\b"), "a\\\\b");
    assert_eq!(escape_label_value("a\nb"), "a\\nb");
}

#[test]
fn render_exact_body() {
    let mut reg = DelayRegistry::new();
    reg.set_delay("G", "P", 42);
    let body = render_metrics(&reg);
    assert_eq!(
        body,
        "# HELP proxy_delay_ms Proxy delay in milliseconds\n\
         # TYPE proxy_delay_ms gauge\n\
         proxy_delay_ms{group_name=\"G\",proxy_name=\"P\"} 42\n",
    );
}

/// A reader of the text exposition format, as a scraper would read it:
/// comment lines skipped, label values unescaped, values parsed.
fn parse_metrics(body: &str) -> Vec<(String, String, u32)> {
    let mut out = Vec::new();
    for line in body.lines() {
        if line.starts_with('#') || line.is_empty() {
            continue;
        }
        let rest = line.strip_prefix("proxy_delay_ms{group_name=\"").expect("gauge line");
        let (group, rest) = read_quoted(rest);
        let rest = rest.strip_prefix(",proxy_name=\"").expect("proxy label");
        let (proxy, rest) = read_quoted(rest);
        let rest = rest.strip_prefix("} ").expect("value separator");
        let value: u32 = rest.parse().expect("decimal value");
        out.push((group, proxy, value));
    }
    out
}

/// Reads an escaped label value up to its closing quote; returns the
/// value and what follows the quote.
fn read_quoted(s: &str) -> (String, &str) {
    let mut value = String::new();
    let mut chars = s.char_indices();
    loop {
        let (i, c) = chars.next().expect("unterminated label value");
        match c {
            '"' => return (value, &s[i + 1..]),
            '\\' => {
                let (_, e) = chars.next().expect("dangling escape");
                match e {
                    '\\' => value.push('\\'),
                    '"' => value.push('"'),
                    'n' => value.push('\n'),
                    other => panic!("unknown escape: {}", other),
                }
            },
            other => value.push(other),
        }
    }
}

#[test]
fn rendered_body_parses_back_to_written_triples() {
    let mut reg = DelayRegistry::new();
    reg.set_delay("a\"b", "c\\d\ne", 7);
    reg.set_delay("G", "P", 0);
    reg.set_delay("G", "Q", 40964);
    let parsed = parse_metrics(&render_metrics(&reg));
    assert_eq!(
        parsed,
        vec![
            ("a\"b".to_string(), "c\\d\ne".to_string(), 7),
            ("G".to_string(), "P".to_string(), 0),
            ("G".to_string(), "Q".to_string(), 40964),
        ],
    );
}
