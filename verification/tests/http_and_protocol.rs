use autoreply::cli::get_exit_code;
use autoreply::http::{no_proxy_rule, no_proxy_tokens, select_proxy, should_bypass_proxy, to_ascii_lowercase, NoProxyRule};
use autoreply::mcp::map_error_code;

fn rules(val: &str) -> Vec<NoProxyRule> {
    no_proxy_tokens(val)
        .iter()
        .map(|t| no_proxy_rule(t, !t.is_empty() && t.chars().all(|c| c.is_ascii_digit() || c == '.')))
        .collect()
}

#[test]
fn no_proxy_tokens_split_trim_and_drop_empty_pieces() {
    assert_eq!(no_proxy_tokens(" a.com, ,B.org ,,"), vec!["a.com".to_string(), "B.org".to_string()]);
    assert!(no_proxy_tokens("").is_empty());
    assert!(no_proxy_tokens(" , ").is_empty());
}

#[test]
fn no_proxy_rules_by_kind() {
    assert!(matches!(no_proxy_rule("*", false), NoProxyRule::Wildcard));
    match no_proxy_rule("..Example.COM", false) {
        NoProxyRule::Domain(d) => assert_eq!(d, "example.com"),
        other => panic!("unexpected {:?}", other),
    }
    match no_proxy_rule("LocalHost", false) {
        NoProxyRule::Exact(h) => assert_eq!(h, "localhost"),
        other => panic!("unexpected {:?}", other),
    }
    match no_proxy_rule("10.0.0.1", true) {
        NoProxyRule::Exact(h) => assert_eq!(h, "10.0.0.1"),
        other => panic!("unexpected {:?}", other),
    }
    match no_proxy_rule("Corp.Internal", false) {
        NoProxyRule::Domain(d) => assert_eq!(d, "corp.internal"),
        other => panic!("unexpected {:?}", other),
    }
}

#[test]
fn bypass_follows_domains_exact_hosts_and_wildcards() {
    let r = rules("example.com, .internal, localhost, 127.0.0.1");
    assert!(should_bypass_proxy("example.com", &r));
    assert!(should_bypass_proxy("API.Example.com", &r));
    assert!(!should_bypass_proxy("notexample.com", &r));
    assert!(should_bypass_proxy("db.internal", &r));
    assert!(should_bypass_proxy("LOCALHOST", &r));
    assert!(!should_bypass_proxy("sub.localhost", &r));
    assert!(should_bypass_proxy("127.0.0.1", &r));
    assert!(!should_bypass_proxy("", &r));
    assert!(should_bypass_proxy("anything", &rules("*")));
    assert!(!should_bypass_proxy("anything", &rules("")));
}

#[test]
fn proxy_choice_by_scheme() {
    let r = rules("internal");
    assert_eq!(select_proxy("bsky.social", "https", Some("hs"), Some("h"), &r), Some("hs".to_string()));
    assert_eq!(select_proxy("bsky.social", "https", None, Some("h"), &r), Some("h".to_string()));
    assert_eq!(select_proxy("bsky.social", "http", Some("hs"), Some("h"), &r), Some("h".to_string()));
    assert_eq!(select_proxy("bsky.social", "http", Some("hs"), None, &r), Some("hs".to_string()));
    assert_eq!(select_proxy("bsky.social", "ftp", Some("hs"), Some("h"), &r), None);
    assert_eq!(select_proxy("a.internal", "https", Some("hs"), Some("h"), &r), None);
}

#[test]
fn ascii_lowercase_leaves_other_characters() {
    assert_eq!(to_ascii_lowercase("AbC-Ü"), "abc-Ü");
}

#[test]
fn error_codes_of_the_protocol() {
    assert_eq!(map_error_code("parse_error"), -32700);
    assert_eq!(map_error_code("invalid_request"), -32600);
    assert_eq!(map_error_code("method_not_found"), -32601);
    assert_eq!(map_error_code("invalid_params"), -32602);
    assert_eq!(map_error_code("internal_error"), -32603);
    assert_eq!(map_error_code("tool_not_found"), -32001);
    assert_eq!(map_error_code("tool_error"), -32002);
    assert_eq!(map_error_code("something_else"), -32000);
}

#[test]
fn exit_codes_from_messages() {
    assert_eq!(get_exit_code("Invalid input: bad handle"), 1);
    assert_eq!(get_exit_code("USAGE: autoreply"), 1);
    assert_eq!(get_exit_code("Network error: refused"), 2);
    assert_eq!(get_exit_code("connection reset"), 2);
    assert_eq!(get_exit_code("Profile Not Found"), 3);
    assert_eq!(get_exit_code("request timeout"), 4);
    assert_eq!(get_exit_code("something odd"), 5);
    assert_eq!(get_exit_code("invalid network timeout"), 1);
}
