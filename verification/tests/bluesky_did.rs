use autoreply::bluesky::did::{
    construct_pds_endpoint_url, construct_plc_audit_url, construct_well_known_url,
    construct_xrpc_resolve_url, did_web_to_did_document_url, extract_pds, is_valid_did, is_valid_handle,
    parse_account_reference, plan_handle_resolution, DiscoveryStep, DocumentFetch, HandleResolution,
    PdsDiscovery, ServiceEndpoint,
};
use autoreply::error::AppError;

#[test]
fn test_did_web_to_did_document_url_root() {
    let url = did_web_to_did_document_url("did:web:example.com").unwrap();
    assert_eq!(url, "https://example.com/.well-known/did.json");
}

#[test]
fn test_did_web_to_did_document_url_path() {
    let url = did_web_to_did_document_url("did:web:example.com:user:alice").unwrap();
    assert_eq!(url, "https://example.com/user/alice/did.json");
}

#[test]
fn test_did_web_to_did_document_url_invalid() {
    assert!(did_web_to_did_document_url("invalid:did").is_none());
    assert!(did_web_to_did_document_url("did:other:example.com").is_none());
}

#[test]
fn test_did_web_to_did_document_url_missing_domain() {
    assert!(did_web_to_did_document_url("did:web:").is_some());
    assert!(did_web_to_did_document_url("did:web").is_none());
}

#[test]
fn test_did_web_to_did_document_url_complex_path() {
    let url = did_web_to_did_document_url("did:web:example.com:users:profile:alice").unwrap();
    assert_eq!(url, "https://example.com/users/profile/alice/did.json");
}

#[test]
fn test_handle_validation_logic() {
    assert!(is_valid_handle("alice.bsky.social"));
    assert!(is_valid_handle("user.example.com"));
    assert!(!is_valid_handle("not_a_handle"));
    assert!(!is_valid_handle(""));
    assert!(!is_valid_handle("handle.c"));
}

#[test]
fn test_handle_validation_comprehensive() {
    assert!(is_valid_handle("alice.bsky.social"));
    assert!(is_valid_handle("bob.example.com"));
    assert!(is_valid_handle("user-name.test.io"));
    assert!(is_valid_handle("123.example.net"));
    assert!(is_valid_handle("a.b.c.d.example.org"));
    assert!(!is_valid_handle(""));
    assert!(!is_valid_handle("nodot"));
    assert!(!is_valid_handle(".invalid"));
    assert!(!is_valid_handle("invalid."));
    assert!(!is_valid_handle("has space.com"));
    assert!(!is_valid_handle("has@symbol.com"));
    assert!(!is_valid_handle("x.y"));
    assert!(!is_valid_handle("..double-dot.com"));
    assert!(!is_valid_handle("empty..part.com"));
}

#[test]
fn test_handle_validation_edge_cases() {
    assert!(is_valid_handle("a.bc"));
    let long_handle = format!("{}.example.com", "a".repeat(100));
    assert!(is_valid_handle(&long_handle));
    assert!(is_valid_handle("user-name.example.com"));
    assert!(is_valid_handle("123-456.example.com"));
    assert!(!is_valid_handle("user_name.example.com"));
    assert!(!is_valid_handle("user.name!.com"));
}

#[test]
fn test_did_validation() {
    assert!(is_valid_did("did:plc:abcd1234efgh5678"));
    assert!(is_valid_did("did:web:example.com"));
    assert!(!is_valid_did("not-a-did"));
    assert!(!is_valid_did(""));
}

#[test]
fn test_did_validation_comprehensive() {
    assert!(is_valid_did("did:plc:abcd1234efgh5678"));
    assert!(is_valid_did("did:web:example.com"));
    assert!(is_valid_did("did:key:z6MkhaXgBZDvotDkL5257faiztiGiC2QtKLGpbnnEGta2doK"));
    assert!(is_valid_did("did:method:suffix"));
    assert!(is_valid_did("did:x:y"));
    assert!(is_valid_did("did:plc"));
    assert!(!is_valid_did(""));
    assert!(!is_valid_did("did"));
    assert!(!is_valid_did("did:"));
    assert!(!is_valid_did("DID:plc:abcd"));
    assert!(!is_valid_did("not-a-did"));
    assert!(!is_valid_did("notdid:plc:abc"));
}

#[test]
fn test_parse_account_reference_did_passthrough() {
    let did = "did:plc:abcd1234efgh5678";
    assert_eq!(parse_account_reference(did), did);
    let did_web = "did:web:example.com";
    assert_eq!(parse_account_reference(did_web), did_web);
}

#[test]
fn test_parse_account_reference_handle() {
    assert_eq!(parse_account_reference("alice.bsky.social"), "alice.bsky.social");
    assert_eq!(parse_account_reference("user.example.com"), "user.example.com");
}

#[test]
fn test_parse_account_reference_at_prefix() {
    assert_eq!(parse_account_reference("@alice.bsky.social"), "alice.bsky.social");
    assert_eq!(parse_account_reference("@user.example.com"), "user.example.com");
}

#[test]
fn test_parse_account_reference_bsky_url() {
    assert_eq!(
        parse_account_reference("https://bsky.app/profile/alice.bsky.social"),
        "alice.bsky.social"
    );
    assert_eq!(parse_account_reference("http://bsky.app/profile/bob.example.com"), "bob.example.com");
    assert_eq!(parse_account_reference("https://bsky.app/profile/did:plc:abc123"), "did:plc:abc123");
}

#[test]
fn test_parse_account_reference_bsky_url_with_path() {
    assert_eq!(
        parse_account_reference("https://bsky.app/profile/alice.bsky.social/post/123"),
        "alice.bsky.social"
    );
    assert_eq!(parse_account_reference("https://bsky.app/profile/user.com/feed/likes"), "user.com");
}

#[test]
fn test_parse_account_reference_partial_did() {
    let partial = "abcdefg234567hijklmn2345";
    assert_eq!(parse_account_reference(partial), format!("did:plc:{}", partial));
    let not_partial = "abcdefg234567hijklmn234";
    assert_eq!(parse_account_reference(not_partial), not_partial);
}

#[test]
fn test_parse_account_reference_partial_did_validation() {
    let valid_partial = "a2b3c4d5e6f7g2h3i4j5k6l7";
    assert_eq!(parse_account_reference(valid_partial), format!("did:plc:{}", valid_partial));
    let invalid_partial1 = "abcdefg234567hijklmn8945";
    assert_eq!(parse_account_reference(invalid_partial1), invalid_partial1);
    let invalid_partial2 = "ABCDEFG234567HIJKLMN2345";
    assert_eq!(parse_account_reference(invalid_partial2), invalid_partial2);
    let invalid_partial3 = "abcdefg-34567hijklmn2345";
    assert_eq!(parse_account_reference(invalid_partial3), invalid_partial3);
}

#[test]
fn test_parse_account_reference_whitespace() {
    assert_eq!(parse_account_reference("  alice.bsky.social  "), "alice.bsky.social");
    assert_eq!(parse_account_reference(" did:plc:abc123 "), "did:plc:abc123");
}

#[test]
fn test_parse_account_reference_edge_cases() {
    assert_eq!(parse_account_reference(""), "");
    assert_eq!(parse_account_reference("@"), "");
    assert_eq!(parse_account_reference("https://bsky.app/"), "https://bsky.app/");
    assert_eq!(parse_account_reference("https://bsky.app/profile/"), "");
}

#[test]
fn test_construct_well_known_url() {
    assert_eq!(construct_well_known_url("example.com"), "https://example.com/.well-known/atproto-did");
    assert_eq!(
        construct_well_known_url("alice.bsky.social"),
        "https://alice.bsky.social/.well-known/atproto-did"
    );
}

#[test]
fn test_construct_xrpc_resolve_url() {
    assert_eq!(
        construct_xrpc_resolve_url("bsky.social"),
        "https://bsky.social/xrpc/com.atproto.identity.resolveHandle"
    );
}

#[test]
fn test_construct_plc_audit_url() {
    assert_eq!(
        construct_plc_audit_url("did:plc:abc123"),
        "https://plc.directory/did:plc:abc123/log/audit"
    );
}

#[test]
fn test_construct_pds_endpoint_url() {
    assert_eq!(construct_pds_endpoint_url("did:plc:abc123"), "https://plc.directory/did:plc:abc123");
    assert_eq!(
        construct_pds_endpoint_url("did:web:example.com"),
        "https://plc.directory/did:web:example.com"
    );
}

#[test]
fn test_is_valid_handle_internationalized_domain() {
    assert!(is_valid_handle("user.example.com"));
    assert!(is_valid_handle("xn--user-xxa.example.com"));
}

#[test]
fn test_is_valid_handle_multiple_subdomains() {
    assert!(is_valid_handle("alice.staging.bsky.social"));
    assert!(is_valid_handle("a.b.c.d.e.example.com"));
}

#[test]
fn test_is_valid_handle_numeric() {
    assert!(is_valid_handle("123.456.example.com"));
    assert!(is_valid_handle("user123.example.com"));
    assert!(is_valid_handle("123user.example.com"));
}

#[test]
fn test_is_valid_did_methods() {
    assert!(is_valid_did("did:plc:anything"));
    assert!(is_valid_did("did:web:example.com"));
    assert!(is_valid_did("did:key:base58key"));
    assert!(is_valid_did("did:peer:anything"));
    assert!(is_valid_did("did:ethr:0xaddress"));
    assert!(is_valid_did("did:ion:anything"));
}

#[test]
fn test_parse_account_reference_case_sensitivity() {
    assert_eq!(parse_account_reference("did:plc:ABC123"), "did:plc:ABC123");
    assert_eq!(parse_account_reference("Alice.Example.COM"), "Alice.Example.COM");
}

#[test]
fn test_parse_account_reference_complex_urls() {
    assert_eq!(
        parse_account_reference("https://bsky.app/profile/alice.com?param=value"),
        "alice.com?param=value"
    );
    assert_eq!(parse_account_reference("https://bsky.app/profile/alice.com#section"), "alice.com#section");
}

#[test]
fn test_sample() {
    // A DID resolver's decisions can be made without any network access.
    assert!(matches!(plan_handle_resolution("did:plc:abc"), HandleResolution::Known(d) if d == "did:plc:abc"));
}

#[test]
fn parse_account_reference_trims_unicode_space() {
    assert_eq!(parse_account_reference("\u{3000}@bob.test\u{a0}"), "bob.test");
}

#[test]
fn handle_resolution_plans() {
    assert!(matches!(plan_handle_resolution("not_a_handle"), HandleResolution::Invalid));
    assert!(matches!(plan_handle_resolution("x.y"), HandleResolution::Invalid));
    match plan_handle_resolution("@alice.bsky.social") {
        HandleResolution::Lookup { handle, url } => {
            assert_eq!(handle, "alice.bsky.social");
            assert_eq!(
                url,
                "https://bsky.social/xrpc/com.atproto.identity.resolveHandle?handle=alice.bsky.social"
            );
        }
        _ => panic!("expected a lookup"),
    }
    assert!(matches!(
        plan_handle_resolution("a2b3c4d5e6f7g2h3i4j5k6l7"),
        HandleResolution::Known(d) if d == "did:plc:a2b3c4d5e6f7g2h3i4j5k6l7"
    ));
}

fn svc(id: Option<&str>, ty: Option<&str>, endpoint: &str) -> ServiceEndpoint {
    ServiceEndpoint {
        id: id.map(|s| s.to_string()),
        type_field: ty.map(|s| s.to_string()),
        service_endpoint: endpoint.to_string(),
    }
}

#[test]
fn extract_pds_takes_first_matching_service() {
    let services = vec![
        svc(Some("#other"), Some("Other"), "https://other"),
        svc(Some("#atproto_pds"), None, "https://pds.one"),
        svc(None, Some("AtprotoPersonalDataServer"), "https://pds.two"),
    ];
    assert_eq!(extract_pds(&services), Some("https://pds.one".to_string()));
    assert_eq!(extract_pds(&services[2..]), Some("https://pds.two".to_string()));
    assert_eq!(extract_pds(&services[..1]), None);
}

#[test]
fn plc_discovery_fetches_directory_once() {
    let (mut d, step) = PdsDiscovery::start("did:plc:abc");
    assert!(matches!(&step, DiscoveryStep::Fetch(u) if u == "https://plc.directory/did:plc:abc"));
    let done = d.on_fetch(DocumentFetch::BadStatus("404 Not Found".to_string()));
    match done {
        DiscoveryStep::Done(Err(AppError::DidResolveFailed(m))) => {
            assert_eq!(m, "DID document resolution failed with status 404 Not Found")
        }
        _ => panic!("expected a failure"),
    }
}

#[test]
fn web_discovery_tries_each_candidate() {
    let (mut d, step) = PdsDiscovery::start("did:web:example.com");
    assert!(matches!(&step, DiscoveryStep::Fetch(u) if u == "https://example.com/.well-known/did.json"));
    let next = d.on_fetch(DocumentFetch::NetworkFailure("refused".to_string()));
    assert!(matches!(&next, DiscoveryStep::Fetch(u) if u == "https://example.com/did.json"));
    let done = d.on_fetch(DocumentFetch::Document(vec![svc(None, Some("Other"), "x")]));
    assert!(matches!(done, DiscoveryStep::Done(Err(AppError::NetworkError(m))) if m == "refused"));

    let (mut d, _) = PdsDiscovery::start("did:web:example.com:u:alice");
    let done = d.on_fetch(DocumentFetch::Document(vec![svc(Some("#atproto_pds"), None, "https://pds")]));
    assert!(matches!(done, DiscoveryStep::Done(Ok(Some(e))) if e == "https://pds"));

    let (_, step) = PdsDiscovery::start("did:key:abc");
    assert!(matches!(step, DiscoveryStep::Done(Ok(None))));
}
