use autoreply::auth::atproto::{
    callback_from_params, loopback_callback_url,
    on_callback, on_protected_resource, on_server_metadata, oauth_started, par_params, session_handle,
    start_metadata_discovery, token_params, AtProtoOAuthClient, AtProtoOAuthConfig, CallbackResult, CallbackStep,
    DocumentAnswer, DpopAnswer, DpopExchange, DpopRequest, DpopStep, MetadataStep, OAuthServerMetadata, PARResponse,
};
use autoreply::auth::oauth::{calculate_access_token_hash, generate_state};
use autoreply::auth::types::AuthError;
use base64::Engine;
use sha2::Digest;

#[test]
fn test_create_atproto_client() {
    let client = AtProtoOAuthClient::new("test-client".to_string());
    assert_eq!(client.client_id, "test-client");
}

#[test]
fn test_build_authorization_url() {
    let client = AtProtoOAuthClient::new("test-client".to_string());
    let metadata = OAuthServerMetadata {
        issuer: "https://example.com".to_string(),
        authorization_endpoint: "https://example.com/authorize".to_string(),
        token_endpoint: "https://example.com/token".to_string(),
        pushed_authorization_request_endpoint: Some("https://example.com/par".to_string()),
        dpop_signing_alg_values_supported: Some(vec!["ES256".to_string()]),
        response_types_supported: vec!["code".to_string()],
        grant_types_supported: vec!["authorization_code".to_string()],
        code_challenge_methods_supported: vec!["S256".to_string()],
    };
    let par_response = PARResponse { request_uri: "urn:ietf:params:oauth:request_uri:test123".to_string(), expires_in: 90 };
    let url = client.build_authorization_url(&metadata, &par_response);
    assert!(url.contains("request_uri="));
    assert!(url.contains("client_id="));
    assert_eq!(
        url,
        "https://example.com/authorize?client_id=test-client&request_uri=urn%3Aietf%3Aparams%3Aoauth%3Arequest_uri%3Atest123"
    );
}

#[test]
fn test_access_token_hash() {
    let token = "test-access-token";
    let hash = calculate_access_token_hash(token);
    assert!(!hash.is_empty());
    let hash2 = calculate_access_token_hash(token);
    assert_eq!(hash, hash2);
}

#[test]
fn access_token_hash_is_the_base64url_sha256() {
    let expected = base64::engine::general_purpose::URL_SAFE_NO_PAD.encode(sha2::Sha256::digest(b"abc"));
    assert_eq!(calculate_access_token_hash("abc"), expected);
    assert_eq!(calculate_access_token_hash("abc"), "ungWv48Bz-pBQUDeXa4iI7ADYaOWF3qctBD_YfIAFa0");
}

#[test]
fn loopback_client_carries_redirect_and_scope() {
    let mut config = AtProtoOAuthConfig::loopback();
    assert_eq!(config.client_id, "http://localhost");
    config.set_redirect_uri("http://127.0.0.1:5000/callback".to_string());
    assert_eq!(config.redirect_uri, "http://127.0.0.1:5000/callback");
    assert_eq!(
        config.client_id,
        "http://localhost?redirect_uri=http%3A%2F%2F127.0.0.1%3A5000%2Fcallback&scope=atproto%20transition%3Ageneric"
    );
}

#[test]
fn par_and_token_forms_list_their_parameters() {
    let config = AtProtoOAuthConfig::loopback();
    let par = par_params(&config, "chal", "st");
    let names: Vec<&str> = par.iter().map(|(k, _)| k.as_str()).collect();
    assert_eq!(names, vec!["response_type", "client_id", "redirect_uri", "code_challenge", "code_challenge_method", "state", "scope"]);
    assert_eq!(par[3].1, "chal");
    assert_eq!(par[5].1, "st");
    assert_eq!(par[6].1, "atproto transition:generic");
    let tok = token_params(&config, "c0de", "ver");
    assert_eq!(tok[0], ("grant_type".to_string(), "authorization_code".to_string()));
    assert_eq!(tok[1].1, "c0de");
    assert_eq!(tok[4], ("code_verifier".to_string(), "ver".to_string()));
}

fn fail_text(step: MetadataStep) -> String {
    match step {
        MetadataStep::Fail(m) => m,
        _ => panic!("expected a failure"),
    }
}

#[test]
fn metadata_discovery_asks_the_listed_server() {
    match start_metadata_discovery("https://pds.example") {
        MetadataStep::Fetch { url } => assert_eq!(url, "https://pds.example/.well-known/oauth-protected-resource"),
        _ => panic!(),
    }
    match on_protected_resource("https://pds.example", DocumentAnswer::Decoded(vec!["https://auth.example".to_string()])) {
        MetadataStep::Fetch { url } => assert_eq!(url, "https://auth.example/.well-known/oauth-authorization-server"),
        _ => panic!(),
    }
    assert!(matches!(on_server_metadata("https://auth.example", DocumentAnswer::Decoded(())), MetadataStep::Found));
}

#[test]
fn metadata_discovery_errors_say_what_went_wrong() {
    assert_eq!(
        fail_text(on_protected_resource("https://p", DocumentAnswer::Decoded(vec![]))),
        "No authorization servers found in protected resource metadata from https://p/.well-known/oauth-protected-resource. The server may not support AT Protocol OAuth yet. Please try --method password instead."
    );
    assert_eq!(
        fail_text(on_protected_resource("https://p", DocumentAnswer::TimedOut)),
        "OAuth protected resource discovery timed out after 10 seconds at https://p. The server may not support AT Protocol OAuth yet. Please use --method password instead."
    );
    assert_eq!(
        fail_text(on_protected_resource("https://p", DocumentAnswer::BadStatus { status: "404 Not Found".to_string(), body: "nope".to_string() })),
        "OAuth protected resource discovery failed with status 404 Not Found from https://p/.well-known/oauth-protected-resource. Response: nope. The server may not support AT Protocol OAuth yet. Please try --method password instead."
    );
    assert_eq!(
        fail_text(on_server_metadata("https://a", DocumentAnswer::Failed("refused".to_string()))),
        "Failed to fetch OAuth authorization server metadata from https://a/.well-known/oauth-authorization-server: refused. The server may not support AT Protocol OAuth yet. Please try --method password instead."
    );
    assert_eq!(
        fail_text(on_server_metadata("https://a", DocumentAnswer::TimedOut)),
        "OAuth authorization server metadata discovery timed out after 10 seconds at https://a. The server may not support AT Protocol OAuth yet. Please use --method password instead."
    );
    assert_eq!(
        fail_text(on_server_metadata("https://a", DocumentAnswer::Undecodable)),
        "Failed to decode OAuth authorization server metadata from https://a/.well-known/oauth-authorization-server"
    );
}

fn answered(nonce: Option<&str>, ok: bool, body: Option<&str>) -> DpopAnswer {
    DpopAnswer::Answered { nonce: nonce.map(String::from), ok, body: body.map(String::from) }
}

#[test]
fn dpop_request_retries_once_with_the_servers_nonce() {
    let (mut ex, step) = DpopExchange::start(DpopRequest::Par, None);
    assert!(matches!(step, DpopStep::Send));
    let step = ex.on_answer(answered(Some("n1"), false, Some("{\"error\":\"use_dpop_nonce\"}")));
    assert!(matches!(step, DpopStep::Send));
    assert_eq!(ex.nonce.as_deref(), Some("n1"));
    let step = ex.on_answer(answered(Some("n2"), false, Some("still bad")));
    match step {
        DpopStep::Fail(AuthError::OAuthError(m)) => assert_eq!(m, "PAR failed after retry: still bad"),
        _ => panic!(),
    }
    assert_eq!(ex.nonce.as_deref(), Some("n1"));
}

#[test]
fn dpop_request_outcomes() {
    let (mut ex, _) = DpopExchange::start(DpopRequest::Par, Some("old".to_string()));
    assert!(matches!(ex.on_answer(answered(Some("new"), true, Some("{}"))), DpopStep::Succeeded));
    assert_eq!(ex.nonce.as_deref(), Some("new"));

    let (mut ex, _) = DpopExchange::start(DpopRequest::Par, None);
    match ex.on_answer(answered(None, false, Some("invalid_dpop_proof"))) {
        DpopStep::Fail(AuthError::OAuthError(m)) => assert_eq!(m, "PAR failed: invalid_dpop_proof"),
        _ => panic!(),
    }

    let (mut ex, _) = DpopExchange::start(DpopRequest::Token, None);
    assert!(matches!(ex.on_answer(answered(None, false, Some("invalid_dpop_proof"))), DpopStep::Send));
    match ex.on_answer(DpopAnswer::Failed("reset".to_string())) {
        DpopStep::Fail(AuthError::NetworkError(m)) => assert_eq!(m, "Token exchange retry failed: reset"),
        _ => panic!(),
    }

    let (mut ex, _) = DpopExchange::start(DpopRequest::Token, None);
    match ex.on_answer(answered(None, false, None)) {
        DpopStep::Fail(AuthError::OAuthError(m)) => assert_eq!(m, "Token exchange failed: Unknown error"),
        _ => panic!(),
    }
}

#[test]
fn callback_outcomes() {
    let ok = CallbackResult::Success { code: "c".to_string(), state: "s".to_string() };
    assert!(matches!(on_callback("s", Ok(ok)), CallbackStep::Exchange { code } if code == "c"));
    let wrong = CallbackResult::Success { code: "c".to_string(), state: "x".to_string() };
    assert!(matches!(on_callback("s", Ok(wrong)), CallbackStep::Abandon(m) if m == "OAuth background task: State parameter mismatch"));
    let err = CallbackResult::Error { error: "access_denied".to_string(), description: None };
    assert!(matches!(on_callback("s", Ok(err)), CallbackStep::Abandon(m) if m == "OAuth background task: Authorization failed: access_denied - No description"));
    assert!(matches!(on_callback("s", Err("timeout".to_string())), CallbackStep::Abandon(m) if m == "OAuth background task: Callback failed: timeout"));
}

#[test]
fn started_message_and_session_handle() {
    assert_eq!(
        oauth_started("https://a/authorize?x=1", 8123),
        "# OAuth Login Initiated\n\n1. Open this URL in your browser:\n   https://a/authorize?x=1\n\n2. Authorize the application.\n\nWaiting for authorization on port 8123..."
    );
    assert_eq!(session_handle("did:plc:abc123"), "abc123");
    assert_eq!(session_handle("nodid"), "nodid");
}

#[test]
fn test_state_generation() {
    let state1 = generate_state();
    let state2 = generate_state();
    assert!(!state1.is_empty(), "State should not be empty");
    assert!(!state2.is_empty(), "State should not be empty");
    assert_ne!(state1, state2, "Each state should be unique");
    assert!(state1.chars().all(|c| c.is_alphanumeric() || c == '_' || c == '-'));
    assert_eq!(state1.len(), 22);
}

#[test]
fn callback_query_and_url() {
    let s = |x: &str| Some(x.to_string());
    assert!(matches!(
        callback_from_params(s("c"), s("st"), None, None),
        CallbackResult::Success { code, state } if code == "c" && state == "st"
    ));
    assert!(matches!(
        callback_from_params(s("c"), s("st"), s("access_denied"), s("no")),
        CallbackResult::Error { error, description: Some(d) } if error == "access_denied" && d == "no"
    ));
    assert!(matches!(
        callback_from_params(s("c"), None, None, None),
        CallbackResult::Error { error, description: Some(d) } if error == "invalid_request" && d == "Missing code or state parameter"
    ));
    assert_eq!(loopback_callback_url(5000), "http://127.0.0.1:5000");
}
