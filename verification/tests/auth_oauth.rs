use autoreply::strings::replace_str;
use autoreply::auth::oauth::{AuthorizationRequest, OAuthClient, PKCEParams};
use base64::Engine;
use sha2::Digest;

#[test]
fn oauth_test_pkce_generation() {
    let pkce1 = PKCEParams::generate().unwrap();
    let pkce2 = PKCEParams::generate().unwrap();
    assert!(!pkce1.code_verifier.is_empty());
    assert!(!pkce1.code_challenge.is_empty());
    assert_ne!(pkce1.code_verifier, pkce2.code_verifier);
    assert_ne!(pkce1.code_challenge, pkce2.code_challenge);
}

#[test]
fn test_oauth_client_creation() {
    let client = OAuthClient::new();
    assert_eq!(client.client_id, "autoreply-mcp-client");
    assert_eq!(client.redirect_uri, "http://localhost:8080/callback");
    assert!(client.auth_endpoint.contains("oauth/authorize"));
    assert!(client.token_endpoint.contains("oauth/token"));
}

#[test]
fn test_start_authorization_flow_basic() {
    let mut client = OAuthClient::new();
    let req = AuthorizationRequest { handle: None, callback_port: None, state: None, pkce_params: None };
    let resp = client.start_authorization_flow(req).unwrap();
    assert!(!resp.auth_url.is_empty());
    assert!(!resp.state.is_empty());
    assert!(!resp.code_verifier.is_empty());
    assert!(resp.auth_url.contains("response_type=code"));
    assert!(resp.auth_url.contains("code_challenge="));
    assert!(resp.auth_url.contains("code_challenge_method=S256"));
}

#[test]
fn test_start_authorization_flow_with_handle() {
    let mut client = OAuthClient::new();
    let req = AuthorizationRequest {
        handle: Some("alice.bsky.social".to_string()),
        callback_port: None,
        state: None,
        pkce_params: None,
    };
    let resp = client.start_authorization_flow(req).unwrap();
    assert!(resp.auth_url.contains("login_hint=alice.bsky.social"));
}

#[test]
fn test_start_authorization_flow_with_custom_port() {
    let mut client = OAuthClient::new();
    let req = AuthorizationRequest { handle: None, callback_port: Some(9090), state: None, pkce_params: None };
    let _resp = client.start_authorization_flow(req).unwrap();
    assert_eq!(client.redirect_uri, "http://localhost:9090/callback");
}

#[test]
fn test_start_authorization_flow_with_provided_pkce() {
    let mut client = OAuthClient::new();
    let pkce = PKCEParams::generate().unwrap();
    let code_verifier = pkce.code_verifier.clone();
    let req = AuthorizationRequest {
        handle: None,
        callback_port: None,
        state: Some("custom-state".to_string()),
        pkce_params: Some(pkce),
    };
    let resp = client.start_authorization_flow(req).unwrap();
    assert_eq!(resp.state, "custom-state");
    assert_eq!(resp.code_verifier, code_verifier);
}

#[test]
fn authorization_url_is_exact_for_given_state_and_pkce() {
    let mut client = OAuthClient::new();
    let pkce = PKCEParams { code_verifier: "v".to_string(), code_challenge: "c+/=".to_string() };
    let req = AuthorizationRequest {
        handle: Some("a b".to_string()),
        callback_port: Some(7000),
        state: Some("s t".to_string()),
        pkce_params: Some(pkce),
    };
    let resp = client.start_authorization_flow(req).unwrap();
    assert_eq!(
        resp.auth_url,
        "https://bsky.social/oauth/authorize?response_type=code&client_id=autoreply-mcp-client\
&redirect_uri=http%3A%2F%2Flocalhost%3A7000%2Fcallback&scope=atproto%20transition%3Ageneric\
&state=s%20t&code_challenge=c%2B%2F%3D&code_challenge_method=S256&login_hint=a%20b"
    );
}

#[test]
fn pkce_challenge_is_the_s256_of_the_verifier() {
    let p = PKCEParams::generate().unwrap();
    let expected = base64::engine::general_purpose::URL_SAFE_NO_PAD.encode(sha2::Sha256::digest(p.code_verifier.as_bytes()));
    assert_eq!(p.code_challenge, expected);
    assert_eq!(p.code_verifier.len(), 43);
}

#[test]
fn device_endpoint_replaces_the_token_path() {
    let client = OAuthClient::new();
    assert_eq!(client.device_endpoint(), "https://bsky.social/oauth/device/code");
    let mut other = OAuthClient::new();
    other.token_endpoint = "https://pds.example/token/x/token".to_string();
    assert_eq!(other.device_endpoint(), "https://pds.example/device/code/x/device/code");
}

#[test]
fn replace_str_replaces_every_occurrence() {
    assert_eq!(replace_str("a/token/x/token", "/token", "/d"), "a/d/x/d");
    assert_eq!(replace_str("aaa", "aa", "b"), "ba");
    assert_eq!(replace_str("", "x", "y"), "");
    assert_eq!(replace_str("no match", "zz", "y"), "no match");
}

#[test]
fn authorization_url_encodes_utf8_bytes_and_keeps_unreserved() {
    let mut client = OAuthClient::new();
    let pkce = PKCEParams { code_verifier: "v".to_string(), code_challenge: "Az09-_".to_string() };
    let req = AuthorizationRequest {
        handle: Some("é-._~!".to_string()),
        callback_port: None,
        state: Some("x".to_string()),
        pkce_params: Some(pkce),
    };
    let resp = client.start_authorization_flow(req).unwrap();
    assert!(resp.auth_url.ends_with("&state=x&code_challenge=Az09-_&code_challenge_method=S256&login_hint=%C3%A9-._~%21"));
    assert!(resp.auth_url.contains("&redirect_uri=http%3A%2F%2Flocalhost%3A8080%2Fcallback&"));
}

#[test]
fn generated_state_and_verifier_are_url_safe() {
    let mut client = OAuthClient::new();
    let req = AuthorizationRequest { handle: None, callback_port: None, state: None, pkce_params: None };
    let resp = client.start_authorization_flow(req).unwrap();
    assert_eq!(resp.state.len(), 22);
    assert_eq!(resp.code_verifier.len(), 43);
    for c in resp.state.chars().chain(resp.code_verifier.chars()) {
        assert!(c.is_ascii_alphanumeric() || c == '-' || c == '_');
    }
}
