//! OAuth exchange data, and the decisions taken on the device-flow answers.
use vstd::prelude::*;
use std::time::SystemTime;
use crate::auth::types::AuthError;
use crate::text::{owned, push_str, str_eq, opt_view};
use crate::strings::{replace_all, replace_str};

verus! {

/// PKCE parameters: the secret verifier and its published challenge.
#[derive(Debug, Clone)]
pub struct PKCEParams {
    pub code_verifier: String,
    pub code_challenge: String,
}

/// What an authorization flow is started with.
pub struct AuthorizationRequest {
    pub handle: Option<String>,
    pub callback_port: Option<u16>,
    pub state: Option<String>,
    pub pkce_params: Option<PKCEParams>,
}

/// The URL to send the user to, with the state and verifier to check later.
#[derive(Debug)]
pub struct AuthorizationResponse {
    pub auth_url: String,
    pub state: String,
    pub code_verifier: String,
}

/// Tokens issued by the authorization server.
#[derive(Debug, Clone)]
pub struct TokenResponse {
    pub access_token: String,
    pub refresh_token: String,
    pub token_type: String,
    pub expires_in: i64,
    pub scope: String,
    pub did: String,
    pub expires_at: SystemTime,
}

/// The answer that starts a device authorization.
#[derive(Debug, Clone)]
pub struct DeviceAuthorizationResponse {
    pub device_code: String,
    pub user_code: String,
    pub verification_uri: String,
    pub verification_uri_complete: Option<String>,
    pub expires_in: i64,
    pub interval: i64,
}

/// The polling interval to use: the server's, or 5 seconds when it gave none (0).
pub fn polling_interval(interval: i64) -> (r: i64)
    ensures
        r == if interval == 0 { 5 } else { interval },
{
    if interval == 0 {
        5
    } else {
        interval
    }
}

/// The error for an OAuth error code returned while polling a device
/// authorization: the four codes of the device flow have their own errors,
/// any other is an OAuth error naming it.
pub fn device_poll_error(code: &str) -> (e: AuthError)
    ensures
        code@ == "authorization_pending"@ ==> e is AuthorizationPending,
        code@ == "slow_down"@ ==> e is SlowDown,
        code@ == "expired_token"@ ==> e is ExpiredToken,
        code@ == "access_denied"@ ==> e is AccessDenied,
        code@ != "authorization_pending"@ && code@ != "slow_down"@ && code@ != "expired_token"@
            && code@ != "access_denied"@ ==> (e matches AuthError::OAuthError(m)
            && m@ == "Device token poll error: "@ + code@),
{
    proof {
        reveal_strlit("authorization_pending");
        reveal_strlit("slow_down");
        reveal_strlit("expired_token");
        reveal_strlit("access_denied");
        assert("authorization_pending"@.len() == 21);
        assert("slow_down"@.len() == 9);
        assert("expired_token"@.len() == 13);
        assert("access_denied"@.len() == 13);
        assert("expired_token"@[0] != "access_denied"@[0]);
    }
    if str_eq(code, "authorization_pending") {
        AuthError::AuthorizationPending
    } else if str_eq(code, "slow_down") {
        AuthError::SlowDown
    } else if str_eq(code, "expired_token") {
        AuthError::ExpiredToken
    } else if str_eq(code, "access_denied") {
        AuthError::AccessDenied
    } else {
        let mut m = owned("Device token poll error: ");
        push_str(&mut m, code);
        AuthError::OAuthError(m)
    }
}

/// `n` bytes from the thread's random generator (`rand::thread_rng().gen()`
/// for each); only their number is claimed.
#[verifier::external_body]
fn random_bytes(n: usize) -> (r: Vec<u8>)
    ensures
        r@.len() == n,
{
    (0..n).map(|_| rand::Rng::gen::<u8>(&mut rand::thread_rng())).collect()
}

/// The character of a six-bit value in the URL-safe base64 alphabet:
/// `A`-`Z`, `a`-`z`, `0`-`9`, then `-` and `_`.
pub open spec fn b64_digit(v: int) -> char {
    if v < 26 {
        (('A' as int) + v) as char
    } else if v < 52 {
        (('a' as int) + v - 26) as char
    } else if v < 62 {
        (('0' as int) + v - 52) as char
    } else if v == 62 {
        '-'
    } else {
        '_'
    }
}

/// Whether a character belongs to the URL-safe base64 alphabet.
pub open spec fn url_safe_char(c: char) -> bool {
    ('A' <= c && c <= 'Z') || ('a' <= c && c <= 'z') || ('0' <= c && c <= '9') || c == '-' || c == '_'
}

/// The unpadded URL-safe base64 text of some bytes (RFC 4648, section 5):
/// every three bytes give four characters of six bits each, and a last one
/// or two bytes give two or three characters, the missing bits zero.
pub open spec fn base64url(bytes: Seq<u8>) -> Seq<char>
    decreases bytes.len(),
{
    if bytes.len() == 0 {
        Seq::empty()
    } else if bytes.len() == 1 {
        seq![b64_digit(bytes[0] as int / 4), b64_digit((bytes[0] as int % 4) * 16)]
    } else if bytes.len() == 2 {
        seq![
            b64_digit(bytes[0] as int / 4),
            b64_digit((bytes[0] as int % 4) * 16 + bytes[1] as int / 16),
            b64_digit((bytes[1] as int % 16) * 4),
        ]
    } else {
        seq![
            b64_digit(bytes[0] as int / 4),
            b64_digit((bytes[0] as int % 4) * 16 + bytes[1] as int / 16),
            b64_digit((bytes[1] as int % 16) * 4 + bytes[2] as int / 64),
            b64_digit(bytes[2] as int % 64),
        ] + base64url(bytes.skip(3))
    }
}

/// The length of the base64 text of `n` bytes.
pub open spec fn base64url_len(n: nat) -> nat {
    4 * (n / 3) + if n % 3 == 0 {
        0
    } else {
        n % 3 + 1
    }
}

/// The base64 text of `n` bytes has `base64url_len(n)` characters, all in
/// the URL-safe alphabet.
pub proof fn lemma_base64url_shape(bytes: Seq<u8>)
    ensures
        base64url(bytes).len() == base64url_len(bytes.len()),
        forall|i: int| 0 <= i < base64url(bytes).len() ==> url_safe_char(#[trigger] base64url(bytes)[i]),
    decreases bytes.len(),
{
    if bytes.len() >= 3 {
        lemma_base64url_shape(bytes.skip(3));
        let head = seq![
            b64_digit(bytes[0] as int / 4),
            b64_digit((bytes[0] as int % 4) * 16 + bytes[1] as int / 16),
            b64_digit((bytes[1] as int % 16) * 4 + bytes[2] as int / 64),
            b64_digit(bytes[2] as int % 64),
        ];
        let tail = base64url(bytes.skip(3));
        assert(base64url(bytes) == head + tail);
        assert forall|i: int| 0 <= i < base64url(bytes).len() implies url_safe_char(#[trigger] base64url(bytes)[i]) by {
            if i >= 4 {
                assert(base64url(bytes)[i] == tail[i - 4]);
            }
        }
    }
}

/// Encodes bytes as unpadded URL-safe base64 (`Engine::encode` of the
/// `URL_SAFE_NO_PAD` engine), which is what `base64url` states.
#[verifier::external_body]
fn base64url_encode(bytes: &[u8]) -> (r: String)
    ensures
        r@ == base64url(bytes@),
{
    base64::Engine::encode(&base64::engine::general_purpose::URL_SAFE_NO_PAD, bytes)
}

/// The SHA-256 digest of some bytes; named here, not spelled out.
pub uninterp spec fn sha256(bytes: Seq<u8>) -> Seq<u8>;

/// Hashes bytes with SHA-256 (`sha2::Sha256::digest`); the result is
/// `sha256` of the bytes, 32 bytes long.
#[verifier::external_body]
fn sha256_digest(bytes: &[u8]) -> (r: Vec<u8>)
    ensures
        r@ == sha256(bytes@),
        r@.len() == 32,
{
    <sha2::Sha256 as sha2::Digest>::digest(bytes).to_vec()
}

/// A byte that a URL carries as it is: an ASCII letter or digit, or one of
/// `-`, `.`, `_`, `~`.
pub open spec fn url_unreserved(b: u8) -> bool {
    (48 <= b && b <= 57) || (65 <= b && b <= 90) || (97 <= b && b <= 122) || b == 45 || b == 46 || b == 95
        || b == 126
}

/// An upper-case hexadecimal digit.
pub open spec fn hex_upper(n: int) -> char {
    if n < 10 {
        (('0' as int) + n) as char
    } else {
        (('A' as int) + n - 10) as char
    }
}

/// The percent-encoding of some bytes: a byte a URL carries as it is stays,
/// every other byte becomes `%` and two upper-case hexadecimal digits.
pub open spec fn percent_encoded(bytes: Seq<u8>) -> Seq<char>
    decreases bytes.len(),
{
    if bytes.len() == 0 {
        Seq::empty()
    } else {
        let b = bytes.last();
        percent_encoded(bytes.drop_last()) + if url_unreserved(b) {
            seq![b as char]
        } else {
            seq!['%', hex_upper(b as int / 16), hex_upper(b as int % 16)]
        }
    }
}

/// The percent-encoding of a text's UTF-8 bytes.
pub open spec fn url_encoded(s: Seq<char>) -> Seq<char> {
    percent_encoded(vstd::utf8::encode_utf8(s))
}

/// Percent-encodes a text for a URL (`urlencoding::encode`), as
/// `url_encoded` states: the crate encodes every UTF-8 byte except ASCII
/// letters, digits and `-`, `.`, `_`, `~`, with upper-case hex digits.
#[verifier::external_body]
pub(crate) fn url_encode(s: &str) -> (r: String)
    ensures
        r@ == url_encoded(s@),
{
    urlencoding::encode(s).into_owned()
}

/// The DPoP `ath` claim for an access token: the unpadded URL-safe base64
/// text of the SHA-256 digest of the token's UTF-8 bytes, 43 URL-safe
/// characters.
pub fn calculate_access_token_hash(access_token: &str) -> (r: String)
    ensures
        r@ == base64url(sha256(vstd::utf8::encode_utf8(access_token@))),
        r@.len() == 43,
        forall|i: int| 0 <= i < r@.len() ==> url_safe_char(#[trigger] r@[i]),
{
    let digest = sha256_digest(access_token.as_bytes());
    proof {
        lemma_base64url_shape(digest@);
    }
    base64url_encode(digest.as_slice())
}

/// A fresh state for an authorization request: the base64url text of 16
/// random bytes, 22 URL-safe characters.
pub fn generate_state() -> (r: String)
    ensures
        exists|raw: Seq<u8>| raw.len() == 16 && r@ == base64url(raw),
        r@.len() == 22,
        forall|i: int| 0 <= i < r@.len() ==> url_safe_char(#[trigger] r@[i]),
{
    let bytes = random_bytes(16);
    proof {
        lemma_base64url_shape(bytes@);
    }
    let s = base64url_encode(bytes.as_slice());
    assert(bytes@.len() == 16 && s@ == base64url(bytes@));
    s
}

/// A PKCE pair: a verifier that is the base64url text of 32 random bytes,
/// and its S256 challenge, the base64url text of the SHA-256 of the
/// verifier's bytes.
pub open spec fn pkce_pair(verifier: Seq<char>, challenge: Seq<char>) -> bool {
    &&& exists|raw: Seq<u8>| raw.len() == 32 && verifier == base64url(raw)
    &&& challenge == base64url(sha256(vstd::utf8::encode_utf8(verifier)))
}

impl PKCEParams {
    /// Generates a fresh verifier and its challenge.
    pub fn generate() -> (r: Result<Self, AuthError>)
        ensures
            r matches Ok(p) && pkce_pair(p.code_verifier@, p.code_challenge@),
            r matches Ok(p) ==> p.code_verifier@.len() == 43 && p.code_challenge@.len() == 43,
            r matches Ok(p) ==> forall|i: int| 0 <= i < p.code_verifier@.len() ==> url_safe_char(#[trigger] p.code_verifier@[i]),
            r matches Ok(p) ==> forall|i: int| 0 <= i < p.code_challenge@.len() ==> url_safe_char(#[trigger] p.code_challenge@[i]),
    {
        let verifier_bytes = random_bytes(32);
        let code_verifier = base64url_encode(verifier_bytes.as_slice());
        let challenge_bytes = sha256_digest(code_verifier.as_str().as_bytes());
        let code_challenge = base64url_encode(challenge_bytes.as_slice());
        proof {
            lemma_base64url_shape(verifier_bytes@);
            lemma_base64url_shape(challenge_bytes@);
        }
        assert(verifier_bytes@.len() == 32 && code_verifier@ == base64url(verifier_bytes@));
        Ok(PKCEParams { code_verifier, code_challenge })
    }
}

/// An OAuth client of the Bluesky authorization server: who it is, where it
/// is called back, and the two endpoints.
pub struct OAuthClient {
    pub client_id: String,
    pub redirect_uri: String,
    pub auth_endpoint: String,
    pub token_endpoint: String,
}

/// The redirect URI for a callback on a local port.
pub open spec fn local_callback(port: u16) -> Seq<char> {
    "http://localhost:"@ + crate::text::decimal(port as nat) + "/callback"@
}

/// `key=value` with the value percent-encoded.
pub open spec fn query_pair(key: Seq<char>, value: Seq<char>) -> Seq<char> {
    key + "="@ + url_encoded(value)
}

/// The query of an authorization URL: response type, client, redirect,
/// scope, state, challenge and method, then the login hint if there is one,
/// each value percent-encoded, joined by `&`.
pub open spec fn authorization_query(
    client_id: Seq<char>,
    redirect_uri: Seq<char>,
    state: Seq<char>,
    challenge: Seq<char>,
    hint: Option<Seq<char>>,
) -> Seq<char> {
    let base = query_pair("response_type"@, "code"@) + "&"@ + query_pair("client_id"@, client_id) + "&"@
        + query_pair("redirect_uri"@, redirect_uri) + "&"@ + query_pair("scope"@, "atproto transition:generic"@) + "&"@
        + query_pair("state"@, state) + "&"@ + query_pair("code_challenge"@, challenge) + "&"@
        + query_pair("code_challenge_method"@, "S256"@);
    match hint {
        Some(h) => base + "&"@ + query_pair("login_hint"@, h),
        None => base,
    }
}

/// Appends `key=value`, the value percent-encoded, to `out`.
fn push_query_pair(out: &mut String, key: &str, value: &str)
    ensures
        final(out)@ == old(out)@ + query_pair(key@, value@),
{
    push_str(out, key);
    push_str(out, "=");
    let enc = url_encode(value);
    push_str(out, enc.as_str());
}

impl OAuthClient {
    /// The device authorization endpoint: the token endpoint with each
    /// `/token` replaced by `/device/code`.
    pub fn device_endpoint(&self) -> (r: String)
        ensures
            r@ == replace_all(self.token_endpoint@, "/token"@, "/device/code"@),
    {
        proof {
            reveal_strlit("/token");
        }
        replace_str(self.token_endpoint.as_str(), "/token", "/device/code")
    }

    /// The client of the autoreply tool at `bsky.social`, called back on
    /// port 8080.
    pub fn new() -> (c: Self)
        ensures
            c.client_id@ == "autoreply-mcp-client"@,
            c.redirect_uri@ == "http://localhost:8080/callback"@,
            c.auth_endpoint@ == "https://bsky.social/oauth/authorize"@,
            c.token_endpoint@ == "https://bsky.social/oauth/token"@,
    {
        OAuthClient {
            client_id: owned("autoreply-mcp-client"),
            redirect_uri: owned("http://localhost:8080/callback"),
            auth_endpoint: owned("https://bsky.social/oauth/authorize"),
            token_endpoint: owned("https://bsky.social/oauth/token"),
        }
    }

    /// Starts a PKCE authorization: takes the request's PKCE pair or makes
    /// one, its state or a random one, moves the callback to the request's
    /// port if it names one, and builds the URL to send the user to.
    pub fn start_authorization_flow(&mut self, req: AuthorizationRequest) -> (r: Result<AuthorizationResponse, AuthError>)
        ensures
            final(self).client_id == old(self).client_id,
            final(self).auth_endpoint == old(self).auth_endpoint,
            final(self).token_endpoint == old(self).token_endpoint,
            final(self).redirect_uri@ == match req.callback_port {
                Some(port) => local_callback(port),
                None => old(self).redirect_uri@,
            },
            r is Ok,
            r matches Ok(resp) ==> match req.pkce_params {
                Some(p) => resp.code_verifier@ == p.code_verifier@,
                None => true,
            },
            r matches Ok(resp) ==> match req.state {
                Some(s) => resp.state@ == s@,
                None => exists|raw: Seq<u8>| raw.len() == 16 && resp.state@ == base64url(raw),
            },
            r matches Ok(resp) ==> (req.pkce_params is None ==> exists|raw: Seq<u8>|
                raw.len() == 32 && resp.code_verifier@ == base64url(raw)),
            r matches Ok(resp) ==> resp.auth_url@ == old(self).auth_endpoint@ + "?"@ + authorization_query(
                old(self).client_id@,
                final(self).redirect_uri@,
                resp.state@,
                match req.pkce_params {
                    Some(p) => p.code_challenge@,
                    None => base64url(sha256(vstd::utf8::encode_utf8(resp.code_verifier@))),
                },
                opt_view(req.handle),
            ),
    {
        let pkce_params = match req.pkce_params {
            Some(params) => params,
            None => match PKCEParams::generate() {
                Ok(p) => p,
                Err(e) => {
                    return Err(e);
                },
            },
        };
        let state = match req.state {
            Some(s) => s,
            None => {
                let state_bytes = random_bytes(16);
                let s = base64url_encode(state_bytes.as_slice());
                assert(state_bytes@.len() == 16 && s@ == base64url(state_bytes@));
                s
            },
        };
        if let Some(port) = req.callback_port {
            let mut uri = owned("http://localhost:");
            crate::text::push_decimal(&mut uri, port as u64);
            push_str(&mut uri, "/callback");
            self.redirect_uri = uri;
        }
        let mut query = String::new();
        let ghost q0 = query@;
        push_query_pair(&mut query, "response_type", "code");
        assert(query@ =~= query_pair("response_type"@, "code"@));
        push_str(&mut query, "&");
        push_query_pair(&mut query, "client_id", self.client_id.as_str());
        push_str(&mut query, "&");
        push_query_pair(&mut query, "redirect_uri", self.redirect_uri.as_str());
        push_str(&mut query, "&");
        push_query_pair(&mut query, "scope", "atproto transition:generic");
        push_str(&mut query, "&");
        push_query_pair(&mut query, "state", state.as_str());
        push_str(&mut query, "&");
        push_query_pair(&mut query, "code_challenge", pkce_params.code_challenge.as_str());
        push_str(&mut query, "&");
        push_query_pair(&mut query, "code_challenge_method", "S256");
        if let Some(handle) = &req.handle {
            push_str(&mut query, "&");
            push_query_pair(&mut query, "login_hint", handle.as_str());
        }
        let mut auth_url = crate::text::owned(self.auth_endpoint.as_str());
        push_str(&mut auth_url, "?");
        push_str(&mut auth_url, query.as_str());
        let ghost challenge = pkce_params.code_challenge@;
        assert(query@ =~= authorization_query(self.client_id@, self.redirect_uri@, state@, challenge, opt_view(req.handle)));
        assert(auth_url@ =~= self.auth_endpoint@ + "?"@ + authorization_query(
            self.client_id@, self.redirect_uri@, state@, challenge, opt_view(req.handle)));
        let resp = AuthorizationResponse { auth_url, state, code_verifier: pkce_params.code_verifier };
        assert(match req.pkce_params {
            Some(p) => challenge == p.code_challenge@,
            None => pkce_pair(resp.code_verifier@, challenge),
        });
        assert(match req.state {
            Some(s) => resp.state@ == s@,
            None => exists|raw: Seq<u8>| raw.len() == 16 && resp.state@ == base64url(raw),
        });
        Ok(resp)
    }
}

} // verus!
