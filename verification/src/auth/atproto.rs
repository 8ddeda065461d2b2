//! The decisions of AT Protocol OAuth: discovering the authorization server,
//! the parameters of the pushed authorization request and of the token
//! exchange, the DPoP nonce and its one retry, the URL the user opens, and
//! what the browser's callback leads to. The caller makes the requests,
//! signs the DPoP proofs and waits for the callback.
use vstd::prelude::*;
use crate::auth::oauth::{url_encode, url_encoded};
use crate::auth::types::AuthError;
use crate::strings::{contains_seq, contains_str};
use crate::text::{owned, push_str, str_eq};

verus! {

/// An AT Protocol OAuth client, known by its client id.
pub struct AtProtoOAuthClient {
    pub client_id: String,
}

/// What an authorization server says of itself.
#[derive(Debug, Clone)]
pub struct OAuthServerMetadata {
    pub issuer: String,
    pub authorization_endpoint: String,
    pub token_endpoint: String,
    pub pushed_authorization_request_endpoint: Option<String>,
    pub dpop_signing_alg_values_supported: Option<Vec<String>>,
    pub response_types_supported: Vec<String>,
    pub grant_types_supported: Vec<String>,
    pub code_challenge_methods_supported: Vec<String>,
}

/// The answer to a pushed authorization request.
#[derive(Debug, Clone)]
pub struct PARResponse {
    pub request_uri: String,
    pub expires_in: i64,
}

/// The URL that sends the user to authorize a pushed request.
pub open spec fn par_authorization_url(endpoint: Seq<char>, client_id: Seq<char>, request_uri: Seq<char>) -> Seq<char> {
    endpoint + "?client_id="@ + url_encoded(client_id) + "&request_uri="@ + url_encoded(request_uri)
}

/// The URL that sends the user to authorize a pushed request.
fn authorization_url(endpoint: &str, client_id: &str, request_uri: &str) -> (r: String)
    ensures
        r@ == par_authorization_url(endpoint@, client_id@, request_uri@),
{
    let mut url = owned(endpoint);
    push_str(&mut url, "?client_id=");
    let c = url_encode(client_id);
    push_str(&mut url, c.as_str());
    push_str(&mut url, "&request_uri=");
    let q = url_encode(request_uri);
    push_str(&mut url, q.as_str());
    url
}

impl AtProtoOAuthClient {
    /// A client with the given id.
    pub fn new(client_id: String) -> (c: Self)
        ensures
            c.client_id == client_id,
    {
        AtProtoOAuthClient { client_id }
    }

    /// The URL that sends the user to authorize the pushed request
    /// `par_response` at the server described by `metadata`.
    pub fn build_authorization_url(&self, metadata: &OAuthServerMetadata, par_response: &PARResponse) -> (r: String)
        ensures
            r@ == par_authorization_url(
                metadata.authorization_endpoint@,
                self.client_id@,
                par_response.request_uri@,
            ),
    {
        authorization_url(metadata.authorization_endpoint.as_str(), self.client_id.as_str(), par_response.request_uri.as_str())
    }
}

/// The scope this tool asks for.
pub open spec fn atproto_scope() -> Seq<char> {
    "atproto transition:generic"@
}

/// The client id of a tool on the loopback interface: `http://localhost`
/// with its redirect URI and scope as query parameters.
pub open spec fn loopback_client_id(redirect_uri: Seq<char>, scope: Seq<char>) -> Seq<char> {
    "http://localhost?redirect_uri="@ + url_encoded(redirect_uri) + "&scope="@ + url_encoded(scope)
}

/// The settings of the AT Protocol OAuth flow.
pub struct AtProtoOAuthConfig {
    pub client_id: String,
    pub redirect_uri: String,
    pub scope: String,
}

impl AtProtoOAuthConfig {
    /// The loopback client of a tool run locally, before its callback port
    /// is known.
    pub fn loopback() -> (c: Self)
        ensures
            c.client_id@ == "http://localhost"@,
            c.redirect_uri@ == "http://127.0.0.1/callback"@,
            c.scope@ == atproto_scope(),
    {
        AtProtoOAuthConfig {
            client_id: owned("http://localhost"),
            redirect_uri: owned("http://127.0.0.1/callback"),
            scope: owned("atproto transition:generic"),
        }
    }

    /// Sets the redirect URI once the callback port is known; the client id
    /// then carries the redirect URI and the scope.
    pub fn set_redirect_uri(&mut self, redirect_uri: String)
        ensures
            final(self).redirect_uri == redirect_uri,
            final(self).client_id@ == loopback_client_id(redirect_uri@, old(self).scope@),
            final(self).scope == old(self).scope,
    {
        let mut id = owned("http://localhost?redirect_uri=");
        let r = url_encode(redirect_uri.as_str());
        push_str(&mut id, r.as_str());
        push_str(&mut id, "&scope=");
        let s = url_encode(self.scope.as_str());
        push_str(&mut id, s.as_str());
        self.client_id = id;
        self.redirect_uri = redirect_uri;
    }
}

/// The views of form parameters.
pub open spec fn form_view(params: Seq<(String, String)>) -> Seq<(Seq<char>, Seq<char>)> {
    Seq::new(params.len(), |i: int| (params[i].0@, params[i].1@))
}

/// The form of a pushed authorization request.
pub open spec fn par_form(config: AtProtoOAuthConfig, challenge: Seq<char>, state: Seq<char>) -> Seq<(Seq<char>, Seq<char>)> {
    seq![
        ("response_type"@, "code"@),
        ("client_id"@, config.client_id@),
        ("redirect_uri"@, config.redirect_uri@),
        ("code_challenge"@, challenge),
        ("code_challenge_method"@, "S256"@),
        ("state"@, state),
        ("scope"@, config.scope@),
    ]
}

/// The form of the exchange of an authorization code for tokens.
pub open spec fn token_form(config: AtProtoOAuthConfig, code: Seq<char>, verifier: Seq<char>) -> Seq<(Seq<char>, Seq<char>)> {
    seq![
        ("grant_type"@, "authorization_code"@),
        ("code"@, code),
        ("client_id"@, config.client_id@),
        ("redirect_uri"@, config.redirect_uri@),
        ("code_verifier"@, verifier),
    ]
}

fn pair(k: &str, v: &str) -> (p: (String, String))
    ensures
        p.0@ == k@,
        p.1@ == v@,
{
    (owned(k), owned(v))
}

/// The form of a pushed authorization request with the given PKCE
/// challenge and state.
pub fn par_params(config: &AtProtoOAuthConfig, code_challenge: &str, state: &str) -> (r: Vec<(String, String)>)
    ensures
        form_view(r@) == par_form(*config, code_challenge@, state@),
{
    let mut v: Vec<(String, String)> = Vec::new();
    v.push(pair("response_type", "code"));
    v.push(pair("client_id", config.client_id.as_str()));
    v.push(pair("redirect_uri", config.redirect_uri.as_str()));
    v.push(pair("code_challenge", code_challenge));
    v.push(pair("code_challenge_method", "S256"));
    v.push(pair("state", state));
    v.push(pair("scope", config.scope.as_str()));
    assert(form_view(v@) =~= par_form(*config, code_challenge@, state@));
    v
}

/// The form that exchanges an authorization code for tokens.
pub fn token_params(config: &AtProtoOAuthConfig, code: &str, code_verifier: &str) -> (r: Vec<(String, String)>)
    ensures
        form_view(r@) == token_form(*config, code@, code_verifier@),
{
    let mut v: Vec<(String, String)> = Vec::new();
    v.push(pair("grant_type", "authorization_code"));
    v.push(pair("code", code));
    v.push(pair("client_id", config.client_id.as_str()));
    v.push(pair("redirect_uri", config.redirect_uri.as_str()));
    v.push(pair("code_verifier", code_verifier));
    assert(form_view(v@) =~= token_form(*config, code@, code_verifier@));
    v
}

} // verus!

verus! {

/// The advice closing a discovery error: OAuth may be missing on the server.
pub open spec fn try_password_hint() -> Seq<char> {
    ". The server may not support AT Protocol OAuth yet. Please try --method password instead."@
}

/// The advice closing a discovery timeout.
pub open spec fn use_password_hint() -> Seq<char> {
    ". The server may not support AT Protocol OAuth yet. Please use --method password instead."@
}

/// Where a PDS describes the resource it protects.
pub open spec fn protected_resource_url(pds_url: Seq<char>) -> Seq<char> {
    pds_url + "/.well-known/oauth-protected-resource"@
}

/// Where an authorization server describes itself.
pub open spec fn server_metadata_url(server: Seq<char>) -> Seq<char> {
    server + "/.well-known/oauth-authorization-server"@
}

/// The next thing discovery needs: a document fetched (with a ten-second
/// limit), the server's description as the answer, or an error.
pub enum MetadataStep {
    Fetch { url: String },
    Found,
    Fail(String),
}

/// What came of fetching a discovery document.
pub enum DocumentAnswer<T> {
    /// The request failed; the transport's message.
    Failed(String),
    /// No answer within ten seconds.
    TimedOut,
    /// An unsuccessful status, as text, and the body (empty when unreadable).
    BadStatus { status: String, body: String },
    /// The body could not be decoded.
    Undecodable,
    /// The decoded document.
    Decoded(T),
}

/// Discovery begins with the PDS's protected-resource document.
pub fn start_metadata_discovery(pds_url: &str) -> (r: MetadataStep)
    ensures
        r matches MetadataStep::Fetch { url } && url@ == protected_resource_url(pds_url@),
{
    let mut url = owned(pds_url);
    push_str(&mut url, "/.well-known/oauth-protected-resource");
    MetadataStep::Fetch { url }
}

/// The error of a discovery fetch that went wrong: `what` names the
/// document, `topic` the discovery, `url` where it was fetched, `at` what a
/// timeout names.
pub open spec fn discovery_failure(answer_kind: int, what: Seq<char>, topic: Seq<char>, url: Seq<char>, at: Seq<char>, text: Seq<char>, body: Seq<char>) -> Seq<char> {
    if answer_kind == 0 {
        "Failed to fetch OAuth "@ + what + " metadata from "@ + url + ": "@ + text + try_password_hint()
    } else if answer_kind == 1 {
        "OAuth "@ + topic + " discovery timed out after 10 seconds at "@ + at + use_password_hint()
    } else if answer_kind == 2 {
        "OAuth "@ + topic + " discovery failed with status "@ + text + " from "@ + url + ". Response: "@ + body
            + try_password_hint()
    } else {
        "Failed to decode OAuth "@ + what + " metadata from "@ + url
    }
}

/// The error text of a fetch that did not decode, by the kind of answer
/// (0 failed, 1 timed out, 2 bad status, 3 undecodable).
fn failure_text(answer_kind: u8, what: &str, topic: &str, url: &str, at: &str, text: &str, body: &str) -> (r: String)
    requires
        answer_kind <= 3,
    ensures
        r@ == discovery_failure(answer_kind as int, what@, topic@, url@, at@, text@, body@),
{
    if answer_kind == 0 {
        let mut m = owned("Failed to fetch OAuth ");
        push_str(&mut m, what);
        push_str(&mut m, " metadata from ");
        push_str(&mut m, url);
        push_str(&mut m, ": ");
        push_str(&mut m, text);
        push_str(&mut m, ". The server may not support AT Protocol OAuth yet. Please try --method password instead.");
        m
    } else if answer_kind == 1 {
        let mut m = owned("OAuth ");
        push_str(&mut m, topic);
        push_str(&mut m, " discovery timed out after 10 seconds at ");
        push_str(&mut m, at);
        push_str(&mut m, ". The server may not support AT Protocol OAuth yet. Please use --method password instead.");
        m
    } else if answer_kind == 2 {
        let mut m = owned("OAuth ");
        push_str(&mut m, topic);
        push_str(&mut m, " discovery failed with status ");
        push_str(&mut m, text);
        push_str(&mut m, " from ");
        push_str(&mut m, url);
        push_str(&mut m, ". Response: ");
        push_str(&mut m, body);
        push_str(&mut m, ". The server may not support AT Protocol OAuth yet. Please try --method password instead.");
        m
    } else {
        let mut m = owned("Failed to decode OAuth ");
        push_str(&mut m, what);
        push_str(&mut m, " metadata from ");
        push_str(&mut m, url);
        m
    }
}

/// The error of an answer that is not a decoded document.
pub open spec fn answer_failure<T>(a: DocumentAnswer<T>, what: Seq<char>, topic: Seq<char>, url: Seq<char>, at: Seq<char>) -> Seq<char> {
    match a {
        DocumentAnswer::Failed(t) => discovery_failure(0, what, topic, url, at, t@, Seq::empty()),
        DocumentAnswer::TimedOut => discovery_failure(1, what, topic, url, at, Seq::empty(), Seq::empty()),
        DocumentAnswer::BadStatus { status, body } => discovery_failure(2, what, topic, url, at, status@, body@),
        _ => discovery_failure(3, what, topic, url, at, Seq::empty(), Seq::empty()),
    }
}

/// After the protected-resource document of the PDS at `pds_url`: the first
/// authorization server it lists is asked for its description; a failure,
/// or an empty list, is the error.
pub fn on_protected_resource(pds_url: &str, answer: DocumentAnswer<Vec<String>>) -> (r: MetadataStep)
    ensures
        match answer {
            DocumentAnswer::Decoded(servers) => if servers@.len() == 0 {
                r matches MetadataStep::Fail(m) && m@ == "No authorization servers found in protected resource metadata from "@
                    + protected_resource_url(pds_url@) + try_password_hint()
            } else {
                r matches MetadataStep::Fetch { url } && url@ == server_metadata_url(servers@[0]@)
            },
            _ => r matches MetadataStep::Fail(m) && m@ == answer_failure(
                answer,
                "protected resource"@,
                "protected resource"@,
                protected_resource_url(pds_url@),
                pds_url@,
            ),
        },
{
    let mut url = owned(pds_url);
    push_str(&mut url, "/.well-known/oauth-protected-resource");
    let what = "protected resource";
    let topic = "protected resource";
    match answer {
        DocumentAnswer::Decoded(servers) => {
            if servers.len() == 0 {
                let mut m = owned("No authorization servers found in protected resource metadata from ");
                push_str(&mut m, url.as_str());
                push_str(&mut m, ". The server may not support AT Protocol OAuth yet. Please try --method password instead.");
                MetadataStep::Fail(m)
            } else {
                let mut next = owned(servers[0].as_str());
                push_str(&mut next, "/.well-known/oauth-authorization-server");
                MetadataStep::Fetch { url: next }
            }
        },
        DocumentAnswer::Failed(t) => MetadataStep::Fail(failure_text(0, what, topic, url.as_str(), pds_url, t.as_str(), "")),
        DocumentAnswer::TimedOut => MetadataStep::Fail(failure_text(1, what, topic, url.as_str(), pds_url, "", "")),
        DocumentAnswer::BadStatus { status, body } => MetadataStep::Fail(
            failure_text(2, what, topic, url.as_str(), pds_url, status.as_str(), body.as_str()),
        ),
        DocumentAnswer::Undecodable => MetadataStep::Fail(failure_text(3, what, topic, url.as_str(), pds_url, "", "")),
    }
}

/// After the description of the authorization server `server`: a decoded
/// description is the answer; anything else is the error.
pub fn on_server_metadata(server: &str, answer: DocumentAnswer<()>) -> (r: MetadataStep)
    ensures
        match answer {
            DocumentAnswer::Decoded(_) => r is Found,
            _ => r matches MetadataStep::Fail(m) && m@ == answer_failure(
                answer,
                "authorization server"@,
                "authorization server metadata"@,
                server_metadata_url(server@),
                server@,
            ),
        },
{
    let mut url = owned(server);
    push_str(&mut url, "/.well-known/oauth-authorization-server");
    let what = "authorization server";
    let topic = "authorization server metadata";
    match answer {
        DocumentAnswer::Decoded(_) => MetadataStep::Found,
        DocumentAnswer::Failed(t) => MetadataStep::Fail(failure_text(0, what, topic, url.as_str(), server, t.as_str(), "")),
        DocumentAnswer::TimedOut => MetadataStep::Fail(failure_text(1, what, topic, url.as_str(), server, "", "")),
        DocumentAnswer::BadStatus { status, body } => MetadataStep::Fail(
            failure_text(2, what, topic, url.as_str(), server, status.as_str(), body.as_str()),
        ),
        DocumentAnswer::Undecodable => MetadataStep::Fail(failure_text(3, what, topic, url.as_str(), server, "", "")),
    }
}

} // verus!

verus! {

/// The two requests made with a DPoP proof.
#[derive(Debug, Clone, Copy, PartialEq, Eq, Structural)]
pub enum DpopRequest {
    /// The pushed authorization request.
    Par,
    /// The exchange of an authorization code for tokens.
    Token,
}

/// What the server answered to a request made with a DPoP proof.
pub enum DpopAnswer {
    /// The request failed in transport; the transport's message.
    Failed(String),
    /// The server answered: its `dpop-nonce` header (when present and
    /// readable as text), whether the status was a success, and the body
    /// (`None` when it could not be read).
    Answered { nonce: Option<String>, ok: bool, body: Option<String> },
}

/// The next thing a DPoP request needs.
pub enum DpopStep {
    /// Send the request with a fresh proof carrying the exchange's nonce,
    /// if it has one.
    Send,
    /// The request succeeded: decode its body.
    Succeeded,
    /// The request failed with this error.
    Fail(AuthError),
}

/// A request made with a DPoP proof: the server may ask for a nonce, and the
/// request is then sent once more with it.
pub struct DpopExchange {
    pub kind: DpopRequest,
    pub nonce: Option<String>,
    pub retried: bool,
}

/// Whether an error answer asks for the request to be made again with the
/// server's nonce.
pub open spec fn asks_for_nonce(kind: DpopRequest, text: Seq<char>) -> bool {
    contains_seq(text, "use_dpop_nonce"@) || (kind == DpopRequest::Token && contains_seq(text, "invalid_dpop_proof"@))
}

/// The error text of an answer whose body could not be read.
pub open spec fn answer_text(body: Option<String>) -> Seq<char> {
    match body {
        Some(b) => b@,
        None => "Unknown error"@,
    }
}

/// What a failed transport is reported as.
pub open spec fn transport_label(kind: DpopRequest, retried: bool) -> Seq<char> {
    match (kind, retried) {
        (DpopRequest::Par, false) => "PAR request failed: "@,
        (DpopRequest::Par, true) => "PAR retry failed: "@,
        (DpopRequest::Token, false) => "Token exchange failed: "@,
        (DpopRequest::Token, true) => "Token exchange retry failed: "@,
    }
}

/// What a refused request is reported as.
pub open spec fn refusal_label(kind: DpopRequest, retried: bool) -> Seq<char> {
    match (kind, retried) {
        (DpopRequest::Par, false) => "PAR failed: "@,
        (DpopRequest::Par, true) => "PAR failed after retry: "@,
        (DpopRequest::Token, false) => "Token exchange failed: "@,
        (DpopRequest::Token, true) => "Token exchange failed after retry: "@,
    }
}

/// What a body that does not decode is reported as.
pub open spec fn decode_label(kind: DpopRequest) -> Seq<char> {
    match kind {
        DpopRequest::Par => "Failed to parse PAR response: "@,
        DpopRequest::Token => "Failed to parse token response: "@,
    }
}

/// The error of a successful answer whose body does not decode, with the
/// decoder's message.
pub fn decode_failure(kind: DpopRequest, text: &str) -> (e: AuthError)
    ensures
        e matches AuthError::ParseError(m) && m@ == decode_label(kind) + text@,
{
    let mut m = match kind {
        DpopRequest::Par => owned("Failed to parse PAR response: "),
        DpopRequest::Token => owned("Failed to parse token response: "),
    };
    push_str(&mut m, text);
    AuthError::ParseError(m)
}

impl DpopExchange {
    /// The first sending of a request, with the nonce kept from earlier
    /// requests, if any.
    pub fn start(kind: DpopRequest, nonce: Option<String>) -> (r: (DpopExchange, DpopStep))
        ensures
            r.0.kind == kind,
            r.0.nonce == nonce,
            !r.0.retried,
            r.1 is Send,
    {
        (DpopExchange { kind, nonce, retried: false }, DpopStep::Send)
    }

    /// What an answer leads to. On the first answer a nonce the server sends
    /// is kept; success is final; an error answer that asks for the nonce
    /// leads to one more sending with the nonce kept; any other failure is
    /// the error. The second answer is final either way, and its nonce is
    /// not kept.
    pub fn on_answer(&mut self, answer: DpopAnswer) -> (r: DpopStep)
        ensures
            final(self).kind == old(self).kind,
            match answer {
                DpopAnswer::Failed(t) => final(self).nonce == old(self).nonce && final(self).retried == old(self).retried
                    && (r matches DpopStep::Fail(AuthError::NetworkError(m))
                    && m@ == transport_label(old(self).kind, old(self).retried) + t@),
                DpopAnswer::Answered { nonce, ok, body } => {
                    let kept = if !old(self).retried && nonce is Some { nonce } else { old(self).nonce };
                    &&& final(self).nonce == kept
                    &&& if ok {
                        r is Succeeded && final(self).retried == old(self).retried
                    } else if !old(self).retried && asks_for_nonce(old(self).kind, answer_text(body)) {
                        final(self).retried && r is Send
                    } else {
                        final(self).retried == old(self).retried && (r matches DpopStep::Fail(AuthError::OAuthError(m))
                            && m@ == refusal_label(old(self).kind, old(self).retried) + answer_text(body))
                    }
                },
            },
    {
        match answer {
            DpopAnswer::Failed(t) => {
                let mut m = match (self.kind, self.retried) {
                    (DpopRequest::Par, false) => owned("PAR request failed: "),
                    (DpopRequest::Par, true) => owned("PAR retry failed: "),
                    (DpopRequest::Token, false) => owned("Token exchange failed: "),
                    (DpopRequest::Token, true) => owned("Token exchange retry failed: "),
                };
                push_str(&mut m, t.as_str());
                DpopStep::Fail(AuthError::NetworkError(m))
            },
            DpopAnswer::Answered { nonce, ok, body } => {
                if !self.retried {
                    if let Some(n) = nonce {
                        self.nonce = Some(n);
                    }
                }
                if ok {
                    return DpopStep::Succeeded;
                }
                let text = match body {
                    Some(b) => b,
                    None => owned("Unknown error"),
                };
                let asks = contains_str(text.as_str(), "use_dpop_nonce") || (match self.kind {
                    DpopRequest::Token => contains_str(text.as_str(), "invalid_dpop_proof"),
                    DpopRequest::Par => false,
                });
                if !self.retried && asks {
                    self.retried = true;
                    return DpopStep::Send;
                }
                let mut m = match (self.kind, self.retried) {
                    (DpopRequest::Par, false) => owned("PAR failed: "),
                    (DpopRequest::Par, true) => owned("PAR failed after retry: "),
                    (DpopRequest::Token, false) => owned("Token exchange failed: "),
                    (DpopRequest::Token, true) => owned("Token exchange failed after retry: "),
                };
                push_str(&mut m, text.as_str());
                DpopStep::Fail(AuthError::OAuthError(m))
            },
        }
    }
}

} // verus!

verus! {

/// What the user is told once the browser flow has begun.
pub open spec fn oauth_started_message(auth_url: Seq<char>, port: u16) -> Seq<char> {
    "# OAuth Login Initiated\n\n1. Open this URL in your browser:\n   "@ + auth_url
        + "\n\n2. Authorize the application.\n\nWaiting for authorization on port "@ + crate::text::decimal(port as nat)
        + "..."@
}

/// The message that the browser flow has begun.
pub fn oauth_started(auth_url: &str, port: u16) -> (m: String)
    ensures
        m@ == oauth_started_message(auth_url@, port),
{
    let mut m = owned("# OAuth Login Initiated\n\n1. Open this URL in your browser:\n   ");
    push_str(&mut m, auth_url);
    push_str(&mut m, "\n\n2. Authorize the application.\n\nWaiting for authorization on port ");
    crate::text::push_decimal(&mut m, port as u64);
    push_str(&mut m, "...");
    m
}

/// What the browser's redirect brought back.
pub enum CallbackResult {
    /// An authorization code and the state it came with.
    Success { code: String, state: String },
    /// An error, with its description if any.
    Error { error: String, description: Option<String> },
}

/// What the query of the browser's redirect means: an `error` parameter is
/// an error, with its `error_description`; otherwise a code and a state are
/// a success; anything else is an invalid request.
pub fn callback_from_params(
    code: Option<String>,
    state: Option<String>,
    error: Option<String>,
    error_description: Option<String>,
) -> (r: CallbackResult)
    ensures
        match error {
            Some(e) => r == CallbackResult::Error { error: e, description: error_description },
            None => match (code, state) {
                (Some(c), Some(s)) => r == CallbackResult::Success { code: c, state: s },
                _ => r matches CallbackResult::Error { error: e, description: Some(d) } && e@ == "invalid_request"@
                    && d@ == "Missing code or state parameter"@,
            },
        },
{
    if let Some(e) = error {
        CallbackResult::Error { error: e, description: error_description }
    } else {
        match (code, state) {
            (Some(c), Some(s)) => CallbackResult::Success { code: c, state: s },
            _ => CallbackResult::Error {
                error: owned("invalid_request"),
                description: Some(owned("Missing code or state parameter")),
            },
        }
    }
}

/// The redirect URI of a callback server on the loopback interface.
pub fn loopback_callback_url(port: u16) -> (r: String)
    ensures
        r@ == "http://127.0.0.1:"@ + crate::text::decimal(port as nat),
{
    let mut r = owned("http://127.0.0.1:");
    crate::text::push_decimal(&mut r, port as u64);
    r
}

/// What the callback leads to: exchanging the code, or giving up with a
/// warning.
pub enum CallbackStep {
    Exchange { code: String },
    Abandon(String),
}

/// After the callback (or the failure to receive one, with its message): a
/// code whose state is the one sent is exchanged; anything else is given up
/// with a warning.
pub fn on_callback(expected_state: &str, result: Result<CallbackResult, String>) -> (r: CallbackStep)
    ensures
        match result {
            Ok(CallbackResult::Success { code, state }) => if state@ == expected_state@ {
                r matches CallbackStep::Exchange { code: c } && c == code
            } else {
                r matches CallbackStep::Abandon(m) && m@ == "OAuth background task: State parameter mismatch"@
            },
            Ok(CallbackResult::Error { error, description }) => r matches CallbackStep::Abandon(m)
                && m@ == "OAuth background task: Authorization failed: "@ + error@ + " - "@ + match description {
                    Some(d) => d@,
                    None => "No description"@,
                },
            Err(e) => r matches CallbackStep::Abandon(m) && m@ == "OAuth background task: Callback failed: "@ + e@,
        },
{
    match result {
        Ok(CallbackResult::Success { code, state }) => {
            if str_eq(state.as_str(), expected_state) {
                CallbackStep::Exchange { code }
            } else {
                CallbackStep::Abandon(owned("OAuth background task: State parameter mismatch"))
            }
        },
        Ok(CallbackResult::Error { error, description }) => {
            let mut m = owned("OAuth background task: Authorization failed: ");
            push_str(&mut m, error.as_str());
            push_str(&mut m, " - ");
            match &description {
                Some(d) => push_str(&mut m, d.as_str()),
                None => push_str(&mut m, "No description"),
            }
            CallbackStep::Abandon(m)
        },
        Err(e) => {
            let mut m = owned("OAuth background task: Callback failed: ");
            push_str(&mut m, e.as_str());
            CallbackStep::Abandon(m)
        },
    }
}

/// The handle a session is stored under after the browser flow: the last
/// `:`-separated part of the DID.
pub fn session_handle(did: &str) -> (h: String)
    ensures
        h@ == crate::strings::split_on(did@, ':').last(),
{
    let parts = crate::strings::split_str(did, ':');
    proof {
        crate::strings::lemma_split_nonempty(did@, ':');
    }
    owned(parts[parts.len() - 1].as_str())
}

} // verus!
