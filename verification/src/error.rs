//! Application errors, their codes and messages, and input validation.
use vstd::prelude::*;
use unicode_normalization::UnicodeNormalization;
use crate::strings::{has_prefix, split_on};
use crate::text::{chars_of, owned, push_str};

verus! {

/// Errors reported to users of the tools.
#[derive(Debug)]
pub enum AppError {
    InvalidInput(String),
    DidResolveFailed(String),
    RepoFetchFailed(String),
    RepoParseFailed(String),
    NotFound(String),
    Timeout(String),
    CacheError(String),
    HttpClientInitialization(String),
    NetworkError(String),
    Internal(String),
}

/// The label that opens the message of each kind of error.
pub open spec fn error_label(e: AppError) -> Seq<char> {
    match e {
        AppError::InvalidInput(_) => "Invalid input: "@,
        AppError::DidResolveFailed(_) => "DID resolution failed: "@,
        AppError::RepoFetchFailed(_) => "Repository fetch failed: "@,
        AppError::RepoParseFailed(_) => "Repository parse failed: "@,
        AppError::NotFound(_) => "Not found: "@,
        AppError::Timeout(_) => "Timeout: "@,
        AppError::CacheError(_) => "Cache error: "@,
        AppError::HttpClientInitialization(_) => "HTTP client initialization failed: "@,
        AppError::NetworkError(_) => "Network error: "@,
        AppError::Internal(_) => "Internal error: "@,
    }
}

/// The code of each kind of error, as sent in tool responses.
pub open spec fn error_code_of(e: AppError) -> Seq<char> {
    match e {
        AppError::InvalidInput(_) => "invalid_input"@,
        AppError::DidResolveFailed(_) => "did_resolve_failed"@,
        AppError::RepoFetchFailed(_) => "repo_fetch_failed"@,
        AppError::RepoParseFailed(_) => "repo_parse_failed"@,
        AppError::NotFound(_) => "not_found"@,
        AppError::Timeout(_) => "timeout"@,
        AppError::CacheError(_) => "cache_error"@,
        AppError::HttpClientInitialization(_) => "http_client_initialization"@,
        AppError::NetworkError(_) => "network_error"@,
        AppError::Internal(_) => "internal_error"@,
    }
}

impl AppError {
    /// The detail text carried by the error.
    pub open spec fn detail(&self) -> Seq<char> {
        match self {
            AppError::InvalidInput(m) => m@,
            AppError::DidResolveFailed(m) => m@,
            AppError::RepoFetchFailed(m) => m@,
            AppError::RepoParseFailed(m) => m@,
            AppError::NotFound(m) => m@,
            AppError::Timeout(m) => m@,
            AppError::CacheError(m) => m@,
            AppError::HttpClientInitialization(m) => m@,
            AppError::NetworkError(m) => m@,
            AppError::Internal(m) => m@,
        }
    }

    /// The error's code for tool responses.
    pub fn error_code(&self) -> (c: &'static str)
        ensures
            c@ == error_code_of(*self),
    {
        match self {
            AppError::InvalidInput(_) => "invalid_input",
            AppError::DidResolveFailed(_) => "did_resolve_failed",
            AppError::RepoFetchFailed(_) => "repo_fetch_failed",
            AppError::RepoParseFailed(_) => "repo_parse_failed",
            AppError::NotFound(_) => "not_found",
            AppError::Timeout(_) => "timeout",
            AppError::CacheError(_) => "cache_error",
            AppError::HttpClientInitialization(_) => "http_client_initialization",
            AppError::NetworkError(_) => "network_error",
            AppError::Internal(_) => "internal_error",
        }
    }

    /// The error's message: its label followed by its detail.
    pub fn message(&self) -> (m: String)
        ensures
            m@ == error_label(*self) + self.detail(),
    {
        let (label, detail): (&str, &String) = match self {
            AppError::InvalidInput(m) => ("Invalid input: ", m),
            AppError::DidResolveFailed(m) => ("DID resolution failed: ", m),
            AppError::RepoFetchFailed(m) => ("Repository fetch failed: ", m),
            AppError::RepoParseFailed(m) => ("Repository parse failed: ", m),
            AppError::NotFound(m) => ("Not found: ", m),
            AppError::Timeout(m) => ("Timeout: ", m),
            AppError::CacheError(m) => ("Cache error: ", m),
            AppError::HttpClientInitialization(m) => ("HTTP client initialization failed: ", m),
            AppError::NetworkError(m) => ("Network error: ", m),
            AppError::Internal(m) => ("Internal error: ", m),
        };
        let mut out = owned(label);
        push_str(&mut out, detail.as_str());
        out
    }

    /// An `InvalidInput` error with the given detail.
    pub fn invalid_input(msg: &str) -> (e: AppError)
        ensures
            e matches AppError::InvalidInput(m) && m@ == msg@,
    {
        AppError::InvalidInput(owned(msg))
    }
}

/// Whether `c` is an ASCII letter or digit.
pub open spec fn is_ascii_alnum(c: char) -> bool {
    ('a' <= c && c <= 'z') || ('A' <= c && c <= 'Z') || ('0' <= c && c <= '9')
}

/// Whether `c` is an ASCII letter or digit.
pub fn ascii_alnum(c: char) -> (r: bool)
    ensures
        r == is_ascii_alnum(c),
{
    ('a' <= c && c <= 'z') || ('A' <= c && c <= 'Z') || ('0' <= c && c <= '9')
}

/// Why an account reference is refused, if it is: empty; a `did:plc:` DID
/// that is not 24 ASCII letters and digits after its prefix; a `did:web:`
/// DID with nothing after its prefix; otherwise a handle without a dot, or
/// with an empty part between dots.
pub open spec fn account_problem(a: Seq<char>) -> Option<Seq<char>> {
    if a.len() == 0 {
        Some("Account cannot be empty"@)
    } else if has_prefix(a, "did:plc:"@) {
        if a.len() != 32 || !(forall|i: int| 8 <= i < a.len() ==> is_ascii_alnum(#[trigger] a[i])) {
            Some("Invalid DID format"@)
        } else {
            None
        }
    } else if has_prefix(a, "did:web:"@) {
        if a.len() == 8 {
            Some("Invalid did:web format"@)
        } else {
            None
        }
    } else if !a.contains('.') {
        Some("Invalid handle format, must contain domain"@)
    } else if split_on(a, '.').len() < 2 || exists|i: int| 0 <= i < split_on(a, '.').len() && (#[trigger] split_on(a, '.')[i]).len() == 0 {
        Some("Invalid handle format"@)
    } else {
        None
    }
}

/// Checks an account reference (handle or DID); the error says what is wrong.
pub fn validate_account(account: &str) -> (r: Result<(), AppError>)
    ensures
        match account_problem(account@) {
            None => r is Ok,
            Some(msg) => r matches Err(AppError::InvalidInput(m)) && m@ == msg,
        },
{
    proof {
        reveal_strlit("did:plc:");
        reveal_strlit("did:web:");
    }
    let cs = chars_of(account);
    if cs.len() == 0 {
        return Err(AppError::invalid_input("Account cannot be empty"));
    }
    let plc = chars_of("did:plc:");
    if crate::strings::chars_start_with(cs.as_slice(), plc.as_slice()) {
        if cs.len() != 32 {
            return Err(AppError::invalid_input("Invalid DID format"));
        }
        let mut i: usize = 8;
        while i < cs.len()
            invariant
                8 <= i <= cs@.len(),
                cs@ == account@,
                cs@.len() == 32,
                has_prefix(account@, "did:plc:"@),
                forall|j: int| 8 <= j < i ==> is_ascii_alnum(#[trigger] cs@[j]),
            decreases cs@.len() - i,
        {
            if !ascii_alnum(cs[i]) {
                return Err(AppError::invalid_input("Invalid DID format"));
            }
            i = i + 1;
        }
        return Ok(());
    }
    let web = chars_of("did:web:");
    if crate::strings::chars_start_with(cs.as_slice(), web.as_slice()) {
        if cs.len() == 8 {
            return Err(AppError::invalid_input("Invalid did:web format"));
        }
        return Ok(());
    }
    let mut has_dot = false;
    let mut k: usize = 0;
    while k < cs.len()
        invariant
            k <= cs@.len(),
            cs@ == account@,
            has_dot == exists|j: int| 0 <= j < k && cs@[j] == '.',
        decreases cs@.len() - k,
    {
        if cs[k] == '.' {
            has_dot = true;
        }
        k = k + 1;
    }
    if !has_dot {
        assert(!account@.contains('.'));
        return Err(AppError::invalid_input("Invalid handle format, must contain domain"));
    }
    assert(account@.contains('.'));
    let parts = crate::strings::split_chars(cs.as_slice(), '.');
    if parts.len() < 2 {
        return Err(AppError::invalid_input("Invalid handle format"));
    }
    let mut p: usize = 0;
    while p < parts.len()
        invariant
            p <= parts@.len(),
            cs@ == account@,
            account@.len() > 0,
            !has_prefix(account@, "did:plc:"@),
            !has_prefix(account@, "did:web:"@),
            account@.contains('.'),
            parts@.len() == split_on(account@, '.').len(),
            forall|j: int| 0 <= j < parts@.len() ==> #[trigger] parts@[j]@ == split_on(account@, '.')[j],
            forall|j: int| 0 <= j < p ==> (#[trigger] split_on(account@, '.')[j]).len() > 0,
        decreases parts@.len() - p,
    {
        if parts[p].len() == 0 {
            assert(split_on(account@, '.')[p as int].len() == 0);
            return Err(AppError::invalid_input("Invalid handle format"));
        }
        p = p + 1;
    }
    Ok(())
}

/// Why a search query is refused, if it is: empty, or longer than 500 bytes
/// of UTF-8 (`len` counts bytes).
pub open spec fn query_problem(q: &str) -> Option<Seq<char>> {
    if q@.len() == 0 {
        Some("Query cannot be empty"@)
    } else if q.len() > 500 {
        Some("Query too long, maximum 500 characters"@)
    } else {
        None
    }
}

/// Checks a search query; the error says what is wrong.
pub fn validate_query(query: &str) -> (r: Result<(), AppError>)
    ensures
        match query_problem(query) {
            None => r is Ok,
            Some(msg) => r matches Err(AppError::InvalidInput(m)) && m@ == msg,
        },
{
    if query.is_empty() {
        return Err(AppError::invalid_input("Query cannot be empty"));
    }
    if query.len() > 500 {
        return Err(AppError::invalid_input("Query too long, maximum 500 characters"));
    }
    Ok(())
}

/// Whether an error is a cache error.
pub open spec fn is_cache_error(e: AppError) -> bool {
    e is CacheError
}

/// The text of an I/O error (its `Display`); nothing is claimed of it.
#[verifier::external_body]
pub(crate) fn io_error_text(e: &std::io::Error) -> (s: String) {
    e.to_string()
}

impl From<std::io::Error> for AppError {
    /// An I/O failure is a cache error carrying the I/O error's text.
    fn from(err: std::io::Error) -> (r: Self)
        ensures
            r is CacheError,
    {
        AppError::CacheError(io_error_text(&err))
    }
}

impl vstd::std_specs::convert::FromSpecImpl<std::io::Error> for AppError {
    open spec fn obeys_from_spec() -> bool {
        false
    }

    open spec fn from_spec(v: std::io::Error) -> Self {
        choose|e: AppError| #[trigger] is_cache_error(e)
    }
}

#[verifier::external_type_specification]
#[verifier::external_body]
pub struct ExJsonError(serde_json::Error);

#[verifier::external_type_specification]
#[verifier::external_body]
pub struct ExHttpError(reqwest::Error);

#[verifier::external_type_specification]
#[verifier::external_body]
pub struct ExAnyError(anyhow::Error);

/// The text of a JSON error (its `Display`); nothing is claimed of it.
#[verifier::external_body]
fn json_error_text(e: &serde_json::Error) -> (s: String) {
    e.to_string()
}

/// The text of an HTTP client error (its `Display`); nothing is claimed of it.
#[verifier::external_body]
fn http_error_text(e: &reqwest::Error) -> (s: String) {
    e.to_string()
}

/// Whether an HTTP client error is a timeout (`reqwest::Error::is_timeout`);
/// nothing is claimed of it.
#[verifier::external_body]
fn http_error_is_timeout(e: &reqwest::Error) -> (b: bool) {
    e.is_timeout()
}

/// Whether an HTTP client error arose connecting (`reqwest::Error::is_connect`);
/// nothing is claimed of it.
#[verifier::external_body]
fn http_error_is_connect(e: &reqwest::Error) -> (b: bool) {
    e.is_connect()
}

/// Whether an HTTP client error arose sending the request
/// (`reqwest::Error::is_request`); nothing is claimed of it.
#[verifier::external_body]
fn http_error_is_request(e: &reqwest::Error) -> (b: bool) {
    e.is_request()
}

/// The text of a general error (its `Display`); nothing is claimed of it.
#[verifier::external_body]
fn any_error_text(e: &anyhow::Error) -> (s: String) {
    e.to_string()
}

/// The error for a failed HTTP exchange: a timeout, a failure to connect or
/// to send the request (the fetch failed), or anything else (internal).
pub fn http_failure(timeout: bool, connect: bool, request: bool, text: String) -> (e: AppError)
    ensures
        timeout ==> e == AppError::Timeout(text),
        !timeout && (connect || request) ==> e == AppError::RepoFetchFailed(text),
        !timeout && !connect && !request ==> e == AppError::Internal(text),
{
    if timeout {
        AppError::Timeout(text)
    } else if connect || request {
        AppError::RepoFetchFailed(text)
    } else {
        AppError::Internal(text)
    }
}

/// Whether an error is one a JSON failure becomes.
pub open spec fn is_parse_error(e: AppError) -> bool {
    e is RepoParseFailed
}

/// Whether an error is one an HTTP failure becomes.
pub open spec fn is_http_error(e: AppError) -> bool {
    e is Timeout || e is RepoFetchFailed || e is Internal
}

/// Whether an error is one a general failure becomes.
pub open spec fn is_internal_error(e: AppError) -> bool {
    e is Internal
}

impl From<serde_json::Error> for AppError {
    /// A JSON failure is a failure to parse the repository, carrying the
    /// JSON error's text.
    fn from(err: serde_json::Error) -> (r: Self)
        ensures
            r is RepoParseFailed,
    {
        AppError::RepoParseFailed(json_error_text(&err))
    }
}

impl vstd::std_specs::convert::FromSpecImpl<serde_json::Error> for AppError {
    open spec fn obeys_from_spec() -> bool {
        false
    }

    open spec fn from_spec(v: serde_json::Error) -> Self {
        choose|e: AppError| #[trigger] is_parse_error(e)
    }
}

impl From<reqwest::Error> for AppError {
    /// An HTTP failure is a timeout, a failed fetch (connecting or sending)
    /// or an internal error, carrying the HTTP error's text.
    fn from(err: reqwest::Error) -> (r: Self)
        ensures
            r is Timeout || r is RepoFetchFailed || r is Internal,
    {
        let text = http_error_text(&err);
        http_failure(http_error_is_timeout(&err), http_error_is_connect(&err), http_error_is_request(&err), text)
    }
}

impl vstd::std_specs::convert::FromSpecImpl<reqwest::Error> for AppError {
    open spec fn obeys_from_spec() -> bool {
        false
    }

    open spec fn from_spec(v: reqwest::Error) -> Self {
        choose|e: AppError| #[trigger] is_http_error(e)
    }
}

impl From<anyhow::Error> for AppError {
    /// Any other failure is an internal error carrying its text.
    fn from(err: anyhow::Error) -> (r: Self)
        ensures
            r is Internal,
    {
        AppError::Internal(any_error_text(&err))
    }
}

impl vstd::std_specs::convert::FromSpecImpl<anyhow::Error> for AppError {
    open spec fn obeys_from_spec() -> bool {
        false
    }

    open spec fn from_spec(v: anyhow::Error) -> Self {
        choose|e: AppError| #[trigger] is_internal_error(e)
    }
}

/// The Unicode compatibility normalization (NFKC) of a text. The mapping is
/// given by the Unicode tables that the `unicode-normalization` crate
/// carries; it is named here and not spelled out.
pub uninterp spec fn nfkc(s: Seq<char>) -> Seq<char>;

/// Normalizes a text to NFKC (`UnicodeNormalization::nfkc` of the
/// `unicode-normalization` crate); the result is `nfkc` of the text.
#[verifier::external_body]
fn nfkc_normalize(s: &str) -> (r: String)
    ensures
        r@ == nfkc(s@),
{
    s.nfkc().collect::<String>()
}

/// A text in NFKC form, without leading or trailing white space.
pub fn normalize_text(text: &str) -> (r: String)
    ensures
        r@ == crate::strings::trim_ws(nfkc(text@)),
{
    let n = nfkc_normalize(text);
    crate::strings::trim(n.as_str())
}

} // verus!
