//! Handles and DIDs: validation, normalisation of account references, the
//! URLs used to resolve them, and the decisions of PDS discovery.
use vstd::prelude::*;
use crate::error::{AppError, is_ascii_alnum, ascii_alnum};
use crate::strings::{
    occurs_at, has_prefix, split_on, join_with, find_from, before_char, trim_ws, chars_start_with,
    chars_find_from, split_chars, trim_chars, split_str,
};
use crate::text::{chars_of, owned, push_str, string_from_chars};

verus! {

/// Whether `c` may appear in a handle label: ASCII letters, digits and `-`.
pub open spec fn is_handle_char(c: char) -> bool {
    is_ascii_alnum(c) || c == '-'
}

/// A handle: dot-separated labels, at least two, none empty, made of ASCII
/// letters, digits and `-`, the last of at least two characters.
pub open spec fn valid_handle(h: Seq<char>) -> bool {
    let parts = split_on(h, '.');
    &&& h.len() > 0
    &&& h.contains('.')
    &&& parts.len() >= 2
    &&& forall|i: int| 0 <= i < parts.len() ==> (#[trigger] parts[i]).len() > 0
        && forall|j: int| 0 <= j < parts[i].len() ==> is_handle_char(parts[i][j])
    &&& parts.last().len() >= 2
}

/// Whether a string looks like a valid handle.
pub fn is_valid_handle(handle: &str) -> (r: bool)
    ensures
        r == valid_handle(handle@),
{
    let cs = chars_of(handle);
    if cs.len() == 0 {
        return false;
    }
    let mut has_dot = false;
    let mut k: usize = 0;
    while k < cs.len()
        invariant
            k <= cs@.len(),
            cs@ == handle@,
            has_dot == exists|j: int| 0 <= j < k && cs@[j] == '.',
        decreases cs@.len() - k,
    {
        if cs[k] == '.' {
            has_dot = true;
        }
        k = k + 1;
    }
    if !has_dot {
        assert(!handle@.contains('.'));
        return false;
    }
    assert(handle@.contains('.'));
    let parts = split_chars(cs.as_slice(), '.');
    let ghost sp = split_on(handle@, '.');
    if parts.len() < 2 {
        return false;
    }
    let mut p: usize = 0;
    while p < parts.len()
        invariant
            p <= parts@.len(),
            cs@ == handle@,
            handle@.len() > 0,
            handle@.contains('.'),
            parts@.len() >= 2,
            sp == split_on(handle@, '.'),
            parts@.len() == sp.len(),
            forall|j: int| 0 <= j < parts@.len() ==> #[trigger] parts@[j]@ == sp[j],
            forall|i: int| 0 <= i < p ==> (#[trigger] sp[i]).len() > 0
                && forall|j: int| 0 <= j < sp[i].len() ==> is_handle_char(sp[i][j]),
        decreases parts@.len() - p,
    {
        let part = &parts[p];
        if part.len() == 0 {
            assert(sp[p as int].len() == 0);
            return false;
        }
        let mut q: usize = 0;
        while q < part.len()
            invariant
                q <= part@.len(),
                p < sp.len(),
                sp == split_on(handle@, '.'),
                part@ == sp[p as int],
                forall|j: int| 0 <= j < q ==> is_handle_char(#[trigger] sp[p as int][j]),
            decreases part@.len() - q,
        {
            let c = part[q];
            if !(ascii_alnum(c) || c == '-') {
                assert(!is_handle_char(sp[p as int][q as int]));
                assert(!valid_handle(handle@)) by {
                    let parts = split_on(handle@, '.');
                    assert(parts[p as int] == sp[p as int]);
                }
                return false;
            }
            q = q + 1;
        }
        p = p + 1;
    }
    let last = parts.len() - 1;
    parts[last].len() >= 2
}

/// Whether a string looks like a valid DID: `did:` followed by at least one
/// more byte.
pub fn is_valid_did(did: &str) -> (r: bool)
    ensures
        r == (has_prefix(did@, "did:"@) && did.len() > 4),
{
    let cs = chars_of(did);
    let p = chars_of("did:");
    chars_start_with(cs.as_slice(), p.as_slice()) && did.len() > 4
}

/// Whether `c` is a base32 character as used in `did:plc` identifiers.
pub open spec fn is_plc_suffix_char(c: char) -> bool {
    ('a' <= c && c <= 'z') || ('2' <= c && c <= '7')
}

/// Twenty-four base32 characters stand for the suffix of a `did:plc` DID;
/// anything else is taken as a handle.
pub open spec fn plc_suffix_or_handle(a: Seq<char>) -> Seq<char> {
    if a.len() == 24 && forall|i: int| 0 <= i < 24 ==> is_plc_suffix_char(#[trigger] a[i]) {
        "did:plc:"@ + a
    } else {
        a
    }
}

/// The normal form of an account reference: the trimmed text when it is a
/// DID; without its `@` when it starts with one; the segment after
/// `/profile/` of a bsky.app profile URL; `did:plc:` and the text when it is
/// a bare `did:plc` suffix; otherwise the trimmed text as a handle.
pub open spec fn account_reference(account: Seq<char>) -> Seq<char> {
    let a = trim_ws(account);
    if has_prefix(a, "did:"@) {
        a
    } else if has_prefix(a, "@"@) {
        a.skip(1)
    } else if has_prefix(a, "https://bsky.app/profile/"@) || has_prefix(a, "http://bsky.app/profile/"@) {
        match find_from(a, "/profile/"@, 0) {
            Some(i) => before_char(a.skip(i + "/profile/"@.len()), '/'),
            None => plc_suffix_or_handle(a),
        }
    } else {
        plc_suffix_or_handle(a)
    }
}

/// Applies the bare-suffix rule to the characters `a`.
fn suffix_or_handle(a: &[char]) -> (r: String)
    ensures
        r@ == plc_suffix_or_handle(a@),
{
    if a.len() == 24 {
        let mut i: usize = 0;
        let mut all = true;
        while i < 24
            invariant
                i <= 24,
                a@.len() == 24,
                all == forall|j: int| 0 <= j < i ==> is_plc_suffix_char(#[trigger] a@[j]),
            decreases 24 - i,
        {
            let c = a[i];
            if !(('a' <= c && c <= 'z') || ('2' <= c && c <= '7')) {
                all = false;
            }
            i = i + 1;
        }
        if all {
            let mut out = owned("did:plc:");
            let rest = string_from_chars(a);
            push_str(&mut out, rest.as_str());
            return out;
        }
    }
    string_from_chars(a)
}

/// Normalises an account reference: DIDs, `@handles`, bsky.app profile URLs,
/// bare `did:plc` suffixes and handles.
pub fn parse_account_reference(account: &str) -> (r: String)
    ensures
        r@ == account_reference(account@),
{
    proof {
        reveal_strlit("/profile/");
        reveal_strlit("@");
    }
    let cs = chars_of(account);
    let t = trim_chars(cs.as_slice());
    let did_prefix = chars_of("did:");
    if chars_start_with(t.as_slice(), did_prefix.as_slice()) {
        return string_from_chars(t.as_slice());
    }
    let at = chars_of("@");
    if chars_start_with(t.as_slice(), at.as_slice()) {
        let rest = string_from_chars(&t.as_slice()[1..t.len()]);
        assert(t@.subrange(1, t@.len() as int) =~= t@.skip(1));
        return rest;
    }
    let https = chars_of("https://bsky.app/profile/");
    let http = chars_of("http://bsky.app/profile/");
    if chars_start_with(t.as_slice(), https.as_slice()) || chars_start_with(t.as_slice(), http.as_slice()) {
        let marker = chars_of("/profile/");
        if let Some(i) = chars_find_from(t.as_slice(), marker.as_slice(), 0) {
            proof {
                reveal_strlit("/profile/");
                assert(marker@.len() == 9);
                assert(find_from(t@, marker@, 0) == Some(i as int));
                assert(occurs_at(t@, marker@, i as int));
                assert(t@.len() == t.len());
            }
            let tail = &t.as_slice()[i + 9..t.len()];
            assert(tail@ =~= t@.skip(i + 9));
            let parts = split_chars(tail, '/');
            proof {
                crate::strings::lemma_split_nonempty(tail@, '/');
            }
            return string_from_chars(parts[0].as_slice());
        }
    }
    suffix_or_handle(t.as_slice())
}

/// The URL of a domain's `atproto-did` well-known file.
pub fn construct_well_known_url(domain: &str) -> (r: String)
    ensures
        r@ == "https://"@ + domain@ + "/.well-known/atproto-did"@,
{
    let mut out = owned("https://");
    push_str(&mut out, domain);
    push_str(&mut out, "/.well-known/atproto-did");
    out
}

/// The XRPC handle-resolution endpoint of a domain.
pub fn construct_xrpc_resolve_url(domain: &str) -> (r: String)
    ensures
        r@ == "https://"@ + domain@ + "/xrpc/com.atproto.identity.resolveHandle"@,
{
    let mut out = owned("https://");
    push_str(&mut out, domain);
    push_str(&mut out, "/xrpc/com.atproto.identity.resolveHandle");
    out
}

/// The PLC directory's audit log URL for a DID.
pub fn construct_plc_audit_url(did: &str) -> (r: String)
    ensures
        r@ == "https://plc.directory/"@ + did@ + "/log/audit"@,
{
    let mut out = owned("https://plc.directory/");
    push_str(&mut out, did);
    push_str(&mut out, "/log/audit");
    out
}

/// The PLC directory's DID document URL for a DID.
pub fn construct_pds_endpoint_url(did: &str) -> (r: String)
    ensures
        r@ == "https://plc.directory/"@ + did@,
{
    let mut out = owned("https://plc.directory/");
    push_str(&mut out, did);
    out
}

/// The DID document URL of a `did:web` DID: the host's well-known
/// `did.json` when the DID names a host only, otherwise `did.json` under the
/// path made of the remaining `:`-separated segments.
pub open spec fn did_web_document_url(did: Seq<char>) -> Option<Seq<char>> {
    let parts = split_on(did, ':');
    if !has_prefix(did, "did:web:"@) || parts.len() < 3 {
        None
    } else if parts.len() == 3 {
        Some("https://"@ + parts[2] + "/.well-known/did.json"@)
    } else {
        Some("https://"@ + parts[2] + "/"@ + join_with(parts.skip(3), "/"@) + "/did.json"@)
    }
}

/// Joins `pieces[from..]` with `/`.
fn join_slash(pieces: &[String], from: usize) -> (r: String)
    requires
        from <= pieces@.len(),
    ensures
        r@ == join_with(Seq::new((pieces@.len() - from) as nat, |i: int| pieces@[from + i]@), "/"@),
{
    let ghost v = Seq::new((pieces@.len() - from) as nat, |i: int| pieces@[from + i]@);
    let mut out = String::new();
    let mut i: usize = from;
    while i < pieces.len()
        invariant
            from <= i <= pieces@.len(),
            v == Seq::new((pieces@.len() - from) as nat, |k: int| pieces@[from + k]@),
            out@ == join_with(v.take(i - from), "/"@),
        decreases pieces@.len() - i,
    {
        let ghost before = out@;
        if i > from {
            push_str(&mut out, "/");
        }
        push_str(&mut out, pieces[i].as_str());
        proof {
            let t = v.take(i + 1 - from);
            assert(t.drop_last() =~= v.take(i - from));
            assert(t.last() == pieces@[i as int]@);
            if i == from {
                assert(v.take(0) =~= Seq::<Seq<char>>::empty());
                assert(out@ =~= t[0]);
            } else {
                assert(out@ =~= join_with(t.drop_last(), "/"@) + "/"@ + t.last());
            }
        }
        i = i + 1;
    }
    assert(v.take(pieces@.len() - from) =~= v);
    out
}

/// The DID document URL of a `did:web` DID; `None` for any other DID.
pub fn did_web_to_did_document_url(did: &str) -> (r: Option<String>)
    ensures
        match did_web_document_url(did@) {
            Some(u) => r matches Some(s) && s@ == u,
            None => r is None,
        },
{
    let cs = chars_of(did);
    let p = chars_of("did:web:");
    if !chars_start_with(cs.as_slice(), p.as_slice()) {
        return None;
    }
    let parts = split_str(did, ':');
    if parts.len() < 3 {
        return None;
    }
    let mut out = owned("https://");
    push_str(&mut out, parts[2].as_str());
    if parts.len() == 3 {
        push_str(&mut out, "/.well-known/did.json");
        Some(out)
    } else {
        push_str(&mut out, "/");
        let path = join_slash(parts.as_slice(), 3);
        push_str(&mut out, path.as_str());
        push_str(&mut out, "/did.json");
        assert(Seq::new((parts@.len() - 3) as nat, |i: int| parts@[3 + i]@) =~= split_on(did@, ':').skip(3));
        Some(out)
    }
}

/// A service entry of a DID document.
#[derive(Debug, Clone)]
pub struct ServiceEndpoint {
    pub id: Option<String>,
    pub type_field: Option<String>,
    pub service_endpoint: String,
}

/// Whether a service entry names the account's personal data server.
pub open spec fn is_pds_service(s: ServiceEndpoint) -> bool {
    (s.type_field matches Some(t) && t@ == "AtprotoPersonalDataServer"@)
        || (s.id matches Some(i) && i@ == "#atproto_pds"@)
}

/// The endpoint of the first service entry that names a personal data server.
pub open spec fn first_pds(services: Seq<ServiceEndpoint>) -> Option<Seq<char>>
    decreases services.len(),
{
    if services.len() == 0 {
        None
    } else if is_pds_service(services[0]) {
        Some(services[0].service_endpoint@)
    } else {
        first_pds(services.drop_first())
    }
}

/// The endpoint of the first service entry that names a personal data server.
pub fn extract_pds(services: &[ServiceEndpoint]) -> (r: Option<String>)
    ensures
        match first_pds(services@) {
            Some(e) => r matches Some(s) && s@ == e,
            None => r is None,
        },
{
    let mut i: usize = 0;
    assert(services@.skip(0) =~= services@);
    while i < services.len()
        invariant
            i <= services@.len(),
            first_pds(services@) == first_pds(services@.skip(i as int)),
        decreases services@.len() - i,
    {
        assert(services@.skip(i as int).drop_first() =~= services@.skip(i + 1));
        let s = &services[i];
        let by_type = match &s.type_field {
            Some(t) => crate::text::str_eq(t.as_str(), "AtprotoPersonalDataServer"),
            None => false,
        };
        let by_id = match &s.id {
            Some(d) => crate::text::str_eq(d.as_str(), "#atproto_pds"),
            None => false,
        };
        if by_type || by_id {
            return Some(owned(s.service_endpoint.as_str()));
        }
        i = i + 1;
    }
    None
}

} // verus!

verus! {

/// What handle resolution needs: nothing when the reference is already a
/// DID; nothing either when it is not a valid handle; otherwise a lookup of
/// the handle at the given XRPC URL.
pub enum HandleResolution {
    Known(String),
    Invalid,
    Lookup { handle: String, url: String },
}

/// The XRPC URL that resolves a handle through bsky.social.
pub open spec fn resolve_handle_url(handle: Seq<char>) -> Seq<char> {
    "https://bsky.social/xrpc/com.atproto.identity.resolveHandle?handle="@ + handle
}

/// Decides how an account reference is resolved to a DID, after normalising it.
pub fn plan_handle_resolution(reference: &str) -> (r: HandleResolution)
    ensures
        ({
            let n = account_reference(reference@);
            if has_prefix(n, "did:"@) {
                r matches HandleResolution::Known(d) && d@ == n
            } else if !valid_handle(n) {
                r is Invalid
            } else {
                r matches HandleResolution::Lookup { handle, url } && handle@ == n && url@ == resolve_handle_url(n)
            }
        }),
{
    let normalized = parse_account_reference(reference);
    if crate::strings::starts_with(normalized.as_str(), "did:") {
        return HandleResolution::Known(normalized);
    }
    if !is_valid_handle(normalized.as_str()) {
        return HandleResolution::Invalid;
    }
    let mut url = owned("https://bsky.social/xrpc/com.atproto.identity.resolveHandle?handle=");
    push_str(&mut url, normalized.as_str());
    HandleResolution::Lookup { handle: normalized, url }
}

/// What came back from fetching a DID document.
pub enum DocumentFetch {
    /// The request failed in transport; the transport's message.
    NetworkFailure(String),
    /// The server answered with an unsuccessful status, given as text.
    BadStatus(String),
    /// The body was not a DID document; the decoder's message.
    Unparsable(String),
    /// The document's service entries.
    Document(Vec<ServiceEndpoint>),
}

/// The next thing PDS discovery needs: a document fetched from a URL, or the
/// answer.
pub enum DiscoveryStep {
    Fetch(String),
    Done(Result<Option<String>, AppError>),
}

/// An error by its code and its detail text.
pub open spec fn error_view(e: AppError) -> (Seq<char>, Seq<char>) {
    (crate::error::error_code_of(e), e.detail())
}

/// Whether `s` asks for the document at `url`.
pub open spec fn fetches(s: DiscoveryStep, url: Seq<char>) -> bool {
    s matches DiscoveryStep::Fetch(u) && u@ == url
}

/// Whether `s` ends discovery with the endpoint `e` (or with none).
pub open spec fn finds(s: DiscoveryStep, e: Option<Seq<char>>) -> bool {
    s matches DiscoveryStep::Done(Ok(r)) && match e {
        Some(x) => r matches Some(y) && y@ == x,
        None => r is None,
    }
}

/// Whether `s` ends discovery with an error of the given code and detail.
pub open spec fn fails_with(s: DiscoveryStep, code: Seq<char>, detail: Seq<char>) -> bool {
    s matches DiscoveryStep::Done(Err(e)) && error_view(e) == (code, detail)
}

/// The locations tried for a `did:web` DID document: the host's well-known
/// `did.json` and then its root `did.json` when the DID names a host only,
/// otherwise `did.json` under the path made of the remaining segments.
pub open spec fn did_web_candidates(did: Seq<char>) -> Seq<Seq<char>> {
    let parts = split_on(did, ':');
    if parts.len() == 3 {
        seq!["https://"@ + parts[2] + "/.well-known/did.json"@, "https://"@ + parts[2] + "/did.json"@]
    } else {
        seq!["https://"@ + parts[2] + "/"@ + join_with(parts.skip(3), "/"@) + "/did.json"@]
    }
}

/// The error recorded for a failed `did:web` fetch, by code and detail; `None`
/// for a document that was read.
pub open spec fn web_fetch_error(f: DocumentFetch) -> Option<(Seq<char>, Seq<char>)> {
    match f {
        DocumentFetch::NetworkFailure(m) => Some(("network_error"@, m@)),
        DocumentFetch::BadStatus(st) => Some(("did_resolve_failed"@, "did:web document fetch failed with status "@ + st@)),
        DocumentFetch::Unparsable(m) => Some(("did_resolve_failed"@, "Failed to parse did:web document: "@ + m@)),
        DocumentFetch::Document(_) => None,
    }
}

/// PDS discovery for a DID: `did:plc` DIDs are looked up in the PLC
/// directory; for `did:web` DIDs each candidate location is tried in turn,
/// the first document naming a PDS wins, and when none does the last fetch
/// error (if any) is reported.
pub struct PdsDiscovery {
    plc: bool,
    candidates: Vec<String>,
    next: usize,
    last_err: Option<AppError>,
}

impl PdsDiscovery {
    /// Whether the DID is a `did:plc` one.
    pub closed spec fn is_plc(&self) -> bool {
        self.plc
    }

    /// The locations to try, in order.
    pub closed spec fn urls(&self) -> Seq<Seq<char>> {
        Seq::new(self.candidates@.len(), |i: int| self.candidates@[i]@)
    }

    /// The index of the location being fetched.
    pub closed spec fn current(&self) -> int {
        self.next as int
    }

    /// The last fetch error recorded, by code and detail.
    pub closed spec fn last_error(&self) -> Option<(Seq<char>, Seq<char>)> {
        match self.last_err {
            Some(e) => Some(error_view(e)),
            None => None,
        }
    }

    /// A fetch is under way.
    pub closed spec fn wf(&self) -> bool {
        self.next < self.candidates@.len()
    }

    /// Starts discovery for `did`: the first fetch, or the answer when there
    /// is nothing to fetch (a DID of another method).
    pub fn start(did: &str) -> (r: (PdsDiscovery, DiscoveryStep))
        ensures
            has_prefix(did@, "did:plc:"@) ==> r.0.wf() && r.0.is_plc() && r.0.current() == 0
                && r.0.urls() == seq!["https://plc.directory/"@ + did@] && r.0.last_error() is None
                && fetches(r.1, "https://plc.directory/"@ + did@),
            !has_prefix(did@, "did:plc:"@) && has_prefix(did@, "did:web:"@) ==> r.0.wf() && !r.0.is_plc()
                && r.0.current() == 0 && r.0.urls() == did_web_candidates(did@) && r.0.last_error() is None
                && fetches(r.1, did_web_candidates(did@)[0]),
            !has_prefix(did@, "did:plc:"@) && !has_prefix(did@, "did:web:"@) ==> finds(r.1, None),
    {
        let cs = chars_of(did);
        let plc = chars_of("did:plc:");
        if chars_start_with(cs.as_slice(), plc.as_slice()) {
            let url = construct_pds_endpoint_url(did);
            let mut candidates: Vec<String> = Vec::new();
            candidates.push(owned(url.as_str()));
            let d = PdsDiscovery { plc: true, candidates, next: 0, last_err: None };
            assert(d.urls() =~= seq!["https://plc.directory/"@ + did@]);
            return (d, DiscoveryStep::Fetch(url));
        }
        let web = chars_of("did:web:");
        if !chars_start_with(cs.as_slice(), web.as_slice()) {
            let d = PdsDiscovery { plc: false, candidates: Vec::new(), next: 0, last_err: None };
            return (d, DiscoveryStep::Done(Ok(None)));
        }
        proof {
            reveal_strlit("did:web:");
            assert("did:web:"@ =~= seq!['d', 'i', 'd', ':', 'w', 'e', 'b', ':']);
            lemma_web_did_parts(did@);
        }
        let parts = split_str(did, ':');
        let mut candidates: Vec<String> = Vec::new();
        if parts.len() == 3 {
            let mut a = owned("https://");
            push_str(&mut a, parts[2].as_str());
            push_str(&mut a, "/.well-known/did.json");
            let mut b = owned("https://");
            push_str(&mut b, parts[2].as_str());
            push_str(&mut b, "/did.json");
            candidates.push(a);
            candidates.push(b);
        } else {
            let mut a = owned("https://");
            push_str(&mut a, parts[2].as_str());
            push_str(&mut a, "/");
            let path = join_slash(parts.as_slice(), 3);
            push_str(&mut a, path.as_str());
            push_str(&mut a, "/did.json");
            assert(Seq::new((parts@.len() - 3) as nat, |i: int| parts@[3 + i]@) =~= split_on(did@, ':').skip(3));
            candidates.push(a);
        }
        let first = owned(candidates[0].as_str());
        let d = PdsDiscovery { plc: false, candidates, next: 0, last_err: None };
        assert(d.urls() =~= did_web_candidates(did@));
        (d, DiscoveryStep::Fetch(first))
    }

    /// Takes the outcome of the fetch under way and decides what comes next.
    pub fn on_fetch(&mut self, outcome: DocumentFetch) -> (r: DiscoveryStep)
        requires
            old(self).wf(),
        ensures
            final(self).is_plc() == old(self).is_plc(),
            final(self).urls() == old(self).urls(),
            old(self).is_plc() ==> match outcome {
                DocumentFetch::NetworkFailure(m) => fails_with(r, "network_error"@, m@),
                DocumentFetch::BadStatus(st) => fails_with(r, "did_resolve_failed"@,
                    "DID document resolution failed with status "@ + st@),
                DocumentFetch::Unparsable(m) => fails_with(r, "did_resolve_failed"@,
                    "Failed to parse DID document: "@ + m@),
                DocumentFetch::Document(svcs) => finds(r, first_pds(svcs@)),
            },
            !old(self).is_plc() ==> {
                let err = match web_fetch_error(outcome) {
                    Some(e) => Some(e),
                    None => old(self).last_error(),
                };
                let found = match outcome {
                    DocumentFetch::Document(svcs) => first_pds(svcs@),
                    _ => None,
                };
                if found is Some {
                    finds(r, found)
                } else if old(self).current() + 1 < old(self).urls().len() {
                    fetches(r, old(self).urls()[old(self).current() + 1]) && final(self).wf()
                        && final(self).current() == old(self).current() + 1 && final(self).last_error() == err
                } else {
                    match err {
                        Some((code, detail)) => fails_with(r, code, detail),
                        None => finds(r, None),
                    }
                }
            },
    {
        if self.plc {
            return match outcome {
                DocumentFetch::NetworkFailure(m) => DiscoveryStep::Done(Err(AppError::NetworkError(m))),
                DocumentFetch::BadStatus(st) => {
                    let mut msg = owned("DID document resolution failed with status ");
                    push_str(&mut msg, st.as_str());
                    DiscoveryStep::Done(Err(AppError::DidResolveFailed(msg)))
                },
                DocumentFetch::Unparsable(m) => {
                    let mut msg = owned("Failed to parse DID document: ");
                    push_str(&mut msg, m.as_str());
                    DiscoveryStep::Done(Err(AppError::DidResolveFailed(msg)))
                },
                DocumentFetch::Document(svcs) => DiscoveryStep::Done(Ok(extract_pds(svcs.as_slice()))),
            };
        }
        let ghost err_model = match web_fetch_error(outcome) {
            Some(e) => Some(e),
            None => old(self).last_error(),
        };
        match outcome {
            DocumentFetch::NetworkFailure(m) => {
                self.last_err = Some(AppError::NetworkError(m));
            },
            DocumentFetch::BadStatus(st) => {
                let mut msg = owned("did:web document fetch failed with status ");
                push_str(&mut msg, st.as_str());
                self.last_err = Some(AppError::DidResolveFailed(msg));
            },
            DocumentFetch::Unparsable(m) => {
                let mut msg = owned("Failed to parse did:web document: ");
                push_str(&mut msg, m.as_str());
                self.last_err = Some(AppError::DidResolveFailed(msg));
            },
            DocumentFetch::Document(svcs) => {
                let found = extract_pds(svcs.as_slice());
                if found.is_some() {
                    return DiscoveryStep::Done(Ok(found));
                }
            },
        }
        assert(self.last_error() == err_model);
        assert(self.candidates@.len() == self.candidates.len());
        if self.next + 1 < self.candidates.len() {
            self.next = self.next + 1;
            return DiscoveryStep::Fetch(owned(self.candidates[self.next].as_str()));
        }
        match self.last_err.take() {
            Some(e) => DiscoveryStep::Done(Err(e)),
            None => DiscoveryStep::Done(Ok(None)),
        }
    }
}

/// A DID that starts with `did:web:` has at least three `:`-separated parts.
proof fn lemma_web_did_parts(did: Seq<char>)
    requires
        has_prefix(did, "did:web:"@),
        "did:web:"@ == seq!['d', 'i', 'd', ':', 'w', 'e', 'b', ':'],
    ensures
        split_on(did, ':').len() >= 3,
        did_web_document_url(did) is Some,
{
    lemma_split_parts_grow(did, 8);
    let t = did.take(8);
    assert(t =~= seq!['d', 'i', 'd', ':', 'w', 'e', 'b', ':']);
    reveal_with_fuel(split_on, 9);
    assert(t.drop_last().drop_last().drop_last().drop_last() =~= seq!['d', 'i', 'd', ':']);
    assert(t.drop_last().drop_last().drop_last().drop_last().drop_last() =~= seq!['d', 'i', 'd']);
    assert(split_on(seq!['d', 'i', 'd', ':'], ':').len() == 2) by {
        reveal_with_fuel(split_on, 5);
        assert(seq!['d', 'i', 'd', ':'].drop_last() =~= seq!['d', 'i', 'd']);
        assert(seq!['d', 'i', 'd'].drop_last() =~= seq!['d', 'i']);
        assert(seq!['d', 'i'].drop_last() =~= seq!['d']);
        assert(seq!['d'].drop_last() =~= Seq::<char>::empty());
    }
    assert(t.drop_last() =~= seq!['d', 'i', 'd', ':', 'w', 'e', 'b']);
    assert(t.drop_last().drop_last() =~= seq!['d', 'i', 'd', ':', 'w', 'e']);
    assert(t.drop_last().drop_last().drop_last() =~= seq!['d', 'i', 'd', ':', 'w']);
    assert(split_on(t, ':').len() == 3);
}

/// Adding characters never removes pieces.
proof fn lemma_split_parts_grow(s: Seq<char>, k: int)
    requires
        0 <= k <= s.len(),
    ensures
        split_on(s, ':').len() >= split_on(s.take(k), ':').len(),
    decreases s.len() - k,
{
    if k < s.len() {
        lemma_split_parts_grow(s, k + 1);
        assert(s.take(k + 1).drop_last() =~= s.take(k));
        crate::strings::lemma_split_nonempty(s.take(k), ':');
    } else {
        assert(s.take(k) =~= s);
    }
}

} // verus!
