//! The decisions of fetching a repository archive with the cache in front:
//! whether the cached copy serves, which PDS to ask, the download URL, and
//! what the download's answer leads to. The caller does the I/O each step
//! asks for and hands back what came of it.
use vstd::prelude::*;
use crate::cache::CacheMetadata;
use crate::error::AppError;
use crate::strings::has_prefix;
use crate::text::{chars_of, owned, push_str, push_decimal, decimal, string_from_chars, parse_u64, spec_parse_u64};

verus! {

/// How many hours a fetched repository stays fresh in the cache.
pub const REPO_TTL_HOURS: u64 = 24;

/// The PDS asked when none was found for a DID.
pub open spec fn fallback_pds() -> Seq<char> {
    "https://bsky.social"@
}

/// `s` without its trailing `/` characters.
pub open spec fn trim_trailing_slashes(s: Seq<char>) -> Seq<char>
    decreases s.len(),
{
    if s.len() > 0 && s.last() == '/' {
        trim_trailing_slashes(s.drop_last())
    } else {
        s
    }
}

/// The URL that downloads the repository of `did` from the PDS at `base`.
pub open spec fn repo_download_url(base: Seq<char>, did: Seq<char>) -> Seq<char> {
    trim_trailing_slashes(base) + "/xrpc/com.atproto.sync.getRepo?did="@ + did
}

/// The next thing a repository fetch needs.
pub enum RepoFetchStep {
    /// Ask whether the cached copy of `did` is younger than `ttl_hours` hours.
    CheckCache { did: String, ttl_hours: u64 },
    /// Answer with the cached copy of `did`.
    UseCache { did: String },
    /// Look up the PDS named by the `did:web` document of `did`.
    FindDidWebPds { did: String },
    /// Discover the PDS of `did`.
    DiscoverPds { did: String },
    /// Download the repository from `url`.
    Download { url: String },
    /// Store the downloaded bytes for `did` with `metadata`, then answer with them.
    Store { did: String, metadata: CacheMetadata },
    /// Answer with this error.
    Fail(AppError),
}

/// What came of a download.
pub enum RepoDownload {
    /// The request or the transfer failed.
    Failed(AppError),
    /// The server answered with an unsuccessful status, given as text, and
    /// this body (empty when it could not be read).
    Refused { status: String, body: String },
    /// The whole body arrived: its size, and the `etag`, `last-modified` and
    /// `content-length` headers that are present and readable as text.
    Received { etag: Option<String>, last_modified: Option<String>, content_length: Option<String>, size: u64 },
}

/// A fetch begins by asking the cache.
pub fn start_repo_fetch(did: &str) -> (r: RepoFetchStep)
    ensures
        r matches RepoFetchStep::CheckCache { did: d, ttl_hours } && d@ == did@ && ttl_hours == 24,
{
    RepoFetchStep::CheckCache { did: owned(did), ttl_hours: REPO_TTL_HOURS }
}

/// After the cache check: a fresh copy serves; otherwise the PDS is looked
/// up, in the `did:web` document for such a DID, by discovery for any other.
pub fn on_cache_checked(did: &str, fresh: bool) -> (r: RepoFetchStep)
    ensures
        fresh ==> (r matches RepoFetchStep::UseCache { did: d } && d@ == did@),
        !fresh && has_prefix(did@, "did:web:"@) ==> (r matches RepoFetchStep::FindDidWebPds { did: d } && d@ == did@),
        !fresh && !has_prefix(did@, "did:web:"@) ==> (r matches RepoFetchStep::DiscoverPds { did: d } && d@ == did@),
{
    if fresh {
        RepoFetchStep::UseCache { did: owned(did) }
    } else if crate::strings::starts_with(did, "did:web:") {
        RepoFetchStep::FindDidWebPds { did: owned(did) }
    } else {
        RepoFetchStep::DiscoverPds { did: owned(did) }
    }
}

/// `s` without its trailing `/` characters.
fn trim_slashes(s: &str) -> (r: String)
    ensures
        r@ == trim_trailing_slashes(s@),
{
    let cs = chars_of(s);
    let mut end: usize = cs.len();
    assert(cs@.take(end as int) =~= cs@);
    while end > 0 && cs[end - 1] == '/'
        invariant
            end <= cs@.len(),
            cs@ == s@,
            trim_trailing_slashes(cs@.take(end as int)) == trim_trailing_slashes(s@),
        decreases end,
    {
        assert(cs@.take(end as int).drop_last() =~= cs@.take(end - 1));
        end = end - 1;
    }
    assert(cs@.take(0) =~= Seq::<char>::empty());
    let r = string_from_chars(&cs.as_slice()[0..end]);
    assert(cs@.subrange(0, end as int) =~= cs@.take(end as int));
    r
}

/// After the PDS lookup: the PDS found, or `https://bsky.social` when none
/// was found or the lookup failed, gives the download URL.
pub fn on_pds_found(did: &str, found: Result<Option<String>, AppError>) -> (r: RepoFetchStep)
    ensures
        r matches RepoFetchStep::Download { url } && url@ == repo_download_url(
            match found {
                Ok(Some(p)) => p@,
                _ => fallback_pds(),
            },
            did@,
        ),
{
    let base = match found {
        Ok(Some(p)) => p,
        _ => owned("https://bsky.social"),
    };
    let mut url = trim_slashes(base.as_str());
    push_str(&mut url, "/xrpc/com.atproto.sync.getRepo?did=");
    push_str(&mut url, did);
    RepoFetchStep::Download { url }
}

/// The error of a download answered with an unsuccessful status.
pub open spec fn refused_message(status: Seq<char>, body: Seq<char>) -> Seq<char> {
    "HTTP "@ + status + " from repo fetch: "@ + body
}

/// The error of a body whose size is not the announced length.
pub open spec fn length_mismatch_message(expected: u64, got: u64) -> Seq<char> {
    "Content length mismatch: expected "@ + decimal(expected as nat) + ", got "@ + decimal(got as nat)
}

/// After the download: a failure or a refusal is the answer; a body whose
/// size differs from a `content-length` that reads as a number is refused;
/// any other body is stored, with the headers and the length, fresh for 24
/// hours.
pub fn on_download(did: &str, outcome: RepoDownload) -> (r: RepoFetchStep)
    ensures
        match outcome {
            RepoDownload::Failed(e) => r == RepoFetchStep::Fail(e),
            RepoDownload::Refused { status, body } => r matches RepoFetchStep::Fail(AppError::RepoFetchFailed(m))
                && m@ == refused_message(status@, body@),
            RepoDownload::Received { etag, last_modified, content_length, size } => match content_length {
                Some(t) => match spec_parse_u64(t@) {
                    Some(n) => if n != size {
                        r matches RepoFetchStep::Fail(AppError::RepoFetchFailed(m)) && m@ == length_mismatch_message(n, size)
                    } else {
                        r matches RepoFetchStep::Store { did: d, metadata } && d@ == did@ && metadata.did@ == did@
                            && metadata.ttl_hours == 24 && metadata.etag == etag
                            && metadata.last_modified == last_modified && metadata.content_length == Some(n)
                    },
                    None => r matches RepoFetchStep::Store { did: d, metadata } && d@ == did@ && metadata.did@ == did@
                        && metadata.ttl_hours == 24 && metadata.etag == etag
                        && metadata.last_modified == last_modified && metadata.content_length is None,
                },
                None => r matches RepoFetchStep::Store { did: d, metadata } && d@ == did@ && metadata.did@ == did@
                    && metadata.ttl_hours == 24 && metadata.etag == etag && metadata.last_modified == last_modified
                    && metadata.content_length is None,
            },
        },
{
    match outcome {
        RepoDownload::Failed(e) => RepoFetchStep::Fail(e),
        RepoDownload::Refused { status, body } => {
            let mut m = owned("HTTP ");
            push_str(&mut m, status.as_str());
            push_str(&mut m, " from repo fetch: ");
            push_str(&mut m, body.as_str());
            RepoFetchStep::Fail(AppError::RepoFetchFailed(m))
        },
        RepoDownload::Received { etag, last_modified, content_length, size } => {
            let length = match &content_length {
                Some(t) => parse_u64(t.as_str()),
                None => None,
            };
            if let Some(n) = length {
                if n != size {
                    let mut m = owned("Content length mismatch: expected ");
                    push_decimal(&mut m, n);
                    push_str(&mut m, ", got ");
                    push_decimal(&mut m, size);
                    return RepoFetchStep::Fail(AppError::RepoFetchFailed(m));
                }
            }
            let metadata = CacheMetadata::new(owned(did), REPO_TTL_HOURS).with_headers(etag, last_modified, length);
            RepoFetchStep::Store { did: owned(did), metadata }
        },
    }
}

} // verus!
