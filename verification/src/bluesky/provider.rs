//! The decisions of repository download: the repository URL, the names of
//! the cached and temporary files, and the messages of failed downloads.
use vstd::prelude::*;
use crate::error::AppError;
use crate::text::{chars_of, owned, push_str, push_decimal, push_char, decimal};

verus! {

/// `s` with every `:` replaced by `_`.
pub open spec fn colons_to_underscores(s: Seq<char>) -> Seq<char> {
    Seq::new(s.len(), |i: int| if s[i] == ':' { '_' } else { s[i] })
}

/// The name of a DID's cached repository file: the DID with `:` replaced by
/// `_`, and `.car`.
pub fn cache_filename(did: &str) -> (r: String)
    ensures
        r@ == colons_to_underscores(did@) + ".car"@,
{
    let cs = chars_of(did);
    let mut out = String::new();
    let mut i: usize = 0;
    while i < cs.len()
        invariant
            i <= cs@.len(),
            cs@ == did@,
            out@ == colons_to_underscores(did@).take(i as int),
        decreases cs@.len() - i,
    {
        let c = cs[i];
        push_char(&mut out, if c == ':' { '_' } else { c });
        i = i + 1;
        assert(out@ =~= colons_to_underscores(did@).take(i as int));
    }
    assert(colons_to_underscores(did@).take(cs@.len() as int) =~= colons_to_underscores(did@));
    push_str(&mut out, ".car");
    out
}

/// The name of the temporary file a download is written to before it takes
/// its final name: the cache file name, `.tmp.`, and the process id.
pub fn temp_filename(cache_filename: &str, process_id: u32) -> (r: String)
    ensures
        r@ == cache_filename@ + ".tmp."@ + decimal(process_id as nat),
{
    let mut out = owned(cache_filename);
    push_str(&mut out, ".tmp.");
    push_decimal(&mut out, process_id as u64);
    out
}

/// The URL a repository is downloaded from on its PDS.
pub fn repo_url(pds_endpoint: &str, did: &str) -> (r: String)
    ensures
        r@ == pds_endpoint@ + "/xrpc/com.atproto.sync.getRepo?did="@ + did@,
{
    let mut out = owned(pds_endpoint);
    push_str(&mut out, "/xrpc/com.atproto.sync.getRepo?did=");
    push_str(&mut out, did);
    out
}

/// The error when no PDS is found for a DID.
pub fn missing_pds_error(did: &str) -> (e: AppError)
    ensures
        e matches AppError::DidResolveFailed(m) && m@ == "Could not determine PDS for DID "@ + did@,
{
    let mut m = owned("Could not determine PDS for DID ");
    push_str(&mut m, did);
    AppError::DidResolveFailed(m)
}

/// The error when the PDS answers a download with an unsuccessful status
/// (given as text) and a body.
pub fn fetch_failed_error(status: &str, body: &str) -> (e: AppError)
    ensures
        e matches AppError::NetworkError(m) && m@ == "Failed to fetch repo: "@ + status@ + " "@ + body@,
{
    let mut m = owned("Failed to fetch repo: ");
    push_str(&mut m, status);
    push_str(&mut m, " ");
    push_str(&mut m, body);
    AppError::NetworkError(m)
}

/// The error when a download breaks off after `bytes_written` bytes.
pub fn interrupted_error(bytes_written: u64, cause: &str) -> (e: AppError)
    ensures
        e matches AppError::NetworkError(m) && m@ == "Connection interrupted after "@ + decimal(bytes_written as nat)
            + " bytes: "@ + cause@,
{
    let mut m = owned("Connection interrupted after ");
    push_decimal(&mut m, bytes_written);
    push_str(&mut m, " bytes: ");
    push_str(&mut m, cause);
    AppError::NetworkError(m)
}

} // verus!
