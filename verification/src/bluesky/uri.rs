//! Post references: `at://` URIs, bsky.app post URLs and `@handle/rkey`.
use vstd::prelude::*;
use crate::error::AppError;
use crate::strings::{
    has_prefix, split_on, strip_all_prefix, trim_ws, contains_seq, chars_start_with, split_chars,
    trim_chars, chars_contain,
};
use crate::text::{chars_of, owned, push_str, string_from_chars};

verus! {

/// A post, by the DID of its author and its record key.
#[derive(Debug, Clone)]
pub struct PostRef {
    pub did: String,
    pub rkey: String,
}

/// The message of a malformed `at://` URI.
pub open spec fn at_uri_error(uri: Seq<char>) -> Seq<char> {
    "Invalid at:// URI format: "@ + uri + ". Expected at://{did}/app.bsky.feed.post/{rkey}"@
}

/// An `at://{did}/{collection}/{rkey}` URI, by its `/`-separated parts after
/// every leading `at://`: the DID and the record key, or the message of a
/// URI with fewer than three parts.
pub open spec fn spec_at_uri(uri: Seq<char>) -> Result<(Seq<char>, Seq<char>), Seq<char>> {
    let parts = split_on(strip_all_prefix(uri, "at://"@), '/');
    if parts.len() < 3 {
        Err(at_uri_error(uri))
    } else {
        Ok((parts[0], parts[2]))
    }
}

/// Removes every leading copy of `p` from `s`.
pub fn strip_prefixes(s: &[char], p: &[char]) -> (r: Vec<char>)
    ensures
        r@ == strip_all_prefix(s@, p@),
{
    let mut start: usize = 0;
    assert(s@.skip(0) =~= s@);
    if p.len() == 0 {
        return vstd::slice::slice_to_vec(s);
    }
    while start <= s.len() && chars_start_with(&s[start..s.len()], p)
        invariant
            start <= s@.len(),
            p@.len() > 0,
            strip_all_prefix(s@, p@) == strip_all_prefix(s@.skip(start as int), p@),
        decreases s@.len() - start,
    {
        assert(s@.subrange(start as int, s@.len() as int) =~= s@.skip(start as int));
        assert(s@.skip(start as int).skip(p@.len() as int) =~= s@.skip(start + p@.len()));
        start = start + p.len();
    }
    assert(s@.subrange(start as int, s@.len() as int) =~= s@.skip(start as int));
    vstd::slice::slice_to_vec(&s[start..s.len()])
}

/// Builds a `PostRef` from an `at://` URI.
pub fn parse_at_uri(uri: &str) -> (r: Result<PostRef, AppError>)
    ensures
        match spec_at_uri(uri@) {
            Ok((did, rkey)) => r matches Ok(p) && p.did@ == did && p.rkey@ == rkey,
            Err(msg) => r matches Err(AppError::InvalidInput(m)) && m@ == msg,
        },
{
    let cs = chars_of(uri);
    let prefix = chars_of("at://");
    let rest = strip_prefixes(cs.as_slice(), prefix.as_slice());
    let parts = split_chars(rest.as_slice(), '/');
    if parts.len() < 3 {
        let mut msg = owned("Invalid at:// URI format: ");
        push_str(&mut msg, uri);
        push_str(&mut msg, ". Expected at://{did}/app.bsky.feed.post/{rkey}");
        return Err(AppError::InvalidInput(msg));
    }
    let did = string_from_chars(parts[0].as_slice());
    let rkey = string_from_chars(parts[2].as_slice());
    Ok(PostRef { did, rkey })
}

/// Where a post reference leads: straight to a post, or to a post whose
/// author's handle must first be resolved to a DID.
#[derive(Debug)]
pub enum PostUriTarget {
    Resolved(PostRef),
    NeedsHandle { handle: String, rkey: String },
}

/// Whether a target is the post with the given DID and record key.
pub open spec fn is_resolved(t: PostUriTarget, did: Seq<char>, rkey: Seq<char>) -> bool {
    t matches PostUriTarget::Resolved(p) && p.did@ == did && p.rkey@ == rkey
}

/// Whether a target is the post with the given handle and record key.
pub open spec fn needs_handle(t: PostUriTarget, handle: Seq<char>, rkey: Seq<char>) -> bool {
    t matches PostUriTarget::NeedsHandle { handle: h, rkey: k } && h@ == handle && k@ == rkey
}

/// How a post reference is read, after trimming white space: `at://` URIs
/// directly (`true`, DID, record key); bsky.app URLs by their fifth and
/// seventh `/`-separated parts, and `@handle/rkey` by the parts after the
/// `@` (`false`, handle, record key). Anything else, or a URL or URI with too
/// few parts, is invalid input with the message given here.
pub open spec fn post_uri_reading(uri: Seq<char>) -> Result<(bool, Seq<char>, Seq<char>), Seq<char>> {
    let t = trim_ws(uri);
    if has_prefix(t, "at://"@) {
        match spec_at_uri(t) {
            Ok((did, rkey)) => Ok((true, did, rkey)),
            Err(m) => Err(m),
        }
    } else if contains_seq(t, "bsky.app/profile/"@) {
        let parts = split_on(t, '/');
        if parts.len() < 7 {
            Err("Invalid bsky.app URL format: "@ + t
                + ". Expected https://bsky.app/profile/{handle}/post/{rkey}"@)
        } else {
            Ok((false, parts[4], parts[6]))
        }
    } else if has_prefix(t, "@"@) && t.contains('/') {
        let parts = split_on(t.skip(1), '/');
        if parts.len() < 2 {
            Err("Invalid compact format: "@ + t + ". Expected @handle/rkey"@)
        } else {
            Ok((false, parts[0], parts[1]))
        }
    } else {
        Err("Invalid post URI/URL format: "@ + uri
            + ". Expected at:// URI, https://bsky.app/... URL, or @handle/rkey"@)
    }
}

/// Reads a post reference; a handle found in it still has to be resolved.
pub fn classify_post_uri(uri: &str) -> (r: Result<PostUriTarget, AppError>)
    ensures
        match post_uri_reading(uri@) {
            Ok((true, did, rkey)) => r matches Ok(t) && is_resolved(t, did, rkey),
            Ok((false, handle, rkey)) => r matches Ok(t) && needs_handle(t, handle, rkey),
            Err(msg) => r matches Err(AppError::InvalidInput(m)) && m@ == msg,
        },
{
    let cs = chars_of(uri);
    let t = trim_chars(cs.as_slice());
    let trimmed = string_from_chars(t.as_slice());
    let at = chars_of("at://");
    if chars_start_with(t.as_slice(), at.as_slice()) {
        return match parse_at_uri(trimmed.as_str()) {
            Ok(p) => Ok(PostUriTarget::Resolved(p)),
            Err(e) => Err(e),
        };
    }
    let marker = chars_of("bsky.app/profile/");
    if chars_contain(t.as_slice(), marker.as_slice()) {
        let parts = split_chars(t.as_slice(), '/');
        if parts.len() < 7 {
            let mut msg = owned("Invalid bsky.app URL format: ");
            push_str(&mut msg, trimmed.as_str());
            push_str(&mut msg, ". Expected https://bsky.app/profile/{handle}/post/{rkey}");
            return Err(AppError::InvalidInput(msg));
        }
        let handle = string_from_chars(parts[4].as_slice());
        let rkey = string_from_chars(parts[6].as_slice());
        return Ok(PostUriTarget::NeedsHandle { handle, rkey });
    }
    let at_sign = chars_of("@");
    let mut has_slash = false;
    let mut k: usize = 0;
    while k < t.len()
        invariant
            k <= t@.len(),
            has_slash == exists|j: int| 0 <= j < k && t@[j] == '/',
        decreases t@.len() - k,
    {
        if t[k] == '/' {
            has_slash = true;
        }
        k = k + 1;
    }
    assert(has_slash == t@.contains('/'));
    if chars_start_with(t.as_slice(), at_sign.as_slice()) && has_slash {
        proof {
            reveal_strlit("@");
        }
        let without_at = &t.as_slice()[1..t.len()];
        assert(without_at@ =~= t@.skip(1));
        let parts = split_chars(without_at, '/');
        if parts.len() < 2 {
            let mut msg = owned("Invalid compact format: ");
            push_str(&mut msg, trimmed.as_str());
            push_str(&mut msg, ". Expected @handle/rkey");
            return Err(AppError::InvalidInput(msg));
        }
        let handle = string_from_chars(parts[0].as_slice());
        let rkey = string_from_chars(parts[1].as_slice());
        return Ok(PostUriTarget::NeedsHandle { handle, rkey });
    }
    let mut msg = owned("Invalid post URI/URL format: ");
    push_str(&mut msg, uri);
    push_str(&mut msg, ". Expected at:// URI, https://bsky.app/... URL, or @handle/rkey");
    Err(AppError::InvalidInput(msg))
}

/// The post a reference leads to once its handle (if any) has been looked
/// up: `did` is the lookup's answer, `None` when the handle did not resolve.
pub fn complete_post_ref(target: PostUriTarget, did: Option<String>) -> (r: Result<PostRef, AppError>)
    ensures
        match target {
            PostUriTarget::Resolved(p) => r matches Ok(q) && q.did@ == p.did@ && q.rkey@ == p.rkey@,
            PostUriTarget::NeedsHandle { handle, rkey } => match did {
                Some(d) => r matches Ok(q) && q.did@ == d@ && q.rkey@ == rkey@,
                None => r matches Err(AppError::DidResolveFailed(m))
                    && m@ == "Could not resolve handle: "@ + handle@,
            },
        },
{
    match target {
        PostUriTarget::Resolved(p) => Ok(p),
        PostUriTarget::NeedsHandle { handle, rkey } => match did {
            Some(d) => Ok(PostRef { did: d, rkey }),
            None => {
                let mut msg = owned("Could not resolve handle: ");
                push_str(&mut msg, handle.as_str());
                Err(AppError::DidResolveFailed(msg))
            },
        },
    }
}

} // verus!
