//! Where repositories are cached, what is recorded with them, and when a
//! cached copy is still fresh.
use vstd::prelude::*;
use vstd::utf8::*;
use vstd::string::StringSliceAdditionalSpecFns;
use crate::error::{AppError, is_ascii_alnum, ascii_alnum};
use crate::strings::has_prefix;
use crate::text::{chars_of, owned, push_str, push_chars, string_from_chars};

verus! {

/// Facts recorded with a cached repository.
#[derive(Debug, Clone)]
pub struct CacheMetadata {
    pub did: String,
    pub etag: Option<String>,
    pub last_modified: Option<String>,
    pub content_length: Option<u64>,
    pub cached_at: u64,
    pub ttl_hours: u64,
}

/// The current time in whole seconds since the Unix epoch
/// (`SystemTime::now().duration_since(UNIX_EPOCH)`, then `as_secs`); `None`
/// when the clock reads before the epoch. Nothing is claimed of the value,
/// which reads the clock.
#[verifier::external_body]
fn unix_time_secs() -> (secs: Option<u64>) {
    match std::time::SystemTime::now().duration_since(std::time::UNIX_EPOCH) {
        Ok(d) => Some(d.as_secs()),
        Err(_) => None,
    }
}

impl CacheMetadata {
    /// Metadata for a repository cached now, to be kept `ttl_hours` hours.
    pub fn new(did: String, ttl_hours: u64) -> (m: Self)
        ensures
            m.did == did,
            m.ttl_hours == ttl_hours,
            m.etag is None,
            m.last_modified is None,
            m.content_length is None,
    {
        // A clock set before the epoch gives no time to record: the copy is
        // then dated at the epoch itself, so it counts as old.
        let now = match unix_time_secs() {
            Some(secs) => secs,
            None => 0,
        };
        CacheMetadata { did, etag: None, last_modified: None, content_length: None, cached_at: now, ttl_hours }
    }

    /// The same metadata with the HTTP validators of the download.
    pub fn with_headers(self, etag: Option<String>, last_modified: Option<String>, content_length: Option<u64>) -> (m: Self)
        ensures
            m.etag == etag,
            m.last_modified == last_modified,
            m.content_length == content_length,
            m.did == self.did,
            m.cached_at == self.cached_at,
            m.ttl_hours == self.ttl_hours,
    {
        let mut m = self;
        m.etag = etag;
        m.last_modified = last_modified;
        m.content_length = content_length;
        m
    }
}

/// Whether a copy cached at `cached_at` is still fresh at `now` (both in
/// seconds) when it is kept `ttl_hours` hours.
pub open spec fn cache_fresh(now: u64, cached_at: u64, ttl_hours: u64) -> bool {
    now - cached_at < ttl_hours * 3600
}

/// Decides whether a cached copy is still fresh.
pub fn is_fresh(now: u64, cached_at: u64, ttl_hours: u64) -> (r: bool)
    requires
        cached_at <= now,
        ttl_hours * 3600 <= u64::MAX,
    ensures
        r == cache_fresh(now, cached_at, ttl_hours),
{
    now - cached_at < ttl_hours * 3600
}

/// Decides whether a cached copy counts as fresh, whatever the clock read:
/// a copy dated after `now`, or one kept for a time too long to count in
/// seconds, counts as stale; otherwise as `is_fresh` decides.
pub fn copy_is_fresh(now: u64, cached_at: u64, ttl_hours: u64) -> (r: bool)
    ensures
        r == (cached_at <= now && ttl_hours * 3600 <= u64::MAX && cache_fresh(now, cached_at, ttl_hours)),
{
    if cached_at > now || ttl_hours > u64::MAX / 3600 {
        return false;
    }
    is_fresh(now, cached_at, ttl_hours)
}

/// Decides whether a cached copy is past its time to live and may be
/// removed: older than `ttl_hours` hours at `now`. A copy dated after `now`,
/// or kept for a time too long to count in seconds, is kept.
pub fn copy_is_expired(now: u64, cached_at: u64, ttl_hours: u64) -> (r: bool)
    ensures
        r == (cached_at <= now && ttl_hours * 3600 <= u64::MAX && now - cached_at > ttl_hours * 3600),
{
    if cached_at > now || ttl_hours > u64::MAX / 3600 {
        return false;
    }
    now - cached_at > ttl_hours * 3600
}

/// `base` joined with `p` as a path: `p` itself when it is absolute (starts
/// with `/`) or `base` is empty, otherwise with one `/` between them.
pub open spec fn path_join(base: Seq<char>, p: Seq<char>) -> Seq<char> {
    if (p.len() > 0 && p[0] == '/') || base.len() == 0 {
        p
    } else if base.last() == '/' {
        base + p
    } else {
        base + "/"@ + p
    }
}

/// The ASCII letters and digits of `s`, in order.
pub open spec fn alnum_only(s: Seq<char>) -> Seq<char>
    decreases s.len(),
{
    if s.len() == 0 {
        Seq::empty()
    } else if is_ascii_alnum(s.last()) {
        alnum_only(s.drop_last()).push(s.last())
    } else {
        alnum_only(s.drop_last())
    }
}

/// The first two letters and digits of `s`, or `xx` when there are fewer.
pub open spec fn two_alnum(s: Seq<char>) -> Seq<char> {
    if alnum_only(s).len() >= 2 {
        alnum_only(s).take(2)
    } else {
        "xx"@
    }
}

/// The shard directory of a DID's cache: bytes 8 and 9 of a `did:plc` DID
/// (the first two characters of its identifier); the first two letters and
/// digits of a `did:web` host part or of anything else.
pub open spec fn cache_prefix(did: &str) -> Seq<char> {
    if has_prefix(did@, "did:plc:"@) && did.len() >= 10 {
        decode_utf8(did.spec_bytes().subrange(8, 10))
    } else if has_prefix(did@, "did:web:"@) {
        two_alnum(did@.skip(8))
    } else {
        two_alnum(did@)
    }
}

/// Bytes 8 to 10 of the DID can be cut out as text: both ends fall on
/// character boundaries.
pub open spec fn plc_shard_slicable(did: &str) -> bool {
    is_char_boundary(did.spec_bytes(), 8) && is_char_boundary(
        did.spec_bytes().subrange(8, did.spec_bytes().len() as int),
        2,
    )
}

/// The directory of a DID's cache within its shard: the DID without its
/// `did:plc:` or `did:web:` prefix.
pub open spec fn cache_key(did: Seq<char>) -> Seq<char> {
    if has_prefix(did, "did:plc:"@) || has_prefix(did, "did:web:"@) {
        did.skip(8)
    } else {
        did
    }
}

/// The cache of downloaded repositories, under one directory.
pub struct CacheManager {
    cache_dir: String,
}

/// The letters and digits of `s`, and the first two of them or `xx`.
fn two_alnum_exec(s: &[char]) -> (r: String)
    ensures
        r@ == two_alnum(s@),
{
    let mut kept: Vec<char> = Vec::new();
    let mut i: usize = 0;
    while i < s.len()
        invariant
            i <= s@.len(),
            kept@ == alnum_only(s@.take(i as int)),
        decreases s@.len() - i,
    {
        assert(s@.take(i + 1).drop_last() =~= s@.take(i as int));
        if ascii_alnum(s[i]) {
            kept.push(s[i]);
        }
        i = i + 1;
    }
    assert(s@.take(s@.len() as int) =~= s@);
    if kept.len() >= 2 {
        let r = string_from_chars(&kept.as_slice()[0..2]);
        assert(kept@.subrange(0, 2) =~= kept@.take(2));
        r
    } else {
        owned("xx")
    }
}

/// Joins `p` to the path `base`.
pub(crate) fn join_path(base: &str, p: &str) -> (r: String)
    ensures
        r@ == path_join(base@, p@),
{
    let b = chars_of(base);
    let q = chars_of(p);
    if (q.len() > 0 && q[0] == '/') || b.len() == 0 {
        return owned(p);
    }
    let mut out = owned(base);
    if b[b.len() - 1] != '/' {
        push_str(&mut out, "/");
    }
    push_str(&mut out, p);
    out
}

impl CacheManager {
    /// A cache under the given directory.
    pub fn with_dir(cache_dir: String) -> (m: Self)
        ensures
            m.dir() == cache_dir@,
    {
        CacheManager { cache_dir }
    }

    /// The cache's directory.
    pub closed spec fn dir(&self) -> Seq<char> {
        self.cache_dir@
    }

    /// The cache's directory.
    pub fn cache_dir(&self) -> (d: &str)
        ensures
            d@ == self.dir(),
    {
        self.cache_dir.as_str()
    }

    /// The directory holding a DID's cached repository.
    pub fn get_cache_path(&self, did: &str) -> (r: Result<String, AppError>)
        requires
            has_prefix(did@, "did:plc:"@) && did.len() >= 10 ==> plc_shard_slicable(did),
        ensures
            r matches Ok(p) && p@ == path_join(path_join(self.dir(), cache_prefix(did)), cache_key(did@)),
    {
        let cs = chars_of(did);
        let plc = chars_of("did:plc:");
        let web = chars_of("did:web:");
        let is_plc = crate::strings::chars_start_with(cs.as_slice(), plc.as_slice());
        let is_web = crate::strings::chars_start_with(cs.as_slice(), web.as_slice());
        proof {
            reveal_strlit("did:plc:");
            reveal_strlit("did:web:");
        }
        let prefix = if is_plc && did.len() >= 10 {
            let (_, rest) = did.split_at(8);
            let (two, _) = rest.split_at(2);
            proof {
                assert(two.spec_bytes() =~= did.spec_bytes().subrange(8, 10));
                encode_utf8_decode_utf8(two@);
            }
            owned(two)
        } else if is_web {
            two_alnum_exec(&cs.as_slice()[8..cs.len()])
        } else {
            two_alnum_exec(cs.as_slice())
        };
        if is_web {
            assert(cs@.subrange(8, cs@.len() as int) =~= did@.skip(8));
        }
        let key: String = if is_plc || is_web {
            string_from_chars(&cs.as_slice()[8..cs.len()])
        } else {
            owned(did)
        };
        assert(is_plc || is_web ==> cs@.subrange(8, cs@.len() as int) =~= did@.skip(8));
        let dir = join_path(self.cache_dir.as_str(), prefix.as_str());
        let path = join_path(dir.as_str(), key.as_str());
        Ok(path)
    }

    /// The paths of a DID's cached repository and of its metadata.
    pub fn get_file_paths(&self, did: &str) -> (r: Result<(String, String), AppError>)
        requires
            has_prefix(did@, "did:plc:"@) && did.len() >= 10 ==> plc_shard_slicable(did),
        ensures
            r matches Ok((car, meta)) && {
                let dir = path_join(path_join(self.dir(), cache_prefix(did)), cache_key(did@));
                car@ == path_join(dir, "repo.car"@) && meta@ == path_join(dir, "metadata.json"@)
            },
    {
        let cache_path = self.get_cache_path(did)?;
        let car_path = join_path(cache_path.as_str(), "repo.car");
        let metadata_path = join_path(cache_path.as_str(), "metadata.json");
        Ok((car_path, metadata_path))
    }
}

} // verus!
