use autoreply::cache::{copy_is_expired, copy_is_fresh, is_fresh, CacheManager, CacheMetadata};
use autoreply::cli::{FeedArgs, PostArgs, ProfileArgs, ReactArgs, SearchArgs, ThreadArgs};

#[test]
fn test_cache_metadata_new() {
    let did = "did:plc:abc123def456".to_string();
    let ttl_hours = 24;
    let metadata = CacheMetadata::new(did.clone(), ttl_hours);
    assert_eq!(metadata.did, did);
    assert_eq!(metadata.ttl_hours, ttl_hours);
    assert!(metadata.etag.is_none());
    assert!(metadata.last_modified.is_none());
    assert!(metadata.content_length.is_none());
    assert!(metadata.cached_at > 0);
}

#[test]
fn test_cache_metadata_with_headers() {
    let metadata = CacheMetadata::new("did:plc:test".to_string(), 24).with_headers(
        Some("etag123".to_string()),
        Some("Mon, 01 Jan 2024 00:00:00 GMT".to_string()),
        Some(1024),
    );
    assert_eq!(metadata.etag, Some("etag123".to_string()));
    assert_eq!(metadata.last_modified, Some("Mon, 01 Jan 2024 00:00:00 GMT".to_string()));
    assert_eq!(metadata.content_length, Some(1024));
}

#[test]
fn test_cache_manager_new() {
    let manager = CacheManager::with_dir("/tmp/autoreply/did".to_string());
    assert_eq!(manager.cache_dir(), "/tmp/autoreply/did");
}

#[test]
fn cache_paths_follow_layout() {
    let m = CacheManager::with_dir("/cache".to_string());
    assert_eq!(m.get_cache_path("did:plc:abc123def456789012345").unwrap(), "/cache/ab/abc123def456789012345");
    assert_eq!(m.get_cache_path("did:web:example.com:user:alice").unwrap(), "/cache/ex/example.com:user:alice");
    assert_eq!(m.get_cache_path("x").unwrap(), "/cache/xx/x");
    let (car, meta) = m.get_file_paths("did:plc:abc123def456789012345").unwrap();
    assert_eq!(car, "/cache/ab/abc123def456789012345/repo.car");
    assert_eq!(meta, "/cache/ab/abc123def456789012345/metadata.json");
}

#[test]
fn cache_freshness() {
    assert!(is_fresh(1000, 1000, 1));
    assert!(is_fresh(4599, 1000, 1));
    assert!(!is_fresh(4600, 1000, 1));
    assert!(!is_fresh(10, 0, 0));
}

#[test]
fn test_profile_args() {
    let args = ProfileArgs { account: "alice.bsky.social".to_string() };
    assert_eq!(args.account, "alice.bsky.social");
}

#[test]
fn test_search_args() {
    let args =
        SearchArgs { from: "bob.bsky.social".to_string(), query: "rust programming".to_string(), limit: Some(10) };
    assert_eq!(args.from, "bob.bsky.social");
    assert_eq!(args.query, "rust programming");
    assert_eq!(args.limit, Some(10));
}

#[test]
fn test_post_args() {
    let args = PostArgs { postAs: "alice.bsky.social".to_string(), text: "Hello, world!".to_string(), replyTo: None };
    assert_eq!(args.postAs, "alice.bsky.social");
    assert_eq!(args.text, "Hello, world!");
    assert!(args.replyTo.is_none());
}

#[test]
fn test_react_args() {
    let args = ReactArgs {
        reactAs: "bob.bsky.social".to_string(),
        like: vec!["at://did:plc:abc/app.bsky.feed.post/123".to_string()],
        unlike: vec![],
        repost: vec![],
        delete: vec![],
    };
    assert_eq!(args.reactAs, "bob.bsky.social");
    assert_eq!(args.like.len(), 1);
    assert_eq!(args.unlike.len(), 0);
}

#[test]
fn test_feed_args() {
    let args = FeedArgs {
        feed: Some("at://did:plc:xyz/app.bsky.feed.generator/hot".to_string()),
        viewAs: Some("alice.bsky.social".to_string()),
        continueAtCursor: None,
        limit: Some(50),
    };
    assert_eq!(args.feed, Some("at://did:plc:xyz/app.bsky.feed.generator/hot".to_string()));
    assert_eq!(args.limit, Some(50));
}

#[test]
fn test_thread_args() {
    let args = ThreadArgs { postURI: "at://did:plc:abc/app.bsky.feed.post/123".to_string(), viewAs: None };
    assert_eq!(args.postURI, "at://did:plc:abc/app.bsky.feed.post/123");
}

fn test_cache_manager() -> CacheManager {
    CacheManager::with_dir("/tmp/autoreply-test-cache".to_string())
}

#[test]
fn test_get_cache_path_plc() {
    let cache_manager = test_cache_manager();
    let did = "did:plc:abc123def456789012345";
    let path = cache_manager.get_cache_path(did).unwrap();
    let expected = std::path::Path::new(cache_manager.cache_dir()).join("ab").join("abc123def456789012345");
    assert_eq!(std::path::PathBuf::from(path), expected);
}

#[test]
fn test_get_cache_path_web() {
    let cache_manager = test_cache_manager();
    let did = "did:web:example.com:user:alice";
    let path = cache_manager.get_cache_path(did).unwrap();
    let expected = std::path::Path::new(cache_manager.cache_dir()).join("ex").join("example.com:user:alice");
    assert_eq!(std::path::PathBuf::from(path), expected);
}

#[test]
fn test_get_cache_path_fallback() {
    let cache_manager = test_cache_manager();
    let did = "x";
    let path = cache_manager.get_cache_path(did).unwrap();
    let expected = std::path::Path::new(cache_manager.cache_dir()).join("xx").join("x");
    assert_eq!(std::path::PathBuf::from(path), expected);
}

#[test]
fn test_get_file_paths() {
    let cache_manager = test_cache_manager();
    let did = "did:plc:abc123def456789012345";
    let (car_path, metadata_path) = cache_manager.get_file_paths(did).unwrap();
    let cache_path = std::path::PathBuf::from(cache_manager.get_cache_path(did).unwrap());
    assert_eq!(std::path::PathBuf::from(car_path), cache_path.join("repo.car"));
    assert_eq!(std::path::PathBuf::from(metadata_path), cache_path.join("metadata.json"));
}

#[test]
fn cached_copies_dated_ahead_or_kept_too_long_are_stale_and_kept() {
    assert!(copy_is_fresh(4599, 1000, 1));
    assert!(!copy_is_fresh(4600, 1000, 1));
    assert!(!copy_is_fresh(999, 1000, 1));
    assert!(!copy_is_fresh(5000, 1000, u64::MAX));
    assert!(!copy_is_expired(4600, 1000, 1));
    assert!(copy_is_expired(4601, 1000, 1));
    assert!(!copy_is_expired(999, 1000, 1));
    assert!(!copy_is_expired(u64::MAX, 0, u64::MAX));
}
