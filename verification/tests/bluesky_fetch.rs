use autoreply::bluesky::fetch::{on_cache_checked, on_download, on_pds_found, start_repo_fetch, RepoDownload, RepoFetchStep};
use autoreply::error::AppError;
use autoreply::text::parse_u64;

#[test]
fn fetch_asks_the_cache_then_the_pds() {
    assert!(matches!(start_repo_fetch("did:plc:a"), RepoFetchStep::CheckCache { did, ttl_hours: 24 } if did == "did:plc:a"));
    assert!(matches!(on_cache_checked("did:plc:a", true), RepoFetchStep::UseCache { did } if did == "did:plc:a"));
    assert!(matches!(on_cache_checked("did:web:x.com", false), RepoFetchStep::FindDidWebPds { .. }));
    assert!(matches!(on_cache_checked("did:plc:a", false), RepoFetchStep::DiscoverPds { .. }));
}

#[test]
fn download_url_uses_the_pds_or_the_fallback() {
    let url = |found| match on_pds_found("did:plc:a", found) {
        RepoFetchStep::Download { url } => url,
        _ => panic!(),
    };
    assert_eq!(url(Ok(Some("https://pds.example//".to_string()))), "https://pds.example/xrpc/com.atproto.sync.getRepo?did=did:plc:a");
    assert_eq!(url(Ok(None)), "https://bsky.social/xrpc/com.atproto.sync.getRepo?did=did:plc:a");
    assert_eq!(url(Err(AppError::NetworkError("x".to_string()))), "https://bsky.social/xrpc/com.atproto.sync.getRepo?did=did:plc:a");
}

#[test]
fn download_answers() {
    match on_download("did:plc:a", RepoDownload::Refused { status: "404 Not Found".to_string(), body: "gone".to_string() }) {
        RepoFetchStep::Fail(e) => assert_eq!(e.message(), "Repository fetch failed: HTTP 404 Not Found from repo fetch: gone"),
        _ => panic!(),
    }
    let got = |len: Option<&str>| on_download(
        "did:plc:a",
        RepoDownload::Received { etag: Some("e".to_string()), last_modified: None, content_length: len.map(String::from), size: 10 },
    );
    match got(Some("12")) {
        RepoFetchStep::Fail(e) => assert_eq!(e.message(), "Repository fetch failed: Content length mismatch: expected 12, got 10"),
        _ => panic!(),
    }
    match got(Some("10")) {
        RepoFetchStep::Store { did, metadata } => {
            assert_eq!(did, "did:plc:a");
            assert_eq!(metadata.did, "did:plc:a");
            assert_eq!(metadata.ttl_hours, 24);
            assert_eq!(metadata.etag.as_deref(), Some("e"));
            assert_eq!(metadata.content_length, Some(10));
        },
        _ => panic!(),
    }
    match got(Some("ten")) {
        RepoFetchStep::Store { metadata, .. } => assert_eq!(metadata.content_length, None),
        _ => panic!(),
    }
    assert!(matches!(
        on_download("did:plc:a", RepoDownload::Failed(AppError::Timeout("t".to_string()))),
        RepoFetchStep::Fail(AppError::Timeout(_))
    ));
}

#[test]
fn parse_u64_reads_what_str_parse_reads() {
    for s in ["0", "+7", "18446744073709551615", "18446744073709551616", "", "+", "-1", "1 ", "12a", "007"] {
        assert_eq!(parse_u64(s), s.parse::<u64>().ok(), "{}", s);
    }
}
