use autoreply::error::{http_failure, normalize_text, validate_account, validate_query, AppError};

#[test]
fn test_app_error_display() {
    let tests = vec![
        (AppError::InvalidInput("test".to_string()), "Invalid input: test"),
        (AppError::DidResolveFailed("resolve error".to_string()), "DID resolution failed: resolve error"),
        (AppError::RepoFetchFailed("fetch error".to_string()), "Repository fetch failed: fetch error"),
        (AppError::RepoParseFailed("parse error".to_string()), "Repository parse failed: parse error"),
        (AppError::NotFound("not found".to_string()), "Not found: not found"),
        (AppError::Timeout("timeout error".to_string()), "Timeout: timeout error"),
        (AppError::CacheError("cache error".to_string()), "Cache error: cache error"),
        (
            AppError::HttpClientInitialization("http client error".to_string()),
            "HTTP client initialization failed: http client error",
        ),
        (AppError::NetworkError("network error".to_string()), "Network error: network error"),
        (AppError::Internal("internal error".to_string()), "Internal error: internal error"),
    ];
    for (error, expected) in tests {
        assert_eq!(error.message(), expected);
    }
}

#[test]
fn test_app_error_codes() {
    let tests = vec![
        (AppError::InvalidInput("test".to_string()), "invalid_input"),
        (AppError::DidResolveFailed("test".to_string()), "did_resolve_failed"),
        (AppError::RepoFetchFailed("test".to_string()), "repo_fetch_failed"),
        (AppError::RepoParseFailed("test".to_string()), "repo_parse_failed"),
        (AppError::NotFound("test".to_string()), "not_found"),
        (AppError::Timeout("test".to_string()), "timeout"),
        (AppError::CacheError("test".to_string()), "cache_error"),
        (AppError::HttpClientInitialization("test".to_string()), "http_client_initialization"),
        (AppError::NetworkError("test".to_string()), "network_error"),
        (AppError::Internal("test".to_string()), "internal_error"),
    ];
    for (error, expected_code) in tests {
        assert_eq!(error.error_code(), expected_code);
    }
}

#[test]
fn test_validate_account_empty() {
    let result = validate_account("");
    assert!(result.is_err());
    match result.unwrap_err() {
        AppError::InvalidInput(msg) => assert!(msg.contains("cannot be empty")),
        _ => panic!("Expected InvalidInput error"),
    }
}

#[test]
fn test_validate_account_valid_plc_did() {
    let valid_dids = vec!["did:plc:abcdefghijklmnopqrstuvwx", "did:plc:123456789012345678901234"];
    for did in valid_dids {
        assert!(validate_account(did).is_ok());
    }
}

#[test]
fn test_validate_account_invalid_plc_did() {
    let invalid_dids = vec![
        "did:plc:tooshort",
        "did:plc:toolong123456789012345678901",
        "did:plc:has-invalid-chars123456789!",
    ];
    for did in invalid_dids {
        let result = validate_account(did);
        assert!(result.is_err());
        match result.unwrap_err() {
            AppError::InvalidInput(msg) => assert!(msg.contains("Invalid DID format")),
            _ => panic!("Expected InvalidInput error for {}", did),
        }
    }
}

#[test]
fn test_validate_account_valid_web_did() {
    let valid_web_dids =
        vec!["did:web:example.com", "did:web:example.com:user:alice", "did:web:subdomain.example.org:some:path"];
    for did in valid_web_dids {
        assert!(validate_account(did).is_ok());
    }
}

#[test]
fn test_validate_account_invalid_web_did() {
    let result = validate_account("did:web:");
    assert!(result.is_err());
    match result.unwrap_err() {
        AppError::InvalidInput(msg) => assert!(msg.contains("Invalid did:web format")),
        _ => panic!("Expected InvalidInput error"),
    }
}

#[test]
fn test_validate_account_valid_handles() {
    let valid_handles =
        vec!["alice.bsky.social", "bob.example.com", "user.subdomain.example.org", "@alice.bsky.social"];
    for handle in valid_handles {
        assert!(validate_account(handle).is_ok());
    }
}

#[test]
fn test_validate_account_invalid_handles() {
    let invalid_handles = vec!["nodomain", "empty.", ".empty", "double..domain"];
    for handle in invalid_handles {
        let result = validate_account(handle);
        assert!(result.is_err());
        match result.unwrap_err() {
            AppError::InvalidInput(_) => {}
            _ => panic!("Expected InvalidInput error for {}", handle),
        }
    }
}

#[test]
fn test_validate_query_valid() {
    let max_length_query = "a".repeat(500);
    let valid_queries = vec!["hello", "hello world", &max_length_query, "unicode: 🚀 ñoño"];
    for query in valid_queries {
        assert!(validate_query(&query).is_ok());
    }
}

#[test]
fn test_validate_query_empty() {
    let result = validate_query("");
    assert!(result.is_err());
    match result.unwrap_err() {
        AppError::InvalidInput(msg) => assert!(msg.contains("cannot be empty")),
        _ => panic!("Expected InvalidInput error"),
    }
}

#[test]
fn test_validate_query_too_long() {
    let long_query = "a".repeat(501);
    let result = validate_query(&long_query);
    assert!(result.is_err());
    match result.unwrap_err() {
        AppError::InvalidInput(msg) => assert!(msg.contains("too long")),
        _ => panic!("Expected InvalidInput error"),
    }
}

#[test]
fn validate_query_counts_bytes() {
    // 200 three-byte characters are 600 bytes.
    assert!(validate_query(&"世".repeat(200)).is_err());
    assert!(validate_query(&"世".repeat(166)).is_ok());
}

#[test]
fn validate_account_exact_messages() {
    match validate_account("nodomain") {
        Err(AppError::InvalidInput(m)) => assert_eq!(m, "Invalid handle format, must contain domain"),
        _ => panic!(),
    }
    match validate_account("double..domain") {
        Err(AppError::InvalidInput(m)) => assert_eq!(m, "Invalid handle format"),
        _ => panic!(),
    }
}

#[test]
fn test_from_io_error() {
    let io_err = std::io::Error::new(std::io::ErrorKind::NotFound, "file not found");
    let app_err: AppError = io_err.into();
    assert_eq!(app_err.error_code(), "cache_error");
}

#[test]
fn test_normalize_text_basic() {
    assert_eq!(normalize_text("hello world"), "hello world");
    assert_eq!(normalize_text("  hello world  "), "hello world");
    assert_eq!(normalize_text(""), "");
}

#[test]
fn test_normalize_text_unicode() {
    let text1 = "café";
    let text2 = "cafe\u{0301}";
    let normalized1 = normalize_text(text1);
    let normalized2 = normalize_text(text2);
    assert_eq!(normalized1, normalized2);
    assert_eq!(normalized1, "café");
}

#[test]
fn test_normalize_text_whitespace() {
    let inputs = vec!["\t  hello  \n", "\r\n hello \t", "   hello   "];
    for input in inputs {
        assert_eq!(normalize_text(input), "hello");
    }
}

#[test]
fn test_normalize_text_compatibility() {
    assert_eq!(normalize_text("Ⅰ"), "I");
    assert_eq!(normalize_text("Ａ"), "A");
}

#[test]
fn test_from_reqwest_error() {
    let json_err = serde_json::from_str::<serde_json::Value>("invalid").unwrap_err();
    let app_err: AppError = json_err.into();
    assert_eq!(app_err.error_code(), "repo_parse_failed");
}

#[test]
fn test_from_serde_json_error() {
    let json_err = serde_json::from_str::<serde_json::Value>("invalid json").unwrap_err();
    let app_err: AppError = json_err.into();
    assert_eq!(app_err.error_code(), "repo_parse_failed");
}

#[test]
fn test_from_anyhow_error() {
    let anyhow_err = anyhow::Error::msg("generic error");
    let app_err: AppError = anyhow_err.into();
    assert_eq!(app_err.error_code(), "internal_error");
}

#[test]
fn http_failures_by_kind() {
    assert_eq!(http_failure(true, true, false, "t".to_string()).error_code(), "timeout");
    assert_eq!(http_failure(false, true, false, "c".to_string()).error_code(), "repo_fetch_failed");
    assert_eq!(http_failure(false, false, true, "r".to_string()).error_code(), "repo_fetch_failed");
    assert_eq!(http_failure(false, false, false, "x".to_string()).error_code(), "internal_error");
}
