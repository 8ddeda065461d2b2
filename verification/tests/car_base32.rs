use autoreply::car::base32::{decode_base32, decode_multibase};

#[test]
fn test_decode_base32_empty() {
    let result = decode_base32("");
    assert!(result.is_ok());
    assert_eq!(result.unwrap(), Vec::<u8>::new());
}

#[test]
fn test_decode_base32_simple() {
    let result = decode_base32("nbswy3dp");
    assert!(result.is_ok());
    assert_eq!(result.unwrap(), b"hello");
}

#[test]
fn test_decode_base32_with_padding() {
    let result = decode_base32("nbswy3dp====");
    assert!(result.is_ok());
    assert_eq!(result.unwrap(), b"hello");
}

#[test]
fn test_decode_base32_all_chars() {
    let result = decode_base32("abcdefghijklmnopqrstuvwxyz234567");
    assert!(result.is_ok());
}

#[test]
fn test_decode_base32_invalid_char() {
    let result = decode_base32("abc!def");
    assert!(result.is_err());
}

#[test]
fn test_decode_multibase_base32() {
    let result = decode_multibase("bnbswy3dp");
    assert!(result.is_ok());
    assert_eq!(result.unwrap(), b"hello");
}

#[test]
fn test_decode_multibase_unsupported() {
    let result = decode_multibase("zhello");
    assert!(result.is_err());
}

#[test]
fn test_decode_multibase_empty() {
    let result = decode_multibase("");
    assert!(result.is_err());
}

#[test]
fn test_decode_base32_bytes() {
    let result = decode_base32("mfrgg");
    assert!(result.is_ok());
    let decoded = result.unwrap();
    assert_eq!(decoded, b"abc");
}

#[test]
fn decode_base32_rejects_uppercase_and_skips_padding_anywhere() {
    assert!(decode_base32("NBSWY3DP").is_err());
    assert_eq!(decode_base32("nbs=wy3dp").unwrap(), b"hello");
}

#[test]
fn decode_base32_full_block() {
    // "foobar" is "mzxw6ytboi" in lowercase RFC 4648 base32.
    assert_eq!(decode_base32("mzxw6ytboi").unwrap(), b"foobar");
}
