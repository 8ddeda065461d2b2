//! Minimal multihash parser: SHA-256 (code 0x12) with 32-byte digests.
use vstd::prelude::*;
use crate::car::error::{CarError, CarFault};

verus! {

/// Parsed multihash components.
#[derive(Debug, Clone, PartialEq)]
pub struct Multihash {
    pub code: u8,
    pub size: usize,
    pub digest: Vec<u8>,
}

/// The multihash layout this parser accepts: `[0x12][32][32 digest bytes]...`,
/// with the failure that the first offending position causes.
pub open spec fn spec_parse_multihash(b: Seq<u8>) -> Result<Seq<u8>, CarFault> {
    if b.len() == 0 {
        Err(CarFault::HeaderMsg("Empty multihash"@))
    } else if b[0] != 0x12 {
        Err(CarFault::HeaderMsg("Unsupported multihash code: "@ + crate::text::hex_prefixed(b[0])))
    } else if b.len() < 2 {
        Err(CarFault::Eof)
    } else if b[1] != 32 {
        Err(CarFault::DigestSize(32, b[1] as usize))
    } else if b.len() < 34 {
        Err(CarFault::Eof)
    } else {
        Ok(b.subrange(2, 34))
    }
}

/// Parses a multihash `[code][size][digest...]`; only SHA-256 with a 32-byte
/// digest is supported, and bytes after the digest are ignored.
pub fn parse_multihash(bytes: &[u8]) -> (r: Result<Multihash, CarError>)
    ensures
        match spec_parse_multihash(bytes@) {
            Ok(d) => r matches Ok(m) && m.code == 0x12 && m.size == 32 && m.digest@ == d,
            Err(f) => r matches Err(e) && e.shows(f),
        },
{
    if bytes.len() == 0 {
        return Err(CarError::header("Empty multihash"));
    }
    let code = bytes[0];
    if code != 0x12 {
        let mut detail = String::new();
        crate::text::push_hex_prefixed(&mut detail, code);
        return Err(CarError::header_with("Unsupported multihash code: ", detail));
    }
    if bytes.len() < 2 {
        return Err(CarError::UnexpectedEof);
    }
    let size = bytes[1] as usize;
    if size != 32 {
        return Err(CarError::InvalidDigestSize { expected: 32, actual: size });
    }
    if bytes.len() < 2 + size {
        return Err(CarError::UnexpectedEof);
    }
    let digest = vstd::slice::slice_to_vec(&bytes[2..2 + size]);
    Ok(Multihash { code, size, digest })
}

/// Extracts the digest of a multihash (the canonical key of a CID).
pub fn extract_digest(bytes: &[u8]) -> (r: Result<Vec<u8>, CarError>)
    ensures
        match spec_parse_multihash(bytes@) {
            Ok(d) => r matches Ok(v) && v@ == d,
            Err(f) => r matches Err(e) && e.shows(f),
        },
{
    let mh = parse_multihash(bytes)?;
    Ok(mh.digest)
}

/// Formats a digest as lowercase hexadecimal.
pub fn digest_to_hex(digest: &[u8]) -> (s: String)
    ensures
        s@ == crate::text::hex_lower(digest@),
{
    crate::text::hex_encode(digest)
}

} // verus!
