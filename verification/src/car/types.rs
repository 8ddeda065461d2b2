//! Content identifiers, CAR blocks and headers.
use vstd::prelude::*;

verus! {

/// A content identifier as stored in CAR block prefixes.
#[derive(Debug, Clone)]
pub struct Cid {
    pub version: u8,
    pub codec: u8,
    pub digest_type: u8,
    pub digest: Vec<u8>,
}

/// A CAR block: its identifier and its payload bytes.
#[derive(Debug)]
pub struct CarEntry {
    pub cid: Cid,
    pub bytes: Vec<u8>,
}

/// The decoded CAR header.
#[derive(Debug, Clone)]
pub struct CarHeader {
    pub version: u8,
    pub roots: Vec<Cid>,
}

/// A CID rendered as text (the hexadecimal of its digest).
#[derive(Debug, Clone)]
pub struct CidLink(pub String);

impl Cid {
    /// The display text of a CID: the lowercase hexadecimal of its digest.
    pub fn to_text(&self) -> (s: String)
        ensures
            s@ == crate::text::hex_lower(self.digest@),
    {
        crate::text::hex_encode(self.digest.as_slice())
    }
}

impl CidLink {
    /// The link for a CID: its display text.
    pub fn from_cid(cid: &Cid) -> (l: CidLink)
        ensures
            l.0@ == crate::text::hex_lower(cid.digest@),
    {
        CidLink(cid.to_text())
    }

    /// The text of this link.
    pub fn as_str(&self) -> (s: &str)
        ensures
            s@ == self.0@,
    {
        self.0.as_str()
    }
}

} // verus!
