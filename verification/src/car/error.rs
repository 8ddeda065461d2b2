//! Errors raised while decoding CAR archives and their blocks.
use vstd::prelude::*;

verus! {

/// Errors raised while decoding CAR data.
#[derive(Debug)]
pub enum CarError {
    UnexpectedEof,
    InvalidHeader(String),
    InvalidCidVersion(u8),
    InvalidCidCodec(u8),
    VarintError(String),
    InvalidVarintSize,
    InvalidDigestSize { expected: usize, actual: usize },
    Utf8StrError(std::str::Utf8Error),
}

/// A decoding failure as the specifications describe it: its kind and, for
/// a header error, its message (`HeaderMsg`), unless that message holds the
/// text of a UTF-8 decoding error (`Header`).
pub enum CarFault {
    Eof,
    Header,
    HeaderMsg(Seq<char>),
    CidVersion(u8),
    CidCodec(u8),
    Varint,
    VarintSize,
    DigestSize(usize, usize),
    Utf8,
}

/// The text of a UTF-8 decoding error (its `Display`); nothing is claimed of it.
#[verifier::external_body]
pub(crate) fn utf8_error_text(e: &std::str::Utf8Error) -> (s: String) {
    e.to_string()
}

/// The message of each kind of error, but for a UTF-8 error, whose text
/// comes from the decoder.
pub open spec fn car_error_message(e: CarError) -> Option<Seq<char>> {
    match e {
        CarError::UnexpectedEof => Some("Unexpected end of data"@),
        CarError::InvalidHeader(m) => Some("Invalid CAR header: "@ + m@),
        CarError::InvalidCidVersion(v) => Some("Invalid CID version: "@ + crate::text::decimal(v as nat)),
        CarError::InvalidCidCodec(c) => Some("Invalid CID codec: "@ + crate::text::hex_prefixed(c)),
        CarError::VarintError(m) => Some("Varint decode error: "@ + m@),
        CarError::InvalidVarintSize => Some("Invalid varint size"@),
        CarError::InvalidDigestSize { expected, actual } => Some(
            "Invalid digest size: expected "@ + crate::text::decimal(expected as nat) + ", got "@
                + crate::text::decimal(actual as nat),
        ),
        CarError::Utf8StrError(_) => None,
    }
}

/// The message of an error that is the failure `f`, when `f` fixes it.
pub open spec fn fault_message(f: CarFault) -> Option<Seq<char>> {
    match f {
        CarFault::Eof => Some("Unexpected end of data"@),
        CarFault::Header => None,
        CarFault::HeaderMsg(t) => Some("Invalid CAR header: "@ + t),
        CarFault::CidVersion(v) => Some("Invalid CID version: "@ + crate::text::decimal(v as nat)),
        CarFault::CidCodec(c) => Some("Invalid CID codec: "@ + crate::text::hex_prefixed(c)),
        CarFault::Varint => Some("Varint decode error: "@ + "Varint too long"@),
        CarFault::VarintSize => Some("Invalid varint size"@),
        CarFault::DigestSize(expected, actual) => Some(
            "Invalid digest size: expected "@ + crate::text::decimal(expected as nat) + ", got "@
                + crate::text::decimal(actual as nat),
        ),
        CarFault::Utf8 => None,
    }
}

/// A header error whose message is `prefix` followed by the message of the
/// failure `f`, stated where `f` fixes that message.
pub open spec fn nested_fault(prefix: Seq<char>, f: CarFault) -> CarFault {
    match fault_message(f) {
        Some(t) => CarFault::HeaderMsg(prefix + t),
        None => CarFault::Header,
    }
}

/// An error that is the failure `f` has the message `f` fixes.
pub proof fn lemma_shown_message(e: CarError, f: CarFault)
    requires
        e.shows(f),
    ensures
        fault_message(f) matches Some(t) ==> car_error_message(e) == Some(t),
{
}

impl CarError {
    /// The kind of this error.
    pub open spec fn fault(&self) -> CarFault {
        match self {
            CarError::UnexpectedEof => CarFault::Eof,
            CarError::InvalidHeader(_) => CarFault::Header,
            CarError::InvalidCidVersion(v) => CarFault::CidVersion(*v),
            CarError::InvalidCidCodec(c) => CarFault::CidCodec(*c),
            CarError::VarintError(_) => CarFault::Varint,
            CarError::InvalidVarintSize => CarFault::VarintSize,
            CarError::InvalidDigestSize { expected, actual } => CarFault::DigestSize(*expected, *actual),
            CarError::Utf8StrError(_) => CarFault::Utf8,
        }
    }

    /// Whether this error is the failure `f`: of its kind and, for a
    /// header error with a stated message or a varint error, with that
    /// message.
    pub open spec fn shows(&self, f: CarFault) -> bool {
        match f {
            CarFault::HeaderMsg(t) => self matches CarError::InvalidHeader(m) && m@ == t,
            CarFault::Varint => self matches CarError::VarintError(m) && m@ == "Varint too long"@,
            _ => self.fault() == f,
        }
    }

    /// An `InvalidHeader` error whose message is `msg` followed by `detail`.
    pub fn header_with(msg: &str, detail: String) -> (e: CarError)
        ensures
            e.fault() == CarFault::Header,
            e.shows(CarFault::HeaderMsg(msg@ + detail@)),
            e matches CarError::InvalidHeader(m) && m@ == msg@ + detail@,
    {
        let mut m = crate::text::owned(msg);
        crate::text::push_str(&mut m, detail.as_str());
        CarError::InvalidHeader(m)
    }

    /// The error's message.
    pub fn message(&self) -> (m: String)
        ensures
            car_error_message(*self) matches Some(t) ==> m@ == t,
            self is Utf8StrError ==> crate::strings::has_prefix(m@, "UTF-8 decode error: "@),
    {
        match self {
            CarError::UnexpectedEof => crate::text::owned("Unexpected end of data"),
            CarError::InvalidHeader(msg) => {
                let mut m = crate::text::owned("Invalid CAR header: ");
                crate::text::push_str(&mut m, msg.as_str());
                m
            },
            CarError::InvalidCidVersion(v) => {
                let mut m = crate::text::owned("Invalid CID version: ");
                crate::text::push_decimal(&mut m, *v as u64);
                m
            },
            CarError::InvalidCidCodec(c) => {
                let mut m = crate::text::owned("Invalid CID codec: ");
                crate::text::push_hex_prefixed(&mut m, *c);
                m
            },
            CarError::VarintError(msg) => {
                let mut m = crate::text::owned("Varint decode error: ");
                crate::text::push_str(&mut m, msg.as_str());
                m
            },
            CarError::InvalidVarintSize => crate::text::owned("Invalid varint size"),
            CarError::InvalidDigestSize { expected, actual } => {
                let mut m = crate::text::owned("Invalid digest size: expected ");
                crate::text::push_decimal(&mut m, *expected as u64);
                crate::text::push_str(&mut m, ", got ");
                crate::text::push_decimal(&mut m, *actual as u64);
                m
            },
            CarError::Utf8StrError(e) => {
                let mut m = crate::text::owned("UTF-8 decode error: ");
                let t = utf8_error_text(e);
                crate::text::push_str(&mut m, t.as_str());
                assert(m@.take("UTF-8 decode error: "@.len() as int) =~= "UTF-8 decode error: "@);
                m
            },
        }
    }

    /// An `InvalidHeader` error carrying the given message.
    pub fn header(msg: &str) -> (e: CarError)
        ensures
            e.fault() == CarFault::Header,
            e.shows(CarFault::HeaderMsg(msg@)),
            e matches CarError::InvalidHeader(m) && m@ == msg@,
    {
        CarError::InvalidHeader(crate::text::owned(msg))
    }
}

} // verus!
