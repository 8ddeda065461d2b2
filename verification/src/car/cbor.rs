//! Minimal DAG-CBOR decoder for AT Protocol records: maps, arrays, text,
//! bytes, integers, booleans, null and tag-42 CID links.
use vstd::prelude::*;
use vstd::utf8::*;
use crate::car::error::{CarError, CarFault};

verus! {

/// A decoded CBOR item; text, byte strings and links borrow from the input.
#[derive(Debug, PartialEq)]
pub enum CborValue<'a> {
    Mapping(Vec<(CborValue<'a>, CborValue<'a>)>),
    Array(Vec<CborValue<'a>>),
    Text(&'a str),
    Bytes(&'a [u8]),
    Integer(i64),
    Bool(bool),
    Null,
    /// Tag 42 with CID bytes (DAG-CBOR links), without a leading 0x00 marker.
    Link(&'a [u8]),
}

/// The mathematical content of a CBOR item.
pub enum CborModel {
    Mapping(Seq<(CborModel, CborModel)>),
    Array(Seq<CborModel>),
    Text(Seq<char>),
    Bytes(Seq<u8>),
    Integer(i64),
    Bool(bool),
    Null,
    Link(Seq<u8>),
}

impl<'a> CborValue<'a> {
    /// The content of this item.
    pub open spec fn model(&self) -> CborModel
        decreases self,
    {
        match self {
            CborValue::Mapping(m) => CborModel::Mapping(
                Seq::new(
                    m@.len(),
                    |i: int|
                        if 0 <= i < m@.len() {
                            (m@[i].0.model(), m@[i].1.model())
                        } else {
                            (CborModel::Null, CborModel::Null)
                        },
                ),
            ),
            CborValue::Array(a) => CborModel::Array(
                Seq::new(
                    a@.len(),
                    |i: int|
                        if 0 <= i < a@.len() {
                            a@[i].model()
                        } else {
                            CborModel::Null
                        },
                ),
            ),
            CborValue::Text(s) => CborModel::Text(s@),
            CborValue::Bytes(b) => CborModel::Bytes(b@),
            CborValue::Integer(i) => CborModel::Integer(*i),
            CborValue::Bool(b) => CborModel::Bool(*b),
            CborValue::Null => CborModel::Null,
            CborValue::Link(b) => CborModel::Link(b@),
        }
    }
}

/// The contents of a sequence of items.
pub open spec fn models(v: Seq<CborValue>) -> Seq<CborModel> {
    Seq::new(v.len(), |i: int| v[i].model())
}

/// The contents of a sequence of key/value pairs.
pub open spec fn pair_models(v: Seq<(CborValue, CborValue)>) -> Seq<(CborModel, CborModel)> {
    Seq::new(v.len(), |i: int| (v[i].0.model(), v[i].1.model()))
}

/// The number whose big-endian base-256 digits are `s`.
pub open spec fn be_number(s: Seq<u8>) -> nat
    decreases s.len(),
{
    if s.len() == 0 {
        0
    } else {
        be_number(s.drop_last()) * 256 + s.last() as nat
    }
}

/// Reads a big-endian unsigned integer of `n` bytes at `pos`.
pub open spec fn spec_fixed_uint(buf: Seq<u8>, pos: int, n: int) -> Result<(u64, int), CarFault> {
    if buf.len() - pos < n {
        Err(CarFault::Eof)
    } else {
        Ok((be_number(buf.subrange(pos, pos + n)) as u64, pos + n))
    }
}

/// The unsigned argument of an item whose initial byte carries `additional`,
/// read from `pos`, with the position after it.
pub open spec fn spec_read_uint(buf: Seq<u8>, pos: int, additional: u8) -> Result<(u64, int), CarFault> {
    if additional <= 23 {
        Ok((additional as u64, pos))
    } else if additional == 24 {
        spec_fixed_uint(buf, pos, 1)
    } else if additional == 25 {
        spec_fixed_uint(buf, pos, 2)
    } else if additional == 26 {
        spec_fixed_uint(buf, pos, 4)
    } else if additional == 27 {
        spec_fixed_uint(buf, pos, 8)
    } else {
        Err(CarFault::HeaderMsg("Invalid additional info in CBOR"@))
    }
}

/// Reads a byte string of length `n` at `pos`.
pub open spec fn spec_read_bytes(buf: Seq<u8>, pos: int, n: int) -> Result<(Seq<u8>, int), CarFault> {
    if buf.len() - pos < n {
        Err(CarFault::Eof)
    } else {
        Ok((buf.subrange(pos, pos + n), pos + n))
    }
}

/// The item encoded at `pos` and the position just after it.
pub open spec fn spec_read_value(buf: Seq<u8>, pos: int) -> Result<(CborModel, int), CarFault>
    decreases buf.len() - pos, 0nat, 0nat,
{
    if pos < 0 || pos >= buf.len() {
        Err(CarFault::Eof)
    } else {
        let initial = buf[pos];
        let major = initial / 32;
        let additional = initial % 32;
        let p = pos + 1;
        if major == 7 {
            if additional == 20 {
                Ok((CborModel::Bool(false), p))
            } else if additional == 21 {
                Ok((CborModel::Bool(true), p))
            } else if additional == 22 {
                Ok((CborModel::Null, p))
            } else {
                Err(CarFault::HeaderMsg("Unsupported CBOR simple value"@))
            }
        } else {
            match spec_read_uint(buf, p, additional) {
                Err(e) => Err(e),
                Ok((val, q)) => if major == 0 {
                    Ok((CborModel::Integer(val as i64), q))
                } else if major == 1 {
                    Ok((CborModel::Integer((-1 - (val as i64)) as i64), q))
                } else if major == 2 {
                    match spec_read_bytes(buf, q, (val as usize) as int) {
                        Err(e) => Err(e),
                        Ok((b, r)) => Ok((CborModel::Bytes(b), r)),
                    }
                } else if major == 3 {
                    match spec_read_bytes(buf, q, (val as usize) as int) {
                        Err(e) => Err(e),
                        Ok((b, r)) => if valid_utf8(b) {
                            Ok((CborModel::Text(decode_utf8(b)), r))
                        } else {
                            Err(CarFault::Utf8)
                        },
                    }
                } else if major == 4 {
                    match spec_read_items(buf, q, (val as usize) as nat) {
                        Err(e) => Err(e),
                        Ok((items, r)) => Ok((CborModel::Array(items), r)),
                    }
                } else if major == 5 {
                    match spec_read_pairs(buf, q, (val as usize) as nat) {
                        Err(e) => Err(e),
                        Ok((pairs, r)) => Ok((CborModel::Mapping(pairs), r)),
                    }
                } else {
                    // major == 6: a tag; only tag 42 (CID link over a byte string) is supported
                    match spec_read_value(buf, q) {
                        Err(e) => Err(e),
                        Ok((inner, r)) => if val == 42 {
                            match inner {
                                CborModel::Bytes(b) => if b.len() == 0 {
                                    Err(CarFault::HeaderMsg("Empty CID link"@))
                                } else if b[0] == 0 {
                                    Ok((CborModel::Link(b.drop_first()), r))
                                } else {
                                    Ok((CborModel::Link(b), r))
                                },
                                _ => Err(CarFault::HeaderMsg("CID link must be bytes"@)),
                            }
                        } else {
                            Err(CarFault::HeaderMsg("Unsupported tag: "@ + crate::text::decimal(val as nat)))
                        },
                    }
                }
            }
        }
    }
}

/// `n` consecutive items starting at `pos`.
pub open spec fn spec_read_items(buf: Seq<u8>, pos: int, n: nat) -> Result<(Seq<CborModel>, int), CarFault>
    decreases buf.len() - pos, 1nat, n,
{
    if n == 0 {
        Ok((Seq::empty(), pos))
    } else if pos < 0 || pos >= buf.len() {
        Err(CarFault::Eof)
    } else {
        match spec_read_value(buf, pos) {
            Err(e) => Err(e),
            Ok((v, p)) => if p < pos || p > buf.len() {
                Err(CarFault::Eof)
            } else {
                match spec_read_items(buf, p, (n - 1) as nat) {
                    Err(e) => Err(e),
                    Ok((rest, q)) => Ok((seq![v] + rest, q)),
                }
            },
        }
    }
}

/// `n` consecutive key/value pairs starting at `pos`.
pub open spec fn spec_read_pairs(buf: Seq<u8>, pos: int, n: nat) -> Result<(Seq<(CborModel, CborModel)>, int), CarFault>
    decreases buf.len() - pos, 1nat, n,
{
    if n == 0 {
        Ok((Seq::empty(), pos))
    } else if pos < 0 || pos >= buf.len() {
        Err(CarFault::Eof)
    } else {
        match spec_read_value(buf, pos) {
            Err(e) => Err(e),
            Ok((k, p)) => if p < pos || p > buf.len() {
                Err(CarFault::Eof)
            } else {
                match spec_read_value(buf, p) {
                    Err(e) => Err(e),
                    Ok((v, p2)) => if p2 < pos || p2 > buf.len() {
                        Err(CarFault::Eof)
                    } else {
                        match spec_read_pairs(buf, p2, (n - 1) as nat) {
                            Err(e) => Err(e),
                            Ok((rest, q)) => Ok((seq![(k, v)] + rest, q)),
                        }
                    },
                }
            },
        }
    }
}

/// A successful read moves strictly forward and stays within the input.
pub proof fn lemma_read_value_advances(buf: Seq<u8>, pos: int)
    ensures
        spec_read_value(buf, pos) matches Ok((_, p)) ==> pos < p <= buf.len(),
    decreases buf.len() - pos, 0nat, 0nat,
{
    if 0 <= pos < buf.len() {
        let initial = buf[pos];
        let major = initial / 32;
        let additional = initial % 32;
        if major != 7 {
            if let Ok((val, q)) = spec_read_uint(buf, pos + 1, additional) {
                if major == 4 {
                    lemma_read_items_advance(buf, q, (val as usize) as nat);
                } else if major == 5 {
                    lemma_read_pairs_advance(buf, q, (val as usize) as nat);
                } else if major == 6 {
                    lemma_read_value_advances(buf, q);
                }
            }
        }
    }
}

/// A successful read of items never moves backwards and stays within the input.
pub proof fn lemma_read_items_advance(buf: Seq<u8>, pos: int, n: nat)
    ensures
        spec_read_items(buf, pos, n) matches Ok((_, p)) ==> pos <= p && (n > 0 ==> p <= buf.len()),
    decreases buf.len() - pos, 1nat, n,
{
    if n > 0 && 0 <= pos < buf.len() {
        lemma_read_value_advances(buf, pos);
        if let Ok((_, p)) = spec_read_value(buf, pos) {
            lemma_read_items_advance(buf, p, (n - 1) as nat);
        }
    }
}

/// A successful read of pairs never moves backwards and stays within the input.
pub proof fn lemma_read_pairs_advance(buf: Seq<u8>, pos: int, n: nat)
    ensures
        spec_read_pairs(buf, pos, n) matches Ok((_, p)) ==> pos <= p && (n > 0 ==> p <= buf.len()),
    decreases buf.len() - pos, 1nat, n,
{
    if n > 0 && 0 <= pos < buf.len() {
        lemma_read_value_advances(buf, pos);
        if let Ok((_, p)) = spec_read_value(buf, pos) {
            lemma_read_value_advances(buf, p);
            if let Ok((_, p2)) = spec_read_value(buf, p) {
                lemma_read_pairs_advance(buf, p2, (n - 1) as nat);
            }
        }
    }
}

} // verus!

verus! {

/// A cursor over CBOR-encoded bytes.
pub struct CborReader<'a> {
    buf: &'a [u8],
    pos: usize,
}

proof fn lemma_be_number_bound(s: Seq<u8>)
    ensures
        be_number(s) < vstd::arithmetic::power::pow(256, s.len()),
    decreases s.len(),
{
    vstd::arithmetic::power::lemma_pow_positive(256, s.len());
    if s.len() > 0 {
        lemma_be_number_bound(s.drop_last());
        vstd::arithmetic::power::lemma_pow_adds(256, (s.len() - 1) as nat, 1);
        vstd::arithmetic::power::lemma_pow1(256);
        let p = vstd::arithmetic::power::pow(256, (s.len() - 1) as nat);
        assert(be_number(s.drop_last()) * 256 + s.last() < p * 256) by (nonlinear_arith)
            requires
                be_number(s.drop_last()) < p,
                s.last() < 256,
        ;
    }
}

/// The big-endian number held by at most eight bytes.
fn be_u64(b: &[u8]) -> (v: u64)
    requires
        b@.len() <= 8,
    ensures
        v as nat == be_number(b@),
{
    let mut v: u64 = 0;
    let mut i: usize = 0;
    while i < b.len()
        invariant
            i <= b@.len(),
            b@.len() <= 8,
            v as nat == be_number(b@.take(i as int)),
        decreases b@.len() - i,
    {
        proof {
            lemma_be_number_bound(b@.take(i as int));
            vstd::arithmetic::power::lemma_pow_increases(256, i as nat, 7);
            assert(vstd::arithmetic::power::pow(256, 7) == 0x100000000000000) by {
                reveal_with_fuel(vstd::arithmetic::power::pow, 8);
            }
            assert(b@.take(i + 1).drop_last() =~= b@.take(i as int));
        }
        v = v * 256 + b[i] as u64;
        i = i + 1;
    }
    assert(b@.take(b@.len() as int) =~= b@);
    v
}

impl<'a> CborReader<'a> {
    /// The bytes being decoded.
    pub closed spec fn data(&self) -> Seq<u8> {
        self.buf@
    }

    /// The current position in the bytes.
    pub closed spec fn position(&self) -> int {
        self.pos as int
    }

    /// The position never passes the end of the bytes.
    pub closed spec fn wf(&self) -> bool {
        self.pos <= self.buf@.len()
    }

    /// A reader positioned at the start of `buf`.
    pub fn new(buf: &'a [u8]) -> (r: Self)
        ensures
            r.data() == buf@,
            r.position() == 0,
            r.wf(),
    {
        CborReader { buf, pos: 0 }
    }

    fn read_byte(&mut self) -> (r: Result<u8, CarError>)
        requires
            old(self).wf(),
        ensures
            final(self).wf(),
            final(self).buf == old(self).buf,
            old(self).pos < old(self).buf@.len() ==> r == Ok::<u8, CarError>(old(self).buf@[old(self).pos as int])
                && final(self).pos == old(self).pos + 1,
            old(self).pos >= old(self).buf@.len() ==> (r matches Err(e) && e.fault() == CarFault::Eof),
    {
        if self.pos >= self.buf.len() {
            return Err(CarError::UnexpectedEof);
        }
        let byte = self.buf[self.pos];
        self.pos = self.pos + 1;
        Ok(byte)
    }

    fn read_bytes(&mut self, n: usize) -> (r: Result<&'a [u8], CarError>)
        requires
            old(self).wf(),
        ensures
            final(self).wf(),
            final(self).buf == old(self).buf,
            match spec_read_bytes(old(self).buf@, old(self).pos as int, n as int) {
                Ok((b, p)) => r matches Ok(s) && s@ == b && final(self).pos == p,
                Err(f) => r matches Err(e) && e.shows(f),
            },
    {
        if self.buf.len() - self.pos < n {
            return Err(CarError::UnexpectedEof);
        }
        let buf: &'a [u8] = self.buf;
        let bytes = &buf[self.pos..self.pos + n];
        self.pos = self.pos + n;
        Ok(bytes)
    }

    fn read_uint(&mut self, additional: u8) -> (r: Result<u64, CarError>)
        requires
            old(self).wf(),
        ensures
            final(self).wf(),
            final(self).buf == old(self).buf,
            match spec_read_uint(old(self).buf@, old(self).pos as int, additional) {
                Ok((v, p)) => r == Ok::<u64, CarError>(v) && final(self).pos == p,
                Err(f) => r matches Err(e) && e.shows(f),
            },
    {
        if additional <= 23 {
            Ok(additional as u64)
        } else if additional == 24 {
            let bytes = self.read_bytes(1)?;
            Ok(be_u64(bytes))
        } else if additional == 25 {
            let bytes = self.read_bytes(2)?;
            Ok(be_u64(bytes))
        } else if additional == 26 {
            let bytes = self.read_bytes(4)?;
            Ok(be_u64(bytes))
        } else if additional == 27 {
            let bytes = self.read_bytes(8)?;
            Ok(be_u64(bytes))
        } else {
            Err(CarError::header("Invalid additional info in CBOR"))
        }
    }
}

} // verus!

verus! {

/// Prepends already-decoded items to the outcome of decoding the rest.
pub open spec fn join_items(done: Seq<CborModel>, r: Result<(Seq<CborModel>, int), CarFault>) -> Result<(Seq<CborModel>, int), CarFault> {
    match r {
        Ok((rest, q)) => Ok((done + rest, q)),
        Err(e) => Err(e),
    }
}

/// Prepends already-decoded pairs to the outcome of decoding the rest.
pub open spec fn join_pairs(
    done: Seq<(CborModel, CborModel)>,
    r: Result<(Seq<(CborModel, CborModel)>, int), CarFault>,
) -> Result<(Seq<(CborModel, CborModel)>, int), CarFault> {
    match r {
        Ok((rest, q)) => Ok((done + rest, q)),
        Err(e) => Err(e),
    }
}

impl<'a> CborReader<'a> {
    /// Decodes the item at the current position and moves past it.
    pub fn read_value(&mut self) -> (r: Result<CborValue<'a>, CarError>)
        requires
            old(self).wf(),
        ensures
            final(self).wf(),
            final(self).data() == old(self).data(),
            match spec_read_value(old(self).data(), old(self).position()) {
                Ok((m, p)) => r matches Ok(v) && v.model() == m && final(self).position() == p,
                Err(f) => r matches Err(e) && e.shows(f),
            },
            r is Ok ==> old(self).position() < final(self).position(),
        decreases old(self).data().len() - old(self).position(),
    {
        let ghost buf0 = self.buf@;
        let ghost start = self.pos as int;
        proof {
            lemma_read_value_advances(buf0, start);
        }
        let initial = self.read_byte()?;
        let major = initial / 32;
        let additional = initial % 32;
        if major == 7 {
            return if additional == 20 {
                Ok(CborValue::Bool(false))
            } else if additional == 21 {
                Ok(CborValue::Bool(true))
            } else if additional == 22 {
                Ok(CborValue::Null)
            } else {
                Err(CarError::header("Unsupported CBOR simple value"))
            };
        }
        let val = self.read_uint(additional)?;
        if major == 0 {
            Ok(CborValue::Integer(val as i64))
        } else if major == 1 {
            Ok(CborValue::Integer(-1 - (val as i64)))
        } else if major == 2 {
            let len = val as usize;
            let bytes = self.read_bytes(len)?;
            Ok(CborValue::Bytes(bytes))
        } else if major == 3 {
            let len = val as usize;
            let bytes = self.read_bytes(len)?;
            match crate::text::utf8_str(bytes) {
                Ok(text) => Ok(CborValue::Text(text)),
                Err(e) => Err(CarError::Utf8StrError(e)),
            }
        } else if major == 4 {
            let len = val as usize;
            let ghost q = self.pos as int;
            let mut items: Vec<CborValue<'a>> = Vec::new();
            let mut k: usize = 0;
            assert(models(items@) =~= Seq::<CborModel>::empty());
            assert(Seq::<CborModel>::empty() + Seq::<CborModel>::empty() =~= Seq::<CborModel>::empty());
            while k < len
                invariant
                    self.wf(),
                    self.buf@ == buf0,
                    buf0 == old(self).data(),
                    start == old(self).position(),
                    start < q <= self.pos <= buf0.len(),
                    k <= len,
                    join_items(models(items@), spec_read_items(buf0, self.pos as int, (len - k) as nat))
                        == spec_read_items(buf0, q, len as nat),
                    spec_read_value(buf0, start) == match spec_read_items(buf0, q, len as nat) {
                        Err(e) => Err(e),
                        Ok((it, r)) => Ok((CborModel::Array(it), r)),
                    },
                decreases len - k,
            {
                let ghost cur = self.pos as int;
                proof {
                    lemma_read_value_advances(buf0, cur);
                }
                let v = self.read_value()?;
                let ghost p = self.pos as int;
                proof {
                    let rest = spec_read_items(buf0, p, (len - k - 1) as nat);
                    assert(models(items@.push(v)) =~= models(items@).push(v.model()));
                    match rest {
                        Ok((rs, qq)) => {
                            assert(models(items@) + (seq![v.model()] + rs) =~= models(items@).push(v.model()) + rs);
                        },
                        Err(_) => {},
                    }
                }
                items.push(v);
                k = k + 1;
            }
            proof {
                assert(models(items@) + Seq::<CborModel>::empty() =~= models(items@));
                assert(CborValue::Array(items).model() matches CborModel::Array(s) && s =~= models(items@));
            }
            Ok(CborValue::Array(items))
        } else if major == 5 {
            let len = val as usize;
            let ghost q = self.pos as int;
            let mut pairs: Vec<(CborValue<'a>, CborValue<'a>)> = Vec::new();
            let mut k: usize = 0;
            assert(pair_models(pairs@) =~= Seq::<(CborModel, CborModel)>::empty());
            assert(Seq::<(CborModel, CborModel)>::empty() + Seq::<(CborModel, CborModel)>::empty()
                =~= Seq::<(CborModel, CborModel)>::empty());
            while k < len
                invariant
                    self.wf(),
                    self.buf@ == buf0,
                    buf0 == old(self).data(),
                    start == old(self).position(),
                    start < q <= self.pos <= buf0.len(),
                    k <= len,
                    join_pairs(pair_models(pairs@), spec_read_pairs(buf0, self.pos as int, (len - k) as nat))
                        == spec_read_pairs(buf0, q, len as nat),
                    spec_read_value(buf0, start) == match spec_read_pairs(buf0, q, len as nat) {
                        Err(e) => Err(e),
                        Ok((it, r)) => Ok((CborModel::Mapping(it), r)),
                    },
                decreases len - k,
            {
                let ghost cur = self.pos as int;
                proof {
                    lemma_read_value_advances(buf0, cur);
                }
                let key = self.read_value()?;
                let ghost p1 = self.pos as int;
                proof {
                    lemma_read_value_advances(buf0, p1);
                }
                let value = self.read_value()?;
                let ghost p2 = self.pos as int;
                proof {
                    let rest = spec_read_pairs(buf0, p2, (len - k - 1) as nat);
                    assert(pair_models(pairs@.push((key, value))) =~= pair_models(pairs@).push((key.model(), value.model())));
                    match rest {
                        Ok((rs, qq)) => {
                            assert(pair_models(pairs@) + (seq![(key.model(), value.model())] + rs)
                                =~= pair_models(pairs@).push((key.model(), value.model())) + rs);
                        },
                        Err(_) => {},
                    }
                }
                pairs.push((key, value));
                k = k + 1;
            }
            proof {
                assert(pair_models(pairs@) + Seq::<(CborModel, CborModel)>::empty() =~= pair_models(pairs@));
                assert(CborValue::Mapping(pairs).model() matches CborModel::Mapping(s) && s =~= pair_models(pairs@));
            }
            Ok(CborValue::Mapping(pairs))
        } else {
            let tag = val;
            if tag == 42 {
                let value = self.read_value()?;
                match value {
                    CborValue::Bytes(bytes) => {
                        if bytes.len() == 0 {
                            return Err(CarError::header("Empty CID link"));
                        }
                        let cid_bytes = if bytes[0] == 0 {
                            &bytes[1..bytes.len()]
                        } else {
                            bytes
                        };
                        assert(bytes@[0] == 0 ==> cid_bytes@ =~= bytes@.drop_first());
                        Ok(CborValue::Link(cid_bytes))
                    },
                    _ => Err(CarError::header("CID link must be bytes")),
                }
            } else {
                let _value = self.read_value()?;
                let mut detail = String::new();
                crate::text::push_decimal(&mut detail, tag);
                Err(CarError::header_with("Unsupported tag: ", detail))
            }
        }
    }
}

/// Byte `k` (from the least significant, `k < 8`) of `n`.
pub open spec fn byte_of(n: u64, k: u64) -> u8 {
    ((n >> (8 * k)) & 0xff) as u8
}

/// The shortest CBOR head of major type `major` with argument `n`: the
/// argument itself in the initial byte below 24, else additional
/// information 24, 25, 26 or 27 followed by `n` in 1, 2, 4 or 8 big-endian
/// bytes.
pub open spec fn cbor_head(major: u8, n: u64) -> Seq<u8> {
    let m = (major * 32) as u8;
    if n < 24 {
        seq![(m + n) as u8]
    } else if n < 0x100 {
        seq![(m + 24) as u8, n as u8]
    } else if n < 0x1_0000 {
        seq![(m + 25) as u8, byte_of(n, 1), byte_of(n, 0)]
    } else if n < 0x1_0000_0000 {
        seq![(m + 26) as u8, byte_of(n, 3), byte_of(n, 2), byte_of(n, 1), byte_of(n, 0)]
    } else {
        seq![
            (m + 27) as u8,
            byte_of(n, 7),
            byte_of(n, 6),
            byte_of(n, 5),
            byte_of(n, 4),
            byte_of(n, 3),
            byte_of(n, 2),
            byte_of(n, 1),
            byte_of(n, 0),
        ]
    }
}

/// The shortest CBOR encoding of the unsigned integer `n` (major type 0).
pub open spec fn uint_encoding(n: u64) -> Seq<u8> {
    cbor_head(0, n)
}

/// The shortest CBOR encoding of the negative integer `-1 - n` (major
/// type 1).
pub open spec fn negint_encoding(n: u64) -> Seq<u8> {
    cbor_head(1, n)
}

/// The value of big-endian digits, written out for up to eight of them.
proof fn lemma_be_number_small(s: Seq<u8>)
    requires
        1 <= s.len() <= 8,
    ensures
        s.len() == 1 ==> be_number(s) == s[0] as nat,
        s.len() == 2 ==> be_number(s) == s[0] * 0x100 + s[1],
        s.len() == 4 ==> be_number(s) == s[0] * 0x100_0000 + s[1] * 0x1_0000 + s[2] * 0x100 + s[3],
        s.len() == 8 ==> be_number(s) == s[0] * 0x100_0000_0000_0000 + s[1] * 0x1_0000_0000_0000 + s[2]
            * 0x100_0000_0000 + s[3] * 0x1_0000_0000 + s[4] * 0x100_0000 + s[5] * 0x1_0000 + s[6] * 0x100 + s[7],
    decreases s.len(),
{
    reveal_with_fuel(be_number, 2);
    if s.len() > 1 {
        lemma_be_number_small(s.drop_last());
        let d = s.drop_last();
        if s.len() == 2 {
            assert(d.len() == 1);
            assert(be_number(d) == s[0]);
        } else if s.len() == 4 {
            lemma_be3(d);
        } else if s.len() == 8 {
            lemma_be7(d);
        }
    }
}

proof fn lemma_be3(d: Seq<u8>)
    requires
        d.len() == 3,
    ensures
        be_number(d) == d[0] * 0x1_0000 + d[1] * 0x100 + d[2],
{
    reveal_with_fuel(be_number, 4);
    assert(d.drop_last().drop_last().drop_last().len() == 0);
}

proof fn lemma_be7(d: Seq<u8>)
    requires
        d.len() == 7,
    ensures
        be_number(d) == d[0] * 0x1_0000_0000_0000 + d[1] * 0x100_0000_0000 + d[2] * 0x1_0000_0000 + d[3]
            * 0x100_0000 + d[4] * 0x1_0000 + d[5] * 0x100 + d[6],
{
    reveal_with_fuel(be_number, 8);
    assert(d.drop_last().drop_last().drop_last().drop_last().drop_last().drop_last().drop_last().len() == 0);
}

/// The head of major type 0 or 1 with argument `n`, followed by anything,
/// is read as that argument, and consumed whole.
proof fn lemma_head_round_trip(major: u8, n: u64, rest: Seq<u8>)
    requires
        major <= 1,
    ensures
        ({
            let buf = cbor_head(major, n) + rest;
            &&& buf[0] / 32 == major
            &&& buf[0] != 0xff
            &&& spec_read_uint(buf, 1, buf[0] % 32) == Ok::<(u64, int), CarFault>((n, cbor_head(major, n).len() as int))
        }),
{
    let e = cbor_head(major, n);
    let buf = e + rest;
    assert(buf[0] == e[0]);
    let k: int = e.len() - 1;
    assert(buf.subrange(1, 1 + k) =~= e.subrange(1, 1 + k));
    if n < 24 {
    } else if n < 0x100 {
        lemma_be_number_small(e.subrange(1, 2));
    } else if n < 0x1_0000 {
        lemma_be_number_small(e.subrange(1, 3));
        assert(byte_of(n, 1) * 0x100 + byte_of(n, 0) == n) by (bit_vector)
            requires
                n < 0x1_0000,
        ;
    } else if n < 0x1_0000_0000 {
        lemma_be_number_small(e.subrange(1, 5));
        assert(byte_of(n, 3) * 0x100_0000 + byte_of(n, 2) * 0x1_0000 + byte_of(n, 1) * 0x100 + byte_of(n, 0) == n)
            by (bit_vector)
            requires
                n < 0x1_0000_0000,
        ;
    } else {
        lemma_be_number_small(e.subrange(1, 9));
        assert(byte_of(n, 7) * 0x100_0000_0000_0000 + byte_of(n, 6) * 0x1_0000_0000_0000 + byte_of(n, 5)
            * 0x100_0000_0000 + byte_of(n, 4) * 0x1_0000_0000 + byte_of(n, 3) * 0x100_0000 + byte_of(n, 2)
            * 0x1_0000 + byte_of(n, 1) * 0x100 + byte_of(n, 0) == n) by (bit_vector);
    }
}

/// Decoding reads back what encoding wrote: the shortest CBOR encoding of
/// any unsigned `n`, followed by anything, decodes to the integer `n` (as
/// `i64`, the way the decoder stores it) and is consumed whole; so does the
/// encoding of the negative integer `-1 - n` for any `n` below 2^63.
pub proof fn law_integer_round_trip(n: u64, rest: Seq<u8>)
    ensures
        spec_read_value(uint_encoding(n) + rest, 0) == Ok::<(CborModel, int), CarFault>(
            (CborModel::Integer(n as i64), uint_encoding(n).len() as int),
        ),
        n <= i64::MAX ==> spec_read_value(negint_encoding(n) + rest, 0) == Ok::<(CborModel, int), CarFault>(
            (CborModel::Integer((-1 - n) as i64), negint_encoding(n).len() as int),
        ),
{
    lemma_head_round_trip(0, n, rest);
    lemma_head_round_trip(1, n, rest);
}

/// Decodes the first CBOR item of `bytes` (trailing bytes are ignored).
pub fn decode_cbor(bytes: &[u8]) -> (r: Result<CborValue<'_>, CarError>)
    ensures
        match spec_read_value(bytes@, 0) {
            Ok((m, _)) => r matches Ok(v) && v.model() == m,
            Err(f) => r matches Err(e) && e.shows(f),
        },
{
    let mut reader = CborReader::new(bytes);
    reader.read_value()
}

} // verus!

verus! {

/// `k` is the text key `key`.
pub open spec fn is_key(k: CborModel, key: Seq<char>) -> bool {
    k matches CborModel::Text(t) && t == key
}

/// The text value of the first entry keyed `key` whose value is text.
pub open spec fn text_field(m: Seq<(CborModel, CborModel)>, key: Seq<char>) -> Option<Seq<char>>
    decreases m.len(),
{
    if m.len() == 0 {
        None
    } else if is_key(m[0].0, key) && m[0].1 is Text {
        Some(m[0].1->Text_0)
    } else {
        text_field(m.drop_first(), key)
    }
}

/// The items of the first entry keyed `key` whose value is an array.
pub open spec fn array_field(m: Seq<(CborModel, CborModel)>, key: Seq<char>) -> Option<Seq<CborModel>>
    decreases m.len(),
{
    if m.len() == 0 {
        None
    } else if is_key(m[0].0, key) && m[0].1 is Array {
        Some(m[0].1->Array_0)
    } else {
        array_field(m.drop_first(), key)
    }
}

/// The pairs of the first entry keyed `key` whose value is a map.
pub open spec fn map_field(m: Seq<(CborModel, CborModel)>, key: Seq<char>) -> Option<Seq<(CborModel, CborModel)>>
    decreases m.len(),
{
    if m.len() == 0 {
        None
    } else if is_key(m[0].0, key) && m[0].1 is Mapping {
        Some(m[0].1->Mapping_0)
    } else {
        map_field(m.drop_first(), key)
    }
}

/// The integer of the first entry keyed `key` whose value is an integer.
pub open spec fn int_field(m: Seq<(CborModel, CborModel)>, key: Seq<char>) -> Option<i64>
    decreases m.len(),
{
    if m.len() == 0 {
        None
    } else if is_key(m[0].0, key) && m[0].1 is Integer {
        Some(m[0].1->Integer_0)
    } else {
        int_field(m.drop_first(), key)
    }
}

/// Whether `k` is the text key `key`.
fn key_matches(k: &CborValue, key: &str) -> (b: bool)
    ensures
        b == is_key(k.model(), key@),
{
    match k {
        CborValue::Text(ks) => crate::text::str_eq(ks, key),
        _ => false,
    }
}

/// The text value of the first entry keyed `key` whose value is text.
pub fn get_text_field<'a>(map: &'a [(CborValue<'a>, CborValue<'a>)], key: &str) -> (r: Option<&'a str>)
    ensures
        match text_field(pair_models(map@), key@) {
            Some(t) => r matches Some(s) && s@ == t,
            None => r is None,
        },
{
    let mut i: usize = 0;
    assert(pair_models(map@).skip(0) =~= pair_models(map@));
    while i < map.len()
        invariant
            i <= map@.len(),
            text_field(pair_models(map@), key@) == text_field(pair_models(map@).skip(i as int), key@),
        decreases map@.len() - i,
    {
        let entry = &map[i];
        assert(pair_models(map@).skip(i as int).drop_first() =~= pair_models(map@).skip(i + 1));
        if key_matches(&entry.0, key) {
            if let CborValue::Text(v) = &entry.1 {
                return Some(*v);
            }
        }
        i = i + 1;
    }
    None
}

/// The items of the first entry keyed `key` whose value is an array.
pub fn get_array_field<'a>(map: &'a [(CborValue<'a>, CborValue<'a>)], key: &str) -> (r: Option<&'a [CborValue<'a>]>)
    ensures
        match array_field(pair_models(map@), key@) {
            Some(t) => r matches Some(s) && models(s@) == t,
            None => r is None,
        },
{
    let mut i: usize = 0;
    assert(pair_models(map@).skip(0) =~= pair_models(map@));
    while i < map.len()
        invariant
            i <= map@.len(),
            array_field(pair_models(map@), key@) == array_field(pair_models(map@).skip(i as int), key@),
        decreases map@.len() - i,
    {
        let entry = &map[i];
        assert(pair_models(map@).skip(i as int).drop_first() =~= pair_models(map@).skip(i + 1));
        if key_matches(&entry.0, key) {
            if let CborValue::Array(arr) = &entry.1 {
                assert(models(arr@) =~= entry.1.model()->Array_0);
                return Some(arr.as_slice());
            }
        }
        i = i + 1;
    }
    None
}

/// The pairs of the first entry keyed `key` whose value is a map.
pub fn get_map_field<'a>(map: &'a [(CborValue<'a>, CborValue<'a>)], key: &str) -> (r: Option<&'a [(CborValue<'a>, CborValue<'a>)]>)
    ensures
        match map_field(pair_models(map@), key@) {
            Some(t) => r matches Some(s) && pair_models(s@) == t,
            None => r is None,
        },
{
    let mut i: usize = 0;
    assert(pair_models(map@).skip(0) =~= pair_models(map@));
    while i < map.len()
        invariant
            i <= map@.len(),
            map_field(pair_models(map@), key@) == map_field(pair_models(map@).skip(i as int), key@),
        decreases map@.len() - i,
    {
        let entry = &map[i];
        assert(pair_models(map@).skip(i as int).drop_first() =~= pair_models(map@).skip(i + 1));
        if key_matches(&entry.0, key) {
            if let CborValue::Mapping(m) = &entry.1 {
                assert(pair_models(m@) =~= entry.1.model()->Mapping_0);
                return Some(m.as_slice());
            }
        }
        i = i + 1;
    }
    None
}

/// The integer of the first entry keyed `key` whose value is an integer.
pub fn get_int_field(map: &[(CborValue<'_>, CborValue<'_>)], key: &str) -> (r: Option<i64>)
    ensures
        r == int_field(pair_models(map@), key@),
{
    let mut i: usize = 0;
    assert(pair_models(map@).skip(0) =~= pair_models(map@));
    while i < map.len()
        invariant
            i <= map@.len(),
            int_field(pair_models(map@), key@) == int_field(pair_models(map@).skip(i as int), key@),
        decreases map@.len() - i,
    {
        let entry = &map[i];
        assert(pair_models(map@).skip(i as int).drop_first() =~= pair_models(map@).skip(i + 1));
        if key_matches(&entry.0, key) {
            if let CborValue::Integer(v) = &entry.1 {
                return Some(*v);
            }
        }
        i = i + 1;
    }
    None
}

} // verus!
