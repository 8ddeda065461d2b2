//! CAR v1 reading: a byte cursor, LEB128 varints, block CIDs, the CBOR
//! header, and iteration over blocks and over AT Protocol records.
use vstd::prelude::*;
use crate::car::error::{CarError, CarFault};
use crate::car::types::{Cid, CarEntry, CarHeader};
use crate::car::cbor::{CborValue, CborModel, get_text_field, get_int_field, decode_cbor};

verus! {

/// A cursor over a byte slice.
pub struct SyncByteReader<'a> {
    buf: &'a [u8],
    pos: usize,
}

impl<'a> SyncByteReader<'a> {
    /// The bytes being read.
    pub closed spec fn data(&self) -> Seq<u8> {
        self.buf@
    }

    /// The current position.
    pub closed spec fn position(&self) -> int {
        self.pos as int
    }

    /// The bytes from the current position on.
    pub open spec fn rest(&self) -> Seq<u8> {
        self.data().skip(self.position())
    }

    /// The position never passes the end of the bytes.
    pub closed spec fn wf(&self) -> bool {
        &&& self.pos <= self.buf@.len()
        &&& self.buf@.len() == self.buf.len()
    }

    /// A cursor at the start of `buf`.
    pub fn new(buf: &'a [u8]) -> (r: Self)
        ensures
            r.data() == buf@,
            r.position() == 0,
            r.wf(),
    {
        SyncByteReader { buf, pos: 0 }
    }

    /// The current position.
    pub fn pos(&self) -> (p: usize)
        ensures
            p == self.position(),
    {
        self.pos
    }

    /// How many bytes are left after the current position.
    pub fn remaining(&self) -> (n: usize)
        ensures
            self.wf() ==> n == self.data().len() - self.position(),
            !self.wf() ==> n == 0,
    {
        if self.buf.len() >= self.pos {
            self.buf.len() - self.pos
        } else {
            0
        }
    }

    /// Up to `size` bytes from the current position, without moving.
    pub fn upto(&self, size: usize) -> (r: &'a [u8])
        requires
            self.wf(),
            self.position() + size <= usize::MAX,
        ensures
            r@ == self.data().subrange(
                self.position(),
                vstd::math::min(self.position() + size, self.data().len() as int),
            ),
    {
        let end = if self.pos + size < self.buf.len() {
            self.pos + size
        } else {
            self.buf.len()
        };
        let buf: &'a [u8] = self.buf;
        &buf[self.pos..end]
    }

    /// Exactly `size` bytes from the current position, moving past them when
    /// `seek` is set; fails when fewer bytes are left.
    pub fn exactly(&mut self, size: usize, seek: bool) -> (r: Result<&'a [u8], CarError>)
        requires
            old(self).wf(),
        ensures
            final(self).wf(),
            final(self).data() == old(self).data(),
            old(self).rest().len() < size ==> (r matches Err(e) && e.fault() == CarFault::Eof)
                && final(self).position() == old(self).position(),
            old(self).rest().len() >= size ==> (r matches Ok(s) && s@ == old(self).rest().take(size as int))
                && final(self).position() == old(self).position() + if seek { size as int } else { 0 },
    {
        if self.remaining() < size {
            return Err(CarError::UnexpectedEof);
        }
        assert(self.pos + size <= self.buf@.len());
        let buf: &'a [u8] = self.buf;
        let result = &buf[self.pos..self.pos + size];
        assert(result@ =~= old(self).rest().take(size as int));
        if seek {
            self.pos = self.pos + size;
        }
        Ok(result)
    }

    /// Moves `size` bytes forward; fails when fewer bytes are left.
    pub fn seek(&mut self, size: usize) -> (r: Result<(), CarError>)
        requires
            old(self).wf(),
        ensures
            final(self).wf(),
            final(self).data() == old(self).data(),
            old(self).rest().len() < size ==> (r matches Err(e) && e.fault() == CarFault::Eof)
                && final(self).position() == old(self).position(),
            old(self).rest().len() >= size ==> r is Ok && final(self).position() == old(self).position() + size,
    {
        if self.remaining() < size {
            return Err(CarError::UnexpectedEof);
        }
        assert(self.pos + size <= self.buf@.len());
        self.pos = self.pos + size;
        Ok(())
    }
}

/// The low seven bits of byte `i` of a varint, moved into place.
pub open spec fn varint_part(b: u8, i: nat) -> u64 {
    ((b & 0x7f) as u64) << ((7 * i) as u64)
}

/// The value held by the first `n` bytes of a varint.
pub open spec fn varint_acc(s: Seq<u8>, n: nat) -> u64
    decreases n,
{
    if n == 0 {
        0
    } else {
        varint_acc(s, (n - 1) as nat) | varint_part(s[n - 1], (n - 1) as nat)
    }
}

/// Scans for the terminating byte (high bit clear) among the first `avail`
/// bytes, from byte `i` on.
pub open spec fn varint_scan(s: Seq<u8>, avail: nat, i: nat) -> Result<(u64, nat), CarFault>
    decreases avail - i,
{
    if i >= avail {
        Ok((varint_acc(s, avail), avail))
    } else if s[i as int] & 0x80 == 0 {
        Ok((varint_acc(s, i + 1), i + 1))
    } else if i == 9 {
        Err(CarFault::Varint)
    } else {
        varint_scan(s, avail, i + 1)
    }
}

/// An unsigned LEB128 varint read from the start of `s`, looking at no more
/// than `max_size` bytes: its value and how many bytes it takes. A varint cut
/// short by the end of the window is taken as it stands; a tenth byte that
/// still has its high bit set is an error.
pub open spec fn spec_varint(s: Seq<u8>, max_size: nat) -> Result<(u64, nat), CarFault> {
    let avail = vstd::math::min(s.len() as int, max_size as int) as nat;
    if avail == 0 {
        Err(CarFault::Eof)
    } else {
        varint_scan(s, avail, 0)
    }
}

/// Reads an unsigned LEB128 varint of at most `max_size` bytes and moves past it.
pub fn read_varint(reader: &mut SyncByteReader, max_size: usize) -> (r: Result<u64, CarError>)
    requires
        old(reader).wf(),
        max_size <= 10,
    ensures
        final(reader).wf(),
        final(reader).data() == old(reader).data(),
        match spec_varint(old(reader).rest(), max_size as nat) {
            Ok((v, n)) => r == Ok::<u64, CarError>(v) && final(reader).position() == old(reader).position() + n
                && 0 < n <= old(reader).rest().len(),
            Err(f) => (r matches Err(e) && e.shows(f)) && final(reader).position() == old(reader).position(),
        },
{
    let rem = reader.remaining();
    let available = if rem < max_size { rem } else { max_size };
    if available == 0 {
        return Err(CarError::UnexpectedEof);
    }
    assert(reader.position() + available <= reader.data().len());
    let buf = reader.upto(available);
    let ghost s = old(reader).rest();
    let mut value: u64 = 0;
    let mut bytes_read: usize = 0;
    let mut i: usize = 0;
    assert(buf@ =~= s.take(available as int));
    while i < buf.len()
        invariant_except_break
            i <= buf@.len(),
            value == varint_acc(s, i as nat),
            bytes_read == i,
            varint_scan(s, available as nat, 0) == varint_scan(s, available as nat, i as nat),
        invariant
            reader.wf(),
            reader.data() == old(reader).data(),
            reader.position() == old(reader).position(),
            s == old(reader).rest(),
            buf@.len() == available,
            available <= 10,
            available <= s.len(),
            available == vstd::math::min(s.len() as int, max_size as int),
            buf@ == s.take(available as int),
        ensures
            bytes_read > 0 || available == 0,
            bytes_read <= available,
            varint_scan(s, available as nat, 0) == Ok::<(u64, nat), CarFault>((value, bytes_read as nat)),
        decreases buf@.len() - i,
    {
        let byte = buf[i];
        assert(byte == s[i as int]);
        assert(((byte & 0x7F) as u64) << ((i * 7) as u64) == varint_part(s[i as int], i as nat));
        value = value | (((byte & 0x7F) as u64) << ((i * 7) as u64));
        bytes_read = i + 1;
        if byte & 0x80 == 0 {
            break;
        }
        if i == 9 {
            return Err(CarError::VarintError(crate::text::owned("Varint too long")));
        }
        i = i + 1;
    }
    if bytes_read == 0 {
        return Err(CarError::UnexpectedEof);
    }
    let _ = reader.seek(bytes_read);
    Ok(value)
}

} // verus!

verus! {

/// The content of a CID: version, codec, digest type and digest.
pub type CidModel = (u8, u8, u8, Seq<u8>);

/// The content of a `Cid` value.
pub open spec fn cid_model(c: Cid) -> CidModel {
    (c.version, c.codec, c.digest_type, c.digest@)
}

/// A block CID at the start of `s` in the fixed layout
/// `[version][codec][digest type][digest size][digest...]`: version 1, codec
/// dag-cbor (0x71) or raw (0x55), SHA-256 digests of 32 or 0 bytes; with the
/// number of bytes it takes.
pub open spec fn spec_read_cid(s: Seq<u8>) -> Result<(CidModel, nat), CarFault> {
    if s.len() < 4 {
        Err(CarFault::Eof)
    } else if s[0] != 1 {
        Err(CarFault::CidVersion(s[0]))
    } else if s[1] != 0x71 && s[1] != 0x55 {
        Err(CarFault::CidCodec(s[1]))
    } else if s[2] != 0x12 {
        Err(CarFault::HeaderMsg("Invalid digest type: "@ + crate::text::hex_prefixed(s[2])))
    } else if s[3] != 32 && s[3] != 0 {
        Err(CarFault::DigestSize(32, s[3] as usize))
    } else if s.len() < 4 + s[3] {
        Err(CarFault::Eof)
    } else {
        Ok(((s[0], s[1], s[2], s.subrange(4, 4 + s[3])), (4 + s[3]) as nat))
    }
}

/// Reads a block CID and moves past it; on failure the position is kept.
pub fn read_cid(reader: &mut SyncByteReader) -> (r: Result<Cid, CarError>)
    requires
        old(reader).wf(),
    ensures
        final(reader).wf(),
        final(reader).data() == old(reader).data(),
        match spec_read_cid(old(reader).rest()) {
            Ok((c, n)) => (r matches Ok(cid) && cid_model(cid) == c) && final(reader).position()
                == old(reader).position() + n,
            Err(f) => (r matches Err(e) && e.shows(f)) && final(reader).position()
                == old(reader).position(),
        },
{
    let head = reader.exactly(4, false)?;
    let version = head[0];
    let codec = head[1];
    let digest_type = head[2];
    let digest_size = head[3] as usize;
    if version != 1 {
        return Err(CarError::InvalidCidVersion(version));
    }
    if codec != 0x71 && codec != 0x55 {
        return Err(CarError::InvalidCidCodec(codec));
    }
    if digest_type != 0x12 {
        let mut detail = String::new();
        crate::text::push_hex_prefixed(&mut detail, digest_type);
        return Err(CarError::header_with("Invalid digest type: ", detail));
    }
    if digest_size != 32 && digest_size != 0 {
        return Err(CarError::InvalidDigestSize { expected: 32, actual: digest_size });
    }
    let total_size = 4 + digest_size;
    let cid_bytes = reader.exactly(total_size, true)?;
    let digest = vstd::slice::slice_to_vec(&cid_bytes[4..4 + digest_size]);
    assert(digest@ =~= old(reader).rest().subrange(4, 4 + digest_size));
    Ok(Cid { version, codec, digest_type, digest })
}

/// Reads a varint of at most ten bytes from `b` at `p`: its value and the
/// position after it.
pub open spec fn varint_at(b: Seq<u8>, p: int) -> Result<(u64, int), CarFault> {
    match spec_varint(b.skip(p), 10) {
        Ok((v, n)) => Ok((v, p + n)),
        Err(e) => Err(e),
    }
}

/// A root CID as written in the header: an optional 0x00 marker followed by
/// a varint version, otherwise a version byte; then varint codec, digest
/// type and digest size, and the digest.
pub open spec fn spec_parse_root(b: Seq<u8>) -> Result<CidModel, CarFault> {
    if b.len() == 0 {
        Err(CarFault::Eof)
    } else {
        let first = b[0];
        let ver: Result<(u64, int), CarFault> = if first == 0 {
            varint_at(b, 1)
        } else {
            Ok((first as u64, 1))
        };
        match ver {
            Err(e) => Err(e),
            Ok((version, p1)) => match varint_at(b, p1) {
                Err(e) => Err(e),
                Ok((codec, p2)) => match varint_at(b, p2) {
                    Err(e) => Err(e),
                    Ok((digest_type, p3)) => match varint_at(b, p3) {
                        Err(e) => Err(e),
                        Ok((size, p4)) => {
                            let ds = (size as usize) as int;
                            if b.len() - p4 < ds {
                                Err(CarFault::Eof)
                            } else {
                                Ok((version as u8, codec as u8, digest_type as u8, b.subrange(p4, p4 + ds)))
                            }
                        },
                    },
                },
            },
        }
    }
}

/// The root CIDs listed in the header's `roots` array.
pub open spec fn spec_roots(arr: Seq<CborModel>) -> Result<Seq<CidModel>, CarFault>
    decreases arr.len(),
{
    if arr.len() == 0 {
        Ok(Seq::empty())
    } else {
        let b: Option<Seq<u8>> = match arr[0] {
            CborModel::Bytes(b) => Some(b),
            CborModel::Link(b) => Some(b),
            _ => None,
        };
        match b {
            None => Err(CarFault::HeaderMsg("Root CID must be bytes or link"@)),
            Some(b) => match spec_parse_root(b) {
                Err(e) => Err(e),
                Ok(c) => match spec_roots(arr.drop_first()) {
                    Err(e) => Err(e),
                    Ok(rest) => Ok(seq![c] + rest),
                },
            },
        }
    }
}

/// The value of the first entry keyed `key`, whatever its type.
pub open spec fn first_value(m: Seq<(CborModel, CborModel)>, key: Seq<char>) -> Option<CborModel>
    decreases m.len(),
{
    if m.len() == 0 {
        None
    } else if crate::car::cbor::is_key(m[0].0, key) {
        Some(m[0].1)
    } else {
        first_value(m.drop_first(), key)
    }
}

/// The header version: the first text `version` entry that parses as a byte,
/// otherwise the first integer `version` entry, truncated to a byte.
pub open spec fn header_version(m: Seq<(CborModel, CborModel)>) -> Option<u8> {
    match crate::car::cbor::text_field(m, "version"@) {
        Some(t) => match crate::text::spec_parse_u8(t) {
            Some(v) => Some(v),
            None => match crate::car::cbor::int_field(m, "version"@) {
                Some(i) => Some(i as u8),
                None => None,
            },
        },
        None => match crate::car::cbor::int_field(m, "version"@) {
            Some(i) => Some(i as u8),
            None => None,
        },
    }
}

/// The header held by a decoded header map: version 1 and its roots.
pub open spec fn spec_header_from_map(m: Seq<(CborModel, CborModel)>) -> Result<(u8, Seq<CidModel>), CarFault> {
    match header_version(m) {
        None => Err(CarFault::HeaderMsg("Missing version"@)),
        Some(v) => if v != 1 {
            Err(CarFault::HeaderMsg("Unsupported version: "@ + crate::text::decimal(v as nat)))
        } else {
            match first_value(m, "roots"@) {
                Some(CborModel::Array(arr)) => match spec_roots(arr) {
                    Ok(roots) => Ok((v, roots)),
                    Err(e) => Err(e),
                },
                Some(_) => Err(CarFault::HeaderMsg("Roots is not an array"@)),
                None => Err(CarFault::HeaderMsg("Missing roots"@)),
            }
        },
    }
}

/// The CAR header at the start of `s`: a varint length, then that many bytes
/// of a CBOR map; with the number of bytes it takes.
pub open spec fn spec_read_header(s: Seq<u8>) -> Result<((u8, Seq<CidModel>), nat), CarFault> {
    match spec_varint(s, 10) {
        Err(e) => Err(e),
        Ok((hl, n)) => {
            let len = (hl as usize) as int;
            if s.len() - n < len {
                Err(CarFault::Eof)
            } else {
                match crate::car::cbor::spec_read_value(s.subrange(n as int, n + len), 0) {
                    Err(e) => Err(e),
                    Ok((CborModel::Mapping(m), _)) => match spec_header_from_map(m) {
                        Ok(h) => Ok((h, (n + len) as nat)),
                        Err(e) => Err(e),
                    },
                    Ok(_) => Err(CarFault::HeaderMsg("Header is not a map"@)),
                }
            }
        },
    }
}

} // verus!

verus! {

/// Parses a root CID as written in the header.
fn parse_root(root_bytes: &[u8]) -> (r: Result<Cid, CarError>)
    ensures
        match spec_parse_root(root_bytes@) {
            Ok(c) => r matches Ok(cid) && cid_model(cid) == c,
            Err(f) => r matches Err(e) && e.shows(f),
        },
{
    let mut root_reader = SyncByteReader::new(root_bytes);
    assert(root_reader.rest() =~= root_bytes@);
    let first_bytes = root_reader.exactly(1, true)?;
    let first = first_bytes[0];
    assert(root_reader.rest() =~= root_bytes@.skip(1));
    let version = if first == 0 {
        read_varint(&mut root_reader, 10)? as u8
    } else {
        first
    };
    let codec = read_varint(&mut root_reader, 10)? as u8;
    let digest_type = read_varint(&mut root_reader, 10)? as u8;
    let digest_size = read_varint(&mut root_reader, 10)? as usize;
    let digest_bytes = root_reader.exactly(digest_size, true)?;
    let digest = vstd::slice::slice_to_vec(digest_bytes);
    proof {
        let p4 = root_reader.position() - digest_size;
        assert(digest@ =~= root_bytes@.subrange(p4, p4 + digest_size));
    }
    Ok(Cid { version, codec, digest_type, digest })
}

/// The index of the first entry keyed `key`.
pub(crate) fn find_key(map: &[(CborValue, CborValue)], key: &str) -> (r: Option<usize>)
    ensures
        match r {
            Some(j) => j < map@.len() && first_value(crate::car::cbor::pair_models(map@), key@)
                == Some(crate::car::cbor::pair_models(map@)[j as int].1),
            None => first_value(crate::car::cbor::pair_models(map@), key@) is None,
        },
{
    let ghost m = crate::car::cbor::pair_models(map@);
    let mut idx: usize = 0;
    assert(m.skip(0) =~= m);
    while idx < map.len()
        invariant
            idx <= map@.len(),
            m == crate::car::cbor::pair_models(map@),
            first_value(m, key@) == first_value(m.skip(idx as int), key@),
        decreases map@.len() - idx,
    {
        assert(m.skip(idx as int).drop_first() =~= m.skip(idx + 1));
        let is_key = match &map[idx].0 {
            CborValue::Text(k) => crate::text::str_eq(k, key),
            _ => false,
        };
        if is_key {
            return Some(idx);
        }
        idx = idx + 1;
    }
    None
}

/// Parses every root CID of the header's `roots` array.
fn parse_roots(arr: &[CborValue]) -> (r: Result<Vec<Cid>, CarError>)
    ensures
        match spec_roots(crate::car::cbor::models(arr@)) {
            Ok(all) => r matches Ok(roots) && roots@.len() == all.len()
                && forall|i: int| 0 <= i < all.len() ==> #[trigger] cid_model(roots@[i]) == all[i],
            Err(f) => r matches Err(e) && e.shows(f),
        },
{
    let ghost arr_m = crate::car::cbor::models(arr@);
    let mut roots: Vec<Cid> = Vec::new();
    let mut k: usize = 0;
    assert(arr_m.skip(0) =~= arr_m);
    while k < arr.len()
        invariant
            k <= arr@.len(),
            arr_m == crate::car::cbor::models(arr@),
            roots@.len() == k,
            match spec_roots(arr_m.skip(k as int)) {
                Ok(rest) => spec_roots(arr_m) matches Ok(all) && all.len() == k + rest.len()
                    && (forall|i: int| 0 <= i < k ==> #[trigger] cid_model(roots@[i]) == all[i])
                    && (forall|i: int| 0 <= i < rest.len() ==> #[trigger] all[k + i] == rest[i]),
                Err(e) => spec_roots(arr_m) == Err::<Seq<CidModel>, CarFault>(e),
            },
        decreases arr@.len() - k,
    {
        assert(arr_m.skip(k as int).drop_first() =~= arr_m.skip(k + 1));
        let root_bytes: &[u8] = match &arr[k] {
            CborValue::Bytes(b) => b,
            CborValue::Link(b) => b,
            _ => {
                return Err(CarError::header("Root CID must be bytes or link"));
            },
        };
        let cid = parse_root(root_bytes)?;
        let ghost c = cid_model(cid);
        let ghost prev = roots@;
        roots.push(cid);
        proof {
            assert(spec_roots(arr_m.skip(k as int)) == match spec_roots(arr_m.skip(k + 1)) {
                Err(e) => Err(e),
                Ok(rest) => Ok::<Seq<CidModel>, CarFault>(seq![c] + rest),
            });
            match spec_roots(arr_m.skip(k + 1)) {
                Ok(rest2) => {
                    let all = spec_roots(arr_m)->Ok_0;
                    let rest = seq![c] + rest2;
                    assert(all[k + 0] == rest[0]);
                    assert forall|i: int| 0 <= i < k + 1 implies #[trigger] cid_model(roots@[i]) == all[i] by {
                        if i < k {
                            assert(roots@[i] == prev[i]);
                        }
                    }
                    assert forall|i: int| 0 <= i < rest2.len() implies #[trigger] all[k + 1 + i] == rest2[i] by {
                        assert(all[k + (i + 1)] == rest[i + 1]);
                    }
                },
                Err(_) => {},
            }
        }
        k = k + 1;
    }
    assert(arr_m.skip(k as int) =~= Seq::<CborModel>::empty());
    Ok(roots)
}

/// Reads the CAR header (a varint length and a CBOR map holding `version`,
/// which must be 1, and `roots`) and moves past it.
pub fn read_header(reader: &mut SyncByteReader) -> (r: Result<CarHeader, CarError>)
    requires
        old(reader).wf(),
    ensures
        final(reader).wf(),
        final(reader).data() == old(reader).data(),
        match spec_read_header(old(reader).rest()) {
            Ok((h, n)) => (r matches Ok(hd) && hd.version == h.0 && hd.roots@.len() == h.1.len()
                && forall|i: int| 0 <= i < h.1.len() ==> #[trigger] cid_model(hd.roots@[i]) == h.1[i])
                && final(reader).position() == old(reader).position() + n,
            Err(f) => r matches Err(e) && e.shows(f),
        },
{
    let ghost s = old(reader).rest();
    let header_len = read_varint(reader, 10)? as usize;
    let ghost n = reader.position() - old(reader).position();
    let header_bytes = reader.exactly(header_len, true)?;
    assert(header_bytes@ =~= s.subrange(n, n + header_len));
    let header_value = decode_cbor(header_bytes)?;
    let header_map = match header_value {
        CborValue::Mapping(map) => map,
        _ => {
            return Err(CarError::header("Header is not a map"));
        },
    };
    let ghost m = crate::car::cbor::pair_models(header_map@);
    assert(CborValue::Mapping(header_map).model() matches CborModel::Mapping(mm) && mm =~= m);
    let version = match get_text_field(header_map.as_slice(), "version") {
        Some(t) => match crate::text::parse_u8(t) {
            Some(v) => Some(v),
            None => match get_int_field(header_map.as_slice(), "version") {
                Some(i) => Some(i as u8),
                None => None,
            },
        },
        None => match get_int_field(header_map.as_slice(), "version") {
            Some(i) => Some(i as u8),
            None => None,
        },
    };
    assert(version == header_version(m));
    let version = match version {
        Some(v) => v,
        None => {
            return Err(CarError::header("Missing version"));
        },
    };
    if version != 1 {
        let mut detail = String::new();
        crate::text::push_decimal(&mut detail, version as u64);
        return Err(CarError::header_with("Unsupported version: ", detail));
    }
    let roots_index = match find_key(header_map.as_slice(), "roots") {
        Some(j) => j,
        None => {
            return Err(CarError::header("Missing roots"));
        },
    };
    let roots_array = match &header_map[roots_index].1 {
        CborValue::Array(arr) => arr,
        _ => {
            return Err(CarError::header("Roots is not an array"));
        },
    };
    let ghost arr_m = crate::car::cbor::models(roots_array@);
    assert(header_map@[roots_index as int].1.model() matches CborModel::Array(a) && a =~= arr_m);
    let roots = parse_roots(roots_array.as_slice())?;
    Ok(CarHeader { version, roots })
}

} // verus!

verus! {

/// One block read from the start of `s`: a varint length, then that many
/// bytes holding the block's CID and its payload. Also gives how many bytes
/// the attempt consumed, whether it succeeded or not. A CID longer than the
/// announced length leaves the payload length negative, which is reported
/// as running out of bytes.
pub open spec fn spec_entry(s: Seq<u8>) -> (Result<(CidModel, Seq<u8>), CarFault>, nat) {
    match spec_varint(s, 10) {
        Err(f) => (Err(f), 0),
        Ok((es, n)) => {
            let size = (es as usize) as int;
            if s.len() - n < size {
                (Err(CarFault::Eof), n)
            } else {
                match spec_read_cid(s.skip(n as int)) {
                    Err(f) => (Err(f), n),
                    Ok((c, cn)) => if cn > size {
                        (Err(CarFault::Eof), n + cn)
                    } else {
                        (Ok((c, s.subrange((n + cn) as int, n + size))), (n + size) as nat)
                    },
                }
            }
        },
    }
}

/// Whether a block read by the library matches the block described by `m`.
pub open spec fn entry_matches(r: Result<CarEntry, CarError>, m: Result<(CidModel, Seq<u8>), CarFault>) -> bool {
    match m {
        Ok((c, b)) => r matches Ok(e) && cid_model(e.cid) == c && e.bytes@ == b,
        Err(f) => r matches Err(e) && e.shows(f),
    }
}

/// The content of a header: its version and the content of each root CID.
pub open spec fn header_model(h: CarHeader) -> (u8, Seq<CidModel>) {
    (h.version, Seq::new(h.roots@.len(), |i: int| cid_model(h.roots@[i])))
}

/// Every block from position `p` of `d` on, in order, up to the end of the
/// bytes or the first error.
pub open spec fn spec_entries(d: Seq<u8>, p: int) -> Result<Seq<(CidModel, Seq<u8>)>, CarFault>
    decreases d.len() - p,
{
    if p < 0 || p >= d.len() {
        Ok(Seq::empty())
    } else {
        let (e, n) = spec_entry(d.skip(p));
        match e {
            Err(f) => Err(f),
            Ok(em) => if n == 0 || p + n > d.len() {
                Ok(seq![em])
            } else {
                match spec_entries(d, p + n) {
                    Ok(rest) => Ok(seq![em] + rest),
                    Err(f) => Err(f),
                }
            },
        }
    }
}

/// Reads the next block; `None` once no bytes are left.
fn read_entry(reader: &mut SyncByteReader) -> (r: Option<Result<CarEntry, CarError>>)
    requires
        old(reader).wf(),
    ensures
        final(reader).wf(),
        final(reader).data() == old(reader).data(),
        old(reader).rest().len() == 0 ==> r is None && final(reader).position() == old(reader).position(),
        old(reader).rest().len() > 0 ==> (r matches Some(x) && entry_matches(x, spec_entry(old(reader).rest()).0))
            && final(reader).position() == old(reader).position() + spec_entry(old(reader).rest()).1,
        (r matches Some(Ok(_))) ==> final(reader).position() > old(reader).position(),
{
    if reader.remaining() < 1 {
        return None;
    }
    let ghost s = old(reader).rest();
    let entry_size = match read_varint(reader, 10) {
        Ok(size) => size as usize,
        Err(e) => {
            return Some(Err(e));
        },
    };
    let ghost n = reader.position() - old(reader).position();
    assert(reader.rest() =~= s.skip(n));
    if reader.remaining() < entry_size {
        return Some(Err(CarError::UnexpectedEof));
    }
    let cid_start = reader.pos();
    let cid = match read_cid(reader) {
        Ok(cid) => cid,
        Err(e) => {
            return Some(Err(e));
        },
    };
    let cid_end = reader.pos();
    let cid_size = cid_end - cid_start;
    if cid_size > entry_size {
        return Some(Err(CarError::UnexpectedEof));
    }
    let bytes_size = entry_size - cid_size;
    assert(reader.rest() =~= s.skip(n + cid_size));
    let bytes = match reader.exactly(bytes_size, true) {
        Ok(bytes) => vstd::slice::slice_to_vec(bytes),
        Err(e) => {
            return Some(Err(e));
        },
    };
    assert(bytes@ =~= s.subrange(n + cid_size, n + entry_size));
    Some(Ok(CarEntry { cid, bytes }))
}

/// Reads a CAR archive held in memory: the header first, then block by block.
pub struct SyncCarReader<'a> {
    reader: SyncByteReader<'a>,
    _header: CarHeader,
}

impl<'a> SyncCarReader<'a> {
    /// The archive's bytes.
    pub closed spec fn data(&self) -> Seq<u8> {
        self.reader.data()
    }

    /// The position of the next block.
    pub closed spec fn position(&self) -> int {
        self.reader.position()
    }

    /// The bytes from the next block on.
    pub open spec fn rest(&self) -> Seq<u8> {
        self.data().skip(self.position())
    }

    /// The header read when the reader was made.
    pub closed spec fn header_value(&self) -> CarHeader {
        self._header
    }

    /// The position stays within the bytes.
    pub closed spec fn wf(&self) -> bool {
        self.reader.wf()
    }

    /// Reads the header of `buf`; the reader then stands at the first block.
    pub fn from_bytes(buf: &'a [u8]) -> (r: Result<Self, CarError>)
        ensures
            match spec_read_header(buf@) {
                Ok((h, n)) => r matches Ok(cr) && cr.wf() && cr.data() == buf@ && cr.position() == n
                    && header_model(cr.header_value()) == h,
                Err(f) => r matches Err(e) && e.shows(f),
            },
    {
        let mut reader = SyncByteReader::new(buf);
        assert(reader.rest() =~= buf@);
        let header = read_header(&mut reader)?;
        proof {
            if let Ok((h, n)) = spec_read_header(buf@) {
                assert(header_model(header).1 =~= h.1);
            }
        }
        Ok(SyncCarReader { reader, _header: header })
    }

    /// The header of the archive.
    pub fn header(&self) -> (h: &CarHeader)
        ensures
            *h == self.header_value(),
    {
        &self._header
    }

    /// The next block, or `None` once the archive is exhausted.
    pub fn next(&mut self) -> (r: Option<Result<CarEntry, CarError>>)
        requires
            old(self).wf(),
        ensures
            final(self).wf(),
            final(self).data() == old(self).data(),
            final(self).header_value() == old(self).header_value(),
            old(self).rest().len() == 0 ==> r is None && final(self).position() == old(self).position(),
            old(self).rest().len() > 0 ==> (r matches Some(x) && entry_matches(x, spec_entry(old(self).rest()).0))
                && final(self).position() == old(self).position() + spec_entry(old(self).rest()).1,
            (r matches Some(Ok(_))) ==> final(self).position() > old(self).position(),
    {
        read_entry(&mut self.reader)
    }

    /// Every remaining block, in order; the first error ends the reading.
    pub fn collect(self) -> (r: Result<Vec<CarEntry>, CarError>)
        requires
            self.wf(),
        ensures
            match spec_entries(self.data(), self.position()) {
                Ok(es) => r matches Ok(v) && v@.len() == es.len() && forall|i: int| 0 <= i < es.len()
                    ==> entry_matches(Ok(#[trigger] v@[i]), Ok(es[i])),
                Err(f) => r matches Err(e) && e.shows(f),
            },
    {
        let mut this = self;
        let ghost d = this.data();
        let ghost p0 = this.position();
        let mut out: Vec<CarEntry> = Vec::new();
        loop
            invariant
                this.wf(),
                this.data() == d,
                d == self.data(),
                p0 == self.position(),
                0 <= this.position() <= d.len(),
                match spec_entries(d, p0) {
                    Ok(all) => spec_entries(d, this.position()) matches Ok(rest) && all.len() == out@.len() + rest.len()
                        && (forall|i: int| 0 <= i < out@.len() ==> entry_matches(Ok(#[trigger] out@[i]), Ok(all[i])))
                        && (forall|i: int| 0 <= i < rest.len() ==> #[trigger] all[out@.len() + i] == rest[i]),
                    Err(f) => spec_entries(d, this.position()) == Err::<Seq<(CidModel, Seq<u8>)>, CarFault>(f),
                },
            decreases d.len() - this.position(),
        {
            let ghost p = this.position();
            assert(this.rest() =~= d.skip(p));
            let ghost prev = out@;
            match this.next() {
                None => {
                    assert(spec_entries(d, p) == Ok::<Seq<(CidModel, Seq<u8>)>, CarFault>(Seq::empty()));
                    return Ok(out);
                },
                Some(Err(e)) => {
                    return Err(e);
                },
                Some(Ok(entry)) => {
                    let ghost em = (cid_model(entry.cid), entry.bytes@);
                    out.push(entry);
                    proof {
                        let q = this.position();
                        assert(spec_entries(d, p) == match spec_entries(d, q) {
                            Ok(rest) => Ok::<Seq<(CidModel, Seq<u8>)>, CarFault>(seq![em] + rest),
                            Err(f) => Err(f),
                        });
                        if let Ok(all) = spec_entries(d, p0) {
                            let rest1 = spec_entries(d, p)->Ok_0;
                            assert(all[prev.len() + 0int] == rest1[0]);
                            if let Ok(rest2) = spec_entries(d, q) {
                                assert forall|i: int| 0 <= i < out@.len() implies entry_matches(Ok(#[trigger] out@[i]), Ok(all[i])) by {
                                    if i < prev.len() {
                                        assert(out@[i] == prev[i]);
                                    }
                                }
                                assert forall|i: int| 0 <= i < rest2.len() implies #[trigger] all[out@.len() + i] == rest2[i] by {
                                    assert(all[prev.len() + (i + 1)] == rest1[i + 1]);
                                }
                            }
                        }
                    }
                },
            }
        }
    }
}

/// The text form of a CID used to name records:
/// `v{version}-c{codec:02x}-d{digest type:02x}-{digest hex}`.
pub open spec fn cid_text(c: CidModel) -> Seq<char> {
    "v"@ + crate::text::decimal(c.0 as nat) + "-c"@ + crate::text::hex_lower(seq![c.1]) + "-d"@
        + crate::text::hex_lower(seq![c.2]) + "-"@ + crate::text::hex_lower(c.3)
}

/// Renders a CID as `v{version}-c{codec}-d{digest type}-{digest}`, with the
/// codec and digest type as two hexadecimal digits and the digest in hex.
pub fn format_cid_simple(cid: &Cid) -> (s: String)
    ensures
        s@ == cid_text(cid_model(*cid)),
{
    let mut out = String::new();
    crate::text::push_str(&mut out, "v");
    crate::text::push_decimal(&mut out, cid.version as u64);
    crate::text::push_str(&mut out, "-c");
    let codec = [cid.codec];
    crate::text::push_hex(&mut out, &codec);
    crate::text::push_str(&mut out, "-d");
    let digest_type = [cid.digest_type];
    crate::text::push_hex(&mut out, &digest_type);
    crate::text::push_str(&mut out, "-");
    crate::text::push_hex(&mut out, cid.digest.as_slice());
    assert(codec@ =~= seq![cid.codec]);
    assert(digest_type@ =~= seq![cid.digest_type]);
    assert(out@ =~= cid_text(cid_model(*cid)));
    out
}

} // verus!

verus! {

/// An AT Protocol record found in an archive: its `$type`, the block's
/// payload, and the text form of the block's CID.
pub type RecordModel = (Seq<char>, Seq<u8>, Seq<char>);

/// The `$type` of a block payload that is a CBOR map with a text `$type`
/// entry; `None` for any other payload.
pub open spec fn record_type(b: Seq<u8>) -> Option<Seq<char>> {
    match crate::car::cbor::spec_read_value(b, 0) {
        Ok((CborModel::Mapping(m), _)) => crate::car::cbor::text_field(m, "$type"@),
        _ => None,
    }
}

/// Reading records from position `p` of `d`: blocks are read in turn and
/// those that are not records are passed over, until a record, an error or
/// the end of the bytes. Gives the outcome, the position after it, and how
/// many blocks were read whole.
pub open spec fn spec_next_record(d: Seq<u8>, p: int) -> (Option<Result<RecordModel, CarFault>>, int, nat)
    decreases d.len() - p,
{
    if p < 0 || p >= d.len() {
        (None, p, 0)
    } else {
        let (e, n) = spec_entry(d.skip(p));
        match e {
            Err(f) => (Some(Err(f)), p + n, 0),
            Ok((c, b)) => match record_type(b) {
                Some(t) => (Some(Ok((t, b, cid_text(c)))), p + n, 1),
                None => if n == 0 || p + n > d.len() {
                    (None, p + n, 1)
                } else {
                    let next = spec_next_record(d, p + n);
                    (next.0, next.1, next.2 + 1)
                },
            },
        }
    }
}

/// Where record reading starts: after the header, which is read first.
pub open spec fn records_start(d: Seq<u8>, cursor: Option<int>) -> Result<int, CarFault> {
    match cursor {
        Some(p) => Ok(p),
        None => match spec_read_header(d) {
            Ok((_, n)) => Ok(n as int),
            Err(f) => Err(f),
        },
    }
}

/// Whether a record handed out matches the one described by `m`.
pub open spec fn record_matches(r: Result<(String, Vec<u8>, String), CarError>, m: Result<RecordModel, CarFault>) -> bool {
    match m {
        Ok((t, b, c)) => r matches Ok(x) && x.0@ == t && x.1@ == b && x.2@ == c,
        Err(f) => r matches Err(e) && e.shows(f),
    }
}

/// Every record from position `p` of `d` on, up to the end or the first error.
pub open spec fn spec_records(d: Seq<u8>, p: int) -> Result<Seq<RecordModel>, CarFault>
    decreases d.len() - p,
{
    let (res, q, _) = spec_next_record(d, p);
    match res {
        None => Ok(Seq::empty()),
        Some(Err(f)) => Err(f),
        Some(Ok(rec)) => if q <= p || q > d.len() {
            Ok(seq![rec])
        } else {
            match spec_records(d, q) {
                Ok(rest) => Ok(seq![rec] + rest),
                Err(f) => Err(f),
            }
        },
    }
}

/// The AT Protocol records of a CAR archive held in memory. The header is
/// read on the first request.
pub struct CarRecords {
    car_bytes: Vec<u8>,
    cursor: Option<usize>,
    processed_count: usize,
}

impl CarRecords {
    /// The archive's bytes.
    pub closed spec fn bytes(&self) -> Seq<u8> {
        self.car_bytes@
    }

    /// The position of the next block, once the header has been read.
    pub closed spec fn cursor(&self) -> Option<int> {
        match self.cursor {
            Some(p) => Some(p as int),
            None => None,
        }
    }

    /// How many blocks have been read.
    pub closed spec fn processed(&self) -> nat {
        self.processed_count as nat
    }

    /// The cursor stays within the bytes, and every block read took a byte at least.
    pub closed spec fn wf(&self) -> bool {
        &&& self.car_bytes@.len() == self.car_bytes.len()
        &&& match self.cursor {
            Some(p) => p <= self.car_bytes@.len() && self.processed_count <= p,
            None => self.processed_count == 0,
        }
    }

    /// Takes the archive's bytes; nothing is read yet.
    pub fn from_bytes(buf: Vec<u8>) -> (r: Result<Self, CarError>)
        ensures
            r matches Ok(c) && c.wf() && c.bytes() == buf@ && c.cursor() is None && c.processed() == 0,
    {
        Ok(CarRecords { car_bytes: buf, cursor: None, processed_count: 0 })
    }

    /// The next record: blocks that are not records are passed over. A
    /// header that cannot be read is reported on every request.
    pub fn next(&mut self) -> (r: Option<Result<(String, Vec<u8>, String), CarError>>)
        requires
            old(self).wf(),
        ensures
            final(self).wf(),
            final(self).bytes() == old(self).bytes(),
            match records_start(old(self).bytes(), old(self).cursor()) {
                Err(f) => (r matches Some(Err(e)) && e.shows(f)) && final(self).cursor() == old(self).cursor()
                    && final(self).processed() == old(self).processed(),
                Ok(p) => {
                    let (res, q, k) = spec_next_record(old(self).bytes(), p);
                    &&& match res {
                        None => r is None,
                        Some(m) => r matches Some(x) && record_matches(x, m),
                    }
                    &&& final(self).cursor() == Some(q)
                    &&& final(self).processed() == old(self).processed() + k
                },
            },
            final(self).cursor() matches Some(q) ==> 0 <= q <= final(self).bytes().len(),
    {
        let ghost d = self.car_bytes@;
        let start: usize = match self.cursor {
            Some(p) => p,
            None => {
                let mut header_reader = SyncByteReader::new(self.car_bytes.as_slice());
                assert(header_reader.rest() =~= d);
                match read_header(&mut header_reader) {
                    Ok(_) => header_reader.pos(),
                    Err(e) => {
                        return Some(Err(e));
                    },
                }
            },
        };
        let mut reader = SyncByteReader { buf: self.car_bytes.as_slice(), pos: start };
        let mut count: usize = self.processed_count;
        let ghost target = spec_next_record(d, start as int);
        let ghost count0 = count;
        loop
            invariant
                reader.wf(),
                reader.data() == d,
                d == self.car_bytes@,
                d == old(self).car_bytes@,
                self.cursor == old(self).cursor,
                self.processed_count == old(self).processed_count,
                d.len() == self.car_bytes.len(),
                start <= reader.position() <= d.len(),
                count0 == self.processed_count,
                count0 <= start,
                count0 <= count,
                count - count0 <= reader.position() - start,
                target == spec_next_record(d, start as int),
                match self.cursor {
                    Some(p) => p == start,
                    None => records_start(d, None) == Ok::<int, CarFault>(start as int) && count0 == 0,
                },
                ({
                    let now = spec_next_record(d, reader.position());
                    target.0 == now.0 && target.1 == now.1 && target.2 == now.2 + (count - count0)
                }),
            decreases d.len() - reader.position(),
        {
            let ghost p = reader.position();
            assert(reader.rest() =~= d.skip(p));
            match read_entry(&mut reader) {
                None => {
                    self.cursor = Some(reader.pos);
                    self.processed_count = count;
                    return None;
                },
                Some(Err(e)) => {
                    self.cursor = Some(reader.pos);
                    self.processed_count = count;
                    return Some(Err(e));
                },
                Some(Ok(entry)) => {
                    count = count + 1;
                    let cid_str = format_cid_simple(&entry.cid);
                    let decoded = decode_cbor(entry.bytes.as_slice());
                    let found: Option<String> = match decoded {
                        Ok(CborValue::Mapping(m)) => {
                            let ghost pm = crate::car::cbor::pair_models(m@);
                            assert(CborValue::Mapping(m).model() matches CborModel::Mapping(mm) && mm =~= pm);
                            match get_text_field(m.as_slice(), "$type") {
                                Some(t) => Some(crate::text::owned(t)),
                                None => None,
                            }
                        },
                        _ => None,
                    };
                    assert(found.is_some() == record_type(entry.bytes@).is_some());
                    assert(found matches Some(t) ==> t@ == record_type(entry.bytes@)->Some_0);
                    if let Some(type_str) = found {
                        self.cursor = Some(reader.pos);
                        self.processed_count = count;
                        return Some(Ok((type_str, entry.bytes, cid_str)));
                    }
                },
            }
        }
    }

    /// Every remaining record, in order; the first error ends the reading.
    pub fn collect(self) -> (r: Result<Vec<(String, Vec<u8>, String)>, CarError>)
        requires
            self.wf(),
        ensures
            match records_start(self.bytes(), self.cursor()) {
                Err(f) => r matches Err(e) && e.shows(f),
                Ok(p) => match spec_records(self.bytes(), p) {
                    Ok(rs) => r matches Ok(v) && v@.len() == rs.len() && forall|i: int| 0 <= i < rs.len()
                        ==> record_matches(Ok(#[trigger] v@[i]), Ok(rs[i])),
                    Err(f) => r matches Err(e) && e.shows(f),
                },
            },
    {
        let mut this = self;
        let ghost d = this.bytes();
        let mut out: Vec<(String, Vec<u8>, String)> = Vec::new();
        let first = this.next();
        let p0: Ghost<int> = Ghost(match records_start(d, self.cursor()) { Ok(p) => p, Err(_) => 0 });
        match first {
            None => {
                return Ok(out);
            },
            Some(Err(e)) => {
                return Err(e);
            },
            Some(Ok(rec)) => {
                out.push(rec);
                proof {
                    let q = this.cursor()->Some_0;
                    lemma_next_record_advances(d, p0@);
                    let rm = spec_next_record(d, p0@).0->Some_0->Ok_0;
                    assert(spec_records(d, p0@) == match spec_records(d, q) {
                        Ok(rest) => Ok::<Seq<RecordModel>, CarFault>(seq![rm] + rest),
                        Err(f) => Err(f),
                    });
                    if let Ok(all) = spec_records(d, p0@) {
                        let rest = spec_records(d, q)->Ok_0;
                        assert(all[0] == rm);
                        assert forall|i: int| 0 <= i < rest.len() implies #[trigger] all[out@.len() + i] == rest[i] by {
                            assert(all[1 + i] == (seq![rm] + rest)[1 + i]);
                        }
                    }
                }
            },
        }
        loop
            invariant
                this.wf(),
                this.bytes() == d,
                d == self.bytes(),
                records_start(d, self.cursor()) == Ok::<int, CarFault>(p0@),
                this.cursor() matches Some(q) && 0 <= q <= d.len() && match spec_records(d, p0@) {
                    Ok(all) => spec_records(d, q) matches Ok(rest) && all.len() == out@.len() + rest.len()
                        && (forall|i: int| 0 <= i < out@.len() ==> record_matches(Ok(#[trigger] out@[i]), Ok(all[i])))
                        && (forall|i: int| 0 <= i < rest.len() ==> #[trigger] all[out@.len() + i] == rest[i]),
                    Err(f) => spec_records(d, q) == Err::<Seq<RecordModel>, CarFault>(f),
                },
            decreases d.len() - this.cursor()->Some_0,
        {
            let ghost q = this.cursor()->Some_0;
            let ghost prev = out@;
            proof {
                lemma_next_record_advances(d, q);
            }
            match this.next() {
                None => {
                    return Ok(out);
                },
                Some(Err(e)) => {
                    return Err(e);
                },
                Some(Ok(rec)) => {
                    out.push(rec);
                    proof {
                        let q2 = this.cursor()->Some_0;
                        let rm = spec_next_record(d, q).0->Some_0->Ok_0;
                        if let Ok(all) = spec_records(d, p0@) {
                            let rest1 = spec_records(d, q)->Ok_0;
                            assert(all[prev.len() + 0int] == rest1[0]);
                            if let Ok(rest2) = spec_records(d, q2) {
                                assert(rest1 == seq![rm] + rest2);
                                assert forall|i: int| 0 <= i < out@.len() implies record_matches(Ok(#[trigger] out@[i]), Ok(all[i])) by {
                                    if i < prev.len() {
                                        assert(out@[i] == prev[i]);
                                    }
                                }
                                assert forall|i: int| 0 <= i < rest2.len() implies #[trigger] all[out@.len() + i] == rest2[i] by {
                                    assert(all[prev.len() + (i + 1)] == rest1[i + 1]);
                                }
                            }
                        }
                    }
                },
            }
        }
    }
}

/// A record found from position `p` lies after `p` and within the bytes.
proof fn lemma_next_record_advances(d: Seq<u8>, p: int)
    requires
        0 <= p,
    ensures
        spec_next_record(d, p).0 matches Some(Ok(_)) ==> p < spec_next_record(d, p).1 <= d.len(),
    decreases d.len() - p,
{
    if p < d.len() {
        let (e, n) = spec_entry(d.skip(p));
        if let Ok((c, b)) = e {
            if record_type(b) is None && n != 0 && p + n <= d.len() {
                lemma_next_record_advances(d, p + n);
            }
        }
    }
}

} // verus!
