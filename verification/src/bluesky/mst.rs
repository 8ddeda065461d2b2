//! Walking a repository's Merkle search tree to find the record path
//! (`collection/rkey`) that each record CID is stored under.
use vstd::prelude::*;
use crate::car::cbor::{CborValue, CborModel, decode_cbor, is_key, pair_models, text_field, get_text_field};
use crate::car::cbor::spec_read_value;
use crate::car::reader::{first_value, find_key};
use crate::car::error::{CarError, CarFault, nested_fault, lemma_shown_message};
use crate::car::reader::{CidModel, cid_text, SyncCarReader, spec_read_header, spec_entries, header_model, entry_matches, format_cid_simple};
use crate::text::{owned, str_eq, opt_view, chars_of, push_str, push_decimal, string_from_chars, utf8_str};
use crate::strings::{find_from, chars_find_from, occurs_at};
use vstd::utf8::{valid_utf8, decode_utf8};

verus! {

/// A map with text keys, kept as a list of entries in which no key occurs
/// twice.
pub struct TextMap<V> {
    entries: Vec<(String, V)>,
}

/// The map a list of entries stands for: each key maps to the value of its
/// last entry.
pub open spec fn text_map_of<V>(es: Seq<(String, V)>) -> Map<Seq<char>, V>
    decreases es.len(),
{
    if es.len() == 0 {
        Map::empty()
    } else {
        text_map_of(es.drop_last()).insert(es.last().0@, es.last().1)
    }
}

/// No key occurs in two entries.
pub open spec fn keys_unique<V>(es: Seq<(String, V)>) -> bool {
    forall|i: int, j: int| 0 <= i < j < es.len() ==> (#[trigger] es[i]).0@ != (#[trigger] es[j]).0@
}

/// With distinct keys, the map holds exactly the entries, and has as many
/// keys as there are entries.
proof fn lemma_text_map_unique<V>(es: Seq<(String, V)>)
    requires
        keys_unique(es),
    ensures
        forall|j: int| 0 <= j < es.len() ==> text_map_of(es).contains_key((#[trigger] es[j]).0@)
            && text_map_of(es)[es[j].0@] == es[j].1,
        forall|k: Seq<char>| #[trigger] text_map_of(es).contains_key(k)
            ==> exists|j: int| 0 <= j < es.len() && (#[trigger] es[j]).0@ == k,
        text_map_of(es).dom().finite(),
        text_map_of(es).dom().len() == es.len(),
    decreases es.len(),
{
    if es.len() == 0 {
        assert(text_map_of(es).dom() =~= Set::<Seq<char>>::empty());
    } else {
        let init = es.drop_last();
        let n = es.len() - 1;
        assert forall|i: int, j: int| 0 <= i < j < init.len() implies (#[trigger] init[i]).0@ != (#[trigger] init[j]).0@ by {
            assert(init[i] == es[i] && init[j] == es[j]);
        }
        lemma_text_map_unique(init);
        let m0 = text_map_of(init);
        assert(es[n] == es.last());
        assert(!m0.contains_key(es[n].0@)) by {
            if m0.contains_key(es[n].0@) {
                let j = choose|j: int| 0 <= j < init.len() && (#[trigger] init[j]).0@ == es[n].0@;
                assert(init[j] == es[j]);
            }
        }
        assert forall|j: int| 0 <= j < es.len() implies text_map_of(es).contains_key((#[trigger] es[j]).0@)
            && text_map_of(es)[es[j].0@] == es[j].1 by {
            if j < n {
                assert(init[j] == es[j]);
            }
        }
        assert forall|k: Seq<char>| #[trigger] text_map_of(es).contains_key(k)
            implies exists|j: int| 0 <= j < es.len() && (#[trigger] es[j]).0@ == k by {
            if k != es[n].0@ {
                let j = choose|j: int| 0 <= j < init.len() && (#[trigger] init[j]).0@ == k;
                assert(init[j] == es[j]);
            }
        }
        assert(text_map_of(es).dom() =~= m0.dom().insert(es[n].0@));
    }
}

impl<V> View for TextMap<V> {
    type V = Map<Seq<char>, V>;

    closed spec fn view(&self) -> Map<Seq<char>, V> {
        text_map_of(self.entries@)
    }
}

impl<V> TextMap<V> {
    /// No key is held twice.
    pub closed spec fn wf(&self) -> bool {
        keys_unique(self.entries@)
    }

    /// An empty map.
    pub fn new() -> (m: Self)
        ensures
            m.wf(),
            m@ == Map::<Seq<char>, V>::empty(),
    {
        TextMap { entries: Vec::new() }
    }

    /// The position of the entry keyed `k`.
    fn find(&self, k: &str) -> (r: Option<usize>)
        ensures
            match r {
                Some(i) => i < self.entries@.len() && self.entries@[i as int].0@ == k@,
                None => forall|j: int| 0 <= j < self.entries@.len() ==> (#[trigger] self.entries@[j]).0@ != k@,
            },
    {
        let mut i: usize = 0;
        while i < self.entries.len()
            invariant
                i <= self.entries@.len(),
                forall|j: int| 0 <= j < i ==> (#[trigger] self.entries@[j]).0@ != k@,
            decreases self.entries@.len() - i,
        {
            if str_eq(self.entries[i].0.as_str(), k) {
                return Some(i);
            }
            i = i + 1;
        }
        None
    }

    /// Sets the value of a key.
    pub fn insert(&mut self, k: String, v: V)
        requires
            old(self).wf(),
        ensures
            final(self).wf(),
            final(self)@ == old(self)@.insert(k@, v),
    {
        let ghost es0 = self.entries@;
        let found = self.find(k.as_str());
        let ghost kv = k@;
        let ghost vv = v;
        match found {
            Some(i) => {
                self.entries.remove(i);
            },
            None => {},
        }
        let ghost es1 = self.entries@;
        self.entries.push((k, v));
        proof {
            let es2 = self.entries@;
            let n1 = es1.len() as int;
            // the entries kept are those of before, less the one keyed `k`
            let old_index = |j: int| -> int {
                match found {
                    Some(i) => if j < i { j } else { j + 1 },
                    None => j,
                }
            };
            assert forall|j: int| 0 <= j < n1 implies 0 <= #[trigger] old_index(j) < es0.len()
                && es1[j] == es0[old_index(j)] && es0[old_index(j)].0@ != kv by {
            }
            assert forall|i: int, j: int| 0 <= i < j < es2.len() implies (#[trigger] es2[i]).0@ != (#[trigger] es2[j]).0@ by {
                assert(es2[i] == es1[i]);
                if j < n1 {
                    assert(es2[j] == es1[j]);
                    assert(old_index(i) < old_index(j));
                }
            }
            lemma_text_map_unique(es0);
            lemma_text_map_unique(es2);
            let m0 = text_map_of(es0);
            let m2 = text_map_of(es2);
            assert(es2[n1] == (k, v));
            assert forall|x: Seq<char>| m2.contains_key(x) <==> #[trigger] m0.insert(kv, vv).contains_key(x) by {
                if m2.contains_key(x) && x != kv {
                    let j = choose|j: int| 0 <= j < es2.len() && (#[trigger] es2[j]).0@ == x;
                    assert(es2[j] == es1[j]);
                    assert(es0[old_index(j)].0@ == x);
                }
                if m0.contains_key(x) && x != kv {
                    let j0 = choose|j: int| 0 <= j < es0.len() && (#[trigger] es0[j]).0@ == x;
                    let j1: int = match found {
                        Some(i) => if j0 < i { j0 } else { j0 - 1 },
                        None => j0,
                    };
                    assert(old_index(j1) == j0);
                    assert(es2[j1] == es1[j1]);
                    assert(es2[j1].0@ == x);
                }
            }
            assert forall|x: Seq<char>| m2.contains_key(x) implies m2[x] == #[trigger] m0.insert(kv, vv)[x] by {
                let j = choose|j: int| 0 <= j < es2.len() && (#[trigger] es2[j]).0@ == x;
                if j < n1 {
                    assert(es2[j] == es1[j]);
                    assert(es0[old_index(j)].0@ == x);
                }
            }
            assert(m2 =~= m0.insert(kv, vv));
        }
    }

    /// The value of a key.
    pub fn get(&self, k: &str) -> (r: Option<&V>)
        requires
            self.wf(),
        ensures
            match r {
                Some(v) => self@.contains_key(k@) && self@[k@] == *v,
                None => !self@.contains_key(k@),
            },
    {
        proof {
            lemma_text_map_unique(self.entries@);
        }
        match self.find(k) {
            Some(i) => Some(&self.entries[i].1),
            None => None,
        }
    }

    /// Whether a key is held.
    pub fn contains_key(&self, k: &str) -> (b: bool)
        requires
            self.wf(),
        ensures
            b == self@.contains_key(k@),
    {
        self.get(k).is_some()
    }

    /// The number of keys held.
    pub fn len(&self) -> (n: usize)
        requires
            self.wf(),
        ensures
            n == self@.dom().len(),
    {
        proof {
            lemma_text_map_unique(self.entries@);
        }
        self.entries.len()
    }

    /// The keys held, each once.
    pub fn keys(&self) -> (ks: Vec<String>)
        requires
            self.wf(),
        ensures
            ks@.len() == self@.dom().len(),
            forall|i: int, j: int| 0 <= i < j < ks@.len() ==> (#[trigger] ks@[i])@ != (#[trigger] ks@[j])@,
            forall|i: int| 0 <= i < ks@.len() ==> self@.contains_key((#[trigger] ks@[i])@),
            forall|x: Seq<char>| #[trigger] self@.contains_key(x) ==> exists|i: int| 0 <= i < ks@.len() && (#[trigger] ks@[i])@ == x,
    {
        proof {
            lemma_text_map_unique(self.entries@);
        }
        let mut ks: Vec<String> = Vec::new();
        let mut i: usize = 0;
        while i < self.entries.len()
            invariant
                i <= self.entries@.len(),
                ks@.len() == i,
                forall|j: int| 0 <= j < i ==> (#[trigger] ks@[j])@ == self.entries@[j].0@,
            decreases self.entries@.len() - i,
        {
            ks.push(self.entries[i].0.clone());
            i = i + 1;
        }
        proof {
            assert forall|i: int, j: int| 0 <= i < j < ks@.len() implies (#[trigger] ks@[i])@ != (#[trigger] ks@[j])@ by {
                assert(self.entries@[i].0@ != self.entries@[j].0@);
            }
            assert forall|x: Seq<char>| #[trigger] self@.contains_key(x) implies exists|i: int| 0 <= i < ks@.len() && (#[trigger] ks@[i])@ == x by {
                let j = choose|j: int| 0 <= j < self.entries@.len() && (#[trigger] self.entries@[j]).0@ == x;
                assert(ks@[j]@ == x);
            }
        }
        ks
    }
}

/// Reads a varint of a CID link from position `pos`: `count` bytes have
/// been read so far into `acc`. A tenth byte that still has its high bit
/// set is an error; so is a varint with no byte at all.
pub open spec fn link_varint_scan(b: Seq<u8>, pos: int, acc: u64, count: nat) -> Result<(u64, int), CarFault>
    decreases b.len() - pos,
{
    if pos < 0 || pos >= b.len() || count >= 10 {
        if count == 0 {
            Err(CarFault::Eof)
        } else {
            Ok((acc, pos))
        }
    } else {
        let byte = b[pos];
        let next = acc | (((byte & 0x7f) as u64) << ((7 * count) as u64));
        if byte & 0x80 == 0 {
            Ok((next, pos + 1))
        } else if count + 1 >= 10 {
            Err(CarFault::Varint)
        } else {
            link_varint_scan(b, pos + 1, next, count + 1)
        }
    }
}

/// The text form of a CID given as DAG-CBOR link bytes: an optional 0x00
/// marker, then varint version, codec, digest type and digest size, then
/// the digest; rendered as `cid_text` does.
pub open spec fn spec_link_text(b: Seq<u8>) -> Result<Seq<char>, CarFault> {
    let p0: int = if b.len() > 0 && b[0] == 0 { 1 } else { 0 };
    match link_varint_scan(b, p0, 0, 0) {
        Err(f) => Err(f),
        Ok((version, p1)) => match link_varint_scan(b, p1, 0, 0) {
            Err(f) => Err(f),
            Ok((codec, p2)) => match link_varint_scan(b, p2, 0, 0) {
                Err(f) => Err(f),
                Ok((digest_type, p3)) => match link_varint_scan(b, p3, 0, 0) {
                    Err(f) => Err(f),
                    Ok((size, p4)) => {
                        let ds = (size as usize) as int;
                        if p4 + ds > b.len() {
                            Err(CarFault::Eof)
                        } else {
                            Ok(cid_text((version as u8, codec as u8, digest_type as u8, b.subrange(p4, p4 + ds))))
                        }
                    },
                },
            },
        },
    }
}

/// Reads one varint of a CID link starting at `*pos`, moving past it.
fn read_link_varint(bytes: &[u8], pos: &mut usize) -> (r: Result<u64, CarError>)
    requires
        *old(pos) <= bytes@.len(),
    ensures
        match link_varint_scan(bytes@, *old(pos) as int, 0, 0) {
            Ok((v, p)) => r == Ok::<u64, CarError>(v) && *final(pos) as int == p && p <= bytes@.len(),
            Err(f) => r matches Err(e) && e.shows(f),
        },
{
    let ghost start = *pos as int;
    let mut value: u64 = 0;
    let mut count: u64 = 0;
    while *pos < bytes.len()
        invariant
            start == *old(pos) as int,
            start <= *pos <= bytes@.len(),
            bytes@.len() == bytes.len(),
            count <= 9,
            *pos - start == count,
            link_varint_scan(bytes@, start, 0, 0) == link_varint_scan(bytes@, *pos as int, value, count as nat),
        decreases bytes@.len() - *pos,
    {
        let b = bytes[*pos];
        let ghost before = (*pos as int, value, count as nat);
        let shift: u64 = 7 * count;
        assert(shift == ((7 * before.2) as u64));
        *pos = *pos + 1;
        value = value | (((b & 0x7F) as u64) << shift);
        count = count + 1;
        assert(link_varint_scan(bytes@, before.0, before.1, before.2) == if b & 0x80 == 0 {
            Ok::<(u64, int), CarFault>((value, *pos as int))
        } else if count >= 10 {
            Err::<(u64, int), CarFault>(CarFault::Varint)
        } else {
            link_varint_scan(bytes@, *pos as int, value, count as nat)
        });
        if b & 0x80 == 0 {
            return Ok(value);
        }
        if count >= 10 {
            return Err(CarError::VarintError(owned("Varint too long")));
        }
    }
    if count == 0 {
        return Err(CarError::UnexpectedEof);
    }
    Ok(value)
}

/// Turns the bytes of a DAG-CBOR link into the CID's text form.
pub fn parse_cid_link_bytes(bytes: &[u8]) -> (r: Result<String, CarError>)
    ensures
        match spec_link_text(bytes@) {
            Ok(t) => r matches Ok(s) && s@ == t,
            Err(f) => r matches Err(e) && e.shows(f),
        },
{
    let mut pos: usize = 0;
    if pos < bytes.len() && bytes[pos] == 0 {
        pos = pos + 1;
    }
    let version = read_link_varint(bytes, &mut pos)? as u8;
    let codec = read_link_varint(bytes, &mut pos)? as u8;
    let digest_type = read_link_varint(bytes, &mut pos)? as u8;
    let digest_size = read_link_varint(bytes, &mut pos)? as usize;
    if digest_size > bytes.len() - pos {
        return Err(CarError::UnexpectedEof);
    }
    let digest = vstd::slice::slice_to_vec(&bytes[pos..pos + digest_size]);
    let cid = crate::car::types::Cid { version, codec, digest_type, digest };
    Ok(crate::car::reader::format_cid_simple(&cid))
}


/// The text of the CID a CBOR value links to: a DAG-CBOR link, or a map
/// whose first text `$link` entry gives the text itself.
pub open spec fn spec_cid_of(v: CborModel) -> Result<Seq<char>, CarFault> {
    match v {
        CborModel::Link(b) => spec_link_text(b),
        CborModel::Mapping(m) => match text_field(m, "$link"@) {
            Some(t) => Ok(t),
            None => Err(CarFault::HeaderMsg("Invalid CID link map form"@)),
        },
        _ => Err(CarFault::HeaderMsg("Invalid CID link format"@)),
    }
}

/// The text of the CID that a CBOR value links to.
pub fn extract_cid_from_cbor(value: &CborValue) -> (r: Result<String, CarError>)
    ensures
        match spec_cid_of(value.model()) {
            Ok(t) => r matches Ok(s) && s@ == t,
            Err(f) => r matches Err(e) && e.shows(f),
        },
{
    match value {
        CborValue::Link(b) => parse_cid_link_bytes(b),
        CborValue::Mapping(map) => {
            proof {
                assert(pair_models(map@) =~= value.model()->Mapping_0);
            }
            match get_text_field(map.as_slice(), "$link") {
                Some(t) => Ok(owned(t)),
                None => Err(CarError::InvalidHeader(owned("Invalid CID link map form"))),
            }
        },
        _ => Err(CarError::InvalidHeader(owned("Invalid CID link format"))),
    }
}

/// An entry of a tree node: how many bytes of the previous key it shares
/// (`p`), the rest of its key (`k`), the record it holds (`v`) and the
/// subtree that follows it (`t`).
pub struct EntryModel {
    pub p: u64,
    pub k: Seq<u8>,
    pub v: Seq<char>,
    pub t: Option<Seq<char>>,
}

/// An entry with nothing set.
pub open spec fn empty_entry() -> EntryModel {
    EntryModel { p: 0, k: Seq::empty(), v: Seq::empty(), t: None }
}

/// The effect of one key/value pair of an entry's map: `p` takes an
/// integer, `k` a byte string, `v` a link, `t` a link unless null; other
/// pairs and values of other kinds are passed over.
pub open spec fn entry_step(acc: EntryModel, key: CborModel, val: CborModel) -> Result<EntryModel, CarFault> {
    if is_key(key, "p"@) {
        match val {
            CborModel::Integer(i) => Ok(EntryModel { p: i as u64, k: acc.k, v: acc.v, t: acc.t }),
            _ => Ok(acc),
        }
    } else if is_key(key, "k"@) {
        match val {
            CborModel::Bytes(b) => Ok(EntryModel { p: acc.p, k: b, v: acc.v, t: acc.t }),
            _ => Ok(acc),
        }
    } else if is_key(key, "v"@) {
        match spec_cid_of(val) {
            Ok(c) => Ok(EntryModel { p: acc.p, k: acc.k, v: c, t: acc.t }),
            Err(f) => Err(f),
        }
    } else if is_key(key, "t"@) {
        if val is Null {
            Ok(acc)
        } else {
            match spec_cid_of(val) {
                Ok(c) => Ok(EntryModel { p: acc.p, k: acc.k, v: acc.v, t: Some(c) }),
                Err(f) => Err(f),
            }
        }
    } else {
        Ok(acc)
    }
}

/// The pairs of an entry's map taken in order, from `acc` on.
pub open spec fn entry_fold(m: Seq<(CborModel, CborModel)>, acc: EntryModel) -> Result<EntryModel, CarFault>
    decreases m.len(),
{
    if m.len() == 0 {
        Ok(acc)
    } else {
        match entry_step(acc, m[0].0, m[0].1) {
            Ok(a) => entry_fold(m.drop_first(), a),
            Err(f) => Err(f),
        }
    }
}

/// The tree entry a CBOR value holds: it must be a map.
pub open spec fn spec_tree_entry(v: CborModel) -> Result<EntryModel, CarFault> {
    match v {
        CborModel::Mapping(m) => entry_fold(m, empty_entry()),
        _ => Err(CarFault::HeaderMsg("Invalid TreeEntry structure"@)),
    }
}

/// An entry of a tree node.
#[derive(Debug)]
pub struct TreeEntry {
    /// Bytes shared with the previous key.
    pub p: u64,
    /// The rest of the key.
    pub k: Vec<u8>,
    /// The record's CID.
    pub v: String,
    /// The CID of the subtree that follows, if any.
    pub t: Option<String>,
}

impl TreeEntry {
    /// The content of this entry.
    pub open spec fn model(&self) -> EntryModel {
        EntryModel { p: self.p, k: self.k@, v: self.v@, t: opt_view(self.t) }
    }
}

/// Reads a tree entry from a CBOR value.
pub fn parse_tree_entry(value: &CborValue) -> (r: Result<TreeEntry, CarError>)
    ensures
        match spec_tree_entry(value.model()) {
            Ok(m) => r matches Ok(e) && e.model() == m,
            Err(f) => r matches Err(e) && e.shows(f),
        },
{
    match value {
        CborValue::Mapping(map) => {
            let ghost ms = pair_models(map@);
            proof {
                assert(ms =~= value.model()->Mapping_0);
                assert(ms.skip(0) =~= ms);
            }
            let mut p: u64 = 0;
            let mut k: Vec<u8> = Vec::new();
            let mut v = String::new();
            let mut t: Option<String> = None;
            let mut i: usize = 0;
            while i < map.len()
                invariant
                    i <= map@.len(),
                    ms == pair_models(map@),
                    value.model() == CborModel::Mapping(ms),
                    entry_fold(ms, empty_entry()) == entry_fold(ms.skip(i as int), EntryModel { p, k: k@, v: v@, t: opt_view(t) }),
                decreases map@.len() - i,
            {
                let pair = &map[i];
                let ghost acc = EntryModel { p, k: k@, v: v@, t: opt_view(t) };
                proof {
                    assert(ms.skip(i as int).drop_first() =~= ms.skip(i + 1));
                    assert(ms.skip(i as int)[0] == (pair.0.model(), pair.1.model()));
                    assert(entry_fold(ms.skip(i as int), acc) == match entry_step(acc, pair.0.model(), pair.1.model()) {
                        Ok(a) => entry_fold(ms.skip(i + 1), a),
                        Err(f) => Err(f),
                    });
                }
                if let CborValue::Text(ks) = &pair.0 {
                    if str_eq(ks, "p") {
                        if let CborValue::Integer(n) = &pair.1 {
                            p = #[verifier::truncate] (*n as u64);
                        }
                    } else if str_eq(ks, "k") {
                        if let CborValue::Bytes(b) = &pair.1 {
                            k = vstd::slice::slice_to_vec(b);
                        }
                    } else if str_eq(ks, "v") {
                        match extract_cid_from_cbor(&pair.1) {
                            Ok(c) => {
                                v = c;
                            },
                            Err(e) => {
                                return Err(e);
                            },
                        }
                    } else if str_eq(ks, "t") {
                        match &pair.1 {
                            CborValue::Null => {},
                            other => {
                                match extract_cid_from_cbor(other) {
                                    Ok(c) => {
                                        t = Some(c);
                                    },
                                    Err(e) => {
                                        return Err(e);
                                    },
                                }
                            },
                        }
                    }
                }
                i = i + 1;
            }
            Ok(TreeEntry { p, k, v, t })
        },
        _ => Err(CarError::InvalidHeader(owned("Invalid TreeEntry structure"))),
    }
}

/// A tree node: the subtree left of its first entry (`l`) and its entries.
pub struct NodeModel {
    pub l: Option<Seq<char>>,
    pub e: Seq<EntryModel>,
}

/// The entries `items` hold, appended to `acc` in order; the first item
/// that is no entry gives the error.
pub open spec fn entries_fold(items: Seq<CborModel>, acc: Seq<EntryModel>) -> Result<Seq<EntryModel>, CarFault>
    decreases items.len(),
{
    if items.len() == 0 {
        Ok(acc)
    } else {
        match spec_tree_entry(items[0]) {
            Ok(e) => entries_fold(items.drop_first(), acc.push(e)),
            Err(f) => Err(f),
        }
    }
}

/// The effect of one key/value pair of a node's map: `l` takes a link
/// unless null, `e` appends the entries of an array; other pairs are passed
/// over.
pub open spec fn node_step(acc: NodeModel, key: CborModel, val: CborModel) -> Result<NodeModel, CarFault> {
    if is_key(key, "l"@) {
        if val is Null {
            Ok(acc)
        } else {
            match spec_cid_of(val) {
                Ok(c) => Ok(NodeModel { l: Some(c), e: acc.e }),
                Err(f) => Err(f),
            }
        }
    } else if is_key(key, "e"@) {
        match val {
            CborModel::Array(items) => match entries_fold(items, acc.e) {
                Ok(es) => Ok(NodeModel { l: acc.l, e: es }),
                Err(f) => Err(f),
            },
            _ => Ok(acc),
        }
    } else {
        Ok(acc)
    }
}

/// The pairs of a node's map taken in order, from `acc` on.
pub open spec fn node_fold(m: Seq<(CborModel, CborModel)>, acc: NodeModel) -> Result<NodeModel, CarFault>
    decreases m.len(),
{
    if m.len() == 0 {
        Ok(acc)
    } else {
        match node_step(acc, m[0].0, m[0].1) {
            Ok(a) => node_fold(m.drop_first(), a),
            Err(f) => Err(f),
        }
    }
}

/// The node held by the block `cid`: the block must be there and decode to
/// a map.
pub open spec fn spec_parse_node(blocks: Map<Seq<char>, Seq<u8>>, cid: Seq<char>) -> Result<NodeModel, CarFault> {
    if !blocks.contains_key(cid) {
        Err(CarFault::HeaderMsg("Node CID not found: "@ + cid))
    } else {
        match spec_read_value(blocks[cid], 0) {
            Ok((CborModel::Mapping(m), _)) => node_fold(m, NodeModel { l: None, e: Seq::empty() }),
            Ok(_) => Err(CarFault::HeaderMsg("Invalid MST node structure"@)),
            Err(f) => Err(nested_fault("Failed to decode MST node: "@, f)),
        }
    }
}

/// The blocks of a map of blocks, as bytes.
pub open spec fn block_bytes(blocks: Map<Seq<char>, Vec<u8>>) -> Map<Seq<char>, Seq<u8>> {
    blocks.map_values(|b: Vec<u8>| b@)
}

/// The contents of a list of tree entries.
pub open spec fn entry_models(es: Seq<TreeEntry>) -> Seq<EntryModel> {
    Seq::new(es.len(), |i: int| es[i].model())
}

/// A tree node read from a block.
#[derive(Debug)]
pub struct NodeData {
    /// The CID of the subtree left of the first entry, if any.
    pub l: Option<String>,
    /// The node's entries, in order.
    pub e: Vec<TreeEntry>,
}

impl NodeData {
    /// The content of this node.
    pub open spec fn model(&self) -> NodeModel {
        NodeModel { l: opt_view(self.l), e: entry_models(self.e@) }
    }
}

/// Appends the tree entries of `items` to `e`; the first item that is no
/// entry gives the error.
fn push_entries(items: &[CborValue], e: &mut Vec<TreeEntry>) -> (r: Result<(), CarError>)
    ensures
        match entries_fold(crate::car::cbor::models(items@), entry_models(old(e)@)) {
            Ok(es) => r is Ok && entry_models(final(e)@) == es,
            Err(f) => r matches Err(x) && x.shows(f),
        },
{
    let ghost ms = crate::car::cbor::models(items@);
    let ghost e0 = entry_models(e@);
    assert(ms.skip(0) =~= ms);
    let mut j: usize = 0;
    while j < items.len()
        invariant
            j <= items@.len(),
            ms == crate::car::cbor::models(items@),
            e0 == entry_models(old(e)@),
            entries_fold(ms, e0) == entries_fold(ms.skip(j as int), entry_models(e@)),
        decreases items@.len() - j,
    {
        assert(ms.skip(j as int).drop_first() =~= ms.skip(j + 1));
        assert(ms.skip(j as int)[0] == items@[j as int].model());
        match parse_tree_entry(&items[j]) {
            Ok(te) => {
                let ghost before = e@;
                e.push(te);
                assert(entry_models(e@) =~= entry_models(before).push(te.model()));
            },
            Err(x) => {
                return Err(x);
            },
        }
        j = j + 1;
    }
    Ok(())
}

/// Reads the tree node stored under `cid`.
pub fn parse_mst_node(blocks: &TextMap<Vec<u8>>, cid: &str) -> (r: Result<NodeData, CarError>)
    requires
        blocks.wf(),
    ensures
        match spec_parse_node(block_bytes(blocks@), cid@) {
            Ok(n) => r matches Ok(d) && d.model() == n,
            Err(f) => r matches Err(e) && e.shows(f),
        },
{
    let bytes = match blocks.get(cid) {
        Some(b) => b,
        None => {
            return Err(CarError::header_with("Node CID not found: ", owned(cid)));
        },
    };
    let value = match decode_cbor(bytes.as_slice()) {
        Ok(v) => v,
        Err(e) => {
            proof {
                if let Err(f) = spec_read_value(bytes@, 0) {
                    lemma_shown_message(e, f);
                }
            }
            return Err(CarError::header_with("Failed to decode MST node: ", e.message()));
        },
    };
    let ghost vm = value.model();
    assert(block_bytes(blocks@)[cid@] == bytes@);
    match value {
        CborValue::Mapping(map) => {
            let ghost ms = pair_models(map@);
            proof {
                assert(ms.skip(0) =~= ms);
                assert(vm == CborModel::Mapping(ms)) by {
                    assert(vm->Mapping_0 =~= ms);
                }
            }
            let mut l: Option<String> = None;
            let mut e: Vec<TreeEntry> = Vec::new();
            assert(entry_models(e@) =~= Seq::<EntryModel>::empty());
            let mut i: usize = 0;
            while i < map.len()
                invariant
                    i <= map@.len(),
                    ms == pair_models(map@),
                    spec_parse_node(block_bytes(blocks@), cid@) == node_fold(ms.skip(i as int), NodeModel { l: opt_view(l), e: entry_models(e@) }),
                decreases map@.len() - i,
            {
                let pair = &map[i];
                let ghost acc = NodeModel { l: opt_view(l), e: entry_models(e@) };
                proof {
                    assert(ms.skip(i as int).drop_first() =~= ms.skip(i + 1));
                    assert(ms.skip(i as int)[0] == (pair.0.model(), pair.1.model()));
                }
                if let CborValue::Text(ks) = &pair.0 {
                    if str_eq(ks, "l") {
                        match &pair.1 {
                            CborValue::Null => {},
                            other => {
                                match extract_cid_from_cbor(other) {
                                    Ok(c) => {
                                        l = Some(c);
                                    },
                                    Err(x) => {
                                        return Err(x);
                                    },
                                }
                            },
                        }
                    } else if str_eq(ks, "e") {
                        if let CborValue::Array(items) = &pair.1 {
                            proof {
                                assert(crate::car::cbor::models(items@) =~= pair.1.model()->Array_0);
                            }
                            match push_entries(items.as_slice(), &mut e) {
                                Ok(()) => {},
                                Err(x) => {
                                    return Err(x);
                                },
                            }
                        }
                    }
                }
                i = i + 1;
            }
            Ok(NodeData { l, e })
        },
        _ => Err(CarError::InvalidHeader(owned("Invalid MST node structure"))),
    }
}

/// The CID the `data` field of the commit block `cid` links to: the block
/// must be there and decode to a map whose first `data` entry is a link.
pub open spec fn spec_commit_data(blocks: Map<Seq<char>, Seq<u8>>, cid: Seq<char>) -> Result<Seq<char>, CarFault> {
    if !blocks.contains_key(cid) {
        Err(CarFault::HeaderMsg("Commit CID not found: "@ + cid))
    } else {
        match spec_read_value(blocks[cid], 0) {
            Ok((CborModel::Mapping(m), _)) => match first_value(m, "data"@) {
                Some(v) => spec_cid_of(v),
                None => Err(CarFault::HeaderMsg("Invalid commit structure"@)),
            },
            Ok(_) => Err(CarFault::HeaderMsg("Invalid commit structure"@)),
            Err(f) => Err(nested_fault("Failed to decode commit: "@, f)),
        }
    }
}

/// Reads the commit block `commit_cid` and gives the CID of the tree's root.
pub fn parse_commit(blocks: &TextMap<Vec<u8>>, commit_cid: &str) -> (r: Result<String, CarError>)
    requires
        blocks.wf(),
    ensures
        match spec_commit_data(block_bytes(blocks@), commit_cid@) {
            Ok(c) => r matches Ok(s) && s@ == c,
            Err(f) => r matches Err(e) && e.shows(f),
        },
{
    let bytes = match blocks.get(commit_cid) {
        Some(b) => b,
        None => {
            return Err(CarError::header_with("Commit CID not found: ", owned(commit_cid)));
        },
    };
    let value = match decode_cbor(bytes.as_slice()) {
        Ok(v) => v,
        Err(e) => {
            proof {
                if let Err(f) = spec_read_value(bytes@, 0) {
                    lemma_shown_message(e, f);
                }
            }
            return Err(CarError::header_with("Failed to decode commit: ", e.message()));
        },
    };
    let ghost vm = value.model();
    assert(block_bytes(blocks@)[commit_cid@] == bytes@);
    if let CborValue::Mapping(map) = &value {
        assert(vm->Mapping_0 =~= pair_models(map@));
        if let Some(j) = find_key(map.as_slice(), "data") {
            return extract_cid_from_cbor(&map[j].1);
        }
    }
    Err(CarError::InvalidHeader(owned("Invalid commit structure")))
}

/// The collection of a record key `collection/rkey`: the text before its
/// first `/`, if it has one.
pub open spec fn key_collection(key: Seq<char>) -> Option<Seq<char>> {
    match find_from(key, seq!['/'], 0) {
        Some(i) => Some(key.take(i)),
        None => None,
    }
}

/// The texts of a map's values.
pub open spec fn text_values(m: Map<Seq<char>, String>) -> Map<Seq<char>, Seq<char>> {
    m.map_values(|s: String| s@)
}

/// Walks the tree from the node `cid`, adding to `acc`, for every entry
/// whose key lies in `coll`, its record's CID mapped to its key. The left
/// subtree comes first, then each entry followed by its subtree. Every
/// step down uses one unit of `fuel`; none left is an error.
pub open spec fn spec_walk(
    blocks: Map<Seq<char>, Seq<u8>>,
    cid: Seq<char>,
    coll: Seq<char>,
    acc: Map<Seq<char>, Seq<char>>,
    fuel: nat,
) -> Result<Map<Seq<char>, Seq<char>>, CarFault>
    decreases fuel, 1int, 0int,
{
    if fuel == 0 {
        Err(CarFault::HeaderMsg("Tree is nested too deeply"@))
    } else {
        match spec_parse_node(blocks, cid) {
            Err(f) => Err(f),
            Ok(node) => {
                let left = match node.l {
                    Some(l) => spec_walk(blocks, l, coll, acc, (fuel - 1) as nat),
                    None => Ok(acc),
                };
                match left {
                    Err(f) => Err(f),
                    Ok(a) => spec_walk_entries(blocks, node.e, 0, Seq::empty(), coll, a, fuel),
                }
            },
        }
    }
}

/// Walks the entries of a node from the `i`th on; `last` holds the bytes of
/// the previous entry's key. An entry's key is the first `p` bytes of the
/// previous key followed by its own bytes; a prefix longer than the previous
/// key, or bytes that are not UTF-8 text, are an error.
pub open spec fn spec_walk_entries(
    blocks: Map<Seq<char>, Seq<u8>>,
    es: Seq<EntryModel>,
    i: int,
    last: Seq<u8>,
    coll: Seq<char>,
    acc: Map<Seq<char>, Seq<char>>,
    fuel: nat,
) -> Result<Map<Seq<char>, Seq<char>>, CarFault>
    decreases fuel, 0int, es.len() - i,
{
    if i < 0 || i >= es.len() {
        Ok(acc)
    } else {
        let e = es[i];
        let p = (e.p as usize) as int;
        if p > last.len() {
            Err(CarFault::HeaderMsg("Invalid prefix length: "@ + crate::text::decimal(e.p as nat) + " > "@ + crate::text::decimal(last.len())))
        } else if !valid_utf8(e.k) || !valid_utf8(last.take(p)) {
            Err(CarFault::Header)
        } else {
            let key = decode_utf8(last.take(p)) + decode_utf8(e.k);
            let acc1 = if key_collection(key) == Some(coll) {
                acc.insert(e.v, key)
            } else {
                acc
            };
            let next = match e.t {
                Some(t) => if fuel == 0 {
                    Err(CarFault::HeaderMsg("Tree is nested too deeply"@))
                } else {
                    spec_walk(blocks, t, coll, acc1, (fuel - 1) as nat)
                },
                None => Ok(acc1),
            };
            match next {
                Err(f) => Err(f),
                Ok(a) => spec_walk_entries(blocks, es, i + 1, last.take(p) + e.k, coll, a, fuel),
            }
        }
    }
}

/// `key` is `coll`, a `/` and the rest, with no `/` in `coll`: read up to
/// its first `/`, the key's collection is exactly `coll`.
pub open spec fn key_in_collection(key: Seq<char>, coll: Seq<char>) -> bool {
    &&& key.len() > coll.len()
    &&& key.take(coll.len() as int) == coll
    &&& key[coll.len() as int] == '/'
    &&& forall|j: int| 0 <= j < coll.len() ==> coll[j] != '/'
}

/// Every key in the mapping lies in collection `coll`.
pub open spec fn all_in_collection(m: Map<Seq<char>, Seq<char>>, coll: Seq<char>) -> bool {
    forall|v: Seq<char>| #[trigger] m.dom().contains(v) ==> key_in_collection(m[v], coll)
}

/// The first `/` at or after `i` is at the position found, and none comes
/// before it.
proof fn lemma_first_slash(s: Seq<char>, i: int)
    requires
        0 <= i,
    ensures
        find_from(s, seq!['/'], i) matches Some(k) ==> i <= k < s.len() && s[k] == '/' && forall|j: int|
            i <= j < k ==> s[j] != '/',
    decreases s.len() + 1 - i,
{
    if i + 1 <= s.len() {
        if occurs_at(s, seq!['/'], i) {
            assert(s.subrange(i, i + 1)[0] == s[i]);
        } else {
            if s[i] == '/' {
                assert(s.subrange(i, i + 1) =~= seq!['/']);
            }
            lemma_first_slash(s, i + 1);
        }
    }
}

/// A key whose collection is `coll` lies in `coll`.
proof fn lemma_key_collection(key: Seq<char>, coll: Seq<char>)
    requires
        key_collection(key) == Some(coll),
    ensures
        key_in_collection(key, coll),
{
    lemma_first_slash(key, 0);
    let k = find_from(key, seq!['/'], 0)->Some_0;
    assert(coll == key.take(k));
    assert forall|j: int| 0 <= j < coll.len() implies coll[j] != '/' by {
        assert(coll[j] == key[j]);
    }
}

/// A walk only adds keys of its collection.
proof fn lemma_walk_in_collection(
    blocks: Map<Seq<char>, Seq<u8>>,
    cid: Seq<char>,
    coll: Seq<char>,
    acc: Map<Seq<char>, Seq<char>>,
    fuel: nat,
)
    requires
        all_in_collection(acc, coll),
    ensures
        spec_walk(blocks, cid, coll, acc, fuel) matches Ok(m) ==> all_in_collection(m, coll),
    decreases fuel, 1int, 0int,
{
    if fuel > 0 {
        if let Ok(node) = spec_parse_node(blocks, cid) {
            if let Some(l) = node.l {
                lemma_walk_in_collection(blocks, l, coll, acc, (fuel - 1) as nat);
            }
            let left = match node.l {
                Some(l) => spec_walk(blocks, l, coll, acc, (fuel - 1) as nat),
                None => Ok(acc),
            };
            if let Ok(a) = left {
                lemma_walk_entries_in_collection(blocks, node.e, 0, Seq::empty(), coll, a, fuel);
            }
        }
    }
}

/// Walking a node's entries only adds keys of the collection.
proof fn lemma_walk_entries_in_collection(
    blocks: Map<Seq<char>, Seq<u8>>,
    es: Seq<EntryModel>,
    i: int,
    last: Seq<u8>,
    coll: Seq<char>,
    acc: Map<Seq<char>, Seq<char>>,
    fuel: nat,
)
    requires
        all_in_collection(acc, coll),
    ensures
        spec_walk_entries(blocks, es, i, last, coll, acc, fuel) matches Ok(m) ==> all_in_collection(m, coll),
    decreases fuel, 0int, es.len() - i,
{
    if 0 <= i < es.len() {
        let e = es[i];
        let p = (e.p as usize) as int;
        if p <= last.len() && valid_utf8(e.k) && valid_utf8(last.take(p)) {
            let key = decode_utf8(last.take(p)) + decode_utf8(e.k);
            let acc1 = if key_collection(key) == Some(coll) {
                acc.insert(e.v, key)
            } else {
                acc
            };
            if key_collection(key) == Some(coll) {
                lemma_key_collection(key, coll);
                assert forall|v: Seq<char>| #[trigger] acc1.dom().contains(v) implies key_in_collection(acc1[v], coll) by {
                    if v != e.v {
                        assert(acc.dom().contains(v));
                    }
                }
            }
            if let Some(t) = e.t {
                if fuel > 0 {
                    lemma_walk_in_collection(blocks, t, coll, acc1, (fuel - 1) as nat);
                }
            }
            let next = match e.t {
                Some(t) => if fuel == 0 {
                    Err(CarFault::HeaderMsg("Tree is nested too deeply"@))
                } else {
                    spec_walk(blocks, t, coll, acc1, (fuel - 1) as nat)
                },
                None => Ok(acc1),
            };
            if let Ok(a) = next {
                lemma_walk_entries_in_collection(blocks, es, i + 1, last.take(p) + e.k, coll, a, fuel);
            }
        }
    }
}

/// The mapping of a repository archive holds only records of the collection
/// asked for: every key in it is the collection, a `/` and the record key,
/// so a key of another collection, even one whose name extends the asked
/// one, never appears.
pub proof fn law_mapping_keys_in_collection(car: Seq<u8>, coll: Seq<char>)
    ensures
        spec_rkey_mapping(car, coll) matches Ok(m) ==> all_in_collection(m, coll),
{
    if let Ok((h, n)) = spec_read_header(car) {
        if h.1.len() != 0 {
            if let Ok(es) = spec_entries(car, n as int) {
                let blocks = block_map(es);
                if let Ok(root) = spec_data_root(blocks, cid_text(h.1[0])) {
                    lemma_walk_in_collection(blocks, root, coll, Map::empty(), walk_fuel(blocks.dom().len()));
                }
            }
        }
    }
}

/// Walks the tree from the node `cid` with `fuel` levels to go, adding the
/// records of collection `coll` to `mappings`.
fn walk_node(blocks: &TextMap<Vec<u8>>, cid: &str, coll: &str, mappings: &mut TextMap<String>, fuel: usize) -> (r: Result<(), CarError>)
    requires
        blocks.wf(),
        old(mappings).wf(),
    ensures
        final(mappings).wf(),
        match spec_walk(block_bytes(blocks@), cid@, coll@, text_values(old(mappings)@), fuel as nat) {
            Ok(m) => r is Ok && text_values(final(mappings)@) == m,
            Err(f) => r matches Err(e) && e.shows(f),
        },
    decreases fuel,
{
    if fuel == 0 {
        return Err(CarError::InvalidHeader(owned("Tree is nested too deeply")));
    }
    let node = match parse_mst_node(blocks, cid) {
        Ok(n) => n,
        Err(e) => {
            return Err(e);
        },
    };
    let ghost nm = node.model();
    let ghost bb = block_bytes(blocks@);
    let ghost acc0 = text_values(mappings@);
    match &node.l {
        Some(left) => match walk_node(blocks, left.as_str(), coll, mappings, fuel - 1) {
            Ok(()) => {},
            Err(e) => {
                return Err(e);
            },
        },
        None => {},
    }
    assert(spec_walk(bb, cid@, coll@, acc0, fuel as nat)
        == spec_walk_entries(bb, nm.e, 0, Seq::empty(), coll@, text_values(mappings@), fuel as nat));
    let slash: Vec<char> = vec!['/'];
    let mut last: Vec<u8> = Vec::new();
    let mut i: usize = 0;
    while i < node.e.len()
        invariant
            blocks.wf(),
            mappings.wf(),
            i <= node.e@.len(),
            nm == node.model(),
            bb == block_bytes(blocks@),
            acc0 == text_values(old(mappings)@),
            fuel > 0,
            slash@ == seq!['/'],
            spec_walk(bb, cid@, coll@, acc0, fuel as nat)
                == spec_walk_entries(bb, nm.e, i as int, last@, coll@, text_values(mappings@), fuel as nat),
        decreases node.e@.len() - i,
    {
        let entry = &node.e[i];
        let ghost acc = text_values(mappings@);
        assert(nm.e[i as int] == entry.model());
        let prefix_len = #[verifier::truncate] (entry.p as usize);
        if prefix_len > last.len() {
            let mut msg = owned("Invalid prefix length: ");
            push_decimal(&mut msg, entry.p);
            push_str(&mut msg, " > ");
            push_decimal(&mut msg, last.len() as u64);
            return Err(CarError::InvalidHeader(msg));
        }
        let suffix = match utf8_str(entry.k.as_slice()) {
            Ok(t) => t,
            Err(e) => {
                return Err(CarError::header_with("Invalid UTF-8 in key: ", crate::car::error::utf8_error_text(&e)));
            },
        };
        let prefix_bytes = &last[0..prefix_len];
        assert(prefix_bytes@ =~= last@.take(prefix_len as int));
        let prefix = match utf8_str(prefix_bytes) {
            Ok(t) => t,
            Err(e) => {
                return Err(CarError::header_with("Key prefix splits a character: ", crate::car::error::utf8_error_text(&e)));
            },
        };
        let mut key = owned(prefix);
        push_str(&mut key, suffix);
        let mut key_bytes = vstd::slice::slice_to_vec(prefix_bytes);
        let mut rest = vstd::slice::slice_to_vec(entry.k.as_slice());
        key_bytes.append(&mut rest);
        let kchars = chars_of(key.as_str());
        match chars_find_from(kchars.as_slice(), slash.as_slice(), 0) {
            Some(pos) => {
                let head = string_from_chars(&kchars[0..pos]);
                assert(head@ =~= key@.take(pos as int));
                if str_eq(head.as_str(), coll) {
                    let ghost before = mappings@;
                    mappings.insert(entry.v.clone(), key.clone());
                    assert(text_values(mappings@) =~= acc.insert(entry.v@, key@));
                }
            },
            None => {},
        }
        match &entry.t {
            Some(t) => match walk_node(blocks, t.as_str(), coll, mappings, fuel - 1) {
                Ok(()) => {},
                Err(e) => {
                    return Err(e);
                },
            },
            None => {},
        }
        last = key_bytes;
        i = i + 1;
    }
    Ok(())
}

/// The number of levels a walk over `n` blocks may go down: one more than
/// the blocks, so that any tree whose nodes are all among them is walked
/// through.
pub open spec fn walk_fuel(n: nat) -> nat {
    if n < usize::MAX {
        n + 1
    } else {
        n
    }
}

/// Walks the tree from the node `node_cid`, adding to `mappings`, for every
/// record of collection `collection_filter`, its CID mapped to its
/// `collection/rkey` key.
pub fn walk_mst(cid_map: &TextMap<Vec<u8>>, node_cid: &str, collection_filter: &str, mappings: &mut TextMap<String>) -> (r: Result<(), CarError>)
    requires
        cid_map.wf(),
        old(mappings).wf(),
    ensures
        final(mappings).wf(),
        match spec_walk(block_bytes(cid_map@), node_cid@, collection_filter@, text_values(old(mappings)@), walk_fuel(cid_map@.dom().len())) {
            Ok(m) => r is Ok && text_values(final(mappings)@) == m,
            Err(f) => r matches Err(e) && e.shows(f),
        },
        all_in_collection(text_values(old(mappings)@), collection_filter@) && r is Ok ==> all_in_collection(
            text_values(final(mappings)@),
            collection_filter@,
        ),
{
    let n = cid_map.len();
    let fuel = if n < usize::MAX { n + 1 } else { n };
    proof {
        if all_in_collection(text_values(old(mappings)@), collection_filter@) {
            lemma_walk_in_collection(block_bytes(cid_map@), node_cid@, collection_filter@, text_values(old(mappings)@), fuel as nat);
        }
    }
    walk_node(cid_map, node_cid, collection_filter, mappings, fuel)
}

/// Whether node `n` links to `r`, as its left subtree or as the subtree of
/// one of its entries.
pub open spec fn node_refers(n: NodeModel, r: Seq<char>) -> bool {
    n.l == Some(r) || exists|i: int| 0 <= i < n.e.len() && (#[trigger] n.e[i]).t == Some(r)
}

/// Whether block `c` is a tree node that no tree node links to.
pub open spec fn is_root_candidate(blocks: Map<Seq<char>, Seq<u8>>, c: Seq<char>) -> bool {
    &&& spec_parse_node(blocks, c) is Ok
    &&& !exists|c2: Seq<char>| #[trigger] spec_parse_node(blocks, c2) is Ok && node_refers(spec_parse_node(blocks, c2)->Ok_0, c)
}

/// The tree nodes that no tree node links to.
pub open spec fn root_candidates(blocks: Map<Seq<char>, Seq<u8>>) -> Set<Seq<char>> {
    Set::new(|c: Seq<char>| is_root_candidate(blocks, c))
}

/// The root of the tree, found as the one node nothing links to; none when
/// there is no such node or more than one.
pub open spec fn spec_detect_root(blocks: Map<Seq<char>, Seq<u8>>) -> Option<Seq<char>> {
    let c = root_candidates(blocks);
    if c.finite() && c.len() == 1 {
        Some(c.choose())
    } else {
        None
    }
}

/// The texts of a list of strings.
pub open spec fn string_views(v: Seq<String>) -> Seq<Seq<char>> {
    v.map_values(|s: String| s@)
}

/// Whether `node` links to `c`.
fn refers_to(node: &NodeData, c: &str) -> (b: bool)
    ensures
        b == node_refers(node.model(), c@),
{
    if let Some(l) = &node.l {
        if str_eq(l.as_str(), c) {
            return true;
        }
    }
    let ghost nm = node.model();
    let mut j: usize = 0;
    while j < node.e.len()
        invariant
            j <= node.e@.len(),
            nm == node.model(),
            nm.l != Some(c@),
            forall|q: int| 0 <= q < j ==> (#[trigger] nm.e[q]).t != Some(c@),
        decreases node.e@.len() - j,
    {
        assert(nm.e[j as int] == node.e@[j as int].model());
        if let Some(t) = &node.e[j].t {
            if str_eq(t.as_str(), c) {
                return true;
            }
        }
        j = j + 1;
    }
    false
}

/// Every key's block has been read: `parsed[k]` holds the node of block
/// `keys[k]`, or nothing where that block is no node.
pub open spec fn parsed_all(bb: Map<Seq<char>, Seq<u8>>, keys: Seq<String>, parsed: Seq<Option<NodeData>>) -> bool {
    &&& parsed.len() == keys.len()
    &&& forall|k: int| 0 <= k < keys.len() ==> match spec_parse_node(bb, (#[trigger] keys[k])@) {
        Ok(m) => parsed[k] matches Some(d) && d.model() == m,
        Err(_) => parsed[k] is None,
    }
}

/// Every block of `bb` is named by one of `keys`.
pub open spec fn keys_cover(bb: Map<Seq<char>, Seq<u8>>, keys: Seq<String>) -> bool {
    forall|x: Seq<char>| #[trigger] bb.contains_key(x) ==> exists|k: int| 0 <= k < keys.len() && (#[trigger] keys[k])@ == x
}

/// Whether block `keys[i]` is a node that no node links to.
fn candidate_at(parsed: &Vec<Option<NodeData>>, keys: &Vec<String>, i: usize, Ghost(bb): Ghost<Map<Seq<char>, Seq<u8>>>) -> (b: bool)
    requires
        parsed_all(bb, keys@, parsed@),
        keys_cover(bb, keys@),
        i < keys@.len(),
    ensures
        b == is_root_candidate(bb, keys@[i as int]@),
{
    let ghost c = keys@[i as int]@;
    if parsed[i].is_none() {
        return false;
    }
    let n = keys.len();
    let mut k: usize = 0;
    while k < n
        invariant
            n == keys@.len(),
            parsed_all(bb, keys@, parsed@),
            i < n,
            c == keys@[i as int]@,
            k <= n,
            spec_parse_node(bb, c) is Ok,
            forall|q: int| 0 <= q < k ==> !(#[trigger] parsed@[q] matches Some(d) && node_refers(d.model(), c)),
        decreases n - k,
    {
        if let Some(d) = &parsed[k] {
            if refers_to(d, keys[i].as_str()) {
                proof {
                    let c2 = keys@[k as int]@;
                    assert(spec_parse_node(bb, c2) is Ok && node_refers(spec_parse_node(bb, c2)->Ok_0, c));
                }
                return false;
            }
        }
        k = k + 1;
    }
    proof {
        assert forall|c2: Seq<char>| #[trigger] spec_parse_node(bb, c2) is Ok
            implies !node_refers(spec_parse_node(bb, c2)->Ok_0, c) by {
            assert(bb.contains_key(c2));
            let q = choose|q: int| 0 <= q < keys@.len() && (#[trigger] keys@[q])@ == c2;
            assert(parsed@[q] matches Some(d) && !node_refers(d.model(), c));
        }
    }
    true
}

/// Adding the next key to a list of the keys so far that meet `pred`, when
/// it meets `pred` too, gives the list of the keys one further that meet it.
proof fn lemma_filter_step(
    cv: Seq<Seq<char>>,
    ks: Seq<Seq<char>>,
    i: int,
    pred: spec_fn(Seq<char>) -> bool,
    cv2: Seq<Seq<char>>,
)
    requires
        0 <= i < ks.len(),
        ks.no_duplicates(),
        cv.no_duplicates(),
        cv.to_set() == ks.take(i).to_set().filter(pred),
        cv2 == if pred(ks[i]) { cv.push(ks[i]) } else { cv },
    ensures
        cv2.no_duplicates(),
        cv2.to_set() == ks.take(i + 1).to_set().filter(pred),
{
    let c = ks[i];
    let t0 = ks.take(i);
    let t1 = ks.take(i + 1);
    assert(t1 =~= t0.push(c));
    assert(!t0.contains(c)) by {
        if t0.contains(c) {
            let j = choose|j: int| 0 <= j < i && #[trigger] t0[j] == c;
            assert(ks[j] == c);
        }
    }
    assert forall|x: Seq<char>| t1.contains(x) <==> (t0.contains(x) || x == c) by {
        if t1.contains(x) && x != c {
            let j = choose|j: int| 0 <= j < i + 1 && #[trigger] t1[j] == x;
            assert(t0[j] == x);
        }
        if t0.contains(x) {
            let j = choose|j: int| 0 <= j < i && #[trigger] t0[j] == x;
            assert(t1[j] == x);
        }
        if x == c {
            assert(t1[i] == x);
        }
    }
    if pred(c) {
        assert(!cv.contains(c)) by {
            if cv.contains(c) {
                assert(cv.to_set().contains(c));
            }
        }
        assert forall|a: int, b: int| 0 <= a < b < cv2.len() implies cv2[a] != cv2[b] by {
            if b == cv.len() {
                assert(cv.contains(cv[a]));
            }
        }
        assert forall|x: Seq<char>| cv2.contains(x) <==> cv.contains(x) || x == c by {
            if cv2.contains(x) && x != c {
                let j = choose|j: int| 0 <= j < cv2.len() && #[trigger] cv2[j] == x;
                assert(cv[j] == x);
            }
            if cv.contains(x) {
                let j = choose|j: int| 0 <= j < cv.len() && #[trigger] cv[j] == x;
                assert(cv2[j] == x);
            }
            if x == c {
                assert(cv2[cv.len() as int] == x);
            }
        }
        assert(cv2.to_set() =~= t1.to_set().filter(pred)) by {
            assert forall|x: Seq<char>| cv2.to_set().contains(x) <==> t1.to_set().filter(pred).contains(x) by {
                assert(cv.to_set().contains(x) == t0.to_set().filter(pred).contains(x));
            }
        }
    } else {
        assert(cv2.to_set() =~= t1.to_set().filter(pred)) by {
            assert forall|x: Seq<char>| cv2.to_set().contains(x) <==> t1.to_set().filter(pred).contains(x) by {
                assert(cv.to_set().contains(x) == t0.to_set().filter(pred).contains(x));
            }
        }
    }
}

/// Finds the root of the tree as the one node that no node links to.
pub fn detect_mst_root(cid_map: &TextMap<Vec<u8>>) -> (r: Option<String>)
    requires
        cid_map.wf(),
    ensures
        match spec_detect_root(block_bytes(cid_map@)) {
            Some(c) => r matches Some(s) && s@ == c,
            None => r is None,
        },
{
    let ghost bb = block_bytes(cid_map@);
    let keys = cid_map.keys();
    let n = keys.len();
    let ghost ks = string_views(keys@);
    proof {
        assert forall|x: Seq<char>| #[trigger] bb.contains_key(x) implies exists|k: int| 0 <= k < keys@.len() && (#[trigger] keys@[k])@ == x by {
            assert(cid_map@.contains_key(x));
        }
        assert forall|a: int, b: int| 0 <= a < b < ks.len() implies ks[a] != ks[b] by {
            assert(keys@[a]@ != keys@[b]@);
        }
    }
    let mut parsed: Vec<Option<NodeData>> = Vec::new();
    let mut i: usize = 0;
    while i < n
        invariant
            n == keys@.len(),
            cid_map.wf(),
            bb == block_bytes(cid_map@),
            i <= n,
            parsed@.len() == i,
            forall|k: int| 0 <= k < i ==> match spec_parse_node(bb, (#[trigger] keys@[k])@) {
                Ok(m) => parsed@[k] matches Some(d) && d.model() == m,
                Err(_) => parsed@[k] is None,
            },
        decreases n - i,
    {
        let p = match parse_mst_node(cid_map, keys[i].as_str()) {
            Ok(node) => Some(node),
            Err(_) => None,
        };
        parsed.push(p);
        i = i + 1;
    }
    let ghost pred = |x: Seq<char>| is_root_candidate(bb, x);
    let mut cands: Vec<String> = Vec::new();
    assert(string_views(cands@).to_set() =~= ks.take(0).to_set().filter(pred));
    let mut i: usize = 0;
    while i < n
        invariant
            n == keys@.len(),
            ks == string_views(keys@),
            ks.no_duplicates(),
            parsed_all(bb, keys@, parsed@),
            keys_cover(bb, keys@),
            pred == (|x: Seq<char>| is_root_candidate(bb, x)),
            i <= n,
            string_views(cands@).no_duplicates(),
            string_views(cands@).to_set() == ks.take(i as int).to_set().filter(pred),
        decreases n - i,
    {
        let is_cand = candidate_at(&parsed, &keys, i, Ghost(bb));
        let ghost before = string_views(cands@);
        if is_cand {
            cands.push(keys[i].clone());
        }
        proof {
            let after = string_views(cands@);
            assert(pred(ks[i as int]) == is_cand);
            if is_cand {
                assert(after =~= before.push(ks[i as int]));
            } else {
                assert(after =~= before);
            }
            lemma_filter_step(before, ks, i as int, pred, after);
        }
        i = i + 1;
    }
    proof {
        let cv = string_views(cands@);
        assert(ks.take(n as int) =~= ks);
        assert(cv.to_set() =~= root_candidates(bb)) by {
            assert forall|x: Seq<char>| cv.to_set().contains(x) <==> #[trigger] root_candidates(bb).contains(x) by {
                if is_root_candidate(bb, x) {
                    assert(bb.contains_key(x));
                    let k = choose|k: int| 0 <= k < keys@.len() && (#[trigger] keys@[k])@ == x;
                    assert(ks[k] == x);
                }
            }
        }
        cv.unique_seq_to_set();
        vstd::seq_lib::seq_to_set_is_finite(cv);
    }
    if cands.len() == 1 {
        proof {
            let cv = string_views(cands@);
            let rc = root_candidates(bb);
            assert(cv.to_set() =~= set![cv[0]]) by {
                assert(cv.contains(cv[0]));
            }
            assert(rc.contains(rc.choose()));
            assert(rc.choose() == cv[0]);
            assert(cv[0] == cands@[0]@);
        }
        cands.pop()
    } else {
        None
    }
}

/// The blocks of a list of CAR blocks, keyed by the text of their CIDs; a
/// later block under the same CID replaces an earlier one.
pub open spec fn block_map(es: Seq<(CidModel, Seq<u8>)>) -> Map<Seq<char>, Seq<u8>>
    decreases es.len(),
{
    if es.len() == 0 {
        Map::empty()
    } else {
        block_map(es.drop_last()).insert(cid_text(es.last().0), es.last().1)
    }
}

/// The root of the record tree of a repository whose commit is `commit`:
/// the commit's `data` link; failing that the commit block itself, when it
/// is a tree node; failing that the one node nothing links to. With none of
/// these, the commit's error.
pub open spec fn spec_data_root(blocks: Map<Seq<char>, Seq<u8>>, commit: Seq<char>) -> Result<Seq<char>, CarFault> {
    match spec_commit_data(blocks, commit) {
        Ok(c) => Ok(c),
        Err(f) => if spec_parse_node(blocks, commit) is Ok {
            Ok(commit)
        } else {
            match spec_detect_root(blocks) {
                Some(r) => Ok(r),
                None => Err(f),
            }
        },
    }
}

/// The records of collection `coll` in the repository archive `car`, each
/// record's CID mapped to its `collection/rkey` key: the header's first
/// root is the commit, every block is read, and the tree under the commit's
/// data root is walked.
pub open spec fn spec_rkey_mapping(car: Seq<u8>, coll: Seq<char>) -> Result<Map<Seq<char>, Seq<char>>, CarFault> {
    match spec_read_header(car) {
        Err(f) => Err(f),
        Ok((h, n)) => if h.1.len() == 0 {
            Err(CarFault::HeaderMsg("Missing root CID in CAR header"@))
        } else {
            match spec_entries(car, n as int) {
                Err(f) => Err(f),
                Ok(es) => {
                    let blocks = block_map(es);
                    match spec_data_root(blocks, cid_text(h.1[0])) {
                        Err(f) => Err(f),
                        Ok(root) => spec_walk(blocks, root, coll, Map::empty(), walk_fuel(blocks.dom().len())),
                    }
                },
            }
        },
    }
}

/// Maps the CID of every record of collection `collection` in the
/// repository archive `car_bytes` to its `collection/rkey` key.
pub fn extract_cid_to_rkey_mapping(car_bytes: &[u8], collection: &str) -> (r: Result<TextMap<String>, CarError>)
    ensures
        match spec_rkey_mapping(car_bytes@, collection@) {
            Ok(m) => r matches Ok(t) && t.wf() && text_values(t@) == m,
            Err(f) => r matches Err(e) && e.shows(f),
        },
        r matches Ok(t) ==> all_in_collection(text_values(t@), collection@),
{
    proof {
        law_mapping_keys_in_collection(car_bytes@, collection@);
    }
    let reader = match SyncCarReader::from_bytes(car_bytes) {
        Ok(cr) => cr,
        Err(e) => {
            return Err(e);
        },
    };
    let ghost hm = header_model(reader.header_value());
    let header = reader.header();
    if header.roots.len() == 0 {
        return Err(CarError::InvalidHeader(owned("Missing root CID in CAR header")));
    }
    let commit = format_cid_simple(&header.roots[0]);
    assert(commit@ == cid_text(hm.1[0]));
    let entries = match reader.collect() {
        Ok(v) => v,
        Err(e) => {
            return Err(e);
        },
    };
    let ghost es = match spec_entries(car_bytes@, spec_read_header(car_bytes@)->Ok_0.1 as int) {
        Ok(es) => es,
        Err(_) => Seq::empty(),
    };
    let mut blocks: TextMap<Vec<u8>> = TextMap::new();
    let mut i: usize = 0;
    assert(es.take(0) =~= Seq::<(CidModel, Seq<u8>)>::empty());
    assert(block_bytes(blocks@) =~= block_map(es.take(0)));
    while i < entries.len()
        invariant
            i <= entries@.len(),
            entries@.len() == es.len(),
            forall|q: int| 0 <= q < es.len() ==> entry_matches(Ok(#[trigger] entries@[q]), Ok(es[q])),
            blocks.wf(),
            block_bytes(blocks@) == block_map(es.take(i as int)),
        decreases entries@.len() - i,
    {
        let entry = &entries[i];
        assert(entry_matches(Ok(entries@[i as int]), Ok(es[i as int])));
        let key = format_cid_simple(&entry.cid);
        let bytes = vstd::slice::slice_to_vec(entry.bytes.as_slice());
        let ghost before = blocks@;
        blocks.insert(key, bytes);
        proof {
            assert(es.take(i + 1).drop_last() =~= es.take(i as int));
            assert(block_bytes(blocks@) =~= block_bytes(before).insert(key@, bytes@));
        }
        i = i + 1;
    }
    assert(es.take(entries@.len() as int) =~= es);
    let ghost bb = block_bytes(blocks@);
    let data_cid = match parse_commit(&blocks, commit.as_str()) {
        Ok(c) => c,
        Err(e) => {
            if parse_mst_node(&blocks, commit.as_str()).is_ok() {
                commit
            } else {
                match detect_mst_root(&blocks) {
                    Some(root) => root,
                    None => {
                        return Err(e);
                    },
                }
            }
        },
    };
    let mut mappings: TextMap<String> = TextMap::new();
    assert(text_values(mappings@) =~= Map::<Seq<char>, Seq<char>>::empty());
    assert(bb.dom() =~= blocks@.dom());
    match walk_mst(&blocks, data_cid.as_str(), collection, &mut mappings) {
        Ok(()) => Ok(mappings),
        Err(e) => Err(e),
    }
}

} // verus!
