//! Bluesky record types (profiles and posts), the text of a post that search
//! looks at, and the Markdown rendering of records.
use vstd::prelude::*;
use crate::strings::{split_on, find_from, occurs_at, byte_find};
use vstd::utf8::{valid_utf8, decode_utf8, encode_utf8, is_char_boundary};
use vstd::string::StringSliceAdditionalSpecFns;
use crate::text::{chars_of, owned, push_str, push_decimal, string_from_chars, decimal};

verus! {

/// A profile record (`app.bsky.actor.profile`).
#[derive(Debug, Clone)]
pub struct ProfileRecord {
    pub display_name: Option<String>,
    pub description: Option<String>,
    pub avatar: Option<BlobRef>,
    pub banner: Option<BlobRef>,
    pub created_at: String,
}

/// A post record (`app.bsky.feed.post`).
#[derive(Debug)]
pub struct PostRecord {
    pub uri: String,
    pub cid: String,
    pub text: String,
    pub created_at: String,
    pub embeds: Option<Vec<Embed>>,
    pub facets: Vec<Facet>,
}

/// Content embedded in a post.
#[derive(Debug)]
pub enum Embed {
    Images { images: Vec<ImageEmbed> },
    External { external: ExternalEmbed },
    Record { record: RecordEmbed },
    RecordWithMedia { record: RecordEmbed, media: Box<Embed> },
}

/// An embedded image.
#[derive(Debug, Clone)]
pub struct ImageEmbed {
    pub alt: Option<String>,
    pub image: BlobRef,
}

/// An embedded link card.
#[derive(Debug, Clone)]
pub struct ExternalEmbed {
    pub uri: String,
    pub title: String,
    pub description: String,
    pub thumb: Option<BlobRef>,
}

/// An embedded record (a quoted post).
#[derive(Debug, Clone)]
pub struct RecordEmbed {
    pub uri: String,
    pub cid: String,
}

/// A reference to a blob (an image).
#[derive(Debug, Clone, PartialEq)]
pub struct BlobRef {
    pub type_: String,
    pub ref_: String,
    pub mime_type: String,
    pub size: u64,
}

/// Rich-text annotation of a byte range of a post's text.
#[derive(Debug, Clone)]
pub struct Facet {
    pub index: FacetIndex,
    pub features: Vec<FacetFeature>,
}

/// The byte range a facet annotates.
#[derive(Debug, Clone)]
pub struct FacetIndex {
    pub byte_start: u32,
    pub byte_end: u32,
}

/// What an annotated range stands for.
#[derive(Debug, Clone)]
pub enum FacetFeature {
    Mention { did: String },
    Link { uri: String },
    Tag { tag: String },
}

/// The texts of a sequence of strings.
pub open spec fn views(v: Seq<String>) -> Seq<Seq<char>> {
    Seq::new(v.len(), |i: int| v[i]@)
}

/// The non-empty alt texts of images, in order.
pub open spec fn image_alts(images: Seq<ImageEmbed>) -> Seq<Seq<char>>
    decreases images.len(),
{
    if images.len() == 0 {
        Seq::empty()
    } else {
        let rest = image_alts(images.drop_last());
        match images.last().alt {
            Some(a) => if a@.len() > 0 {
                rest.push(a@)
            } else {
                rest
            },
            None => rest,
        }
    }
}

/// The searchable text of an embed: image alt texts, a link card's title
/// and description, the media part of a record-with-media; nothing for a
/// quoted record.
pub open spec fn embed_texts(e: Embed) -> Seq<Seq<char>>
    decreases e,
{
    match e {
        Embed::Images { images } => image_alts(images@),
        Embed::External { external } => seq![external.title@, external.description@],
        Embed::Record { .. } => Seq::empty(),
        Embed::RecordWithMedia { record, media } => embed_texts(*media),
    }
}

/// The searchable texts of several embeds, one after the other.
pub open spec fn embeds_texts(es: Seq<Embed>) -> Seq<Seq<char>>
    decreases es.len(),
{
    if es.len() == 0 {
        Seq::empty()
    } else {
        embeds_texts(es.drop_last()) + embed_texts(es.last())
    }
}

/// The URIs of the link features among `fs`.
pub open spec fn feature_links(fs: Seq<FacetFeature>) -> Seq<Seq<char>>
    decreases fs.len(),
{
    if fs.len() == 0 {
        Seq::empty()
    } else {
        let rest = feature_links(fs.drop_last());
        match fs.last() {
            FacetFeature::Link { uri } => rest.push(uri@),
            _ => rest,
        }
    }
}

/// The link URIs of facets, in order.
pub open spec fn facet_links(facets: Seq<Facet>) -> Seq<Seq<char>>
    decreases facets.len(),
{
    if facets.len() == 0 {
        Seq::empty()
    } else {
        facet_links(facets.drop_last()) + feature_links(facets.last().features@)
    }
}

/// The texts search looks at in a post: its text, the text of its embeds,
/// and the URIs of its link facets.
pub open spec fn searchable_text(p: PostRecord) -> Seq<Seq<char>> {
    seq![p.text@] + match p.embeds {
        Some(es) => embeds_texts(es@),
        None => Seq::empty(),
    } + facet_links(p.facets@)
}

proof fn lemma_feature_link_listed(fs: Seq<FacetFeature>, j: int)
    requires
        0 <= j < fs.len(),
    ensures
        fs[j] matches FacetFeature::Link { uri } ==> feature_links(fs).contains(uri@),
    decreases fs.len(),
{
    if let FacetFeature::Link { uri } = fs[j] {
        let rest = feature_links(fs.drop_last());
        if j == fs.len() - 1 {
            assert(feature_links(fs) == rest.push(uri@));
            assert(feature_links(fs)[rest.len() as int] == uri@);
        } else {
            lemma_feature_link_listed(fs.drop_last(), j);
            let k = choose|k: int| 0 <= k < rest.len() && rest[k] == uri@;
            assert(feature_links(fs)[k] == uri@);
        }
    }
}

proof fn lemma_facet_link_listed(facets: Seq<Facet>, i: int, j: int)
    requires
        0 <= i < facets.len(),
        0 <= j < facets[i].features@.len(),
    ensures
        facets[i].features@[j] matches FacetFeature::Link { uri } ==> facet_links(facets).contains(uri@),
    decreases facets.len(),
{
    if let FacetFeature::Link { uri } = facets[i].features@[j] {
        let rest = facet_links(facets.drop_last());
        let last = feature_links(facets.last().features@);
        assert(facet_links(facets) == rest + last);
        if i == facets.len() - 1 {
            lemma_feature_link_listed(facets.last().features@, j);
            let k = choose|k: int| 0 <= k < last.len() && last[k] == uri@;
            assert((rest + last)[rest.len() + k] == uri@);
        } else {
            lemma_facet_link_listed(facets.drop_last(), i, j);
            let k = choose|k: int| 0 <= k < rest.len() && rest[k] == uri@;
            assert((rest + last)[k] == uri@);
        }
    }
}

/// Search looks at a post's own text, and at the URI of every link feature
/// of its facets.
pub proof fn law_post_text_and_links_are_searchable(p: PostRecord, i: int, j: int)
    requires
        0 <= i < p.facets@.len(),
        0 <= j < p.facets@[i].features@.len(),
    ensures
        searchable_text(p)[0] == p.text@,
        p.facets@[i].features@[j] matches FacetFeature::Link { uri } ==> searchable_text(p).contains(uri@),
{
    let head = seq![p.text@] + match p.embeds {
        Some(es) => embeds_texts(es@),
        None => Seq::empty(),
    };
    let links = facet_links(p.facets@);
    assert(searchable_text(p) == head + links);
    assert(head[0] == p.text@);
    if let FacetFeature::Link { uri } = p.facets@[i].features@[j] {
        lemma_facet_link_listed(p.facets@, i, j);
        let k = choose|k: int| 0 <= k < links.len() && links[k] == uri@;
        assert((head + links)[head.len() + k] == uri@);
    }
}

/// Copies a string.
fn copy(s: &String) -> (r: String)
    ensures
        r@ == s@,
{
    owned(s.as_str())
}

/// Appends copies of `more` to `out`.
fn extend_texts(out: &mut Vec<String>, more: Vec<String>)
    ensures
        views(final(out)@) == views(old(out)@) + views(more@),
{
    let ghost start = views(out@);
    let mut i: usize = 0;
    while i < more.len()
        invariant
            i <= more@.len(),
            views(out@) == start + views(more@).take(i as int),
        decreases more@.len() - i,
    {
        let s = copy(&more[i]);
        let ghost prev = out@;
        out.push(s);
        proof {
            assert(out@ == prev.push(s));
            assert(views(out@) =~= views(prev).push(more@[i as int]@));
            assert(views(more@).take(i + 1) =~= views(more@).take(i as int).push(more@[i as int]@));
        }
        i = i + 1;
        assert(views(out@) =~= start + views(more@).take(i as int));
    }
    assert(views(more@).take(more@.len() as int) =~= views(more@));
}

impl Embed {
    /// The searchable text of the embed.
    pub fn get_searchable_text(&self) -> (r: Vec<String>)
        ensures
            views(r@) == embed_texts(*self),
        decreases self,
    {
        let mut texts: Vec<String> = Vec::new();
        match self {
            Embed::Images { images } => {
                let mut i: usize = 0;
                while i < images.len()
                    invariant
                        i <= images@.len(),
                        views(texts@) == image_alts(images@.take(i as int)),
                    decreases images@.len() - i,
                {
                    assert(images@.take(i + 1).drop_last() =~= images@.take(i as int));
                    if let Some(alt) = &images[i].alt {
                        if !alt.as_str().is_empty() {
                            texts.push(copy(alt));
                        }
                    }
                    i = i + 1;
                    assert(views(texts@) =~= image_alts(images@.take(i as int)));
                }
                assert(images@.take(images@.len() as int) =~= images@);
            },
            Embed::External { external } => {
                texts.push(copy(&external.title));
                texts.push(copy(&external.description));
                assert(views(texts@) =~= seq![external.title@, external.description@]);
            },
            Embed::RecordWithMedia { media, .. } => {
                let inner = media.get_searchable_text();
                extend_texts(&mut texts, inner);
                assert(views(texts@) =~= embed_texts(*self));
            },
            Embed::Record { .. } => {
                assert(views(texts@) =~= embed_texts(*self));
            },
        }
        texts
    }
}

impl PostRecord {
    /// The texts search looks at: the post's text, then the text of each
    /// embed, then the URI of each link facet.
    pub fn get_searchable_text(&self) -> (r: Vec<String>)
        ensures
            views(r@) == searchable_text(*self),
    {
        let mut texts: Vec<String> = Vec::new();
        texts.push(copy(&self.text));
        let ghost head = views(texts@);
        if let Some(embeds) = &self.embeds {
            let mut i: usize = 0;
            while i < embeds.len()
                invariant
                    i <= embeds@.len(),
                    views(texts@) == head + embeds_texts(embeds@.take(i as int)),
                decreases embeds@.len() - i,
            {
                assert(embeds@.take(i + 1).drop_last() =~= embeds@.take(i as int));
                let more = embeds[i].get_searchable_text();
                extend_texts(&mut texts, more);
                i = i + 1;
                assert(views(texts@) =~= head + embeds_texts(embeds@.take(i as int)));
            }
            assert(embeds@.take(embeds@.len() as int) =~= embeds@);
        } else {
            assert(views(texts@) =~= head + Seq::<Seq<char>>::empty());
        }
        let ghost mid = views(texts@);
        let mut f: usize = 0;
        while f < self.facets.len()
            invariant
                f <= self.facets@.len(),
                views(texts@) == mid + facet_links(self.facets@.take(f as int)),
            decreases self.facets@.len() - f,
        {
            assert(self.facets@.take(f + 1).drop_last() =~= self.facets@.take(f as int));
            let features = &self.facets[f].features;
            let ghost before = views(texts@);
            let mut j: usize = 0;
            while j < features.len()
                invariant
                    j <= features@.len(),
                    views(texts@) == before + feature_links(features@.take(j as int)),
                decreases features@.len() - j,
            {
                assert(features@.take(j + 1).drop_last() =~= features@.take(j as int));
                assert(features@.take(j + 1).last() == features@[j as int]);
                let ghost prev = texts@;
                if let FacetFeature::Link { uri } = &features[j] {
                    let c = copy(uri);
                    texts.push(c);
                    assert(views(texts@) =~= views(prev).push(uri@));
                }
                j = j + 1;
                assert(views(texts@) =~= before + feature_links(features@.take(j as int)));
            }
            assert(features@.take(features@.len() as int) =~= features@);
            f = f + 1;
            assert(views(texts@) =~= mid + facet_links(self.facets@.take(f as int)));
        }
        assert(self.facets@.take(self.facets@.len() as int) =~= self.facets@);
        texts
    }
}

} // verus!

verus! {

/// The characters of the text `t` (UTF-8 bytes) from byte `e` on, with the
/// matches of the query marked by `**`, as the search finds them: the
/// lowercase query's bytes `lq` are looked for in the lowercase text's bytes
/// `l` from byte `e` on; a match starting at byte `s` marks the bytes `s` to
/// `s + n` of `t`, `n` being the length of the query as given; the next
/// search starts after them. `None` where a position the search uses lies
/// past the end of a text or inside a character, so that the text cannot be
/// cut there.
pub open spec fn marked_from(t: Seq<u8>, l: Seq<u8>, lq: Seq<u8>, n: nat, e: int) -> Option<Seq<char>>
    decreases l.len() + 1 - e,
{
    if n == 0 || e < 0 || e > l.len() || !is_char_boundary(l, e) {
        None
    } else {
        match byte_find(l, lq, e) {
            None => if e <= t.len() && is_char_boundary(t, e) {
                Some(decode_utf8(t.subrange(e, t.len() as int)))
            } else {
                None
            },
            Some(s) => {
                proof {
                    crate::strings::lemma_byte_find_found(l, lq, e);
                }
                let f = s + n;
                if f > l.len() || f > t.len() || !is_char_boundary(t, e) || !is_char_boundary(t, s) || !is_char_boundary(
                    t,
                    f,
                ) {
                    None
                } else {
                    match marked_from(t, l, lq, n, f) {
                        None => None,
                        Some(rest) => Some(
                            decode_utf8(t.subrange(e, s)) + "**"@ + decode_utf8(t.subrange(s, f)) + "**"@ + rest,
                        ),
                    }
                }
            },
        }
    }
}

/// `text` with each case-insensitive match of `query` wrapped in `**`: the
/// text itself for an empty query or when the lowercase query does not
/// occur in the lowercase text; otherwise the marking of `marked_from`,
/// `None` where it cannot be done.
pub open spec fn highlighted(text: Seq<char>, query: Seq<char>) -> Option<Seq<char>> {
    let l = encode_utf8(crate::text::lowercase(text));
    let lq = encode_utf8(crate::text::lowercase(query));
    if query.len() == 0 || byte_find(l, lq, 0) is None {
        Some(text)
    } else {
        marked_from(encode_utf8(text), l, lq, encode_utf8(query).len(), 0)
    }
}

/// A position that cuts a text between characters also cuts its part from
/// an earlier such position on.
proof fn lemma_boundary_in_suffix(t: Seq<u8>, e: int, s: int)
    requires
        valid_utf8(t),
        is_char_boundary(t, e),
        is_char_boundary(t, s),
        0 <= e <= s <= t.len(),
    ensures
        valid_utf8(t.subrange(e, t.len() as int)),
        is_char_boundary(t.subrange(e, t.len() as int), s - e),
{
    let u = t.subrange(e, t.len() as int);
    vstd::utf8::valid_utf8_split(t, e);
    if s == t.len() {
        vstd::utf8::is_char_boundary_start_end_of_seq(u);
    } else if s > e {
        vstd::utf8::is_char_boundary_iff_not_is_continuation_byte(t, s);
        vstd::utf8::is_char_boundary_iff_not_is_continuation_byte(u, s - e);
        assert(u[s - e] == t[s]);
    }
}

/// The characters of `s` between two byte positions that fall between
/// characters.
fn substr(s: &str, a: usize, b: usize) -> (r: &str)
    requires
        is_char_boundary(s.spec_bytes(), a as int),
        is_char_boundary(s.spec_bytes(), b as int),
        a <= b <= s.spec_bytes().len(),
    ensures
        r@ == decode_utf8(s.spec_bytes().subrange(a as int, b as int)),
{
    proof {
        vstd::utf8::encode_utf8_valid_utf8(s@);
        lemma_boundary_in_suffix(s.spec_bytes(), a as int, b as int);
    }
    let (_, tail) = s.split_at(a);
    let (mid, _) = tail.split_at(b - a);
    proof {
        assert(mid.spec_bytes() =~= s.spec_bytes().subrange(a as int, b as int));
        vstd::utf8::encode_utf8_decode_utf8(mid@);
    }
    mid
}

/// `s` without its `*` characters.
pub open spec fn without_stars(s: Seq<char>) -> Seq<char>
    decreases s.len(),
{
    if s.len() == 0 {
        s
    } else if s.last() == '*' {
        without_stars(s.drop_last())
    } else {
        without_stars(s.drop_last()).push(s.last())
    }
}

proof fn lemma_without_stars_add(a: Seq<char>, b: Seq<char>)
    ensures
        without_stars(a + b) == without_stars(a) + without_stars(b),
    decreases b.len(),
{
    if b.len() == 0 {
        assert(a + b =~= a);
        assert(without_stars(a) + without_stars(b) =~= without_stars(a));
    } else {
        lemma_without_stars_add(a, b.drop_last());
        assert((a + b).drop_last() =~= a + b.drop_last());
        assert((a + b).last() == b.last());
        if b.last() != '*' {
            assert(without_stars(a) + without_stars(b.drop_last()).push(b.last())
                =~= (without_stars(a) + without_stars(b.drop_last())).push(b.last()));
        }
    }
}

proof fn lemma_decode_three(t: Seq<u8>, e: int, s: int, f: int)
    requires
        valid_utf8(t),
        0 <= e <= s <= f <= t.len(),
        is_char_boundary(t, e),
        is_char_boundary(t, s),
        is_char_boundary(t, f),
    ensures
        decode_utf8(t.subrange(e, t.len() as int)) == decode_utf8(t.subrange(e, s)) + decode_utf8(t.subrange(s, f))
            + decode_utf8(t.subrange(f, t.len() as int)),
{
    let u = t.subrange(e, t.len() as int);
    lemma_boundary_in_suffix(t, e, s);
    vstd::utf8::decode_utf8_split(u, s - e);
    assert(u.subrange(0, s - e) =~= t.subrange(e, s));
    assert(u.subrange(s - e, u.len() as int) =~= t.subrange(s, t.len() as int));
    let v = t.subrange(s, t.len() as int);
    lemma_boundary_in_suffix(t, s, f);
    vstd::utf8::decode_utf8_split(v, f - s);
    assert(v.subrange(0, f - s) =~= t.subrange(s, f));
    assert(v.subrange(f - s, v.len() as int) =~= t.subrange(f, t.len() as int));
}

proof fn lemma_marked_keeps_text(t: Seq<u8>, l: Seq<u8>, lq: Seq<u8>, n: nat, e: int)
    requires
        valid_utf8(t),
        marked_from(t, l, lq, n, e) is Some,
    ensures
        without_stars(marked_from(t, l, lq, n, e)->Some_0) == without_stars(decode_utf8(t.subrange(e, t.len() as int))),
    decreases l.len() + 1 - e,
{
    if let Some(s) = byte_find(l, lq, e) {
        crate::strings::lemma_byte_find_found(l, lq, e);
        let f = s + n;
        lemma_marked_keeps_text(t, l, lq, n, f);
        let rest = marked_from(t, l, lq, n, f)->Some_0;
        let a = decode_utf8(t.subrange(e, s));
        let b = decode_utf8(t.subrange(s, f));
        let stars = "**"@;
        reveal_strlit("**");
        assert(without_stars(stars) == Seq::<char>::empty()) by {
            assert(stars =~= seq!['*', '*']);
            assert(stars.drop_last() =~= seq!['*']);
            assert(stars.drop_last().drop_last() =~= Seq::<char>::empty());
            reveal_with_fuel(without_stars, 3);
        }
        lemma_without_stars_add(a, stars);
        lemma_without_stars_add(a + stars, b);
        lemma_without_stars_add(a + stars + b, stars);
        lemma_without_stars_add(a + stars + b + stars, rest);
        lemma_decode_three(t, e, s, f);
        let c = decode_utf8(t.subrange(f, t.len() as int));
        lemma_without_stars_add(a, b);
        lemma_without_stars_add(a + b, c);
        assert(without_stars(a) + Seq::<char>::empty() =~= without_stars(a));
        assert(without_stars(a) + without_stars(b) + Seq::<char>::empty() =~= without_stars(a) + without_stars(b));
    }
}

/// Highlighting only adds `**` markers: with every `*` taken out, the
/// highlighted text is the text with every `*` taken out (so a text without
/// `*` comes back exactly once the markers are deleted).
pub proof fn law_highlight_only_adds_markers(text: Seq<char>, query: Seq<char>)
    requires
        highlighted(text, query) is Some,
    ensures
        without_stars(highlighted(text, query)->Some_0) == without_stars(text),
{
    let t = encode_utf8(text);
    let l = encode_utf8(crate::text::lowercase(text));
    let lq = encode_utf8(crate::text::lowercase(query));
    if !(query.len() == 0 || byte_find(l, lq, 0) is None) {
        vstd::utf8::encode_utf8_valid_utf8(text);
        lemma_marked_keeps_text(t, l, lq, encode_utf8(query).len(), 0);
        assert(t.subrange(0, t.len() as int) =~= t);
        vstd::utf8::encode_utf8_decode_utf8(text);
    }
}

/// Marks every case-insensitive match of `query` in `text` with `**`;
/// `None` where the marking cannot be done (see `highlighted`).
pub fn highlight_text_checked(text: &str, query: &str) -> (r: Option<String>)
    ensures
        match highlighted(text@, query@) {
            Some(h) => r matches Some(s) && s@ == h,
            None => r is None,
        },
{
    if query.is_empty() {
        return Some(owned(text));
    }
    let lower_text = crate::text::to_lowercase(text);
    let lower_query = crate::text::to_lowercase(query);
    let lower = lower_text.as_str();
    let l: &[u8] = lower.as_bytes();
    let lq: &[u8] = lower_query.as_str().as_bytes();
    let t: &[u8] = text.as_bytes();
    let n: usize = query.as_bytes().len();
    if crate::strings::bytes_find_from(l, lq, 0).is_none() {
        return Some(owned(text));
    }
    proof {
        vstd::utf8::encode_utf8_valid_utf8(text@);
        vstd::utf8::encode_utf8_valid_utf8(crate::text::lowercase(text@));
    }
    let ghost target = highlighted(text@, query@);
    let mut result = String::new();
    let mut e: usize = 0;
    loop
        invariant
            t@ == text.spec_bytes(),
            l@ == lower.spec_bytes(),
            l@ == encode_utf8(crate::text::lowercase(text@)),
            lq@ == encode_utf8(crate::text::lowercase(query@)),
            n == encode_utf8(query@).len(),
            valid_utf8(t@),
            valid_utf8(l@),
            query@.len() != 0,
            byte_find(l@, lq@, 0) is Some,
            target == highlighted(text@, query@),
            match marked_from(t@, l@, lq@, n as nat, e as int) {
                Some(rest) => target == Some(result@ + rest),
                None => target is None,
            },
        decreases l@.len() + 1 - e,
    {
        if n == 0 || e > l.len() || !lower.is_char_boundary(e) {
            return None;
        }
        match crate::strings::bytes_find_from(l, lq, e) {
            None => {
                if e > t.len() || !text.is_char_boundary(e) {
                    return None;
                }
                proof {
                    vstd::utf8::is_char_boundary_start_end_of_seq(t@);
                }
                let piece = substr(text, e, t.len());
                push_str(&mut result, piece);
                return Some(result);
            },
            Some(s) => {
                proof {
                    crate::strings::lemma_byte_find_found(l@, lq@, e as int);
                }
                if n > l.len() - s || s > t.len() || n > t.len() - s {
                    return None;
                }
                let f = s + n;
                if !text.is_char_boundary(e) || !text.is_char_boundary(s) || !text.is_char_boundary(f) {
                    return None;
                }
                let before = substr(text, e, s);
                let inside = substr(text, s, f);
                let ghost rest = marked_from(t@, l@, lq@, n as nat, f as int);
                push_str(&mut result, before);
                push_str(&mut result, "**");
                push_str(&mut result, inside);
                push_str(&mut result, "**");
                proof {
                    if let Some(r2) = rest {
                        assert(target == Some(result@ + r2));
                    }
                }
                e = f;
            },
        }
    }
}

/// Marks every case-insensitive match of `query` in `text` with `**`.
pub fn highlight_text(text: &str, query: &str) -> (r: String)
    requires
        highlighted(text@, query@) is Some,
    ensures
        r@ == highlighted(text@, query@)->Some_0,
{
    match highlight_text_checked(text, query) {
        Some(h) => h,
        None => String::new(),
    }
}

} // verus!

verus! {

/// The last `/`-separated segment of `s`.
pub open spec fn last_segment(s: Seq<char>) -> Seq<char> {
    split_on(s, '/').last()
}

/// The pieces of `lines`, one after the other.
pub open spec fn concat_all(lines: Seq<Seq<char>>) -> Seq<char>
    decreases lines.len(),
{
    if lines.len() == 0 {
        Seq::empty()
    } else {
        concat_all(lines.drop_last()) + lines.last()
    }
}

/// A Markdown list line for each link card among `es`: `- [title](uri)`.
pub open spec fn external_lines(es: Seq<Embed>) -> Seq<Seq<char>>
    decreases es.len(),
{
    if es.len() == 0 {
        Seq::empty()
    } else {
        let rest = external_lines(es.drop_last());
        match es.last() {
            Embed::External { external } => rest.push(
                "- ["@ + external.title@ + "]("@ + external.uri@ + ")\n"@,
            ),
            _ => rest,
        }
    }
}

/// A Markdown list line for each link facet: `- uri`.
pub open spec fn facet_link_lines(facets: Seq<Facet>) -> Seq<Seq<char>> {
    let links = facet_links(facets);
    Seq::new(links.len(), |i: int| "- "@ + links[i] + "\n"@)
}

/// The lines of an image list: each image's alt text, or `Image n` for an
/// image without one (counting from 1).
pub open spec fn image_lines(images: Seq<ImageEmbed>) -> Seq<char>
    decreases images.len(),
{
    if images.len() == 0 {
        Seq::empty()
    } else {
        let label = match images.last().alt {
            Some(a) => a@,
            None => "Image "@ + decimal(images.len()),
        };
        image_lines(images.drop_last()) + "- "@ + label + "\n"@
    }
}

/// An `**Images:**` section for each image embed among `es`.
pub open spec fn images_section(es: Seq<Embed>) -> Seq<char>
    decreases es.len(),
{
    if es.len() == 0 {
        Seq::empty()
    } else {
        let rest = images_section(es.drop_last());
        match es.last() {
            Embed::Images { images } => rest + "**Images:**\n"@ + image_lines(images@) + "\n"@,
            _ => rest,
        }
    }
}

/// The Markdown of a post found by a search for `query`: a link to the post
/// on bsky.app (when it has a URI), its creation time, its text with the
/// matches highlighted, its links, and the alt texts of its images; `None`
/// where the highlighting cannot be done (see `highlighted`).
pub open spec fn post_markdown(p: PostRecord, handle: Seq<char>, query: Seq<char>) -> Option<Seq<char>> {
    match highlighted(p.text@, query) {
        Some(h) => Some(post_markdown_with(p, handle, h)),
        None => None,
    }
}

/// The Markdown of a post whose text, highlighted, is `h`.
pub open spec fn post_markdown_with(p: PostRecord, handle: Seq<char>, h: Seq<char>) -> Seq<char> {
    let link = if p.uri@.len() == 0 {
        Seq::empty()
    } else {
        "**Link:** https://bsky.app/profile/"@ + handle + "/post/"@ + last_segment(p.uri@) + "\n"@
    };
    let es = embeds_of(p);
    let lines = external_lines(es) + facet_link_lines(p.facets@);
    let links = if lines.len() == 0 {
        Seq::empty()
    } else {
        "**Links:**\n"@ + concat_all(lines) + "\n"@
    };
    link + "**Created:** "@ + p.created_at@ + "\n\n"@ + h + "\n\n"@ + links
        + images_section(es)
}

/// The embeds of a post (none when it has no embed list).
pub open spec fn embeds_of(p: PostRecord) -> Seq<Embed> {
    match p.embeds {
        Some(v) => v@,
        None => Seq::empty(),
    }
}

/// Appends each line of `lines` to `out`.
fn push_lines(out: &mut String, lines: &Vec<String>)
    ensures
        final(out)@ == old(out)@ + concat_all(views(lines@)),
{
    let mut i: usize = 0;
    while i < lines.len()
        invariant
            i <= lines@.len(),
            out@ == old(out)@ + concat_all(views(lines@).take(i as int)),
        decreases lines@.len() - i,
    {
        push_str(out, lines[i].as_str());
        assert(views(lines@).take(i + 1).drop_last() =~= views(lines@).take(i as int));
        i = i + 1;
        assert(out@ =~= old(out)@ + concat_all(views(lines@).take(i as int)));
    }
    assert(views(lines@).take(lines@.len() as int) =~= views(lines@));
}

/// Appends the image list of `images` to `out`.
fn push_image_lines(out: &mut String, images: &Vec<ImageEmbed>)
    ensures
        final(out)@ == old(out)@ + image_lines(images@),
{
    let mut i: usize = 0;
    while i < images.len()
        invariant
            i <= images@.len(),
            out@ == old(out)@ + image_lines(images@.take(i as int)),
        decreases images@.len() - i,
    {
        assert(images@.take(i + 1).drop_last() =~= images@.take(i as int));
        push_str(out, "- ");
        match &images[i].alt {
            Some(a) => push_str(out, a.as_str()),
            None => {
                push_str(out, "Image ");
                push_decimal(out, (i + 1) as u64);
            },
        }
        push_str(out, "\n");
        i = i + 1;
        assert(out@ =~= old(out)@ + image_lines(images@.take(i as int)));
    }
    assert(images@.take(images@.len() as int) =~= images@);
}

impl PostRecord {
    /// Renders the post as Markdown for a search result, highlighting
    /// `query`; `None` where the highlighting cannot be done.
    pub fn to_markdown_checked(&self, handle: &str, query: &str) -> (r: Option<String>)
        ensures
            match post_markdown(*self, handle@, query@) {
                Some(m) => r matches Some(s) && s@ == m,
                None => r is None,
            },
    {
        match highlight_text_checked(self.text.as_str(), query) {
            Some(h) => Some(self.render_markdown(handle, h.as_str())),
            None => None,
        }
    }

    /// Renders the post as Markdown for a search result, highlighting `query`.
    pub fn to_markdown(&self, handle: &str, query: &str) -> (r: String)
        requires
            highlighted(self.text@, query@) is Some,
        ensures
            r@ == post_markdown(*self, handle@, query@)->Some_0,
    {
        let h = highlight_text(self.text.as_str(), query);
        self.render_markdown(handle, h.as_str())
    }

    /// The Markdown of the post, its text highlighted as `highlighted_text`.
    fn render_markdown(&self, handle: &str, highlighted_text: &str) -> (r: String)
        ensures
            r@ == post_markdown_with(*self, handle@, highlighted_text@),
    {
        let mut markdown = String::new();
        if !self.uri.as_str().is_empty() {
            let segments = crate::strings::split_str(self.uri.as_str(), '/');
            proof {
                crate::strings::lemma_split_nonempty(self.uri@, '/');
            }
            let last = segments.len() - 1;
            push_str(&mut markdown, "**Link:** https://bsky.app/profile/");
            push_str(&mut markdown, handle);
            push_str(&mut markdown, "/post/");
            push_str(&mut markdown, segments[last].as_str());
            push_str(&mut markdown, "\n");
        }
        push_str(&mut markdown, "**Created:** ");
        push_str(&mut markdown, self.created_at.as_str());
        push_str(&mut markdown, "\n\n");
        push_str(&mut markdown, highlighted_text);
        push_str(&mut markdown, "\n\n");
        let ghost es = embeds_of(*self);
        let mut link_lines: Vec<String> = Vec::new();
        if let Some(embeds) = &self.embeds {
            let mut i: usize = 0;
            while i < embeds.len()
                invariant
                    i <= embeds@.len(),
                    views(link_lines@) == external_lines(embeds@.take(i as int)),
                decreases embeds@.len() - i,
            {
                assert(embeds@.take(i + 1).drop_last() =~= embeds@.take(i as int));
                let ghost prev = link_lines@;
                if let Embed::External { external } = &embeds[i] {
                    let mut line = owned("- [");
                    push_str(&mut line, external.title.as_str());
                    push_str(&mut line, "](");
                    push_str(&mut line, external.uri.as_str());
                    push_str(&mut line, ")\n");
                    link_lines.push(line);
                    assert(views(link_lines@) =~= views(prev).push(
                        "- ["@ + external.title@ + "]("@ + external.uri@ + ")\n"@,
                    ));
                }
                i = i + 1;
                assert(views(link_lines@) =~= external_lines(embeds@.take(i as int)));
            }
            assert(embeds@.take(embeds@.len() as int) =~= embeds@);
        }
        let ghost ext = views(link_lines@);
        let links = self.get_facet_link_uris();
        let mut j: usize = 0;
        while j < links.len()
            invariant
                j <= links@.len(),
                views(links@) == facet_links(self.facets@),
                views(link_lines@) == ext + facet_link_lines(self.facets@).take(j as int),
            decreases links@.len() - j,
        {
            let mut line = owned("- ");
            push_str(&mut line, links[j].as_str());
            push_str(&mut line, "\n");
            let ghost prev = link_lines@;
            link_lines.push(line);
            proof {
                assert(views(link_lines@) =~= views(prev).push("- "@ + links@[j as int]@ + "\n"@));
                assert(facet_link_lines(self.facets@).take(j + 1) =~= facet_link_lines(self.facets@).take(
                    j as int,
                ).push("- "@ + links@[j as int]@ + "\n"@));
            }
            j = j + 1;
        }
        assert(facet_link_lines(self.facets@).take(links@.len() as int) =~= facet_link_lines(self.facets@));
        if link_lines.len() > 0 {
            push_str(&mut markdown, "**Links:**\n");
            push_lines(&mut markdown, &link_lines);
            push_str(&mut markdown, "\n");
        }
        let ghost before_images = markdown@;
        if let Some(embeds) = &self.embeds {
            let mut i: usize = 0;
            while i < embeds.len()
                invariant
                    i <= embeds@.len(),
                    markdown@ == before_images + images_section(embeds@.take(i as int)),
                decreases embeds@.len() - i,
            {
                assert(embeds@.take(i + 1).drop_last() =~= embeds@.take(i as int));
                if let Embed::Images { images } = &embeds[i] {
                    push_str(&mut markdown, "**Images:**\n");
                    push_image_lines(&mut markdown, images);
                    push_str(&mut markdown, "\n");
                }
                i = i + 1;
                assert(markdown@ =~= before_images + images_section(embeds@.take(i as int)));
            }
            assert(embeds@.take(embeds@.len() as int) =~= embeds@);
        } else {
            assert(markdown@ =~= before_images + images_section(es));
        }
        assert(markdown@ =~= post_markdown_with(*self, handle@, highlighted_text@));
        markdown
    }

    /// The URIs of the post's link facets, in order.
    fn get_facet_link_uris(&self) -> (r: Vec<String>)
        ensures
            views(r@) == facet_links(self.facets@),
    {
        let mut texts: Vec<String> = Vec::new();
        let mut f: usize = 0;
        while f < self.facets.len()
            invariant
                f <= self.facets@.len(),
                views(texts@) == facet_links(self.facets@.take(f as int)),
            decreases self.facets@.len() - f,
        {
            assert(self.facets@.take(f + 1).drop_last() =~= self.facets@.take(f as int));
            let features = &self.facets[f].features;
            let ghost before = views(texts@);
            let mut j: usize = 0;
            while j < features.len()
                invariant
                    j <= features@.len(),
                    views(texts@) == before + feature_links(features@.take(j as int)),
                decreases features@.len() - j,
            {
                assert(features@.take(j + 1).drop_last() =~= features@.take(j as int));
                assert(features@.take(j + 1).last() == features@[j as int]);
                let ghost prev = texts@;
                if let FacetFeature::Link { uri } = &features[j] {
                    let c = copy(uri);
                    texts.push(c);
                    assert(views(texts@) =~= views(prev).push(uri@));
                }
                j = j + 1;
                assert(views(texts@) =~= before + feature_links(features@.take(j as int)));
            }
            assert(features@.take(features@.len() as int) =~= features@);
            f = f + 1;
            assert(views(texts@) =~= facet_links(self.facets@.take(f as int)));
        }
        assert(self.facets@.take(self.facets@.len() as int) =~= self.facets@);
        texts
    }
}

/// The Markdown of a profile: heading with handle and DID, display name,
/// description, avatar, creation time, and the raw record (`raw_json`, the
/// record's pretty-printed JSON, absent when it could not be produced).
pub open spec fn profile_markdown(
    p: ProfileRecord,
    handle: Seq<char>,
    did: Seq<char>,
    raw_json: Option<Seq<char>>,
) -> Seq<char> {
    "# @"@ + handle + " ("@ + did + ")\n\n"@ + match p.display_name {
        Some(d) => "**Display Name:** "@ + d@ + "\n\n"@,
        None => Seq::empty(),
    } + match p.description {
        Some(d) => "**Description:**\n"@ + d@ + "\n\n"@,
        None => Seq::empty(),
    } + match p.avatar {
        Some(a) => "**Avatar:** ![Avatar](blob:"@ + a.ref_@ + ")\n\n"@,
        None => Seq::empty(),
    } + "**Stats:**\n"@ + "- Created: "@ + p.created_at@ + "\n"@
        + "\n<details>\n<summary>Raw Profile Data</summary>\n\n```json\n"@ + match raw_json {
        Some(j) => j,
        None => Seq::empty(),
    } + "\n```\n</details>\n"@
}

impl ProfileRecord {
    /// Renders the profile as Markdown; `raw_json` is the record as
    /// pretty-printed JSON, `None` when it could not be serialised.
    #[verifier::spinoff_prover]
    #[verifier::rlimit(30)]
    pub fn to_markdown(&self, handle: &str, did: &str, raw_json: Option<&str>) -> (r: String)
        ensures
            r@ == profile_markdown(*self, handle@, did@, match raw_json {
                Some(j) => Some(j@),
                None => None,
            }),
    {
        let mut markdown = owned("# @");
        push_str(&mut markdown, handle);
        push_str(&mut markdown, " (");
        push_str(&mut markdown, did);
        push_str(&mut markdown, ")\n\n");
        if let Some(display_name) = &self.display_name {
            push_str(&mut markdown, "**Display Name:** ");
            push_str(&mut markdown, display_name.as_str());
            push_str(&mut markdown, "\n\n");
        }
        if let Some(description) = &self.description {
            push_str(&mut markdown, "**Description:**\n");
            push_str(&mut markdown, description.as_str());
            push_str(&mut markdown, "\n\n");
        }
        if let Some(avatar) = &self.avatar {
            push_str(&mut markdown, "**Avatar:** ![Avatar](blob:");
            push_str(&mut markdown, avatar.ref_.as_str());
            push_str(&mut markdown, ")\n\n");
        }
        push_str(&mut markdown, "**Stats:**\n");
        push_str(&mut markdown, "- Created: ");
        push_str(&mut markdown, self.created_at.as_str());
        push_str(&mut markdown, "\n");
        push_str(&mut markdown, "\n<details>\n<summary>Raw Profile Data</summary>\n\n```json\n");
        if let Some(json) = raw_json {
            push_str(&mut markdown, json);
        }
        push_str(&mut markdown, "\n```\n</details>\n");
        assert(markdown@ =~= profile_markdown(*self, handle@, did@, match raw_json {
            Some(j) => Some(j@),
            None => None,
        }));
        markdown
    }
}

} // verus!
