//! Fuzzy matching of a needle in a haystack: the score that `nucleo-matcher`
//! gives, where an exact occurrence lies, and how it sits among the words.
use vstd::prelude::*;
use vstd::string::{StringSliceAdditionalSpecFns, StrSliceExecFns};
use vstd::utf8::encode_utf8;
use unicode_normalization::UnicodeNormalization;
use nucleo_matcher::Config as MatcherConfig;
use crate::bluesky::records::views;
use crate::search::parser::{unicode_words, unicode_words_of};
use crate::strings::{byte_find, contains_seq, contains_str, is_white_space, is_white_space_char};
use crate::text::{chars_of, lowercase, to_lowercase, str_eq};

verus! {

#[verifier::external_type_specification]
#[verifier::external_body]
pub struct ExMatcher(nucleo_matcher::Matcher);

#[verifier::external_type_specification]
#[verifier::external_body]
pub struct ExMatcherConfig(MatcherConfig);

/// The canonical composition (NFC) of a text, as the `unicode-normalization`
/// crate computes it from the Unicode tables; named here, not spelled out.
pub uninterp spec fn nfc(s: Seq<char>) -> Seq<char>;

/// Composes a text to NFC (`UnicodeNormalization::nfc`); the result is `nfc`
/// of the text.
#[verifier::external_body]
fn nfc_text(s: &str) -> (r: String)
    ensures
        r@ == nfc(s@),
{
    s.nfc().collect::<String>()
}

/// The score of the best fuzzy match of `needle` in `haystack` under the
/// default configuration of `nucleo-matcher`, if the needle matches at all.
/// The scoring (a Smith-Waterman variant over grapheme-initial characters)
/// is named here and not spelled out.
pub uninterp spec fn nucleo_score(haystack: Seq<char>, needle: Seq<char>) -> Option<u16>;

/// The default configuration of `nucleo-matcher` (`Config::DEFAULT`).
#[verifier::external_body]
fn default_config() -> (c: MatcherConfig) {
    MatcherConfig::DEFAULT
}

/// A matcher with the given configuration (`Matcher::new`).
#[verifier::external_body]
fn new_matcher(config: MatcherConfig) -> (m: nucleo_matcher::Matcher) {
    nucleo_matcher::Matcher::new(config)
}

/// Whether a character is alphabetic or numeric in Unicode's sense, as
/// `char::is_alphanumeric` tells; named here, not spelled out.
pub uninterp spec fn is_alphanumeric(c: char) -> bool;

/// `char::is_alphanumeric`; the result is `is_alphanumeric` of the character.
#[verifier::external_body]
fn char_is_alphanumeric(c: char) -> (b: bool)
    ensures
        b == is_alphanumeric(c),
{
    c.is_alphanumeric()
}

/// Where a match lies among the words of the haystack.
#[derive(Debug, Clone, Copy, PartialEq, Eq, Structural)]
pub enum MatchType {
    /// The match is a whole word.
    FullWord,
    /// The match begins a word.
    WordStart,
    /// The match ends a word.
    WordEnd,
    /// The match lies inside a word.
    WordMiddle,
    /// The match runs over more than one word.
    MultiWord,
}

/// A fuzzy match: its score, the byte positions of an exact occurrence
/// (none when the needle only matches fuzzily) and its place among the words.
#[derive(Debug, Clone)]
pub struct FuzzyMatch {
    pub score: u32,
    pub positions: Vec<u32>,
    pub match_type: MatchType,
}

/// A fuzzy matcher with `nucleo-matcher`'s default configuration.
pub struct FuzzyMatcher {
    matcher: nucleo_matcher::Matcher,
    config: MatcherConfig,
}

/// Scores `needle` in `haystack` (`Matcher::fuzzy_match` over the two texts
/// made `Utf32String`s); the result is `nucleo_score` of the texts, every
/// `FuzzyMatcher` carrying the default configuration. The matcher panics on
/// a haystack of more than `u32::MAX` characters, hence the bound.
#[verifier::external_body]
fn matcher_score(m: &mut FuzzyMatcher, haystack: &str, needle: &str) -> (r: Option<u16>)
    requires
        haystack@.len() <= u32::MAX,
    ensures
        r == nucleo_score(haystack@, needle@),
{
    let h = nucleo_matcher::Utf32String::from(haystack);
    let n = nucleo_matcher::Utf32String::from(needle);
    m.matcher.fuzzy_match(h.slice(..), n.slice(..))
}


/// The byte positions of the first exact, case-blind occurrence of the needle
/// in the haystack: one per byte of the needle, from the byte at which its
/// lowercase occurs in the lowercased haystack (each cut to 32 bits); none
/// when it does not occur, or when the positions would pass `usize::MAX`.
pub open spec fn spec_positions(h: Seq<char>, n: Seq<char>) -> Seq<u32> {
    match byte_find(encode_utf8(lowercase(h)), encode_utf8(lowercase(n)), 0) {
        Some(pos) => {
            let len = encode_utf8(n).len();
            if pos + len > usize::MAX {
                Seq::empty()
            } else {
                Seq::new(len, |k: int| (pos + k) as u32)
            }
        },
        None => Seq::empty(),
    }
}

/// The number of bytes of a text in UTF-8.
pub open spec fn byte_len(s: Seq<char>) -> nat {
    encode_utf8(s).len()
}

/// `a + b`, held at `usize::MAX`.
pub open spec fn sat_add(a: nat, b: nat) -> nat {
    if a + b > usize::MAX {
        usize::MAX as nat
    } else {
        a + b
    }
}

/// The position reached from `ws` by passing the characters of `h` that are
/// white space, where positions count bytes up to `hb` but pick characters
/// by index.
pub open spec fn skip_ws(h: Seq<char>, hb: nat, ws: nat) -> nat
    decreases hb - ws,
{
    if ws < hb && ws < h.len() && is_white_space(h[ws as int]) {
        skip_ws(h, hb, ws + 1)
    } else {
        ws
    }
}

/// How many of the words `words[i..]` the match from `first` to `last`
/// touches (held at 2): each word is placed at `ws`, takes its length in
/// bytes, and the next word starts after the white space that follows; a
/// word counts when it holds `first`, and again when it holds `last` with
/// `first` before it.
pub open spec fn span_count(
    h: Seq<char>,
    hb: nat,
    words: Seq<Seq<char>>,
    first: nat,
    last: nat,
    i: int,
    ws: nat,
    count: nat,
) -> nat
    decreases words.len() - i,
{
    if i < 0 || i >= words.len() {
        count
    } else {
        let we = sat_add(ws, byte_len(words[i]));
        let c1 = if first >= ws && first < we { count + 1 } else { count };
        let c2 = if last >= ws && last < we && first < ws { c1 + 1 } else { c1 };
        let c3 = if c2 > 2 { 2 } else { c2 };
        span_count(h, hb, words, first, last, i + 1, skip_ws(h, hb, we), c3)
    }
}

/// Whether the character of `h` at index `k` exists and is not alphanumeric.
pub open spec fn non_alnum_at(h: Seq<char>, k: int) -> bool {
    0 <= k < h.len() && !is_alphanumeric(h[k])
}

/// Whether there is no character of `h` at index `k`, or it is not
/// alphanumeric.
pub open spec fn boundary_at(h: Seq<char>, k: int) -> bool {
    k >= h.len() || !is_alphanumeric(h[k])
}

/// Where a match at `positions` of `n` in `h` lies: inside a word when there
/// are no positions; a whole word when one of the words of `h` lowercases to
/// the lowercase of `n`; over several words when it touches more than one;
/// otherwise by the characters before its first and after its last position
/// (positions taken as character indexes).
pub open spec fn spec_classify(h: Seq<char>, n: Seq<char>, positions: Seq<u32>) -> MatchType {
    if positions.len() == 0 {
        MatchType::WordMiddle
    } else {
        let words = unicode_words_of(h);
        if exists|i: int| 0 <= i < words.len() && lowercase(#[trigger] words[i]) == lowercase(n) {
            MatchType::FullWord
        } else {
            let first = positions[0] as nat;
            let last = positions.last() as nat;
            if span_count(h, byte_len(h), words, first, last, 0, 0, 0) > 1 {
                MatchType::MultiWord
            } else if first == 0 || non_alnum_at(h, first - 1) {
                if boundary_at(h, last + 1int) {
                    MatchType::FullWord
                } else {
                    MatchType::WordStart
                }
            } else if boundary_at(h, last + 1int) {
                MatchType::WordEnd
            } else {
                MatchType::WordMiddle
            }
        }
    }
}

/// Where a match lies among the words, told by the characters around it:
/// for a match that is neither a whole word of the haystack nor spread over
/// several words, one whose first position opens the text or follows a
/// character that is not alphanumeric starts a word, and is a whole word
/// (`FullWord`) unless an alphanumeric character follows its last position
/// (`WordStart`); one whose first position follows an alphanumeric
/// character ends a word (`WordEnd`) unless an alphanumeric character
/// follows it (`WordMiddle`).
pub proof fn law_classify_by_neighbours(h: Seq<char>, n: Seq<char>, positions: Seq<u32>)
    requires
        positions.len() > 0,
        forall|i: int| 0 <= i < unicode_words_of(h).len() ==> lowercase(#[trigger] unicode_words_of(h)[i]) != lowercase(n),
        span_count(h, byte_len(h), unicode_words_of(h), positions[0] as nat, positions.last() as nat, 0, 0, 0) <= 1,
        positions[0] as int <= h.len(),
    ensures
        ({
            let first = positions[0] as int;
            let next = positions.last() as int + 1;
            let opens = first == 0 || !is_alphanumeric(h[first - 1]);
            let closed = next >= h.len() || !is_alphanumeric(h[next]);
            spec_classify(h, n, positions) == if opens {
                if closed {
                    MatchType::FullWord
                } else {
                    MatchType::WordStart
                }
            } else if closed {
                MatchType::WordEnd
            } else {
                MatchType::WordMiddle
            }
        }),
{
}

/// The fuzzy match of `n` in `h`, both composed to NFC: none for an empty
/// needle, a haystack of more than `u32::MAX` characters, or a needle that
/// `nucleo-matcher` does not match; else its score, the positions of an
/// exact occurrence and the match's place among the words.
pub open spec fn spec_fuzzy(h: Seq<char>, n: Seq<char>) -> Option<(u32, Seq<u32>, MatchType)> {
    if n.len() == 0 {
        None
    } else {
        let hn = nfc(h);
        let nn = nfc(n);
        if hn.len() > u32::MAX {
            None
        } else {
            match nucleo_score(hn, nn) {
                None => None,
                Some(s) => {
                    let pos = spec_positions(hn, nn);
                    Some((s as u32, pos, spec_classify(hn, nn, pos)))
                },
            }
        }
    }
}

impl FuzzyMatch {
    /// The content of this match.
    pub open spec fn model(&self) -> (u32, Seq<u32>, MatchType) {
        (self.score, self.positions@, self.match_type)
    }
}

impl FuzzyMatcher {
    /// A matcher with the default configuration.
    pub fn new() -> (m: Self) {
        let config = default_config();
        let matcher = new_matcher(default_config());
        FuzzyMatcher { matcher, config }
    }

    /// Matches `needle` fuzzily in `haystack`.
    pub fn fuzzy_match(&mut self, haystack: &str, needle: &str) -> (r: Option<FuzzyMatch>)
        ensures
            match spec_fuzzy(haystack@, needle@) {
                Some(m) => r matches Some(x) && x.model() == m,
                None => r is None,
            },
    {
        if needle.is_empty() {
            return None;
        }
        let haystack_normalized = Self::normalize_for_matching(haystack);
        let needle_normalized = Self::normalize_for_matching(needle);
        if haystack_normalized.as_str().unicode_len() > 4294967295 {
            return None;
        }
        let score = match matcher_score(self, haystack_normalized.as_str(), needle_normalized.as_str()) {
            Some(s) => s,
            None => {
                return None;
            },
        };
        let positions = Self::find_match_positions(haystack_normalized.as_str(), needle_normalized.as_str());
        let match_type = Self::classify_match_type(
            haystack_normalized.as_str(),
            needle_normalized.as_str(),
            positions.as_slice(),
        );
        Some(FuzzyMatch { score: score as u32, positions, match_type })
    }

    /// The byte positions of the first exact, case-blind occurrence of
    /// `needle` in `haystack`.
    pub fn find_match_positions(haystack: &str, needle: &str) -> (r: Vec<u32>)
        ensures
            r@ == spec_positions(haystack@, needle@),
    {
        let haystack_lower = to_lowercase(haystack);
        let needle_lower = to_lowercase(needle);
        let hb = haystack_lower.as_str().as_bytes();
        let nb = needle_lower.as_str().as_bytes();
        let ghost hs = encode_utf8(lowercase(haystack@));
        let ghost ns = encode_utf8(lowercase(needle@));
        let mut found: Option<usize> = None;
        if nb.len() <= hb.len() {
            let limit = hb.len() - nb.len();
            let mut i: usize = 0;
            loop
                invariant_except_break
                    found is None,
                invariant
                    hb@ == hs,
                    nb@ == ns,
                    hb@.len() == hb.len(),
                    nb@.len() == nb.len(),
                    limit == hb@.len() - nb@.len(),
                    i <= limit,
                    byte_find(hs, ns, 0) == byte_find(hs, ns, i as int),
                ensures
                    found matches Some(p) ==> byte_find(hs, ns, 0) == Some(p as int),
                    found is None ==> byte_find(hs, ns, 0) is None,
                decreases limit - i,
            {
                let mut j: usize = 0;
                let mut same = true;
                assert(hs.subrange(i as int, i as int) =~= ns.subrange(0, 0));
                while j < nb.len()
                    invariant
                        hb@ == hs,
                        nb@ == ns,
                        hb@.len() == hb.len(),
                        nb@.len() == nb.len(),
                        i + nb@.len() <= hb@.len(),
                        j <= nb@.len(),
                        same == (hs.subrange(i as int, i + j) == ns.subrange(0, j as int)),
                    decreases nb@.len() - j,
                {
                    let ghost before = same;
                    if hb[i + j] != nb[j] {
                        same = false;
                    }
                    proof {
                        assert(hs.subrange(i as int, i + j + 1) =~= hs.subrange(i as int, i + j).push(hs[i + j]));
                        assert(ns.subrange(0, j + 1) =~= ns.subrange(0, j as int).push(ns[j as int]));
                        if before && hb@[i + j] == nb@[j as int] {
                            assert(same);
                        }
                        if !(hs.subrange(i as int, i + j) == ns.subrange(0, j as int)) {
                            assert(hs.subrange(i as int, i + j + 1).subrange(0, j as int) =~= hs.subrange(i as int, i + j));
                            assert(ns.subrange(0, j + 1).subrange(0, j as int) =~= ns.subrange(0, j as int));
                        }
                        if hb@[i + j] != nb@[j as int] {
                            assert(hs.subrange(i as int, i + j + 1)[j as int] != ns.subrange(0, j + 1)[j as int]);
                        }
                    }
                    j = j + 1;
                }
                assert(ns.subrange(0, ns.len() as int) =~= ns);
                if same {
                    found = Some(i);
                    break;
                }
                if i == limit {
                    assert(byte_find(hs, ns, i + 1) is None);
                    assert(hs.subrange(i as int, i + ns.len()) != ns);
                    break;
                }
                i = i + 1;
            }
        }
        let ghost bf = byte_find(hs, ns, 0);
        assert(found matches Some(p) ==> bf == Some(p as int));
        assert(found is None ==> bf is None);
        let mut out: Vec<u32> = Vec::new();
        if let Some(pos) = found {
            let len = needle.as_bytes().len();
            if len <= usize::MAX - pos {
                let end = pos + len;
                let mut k: usize = pos;
                while k < end
                    invariant
                        pos <= k <= end,
                        end == pos + len,
                        len == encode_utf8(needle@).len(),
                        out@ =~= Seq::new((k - pos) as nat, |q: int| (pos + q) as u32),
                    decreases end - k,
                {
                    out.push(#[verifier::truncate] (k as u32));
                    k = k + 1;
                }
            }
        }
        out
    }

    /// Composes a text to NFC for matching.
    fn normalize_for_matching(text: &str) -> (r: String)
        ensures
            r@ == nfc(text@),
    {
        nfc_text(text)
    }

    /// Where a match at `positions` of `needle` in `haystack` lies among the
    /// words of the haystack.
    pub fn classify_match_type(haystack: &str, needle: &str, positions: &[u32]) -> (r: MatchType)
        ensures
            r == spec_classify(haystack@, needle@, positions@),
    {
        if positions.len() == 0 {
            return MatchType::WordMiddle;
        }
        let needle_lower = to_lowercase(needle);
        let words = unicode_words(haystack);
        let ghost ws = views(words@);
        let mut i: usize = 0;
        while i < words.len()
            invariant
                i <= words@.len(),
                ws == views(words@),
                ws == unicode_words_of(haystack@),
                positions@.len() > 0,
                needle_lower@ == lowercase(needle@),
                forall|j: int| 0 <= j < i ==> lowercase(#[trigger] ws[j]) != lowercase(needle@),
            decreases words@.len() - i,
        {
            let wl = to_lowercase(words[i].as_str());
            if str_eq(wl.as_str(), needle_lower.as_str()) {
                assert(ws[i as int] == words@[i as int]@);
                assert(lowercase(ws[i as int]) == lowercase(needle@));
                assert(exists|k: int| 0 <= k < ws.len() && lowercase(#[trigger] ws[k]) == lowercase(needle@));
                return MatchType::FullWord;
            }
            i = i + 1;
        }
        let hc = chars_of(haystack);
        let hb = haystack.as_bytes().len();
        let first_pos = positions[0] as usize;
        let last_pos = positions[positions.len() - 1] as usize;
        let ghost h = haystack@;
        let mut word_start: usize = 0;
        let mut words_spanned: usize = 0;
        let mut i: usize = 0;
        while i < words.len()
            invariant
                i <= words@.len(),
                ws == views(words@),
                hc@ == h,
                h == haystack@,
                hb == byte_len(h),
                ws == unicode_words_of(haystack@),
                positions@.len() > 0,
                first_pos == positions@[0],
                last_pos == positions@.last(),
                forall|j: int| 0 <= j < ws.len() ==> lowercase(#[trigger] ws[j]) != lowercase(needle@),
                words_spanned <= 2,
                span_count(h, hb as nat, ws, first_pos as nat, last_pos as nat, 0, 0, 0)
                    == span_count(h, hb as nat, ws, first_pos as nat, last_pos as nat, i as int, word_start as nat, words_spanned as nat),
            decreases words@.len() - i,
        {
            let wlen = words[i].as_str().as_bytes().len();
            assert(ws[i as int] == words@[i as int]@);
            assert(wlen == byte_len(ws[i as int]));
            let word_end = if wlen <= usize::MAX - word_start { word_start + wlen } else { usize::MAX };
            if first_pos >= word_start && first_pos < word_end {
                words_spanned = words_spanned + 1;
            }
            if last_pos >= word_start && last_pos < word_end && first_pos < word_start {
                words_spanned = words_spanned + 1;
            }
            if words_spanned > 2 {
                words_spanned = 2;
            }
            word_start = word_end;
            while word_start < hb && word_start < hc.len() && is_white_space_char(hc[word_start])
                invariant
                    hc@ == h,
                    hb == byte_len(h),
                    skip_ws(h, hb as nat, word_end as nat) == skip_ws(h, hb as nat, word_start as nat),
                decreases hb - word_start,
            {
                word_start = word_start + 1;
            }
            i = i + 1;
        }
        if words_spanned > 1 {
            return MatchType::MultiWord;
        }
        let next: u64 = last_pos as u64 + 1;
        let next_is_boundary = next >= hc.len() as u64 || !char_is_alphanumeric(hc[next as usize]);
        if first_pos == 0 || (first_pos - 1 < hc.len() && !char_is_alphanumeric(hc[first_pos - 1])) {
            if next_is_boundary {
                return MatchType::FullWord;
            }
            return MatchType::WordStart;
        }
        if next_is_boundary {
            return MatchType::WordEnd;
        }
        MatchType::WordMiddle
    }

    /// Whether `needle` occurs in `haystack`, ignoring case; never for an
    /// empty needle.
    pub fn exact_match(&self, haystack: &str, needle: &str) -> (r: bool)
        ensures
            r == (needle@.len() > 0 && contains_seq(lowercase(haystack@), lowercase(needle@))),
    {
        if needle.is_empty() {
            return false;
        }
        let haystack_lower = to_lowercase(haystack);
        let needle_lower = to_lowercase(needle);
        contains_str(haystack_lower.as_str(), needle_lower.as_str())
    }
}

} // verus!
