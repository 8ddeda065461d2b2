//! Search query parsing: quoted phrases are taken out for exact matching,
//! the rest is split into lowercase words without stop words.
use vstd::prelude::*;
use crate::bluesky::records::views;
use crate::text::{chars_of, owned, push_char, string_from_chars, lowercase, to_lowercase, str_eq};

verus! {

/// The words of a text as `UnicodeSegmentation::unicode_words` yields them
/// (UAX #29 word segments that hold a letter or a number).
pub uninterp spec fn unicode_words_of(s: Seq<char>) -> Seq<Seq<char>>;

/// Splits a text into words (`UnicodeSegmentation::unicode_words`); the
/// words are those named by `unicode_words_of`, whose segmentation rules are
/// not spelled out here.
#[verifier::external_body]
pub(crate) fn unicode_words(s: &str) -> (r: Vec<String>)
    ensures
        views(r@) == unicode_words_of(s@),
{
    unicode_segmentation::UnicodeSegmentation::unicode_words(s).map(String::from).collect()
}

/// Words left out of word-by-word search.
pub open spec fn is_stop_word(w: Seq<char>) -> bool {
    ||| w == "a"@ ||| w == "an"@ ||| w == "and"@ ||| w == "are"@ ||| w == "as"@ ||| w == "at"@
    ||| w == "be"@ ||| w == "by"@ ||| w == "for"@ ||| w == "from"@ ||| w == "has"@ ||| w == "he"@
    ||| w == "in"@ ||| w == "is"@ ||| w == "it"@ ||| w == "its"@ ||| w == "of"@ ||| w == "on"@
    ||| w == "or"@ ||| w == "that"@ ||| w == "the"@ ||| w == "to"@ ||| w == "was"@ ||| w == "will"@
    ||| w == "with"@ ||| w == "i"@ ||| w == "you"@
}

/// A parsed search query.
#[derive(Debug, Clone, PartialEq)]
pub struct ParsedQuery {
    /// The query as given.
    pub original: String,
    /// The whole query, for full-text matching.
    pub whole_query: String,
    /// Lowercase words outside quotes, without stop words.
    pub individual_words: Vec<String>,
    /// The non-empty texts between matching quotes.
    pub quoted_phrases: Vec<String>,
}

/// Reads a quoted phrase from position `i` (just after the opening quote
/// `q`) of `s`: `\` takes the next character literally. Gives the phrase,
/// whether the closing quote was found, and the position after the phrase.
pub open spec fn scan_phrase(s: Seq<char>, q: char, i: int, acc: Seq<char>) -> (Seq<char>, bool, int)
    decreases s.len() - i,
{
    if i < 0 || i >= s.len() {
        (acc, false, i)
    } else if s[i] == q {
        (acc, true, i + 1)
    } else if s[i] == '\\' {
        if i + 1 < s.len() {
            scan_phrase(s, q, i + 2, acc.push(s[i + 1]))
        } else {
            (acc, false, i + 1)
        }
    } else {
        scan_phrase(s, q, i + 1, acc.push(s[i]))
    }
}

/// Splits `s` from position `i` on into quoted phrases and the remaining
/// text: a phrase opens with `"` or `'` and closes with the same quote; an
/// empty phrase is dropped; an unclosed one stays in the text, its quote
/// included, as read (without the backslashes).
pub open spec fn scan_query(s: Seq<char>, i: int, phrases: Seq<Seq<char>>, rem: Seq<char>) -> (
    Seq<Seq<char>>,
    Seq<char>,
)
    decreases s.len() - i,
{
    if i < 0 || i >= s.len() {
        (phrases, rem)
    } else if s[i] == '"' || s[i] == '\'' {
        let (ph, closed, j) = scan_phrase(s, s[i], i + 1, Seq::empty());
        if j <= i || j > s.len() {
            (phrases, rem)
        } else if closed && ph.len() > 0 {
            scan_query(s, j, phrases.push(ph), rem)
        } else if !closed {
            scan_query(s, j, phrases, rem.push(s[i]) + ph)
        } else {
            scan_query(s, j, phrases, rem)
        }
    } else {
        scan_query(s, i + 1, phrases, rem.push(s[i]))
    }
}

/// The lowercase forms of `ws` that are not stop words, in order.
pub open spec fn kept_words(ws: Seq<Seq<char>>) -> Seq<Seq<char>>
    decreases ws.len(),
{
    if ws.len() == 0 {
        Seq::empty()
    } else {
        let rest = kept_words(ws.drop_last());
        let w = lowercase(ws.last());
        if is_stop_word(w) {
            rest
        } else {
            rest.push(w)
        }
    }
}

/// Reading a phrase moves forward.
proof fn lemma_scan_phrase_moves(s: Seq<char>, q: char, i: int, acc: Seq<char>)
    requires
        0 <= i,
    ensures
        scan_phrase(s, q, i, acc).2 >= i,
        scan_phrase(s, q, i, acc).2 <= s.len() || scan_phrase(s, q, i, acc).2 == i,
    decreases s.len() - i,
{
    if i < s.len() && s[i] != q {
        if s[i] == '\\' {
            if i + 1 < s.len() {
                lemma_scan_phrase_moves(s, q, i + 2, acc.push(s[i + 1]));
            }
        } else {
            lemma_scan_phrase_moves(s, q, i + 1, acc.push(s[i]));
        }
    }
}


/// Reading the phrase of `q + text + q` from inside it gives `text`, closed,
/// and ends after the closing quote.
proof fn lemma_scan_plain_phrase(s: Seq<char>, q: char, text: Seq<char>, i: int)
    requires
        s == seq![q] + text + seq![q],
        forall|k: int| 0 <= k < text.len() ==> text[k] != q && text[k] != '\\',
        1 <= i <= text.len() + 1,
    ensures
        scan_phrase(s, q, i, text.take(i - 1)) == (text, true, text.len() + 2int),
    decreases s.len() - i,
{
    if i == text.len() + 1 {
        assert(s[i] == q);
        assert(text.take(i - 1) =~= text);
    } else {
        assert(s[i] == text[i - 1]);
        assert(text.take(i - 1).push(text[i - 1]) =~= text.take(i));
        lemma_scan_plain_phrase(s, q, text, i + 1);
    }
}

/// Reading a phrase that opens at `o` with `q`, holds `text` and closes
/// with `q` gives `text`, closed, and ends after the closing quote.
proof fn lemma_scan_phrase_at(s: Seq<char>, q: char, o: int, text: Seq<char>, i: int)
    requires
        0 <= o,
        o + text.len() + 2 <= s.len(),
        s.subrange(o + 1, o + 1 + text.len()) == text,
        s[o + 1 + text.len()] == q,
        forall|k: int| 0 <= k < text.len() ==> text[k] != q && text[k] != '\\',
        o + 1 <= i <= o + 1 + text.len(),
    ensures
        scan_phrase(s, q, i, text.take(i - o - 1)) == (text, true, o + text.len() + 2),
    decreases s.len() - i,
{
    if i == o + 1 + text.len() {
        assert(text.take(i - o - 1) =~= text);
    } else {
        assert(s[i] == s.subrange(o + 1, o + 1 + text.len())[i - o - 1]);
        assert(text.take(i - o - 1).push(text[i - o - 1]) =~= text.take(i - o));
        lemma_scan_phrase_at(s, q, o, text, i + 1);
    }
}

/// Text without quote characters passes into the remaining text as it is.
proof fn lemma_scan_plain_text(s: Seq<char>, i: int, j: int, phrases: Seq<Seq<char>>, rem: Seq<char>)
    requires
        0 <= i <= j <= s.len(),
        forall|k: int| i <= k < j ==> s[k] != '"' && s[k] != '\'',
    ensures
        scan_query(s, i, phrases, rem) == scan_query(s, j, phrases, rem + s.subrange(i, j)),
    decreases j - i,
{
    if i == j {
        assert(rem + s.subrange(i, j) =~= rem);
    } else {
        lemma_scan_plain_text(s, i + 1, j, phrases, rem.push(s[i]));
        assert(rem.push(s[i]) + s.subrange(i + 1, j) =~= rem + s.subrange(i, j));
    }
}

/// A phrase between matching quotes comes out whole, wherever it stands:
/// for a query `a + q + text + q + b`, with `a` and `b` free of quote
/// characters and a non-empty `text` that holds neither `q` nor a
/// backslash, the phrases are `[text]` and the text left for words is
/// `a + b`, whatever other quote characters `text` holds.
pub proof fn law_phrase_in_query(a: Seq<char>, q: char, text: Seq<char>, b: Seq<char>)
    requires
        q == '"' || q == '\'',
        text.len() > 0,
        forall|k: int| 0 <= k < text.len() ==> text[k] != q && text[k] != '\\',
        forall|k: int| 0 <= k < a.len() ==> a[k] != '"' && a[k] != '\'',
        forall|k: int| 0 <= k < b.len() ==> b[k] != '"' && b[k] != '\'',
    ensures
        scan_query(a + seq![q] + text + seq![q] + b, 0, Seq::empty(), Seq::empty()) == (seq![text], a + b),
{
    let s = a + seq![q] + text + seq![q] + b;
    let o = a.len() as int;
    let e = o + text.len() + 2;
    assert(s.subrange(0, o) =~= a);
    assert(s.subrange(o + 1, o + 1 + text.len()) =~= text);
    assert(s.subrange(e, s.len() as int) =~= b);
    assert forall|k: int| 0 <= k < o implies s[k] != '"' && s[k] != '\'' by {
        assert(s[k] == a[k]);
    }
    assert forall|k: int| e <= k < s.len() implies s[k] != '"' && s[k] != '\'' by {
        assert(s[k] == b[k - e]);
    }
    lemma_scan_plain_text(s, 0, o, Seq::empty(), Seq::empty());
    assert(Seq::<char>::empty() + s.subrange(0, o) =~= a);
    assert(text.take(0) =~= Seq::<char>::empty());
    assert(s[o] == q);
    assert(s[o + 1 + text.len()] == q);
    lemma_scan_phrase_at(s, q, o, text, o + 1);
    assert(Seq::<Seq<char>>::empty().push(text) =~= seq![text]);
    assert(scan_query(s, o, Seq::empty(), a) == scan_query(s, e, seq![text], a));
    lemma_scan_plain_text(s, e, s.len() as int, seq![text], a);
    assert(a + s.subrange(e, s.len() as int) =~= a + b);
}

/// A quoted phrase closes only on the quote that opened it: a query that is
/// a non-empty `text` between two quotes `q` (`"` or `'`), where `text`
/// holds neither `q` nor a backslash, is that one phrase and leaves no
/// other text, whatever other quote characters `text` holds.
pub proof fn law_quoted_phrase(q: char, text: Seq<char>)
    requires
        q == '"' || q == '\'',
        text.len() > 0,
        forall|k: int| 0 <= k < text.len() ==> text[k] != q && text[k] != '\\',
    ensures
        scan_query(seq![q] + text + seq![q], 0, Seq::empty(), Seq::empty()) == (seq![text], Seq::<char>::empty()),
{
    let s = seq![q] + text + seq![q];
    assert(text.take(0) =~= Seq::<char>::empty());
    lemma_scan_plain_phrase(s, q, text, 1);
    assert(s[0] == q);
    assert(s.len() == text.len() + 2);
    assert(scan_phrase(s, s[0], 1, Seq::empty()) == (text, true, text.len() + 2int));
    assert(Seq::<Seq<char>>::empty().push(text) =~= seq![text]);
    assert(scan_query(s, s.len() as int, seq![text], Seq::empty()) == (seq![text], Seq::<char>::empty()));
    assert(scan_query(s, 0, Seq::empty(), Seq::empty()) == scan_query(s, s.len() as int, Seq::<Seq<char>>::empty().push(text), Seq::empty()));
}

/// Query parsing.
pub struct QueryParser;

/// Whether `word` is a stop word.
fn stop_word(word: &str) -> (r: bool)
    ensures
        r == is_stop_word(word@),
{
    str_eq(word, "a") || str_eq(word, "an") || str_eq(word, "and") || str_eq(word, "are") || str_eq(word, "as")
        || str_eq(word, "at") || str_eq(word, "be") || str_eq(word, "by") || str_eq(word, "for") || str_eq(
        word,
        "from",
    ) || str_eq(word, "has") || str_eq(word, "he") || str_eq(word, "in") || str_eq(word, "is") || str_eq(
        word,
        "it",
    ) || str_eq(word, "its") || str_eq(word, "of") || str_eq(word, "on") || str_eq(word, "or") || str_eq(
        word,
        "that",
    ) || str_eq(word, "the") || str_eq(word, "to") || str_eq(word, "was") || str_eq(word, "will")
        || str_eq(word, "with") || str_eq(word, "i") || str_eq(word, "you")
}

impl QueryParser {
    /// Parses a search query: quoted phrases, and the lowercase words of the
    /// rest without stop words.
    pub fn parse(query: &str) -> (r: ParsedQuery)
        ensures
            r.original@ == query@,
            r.whole_query@ == query@,
            views(r.quoted_phrases@) == scan_query(query@, 0, Seq::empty(), Seq::empty()).0,
            views(r.individual_words@) == kept_words(unicode_words_of(scan_query(query@, 0, Seq::empty(), Seq::empty()).1)),
            forall|q: char, text: Seq<char>|
                #![trigger seq![q] + text + seq![q]]
                (q == '"' || q == '\'') && text.len() > 0 && query@ == seq![q] + text + seq![q] && (forall|k: int|
                    0 <= k < text.len() ==> text[k] != q && text[k] != '\\') ==> views(r.quoted_phrases@) == seq![text],
            forall|a: Seq<char>, q: char, text: Seq<char>, b: Seq<char>|
                #![trigger a + seq![q] + text + seq![q] + b]
                (q == '"' || q == '\'') && text.len() > 0 && query@ == a + seq![q] + text + seq![q] + b && (forall|k: int|
                    0 <= k < text.len() ==> text[k] != q && text[k] != '\\') && (forall|k: int|
                    0 <= k < a.len() ==> a[k] != '"' && a[k] != '\'') && (forall|k: int|
                    0 <= k < b.len() ==> b[k] != '"' && b[k] != '\'') ==> views(r.quoted_phrases@) == seq![text]
                    && views(r.individual_words@) == kept_words(unicode_words_of(a + b)),
    {
        let original = owned(query);
        let (quoted_phrases, query_without_quotes) = Self::extract_quoted_phrases(query);
        let whole_query = owned(query);
        let individual_words = Self::tokenize_and_filter(query_without_quotes.as_str());
        proof {
            assert forall|q: char, text: Seq<char>|
                (q == '"' || q == '\'') && text.len() > 0 && query@ == seq![q] + text + seq![q] && (forall|k: int|
                    0 <= k < text.len() ==> text[k] != q && text[k] != '\\') implies views(quoted_phrases@) == seq![text] by {
                law_quoted_phrase(q, text);
            }
            assert forall|a: Seq<char>, q: char, text: Seq<char>, b: Seq<char>|
                (q == '"' || q == '\'') && text.len() > 0 && query@ == a + seq![q] + text + seq![q] + b && (forall|k: int|
                    0 <= k < text.len() ==> text[k] != q && text[k] != '\\') && (forall|k: int|
                    0 <= k < a.len() ==> a[k] != '"' && a[k] != '\'') && (forall|k: int|
                    0 <= k < b.len() ==> b[k] != '"' && b[k] != '\'') implies views(quoted_phrases@) == seq![text]
                    && views(individual_words@) == kept_words(unicode_words_of(a + b)) by {
                law_phrase_in_query(a, q, text, b);
            }
        }
        ParsedQuery { original, whole_query, individual_words, quoted_phrases }
    }

    /// Takes the quoted phrases out of `query`: the phrases, and the text
    /// without them.
    fn extract_quoted_phrases(query: &str) -> (r: (Vec<String>, String))
        ensures
            (views(r.0@), r.1@) == scan_query(query@, 0, Seq::empty(), Seq::empty()),
    {
        let s = chars_of(query);
        let ghost target = scan_query(s@, 0, Seq::empty(), Seq::empty());
        let mut phrases: Vec<String> = Vec::new();
        let mut remaining = String::new();
        let mut i: usize = 0;
        assert(views(phrases@) =~= Seq::<Seq<char>>::empty());
        while i < s.len()
            invariant
                i <= s@.len(),
                s@ == query@,
                target == scan_query(s@, 0, Seq::empty(), Seq::empty()),
                target == scan_query(s@, i as int, views(phrases@), remaining@),
            decreases s@.len() - i,
        {
            let ch = s[i];
            if ch == '"' || ch == '\'' {
                let quote_char = ch;
                let mut j: usize = i + 1;
                let mut phrase: Vec<char> = Vec::new();
                let mut found_closing = false;
                let ghost whole = scan_phrase(s@, quote_char, i + 1, Seq::empty());
                while j < s.len()
                    invariant_except_break
                        i < j,
                        j <= s@.len(),
                        !found_closing,
                        whole == scan_phrase(s@, quote_char, j as int, phrase@),
                    invariant
                        i < j,
                        j <= s@.len(),
                        whole == scan_phrase(s@, quote_char, i + 1, Seq::empty()),
                    ensures
                        i < j <= s@.len(),
                        whole == (phrase@, found_closing, j as int),
                    decreases s@.len() - j,
                {
                    let c = s[j];
                    if c == quote_char {
                        j = j + 1;
                        found_closing = true;
                        break;
                    } else if c == '\\' {
                        if j + 1 < s.len() {
                            phrase.push(s[j + 1]);
                            j = j + 2;
                        } else {
                            j = j + 1;
                            break;
                        }
                    } else {
                        phrase.push(c);
                        j = j + 1;
                    }
                }
                let ghost before_phrases = views(phrases@);
                let ghost before_rem = remaining@;
                if found_closing && phrase.len() > 0 {
                    let p = string_from_chars(phrase.as_slice());
                    phrases.push(p);
                    assert(views(phrases@) =~= before_phrases.push(phrase@));
                } else if !found_closing {
                    push_char(&mut remaining, quote_char);
                    crate::text::push_chars(&mut remaining, phrase.as_slice());
                }
                proof {
                    lemma_scan_phrase_moves(s@, quote_char, i + 1, Seq::empty());
                }
                i = j;
            } else {
                push_char(&mut remaining, ch);
                i = i + 1;
            }
        }
        (phrases, remaining)
    }

    /// The lowercase words of `text` that are not stop words.
    fn tokenize_and_filter(text: &str) -> (r: Vec<String>)
        ensures
            views(r@) == kept_words(unicode_words_of(text@)),
    {
        let words = unicode_words(text);
        let mut out: Vec<String> = Vec::new();
        let mut i: usize = 0;
        while i < words.len()
            invariant
                i <= words@.len(),
                views(words@) == unicode_words_of(text@),
                views(out@) == kept_words(views(words@).take(i as int)),
            decreases words@.len() - i,
        {
            assert(views(words@).take(i + 1).drop_last() =~= views(words@).take(i as int));
            let lower = to_lowercase(words[i].as_str());
            let ghost prev = out@;
            if !stop_word(lower.as_str()) {
                out.push(lower);
                assert(views(out@) =~= views(prev).push(lower@));
            }
            i = i + 1;
        }
        assert(views(words@).take(words@.len() as int) =~= views(words@));
        out
    }

    /// Whether `word` is a stop word.
    pub fn is_stop_word(word: &str) -> (r: bool)
        ensures
            r == is_stop_word(word@),
    {
        stop_word(word)
    }
}

} // verus!
