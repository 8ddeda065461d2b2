//! Which requests go through a proxy: the `NO_PROXY` rules and the choice of
//! proxy for a request.
use vstd::prelude::*;
use crate::strings::{trim_ws, split_on, strip_all_prefix, split_str, trim};
use crate::text::{chars_of, string_from_chars, owned, str_eq, opt_view};

verus! {

/// The ASCII lowercase of a character: `A`..`Z` become `a`..`z`.
pub open spec fn ascii_lower_char(c: char) -> char {
    if 'A' <= c && c <= 'Z' {
        ((c as u32) + 32) as char
    } else {
        c
    }
}

/// The ASCII lowercase of a text, as `str::to_ascii_lowercase` gives it.
pub open spec fn ascii_lower(s: Seq<char>) -> Seq<char> {
    s.map_values(|c: char| ascii_lower_char(c))
}

/// Lowercases the ASCII letters of `s`, leaving every other character.
pub fn to_ascii_lowercase(s: &str) -> (r: String)
    ensures
        r@ == ascii_lower(s@),
{
    let cs = chars_of(s);
    let mut out: Vec<char> = Vec::new();
    let mut i: usize = 0;
    while i < cs.len()
        invariant
            i <= cs@.len(),
            cs@ == s@,
            out@ == ascii_lower(s@.take(i as int)),
        decreases cs@.len() - i,
    {
        let c = cs[i];
        let l = if 'A' <= c && c <= 'Z' {
            let b: u8 = ((c as u32) + 32) as u8;
            b as char
        } else {
            c
        };
        out.push(l);
        assert(ascii_lower(s@.take(i + 1)) =~= ascii_lower(s@.take(i as int)).push(ascii_lower_char(c)));
        i = i + 1;
    }
    assert(s@.take(cs@.len() as int) =~= s@);
    string_from_chars(out.as_slice())
}

/// A rule of `NO_PROXY`.
#[derive(Debug, Clone)]
pub enum NoProxyRule {
    /// `*`: no request uses a proxy.
    Wildcard,
    /// A host and every host under it.
    Domain(String),
    /// That host only.
    Exact(String),
}

/// A rule's content.
pub enum RuleModel {
    Wildcard,
    Domain(Seq<char>),
    Exact(Seq<char>),
}

impl NoProxyRule {
    /// The content of this rule.
    pub open spec fn model(&self) -> RuleModel {
        match self {
            NoProxyRule::Wildcard => RuleModel::Wildcard,
            NoProxyRule::Domain(d) => RuleModel::Domain(d@),
            NoProxyRule::Exact(e) => RuleModel::Exact(e@),
        }
    }
}

/// The pieces of a `NO_PROXY` value between its commas, trimmed.
pub open spec fn trimmed_pieces(val: Seq<char>) -> Seq<Seq<char>> {
    split_on(val, ',').map_values(|p: Seq<char>| trim_ws(p))
}

/// Whether a text is not empty.
pub open spec fn nonempty_text() -> spec_fn(Seq<char>) -> bool {
    |t: Seq<char>| t.len() > 0
}

/// The tokens of a `NO_PROXY` value: its comma-separated pieces, trimmed,
/// empty ones left out.
pub open spec fn no_proxy_token_list(val: Seq<char>) -> Seq<Seq<char>> {
    trimmed_pieces(val).filter(nonempty_text())
}

/// Splits a `NO_PROXY` value into its tokens.
pub fn no_proxy_tokens(val: &str) -> (r: Vec<String>)
    ensures
        r@.len() == no_proxy_token_list(val@).len(),
        forall|i: int| 0 <= i < r@.len() ==> #[trigger] r@[i]@ == no_proxy_token_list(val@)[i],
{
    let pieces = split_str(val, ',');
    let ghost ps = trimmed_pieces(val@);
    let ghost f = nonempty_text();
    let mut out: Vec<String> = Vec::new();
    let mut i: usize = 0;
    assert(ps.take(0).filter(f) =~= Seq::<Seq<char>>::empty()) by {
        reveal(Seq::filter);
    }
    while i < pieces.len()
        invariant
            i <= pieces@.len(),
            pieces@.len() == split_on(val@, ',').len(),
            forall|j: int| 0 <= j < pieces@.len() ==> #[trigger] pieces@[j]@ == split_on(val@, ',')[j],
            ps == trimmed_pieces(val@),
            f == nonempty_text(),
            out@.len() == ps.take(i as int).filter(f).len(),
            forall|j: int| 0 <= j < out@.len() ==> #[trigger] out@[j]@ == ps.take(i as int).filter(f)[j],
        decreases pieces@.len() - i,
    {
        let t = trim(pieces[i].as_str());
        let ghost before = out@;
        let ghost prev = ps.take(i as int).filter(f);
        assert(ps.take(i + 1).drop_last() =~= ps.take(i as int));
        assert(ps.take(i + 1).last() == t@);
        assert(ps.take(i + 1).filter(f) == if f(t@) { prev.push(t@) } else { prev }) by {
            reveal(Seq::filter);
        }
        if !t.as_str().is_empty() {
            out.push(t);
            assert forall|j: int| 0 <= j < out@.len() implies #[trigger] out@[j]@ == ps.take(i + 1).filter(f)[j] by {
                if j < before.len() {
                    assert(out@[j] == before[j]);
                }
            }
        }
        i = i + 1;
    }
    assert(ps.take(pieces@.len() as int) =~= ps);
    out
}

/// The rule a `NO_PROXY` token stands for: `*` for every host; a leading `.`
/// for the domain after the dots; `localhost` or an IP address (`is_ip`:
/// whether the lowercased token reads as one) for that host alone; any
/// other token for a domain. Hosts and domains are lowercased.
pub open spec fn spec_rule(token: Seq<char>, is_ip: bool) -> RuleModel {
    if token == seq!['*'] {
        RuleModel::Wildcard
    } else if token.len() > 0 && token[0] == '.' {
        RuleModel::Domain(ascii_lower(strip_all_prefix(token, seq!['.'])))
    } else if ascii_lower(token) == "localhost"@ || is_ip {
        RuleModel::Exact(ascii_lower(token))
    } else {
        RuleModel::Domain(ascii_lower(token))
    }
}

/// The rule of one `NO_PROXY` token; `is_ip` tells whether the lowercased
/// token reads as an IP address.
pub fn no_proxy_rule(token: &str, is_ip: bool) -> (r: NoProxyRule)
    ensures
        r.model() == spec_rule(token@, is_ip),
{
    proof {
        reveal_strlit("*");
        assert("*"@ =~= seq!['*']);
    }
    if str_eq(token, "*") {
        return NoProxyRule::Wildcard;
    }
    let cs = chars_of(token);
    if cs.len() > 0 && cs[0] == '.' {
        let mut start: usize = 0;
        let ghost dot = seq!['.'];
        assert(token@.skip(0) =~= token@);
        while start < cs.len() && cs[start] == '.'
            invariant
                start <= cs@.len(),
                cs@ == token@,
                dot == seq!['.'],
                strip_all_prefix(token@, dot) == strip_all_prefix(token@.skip(start as int), dot),
            decreases cs@.len() - start,
        {
            let ghost rest = token@.skip(start as int);
            assert(cs@[start as int] == '.');
            assert(rest[0] == cs@[start as int]);
            assert(rest.take(1)[0] == dot[0]);
            assert(rest.take(1) =~= dot);
            assert(rest.skip(1) =~= token@.skip(start + 1));
            start = start + 1;
        }
        proof {
            let rest = token@.skip(start as int);
            if rest.len() > 0 {
                assert(rest[0] == cs@[start as int]);
                assert(rest.take(1)[0] != dot[0]);
            }
        }
        let tail = string_from_chars(&cs[start..cs.len()]);
        assert(tail@ =~= token@.skip(start as int));
        return NoProxyRule::Domain(to_ascii_lowercase(tail.as_str()));
    }
    let t = to_ascii_lowercase(token);
    if str_eq(t.as_str(), "localhost") || is_ip {
        NoProxyRule::Exact(t)
    } else {
        NoProxyRule::Domain(t)
    }
}

/// `p` ends `s`.
pub open spec fn has_suffix(s: Seq<char>, p: Seq<char>) -> bool {
    p.len() <= s.len() && s.subrange(s.len() - p.len(), s.len() as int) == p
}

/// Whether the text `s` ends with `p`.
fn ends_with(s: &[char], p: &[char]) -> (r: bool)
    ensures
        r == has_suffix(s@, p@),
{
    if p.len() > s.len() {
        return false;
    }
    let off = s.len() - p.len();
    let mut i: usize = 0;
    while i < p.len()
        invariant
            off + p@.len() == s@.len(),
            s@.len() == s.len(),
            p@.len() == p.len(),
            i <= p@.len(),
            forall|j: int| 0 <= j < i ==> s@[off + j] == p@[j],
        decreases p@.len() - i,
    {
        assert(off + i < s@.len());
        if s[off + i] != p[i] {
            assert(s@.subrange(off as int, s@.len() as int)[i as int] != p@[i as int]);
            return false;
        }
        i = i + 1;
    }
    assert(s@.subrange(off as int, s@.len() as int) =~= p@);
    true
}

/// Whether a rule covers the lowercased host `h`: a domain covers itself and
/// every host that ends with `.` and the domain.
pub open spec fn rule_covers(r: RuleModel, h: Seq<char>) -> bool {
    match r {
        RuleModel::Wildcard => true,
        RuleModel::Exact(ex) => h == ex,
        RuleModel::Domain(suf) => h == suf || has_suffix(h, seq!['.'] + suf),
    }
}

/// Whether a request to `host` goes around the proxy: the host is not empty
/// and one of the rules covers it, lowercased.
pub open spec fn spec_bypass(host: Seq<char>, rules: Seq<RuleModel>) -> bool {
    host.len() > 0 && exists|i: int| 0 <= i < rules.len() && rule_covers(#[trigger] rules[i], ascii_lower(host))
}

/// The contents of a list of rules.
pub open spec fn rule_models(rules: Seq<NoProxyRule>) -> Seq<RuleModel> {
    rules.map_values(|r: NoProxyRule| r.model())
}

/// Whether a request to `host` goes around the proxy under `rules`.
pub fn should_bypass_proxy(host: &str, rules: &[NoProxyRule]) -> (r: bool)
    ensures
        r == spec_bypass(host@, rule_models(rules@)),
{
    let hs = chars_of(host);
    if hs.len() == 0 {
        return false;
    }
    let lower = to_ascii_lowercase(host);
    let lc = chars_of(lower.as_str());
    let ghost ms = rule_models(rules@);
    let mut i: usize = 0;
    while i < rules.len()
        invariant
            i <= rules@.len(),
            ms == rule_models(rules@),
            host@.len() > 0,
            lc@ == ascii_lower(host@),
            lower@ == ascii_lower(host@),
            forall|j: int| 0 <= j < i ==> !rule_covers(#[trigger] ms[j], ascii_lower(host@)),
        decreases rules@.len() - i,
    {
        assert(ms[i as int] == rules@[i as int].model());
        match &rules[i] {
            NoProxyRule::Wildcard => {
                return true;
            },
            NoProxyRule::Exact(ex) => {
                if str_eq(lower.as_str(), ex.as_str()) {
                    return true;
                }
            },
            NoProxyRule::Domain(suf) => {
                if str_eq(lower.as_str(), suf.as_str()) {
                    return true;
                }
                let mut dotted: Vec<char> = vec!['.'];
                let sc = chars_of(suf.as_str());
                let mut k: usize = 0;
                while k < sc.len()
                    invariant
                        k <= sc@.len(),
                        dotted@ == seq!['.'] + sc@.take(k as int),
                    decreases sc@.len() - k,
                {
                    dotted.push(sc[k]);
                    assert(sc@.take(k + 1) =~= sc@.take(k as int).push(sc@[k as int]));
                    k = k + 1;
                }
                assert(sc@.take(sc@.len() as int) =~= sc@);
                if ends_with(lc.as_slice(), dotted.as_slice()) {
                    return true;
                }
            },
        }
        i = i + 1;
    }
    false
}

/// The proxy a request to `host` over `scheme` goes through: none when the
/// rules exempt the host; for `https` the HTTPS proxy, else the HTTP one;
/// for `http` the other way round; none for any other scheme.
pub open spec fn spec_select_proxy(
    host: Seq<char>,
    scheme: Seq<char>,
    https_proxy: Option<Seq<char>>,
    http_proxy: Option<Seq<char>>,
    rules: Seq<RuleModel>,
) -> Option<Seq<char>> {
    if spec_bypass(host, rules) {
        None
    } else if scheme == "https"@ {
        if https_proxy is Some {
            https_proxy
        } else {
            http_proxy
        }
    } else if scheme == "http"@ {
        if http_proxy is Some {
            http_proxy
        } else {
            https_proxy
        }
    } else {
        None
    }
}

/// The text of an optional string slice.
pub open spec fn opt_str(o: Option<&str>) -> Option<Seq<char>> {
    match o {
        Some(s) => Some(s@),
        None => None,
    }
}

/// Chooses the proxy for a request to `host` over `scheme`.
pub fn select_proxy(
    host: &str,
    scheme: &str,
    https_proxy: Option<&str>,
    http_proxy: Option<&str>,
    rules: &[NoProxyRule],
) -> (r: Option<String>)
    ensures
        opt_view(r) == spec_select_proxy(host@, scheme@, opt_str(https_proxy), opt_str(http_proxy), rule_models(rules@)),
{
    if should_bypass_proxy(host, rules) {
        return None;
    }
    let first = if str_eq(scheme, "https") {
        match https_proxy {
            Some(p) => Some(p),
            None => http_proxy,
        }
    } else if str_eq(scheme, "http") {
        match http_proxy {
            Some(p) => Some(p),
            None => https_proxy,
        }
    } else {
        None
    };
    match first {
        Some(p) => Some(owned(p)),
        None => None,
    }
}

} // verus!
