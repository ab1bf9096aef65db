//! Pattern compilation: turns raw keyword strings into compiled regexes, one
//! per keyword and order-preserving — literal keywords are escaped first, and
//! case-insensitive matching is requested at the pattern level so the
//! original-case match is still highlighted.
use vstd::prelude::*;

verus! {

#[verifier::external_type_specification]
#[verifier::external_body]
pub struct ExRegex(regex::Regex);

/// The pattern string a compiled regex was built from (what `Regex::as_str`
/// returns).
pub uninterp spec fn re_pattern(re: regex::Regex) -> Seq<char>;

/// Whether `regex::Regex::new` accepts a pattern text.
pub uninterp spec fn re_compiles(pat: Seq<char>) -> bool;

/// The escaped form that `regex::escape` produces.
pub uninterp spec fn re_escaped(s: Seq<char>) -> Seq<char>;

/// Relies on regex's `Regex::new`: whether a pattern compiles depends on the
/// pattern text alone, and a compiled regex retains that text
/// (`Regex::as_str`). A rejection is folded to its display text.
#[verifier::external_body]
fn regex_new(pat: &str) -> (r: Result<regex::Regex, String>)
    ensures
        (r is Ok) <==> re_compiles(pat@),
        r matches Ok(re) ==> re_pattern(re) == pat@,
{
    match regex::Regex::new(pat) {
        Ok(re) => Ok(re),
        Err(e) => Err(e.to_string()),
    }
}

/// Whether the regex compiled from `pat` by `Regex::new` matches anywhere
/// in `hay`.
pub uninterp spec fn re_matches(pat: Seq<char>, hay: Seq<char>) -> bool;

/// Relies on regex's `Regex::is_match`: deterministic in the pattern text
/// and the haystack for a regex built by `Regex::new` — the only way this
/// crate builds one (a builder-configured regex could behave differently
/// under the same pattern text).
#[verifier::external_body]
pub(crate) fn regex_is_match(re: &regex::Regex, hay: &str) -> (b: bool)
    ensures
        b == re_matches(re_pattern(*re), hay@),
{
    re.is_match(hay)
}

/// Relies on regex's `escape`: escapes every regex meta character, a
/// function of the input text alone; its documentation promises the result
/// "may be safely used as a literal in a regular expression", so it
/// compiles, bare or behind the `(?i)` flag.
#[verifier::external_body]
fn regex_escape(s: &str) -> (r: String)
    ensures
        r@ == re_escaped(s@),
        re_compiles(r@),
        re_compiles(seq!['(', '?', 'i', ')'] + r@),
{
    regex::escape(s)
}

/// The pattern text built for one keyword: the keyword itself in regex mode,
/// its escaped form in literal mode, prefixed with `(?i)` when matching is
/// case-insensitive.
pub open spec fn pattern_text(kw: Seq<char>, cs: bool, regex_mode: bool) -> Seq<char> {
    let base = if regex_mode {
        kw
    } else {
        re_escaped(kw)
    };
    if cs {
        base
    } else {
        seq!['(', '?', 'i', ')'] + base
    }
}

/// The pattern text built for one keyword in regex mode — the same as
/// [`pattern_text`] with `regex_mode` set, spelled without the escape so
/// that preconditions over it name no escaped form.
pub open spec fn regex_mode_text(kw: Seq<char>, cs: bool) -> Seq<char> {
    if cs {
        kw
    } else {
        seq!['(', '?', 'i', ')'] + kw
    }
}

/// The pattern texts of a sequence of compiled regexes.
pub open spec fn pats_of(ps: Seq<regex::Regex>) -> Seq<Seq<char>> {
    ps.map_values(|p: regex::Regex| re_pattern(p))
}

/// A keyword whose pattern failed to compile, with the parser's message.
#[derive(Debug)]
pub struct InvalidPatternError {
    pub keyword: String,
    pub message: String,
}

/// Builds the pattern text for one keyword.
fn build_pattern_text(kw: &str, cs: bool, regex_mode: bool) -> (r: String)
    ensures
        r@ == pattern_text(kw@, cs, regex_mode),
        !regex_mode ==> re_compiles(r@),
{
    let base: String = if regex_mode {
        kw.to_owned()
    } else {
        regex_escape(kw)
    };
    if cs {
        base
    } else {
        proof {
            reveal_strlit("(?i)");
        }
        let mut r: String = "(?i)".to_owned();
        assert(r@ =~= seq!['(', '?', 'i', ')']);
        r.append(base.as_str());
        r
    }
}

/// Compiles every keyword, in order. Returns `Ok` exactly when every
/// keyword's pattern text compiles — in literal mode the escaped texts
/// always do, so failure is regex-mode only — otherwise identifies the
/// first keyword that does not.
#[verifier::loop_isolation(false)]
pub fn compile_patterns(keywords: &Vec<String>, cs: bool, regex_mode: bool) -> (r: Result<
    Vec<regex::Regex>,
    InvalidPatternError,
>)
    ensures
        (r is Ok) <==> (forall|k: int|
            0 <= k < keywords.deep_view().len() ==> re_compiles(
                pattern_text(#[trigger] keywords.deep_view()[k], cs, regex_mode),
            )),
        !regex_mode ==> r is Ok,
        r matches Ok(ps) ==> ps@.len() == keywords@.len() && (forall|k: int|
            0 <= k < ps@.len() ==> re_pattern(#[trigger] ps@[k]) == pattern_text(
                keywords.deep_view()[k],
                cs,
                regex_mode,
            )),
        r matches Err(e) ==> exists|k: int|
            0 <= k < keywords.deep_view().len() && !re_compiles(
                pattern_text(#[trigger] keywords.deep_view()[k], cs, regex_mode),
            ) && e.keyword@ == keywords.deep_view()[k] && (forall|j: int|
                0 <= j < k ==> re_compiles(
                    pattern_text(#[trigger] keywords.deep_view()[j], cs, regex_mode),
                )),
{
    let ghost kws = keywords.deep_view();
    let mut ps: Vec<regex::Regex> = Vec::new();
    let mut k: usize = 0;
    while k < keywords.len()
        invariant
            k <= keywords.len(),
            kws == keywords.deep_view(),
            ps@.len() == k,
            forall|j: int|
                0 <= j < k ==> re_pattern(#[trigger] ps@[j]) == pattern_text(
                    kws[j],
                    cs,
                    regex_mode,
                ),
            forall|j: int|
                0 <= j < k ==> re_compiles(pattern_text(#[trigger] kws[j], cs, regex_mode)),
        decreases keywords.len() - k,
    {
        proof {
            assert(kws[k as int] == keywords@[k as int]@);
        }
        let text = build_pattern_text(keywords[k].as_str(), cs, regex_mode);
        match regex_new(text.as_str()) {
            Ok(re) => {
                ps.push(re);
            },
            Err(msg) => {
                return Err(
                    InvalidPatternError { keyword: keywords[k].clone(), message: msg },
                );
            },
        }
        k = k + 1;
    }
    Ok(ps)
}

} // verus!
