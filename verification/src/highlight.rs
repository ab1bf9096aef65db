//! Highlighting: wraps matched spans of a line in ANSI styles. Supports a
//! single fixed style, a rotating palette that assigns one style per keyword,
//! and fuzzy-mode token highlighting.
use vstd::prelude::*;

use crate::distance::{edit_distance, edit_distance_chars};
use crate::normalize::{norm, normalize};
use crate::pattern::{pats_of, re_pattern};
use crate::text::{from_chars, to_chars, tokenize, tokens_of};

verus! {

/// The terminal styles the renderer uses.
pub enum TermStyle {
    RedBold,
    GreenBold,
    YellowBold,
    BlueBold,
    PurpleBold,
    GreenPlain,
    Dimmed,
}

/// A stable code for each style, so that the uninterpreted prefix/suffix
/// functions can be indexed by plain values.
pub open spec fn style_code(s: TermStyle) -> int {
    match s {
        TermStyle::RedBold => 0,
        TermStyle::GreenBold => 1,
        TermStyle::YellowBold => 2,
        TermStyle::BlueBold => 3,
        TermStyle::PurpleBold => 4,
        TermStyle::GreenPlain => 5,
        TermStyle::Dimmed => 6,
    }
}

/// The ANSI escape sequence that `ansi_term` emits before text painted in the
/// style with this code.
pub uninterp spec fn style_prefix(code: int) -> Seq<char>;

/// The ANSI escape sequence that `ansi_term` emits after text painted in the
/// style with this code.
pub uninterp spec fn style_suffix(code: int) -> Seq<char>;

/// Text painted in a style: `ansi_term` renders a painted string as the
/// style's prefix sequence, the text, then its suffix sequence.
pub open spec fn painted(code: int, t: Seq<char>) -> Seq<char> {
    style_prefix(code) + t + style_suffix(code)
}

/// Relies on ansi_term's `Style::prefix` (via its `Display`): the escape
/// codes that begin painting in the given style, a function of the style
/// alone.
#[verifier::external_body]
pub(crate) fn style_prefix_str(s: &TermStyle) -> (r: String)
    ensures
        r@ == style_prefix(style_code(*s)),
{
    let st = match s {
        TermStyle::RedBold => ansi_term::Colour::Red.bold(),
        TermStyle::GreenBold => ansi_term::Colour::Green.bold(),
        TermStyle::YellowBold => ansi_term::Colour::Yellow.bold(),
        TermStyle::BlueBold => ansi_term::Colour::Blue.bold(),
        TermStyle::PurpleBold => ansi_term::Colour::Purple.bold(),
        TermStyle::GreenPlain => ansi_term::Colour::Green.normal(),
        TermStyle::Dimmed => ansi_term::Style::new().dimmed(),
    };
    st.prefix().to_string()
}

/// Relies on ansi_term's `Style::suffix` (via its `Display`): the escape
/// codes that end painting in the given style, a function of the style
/// alone.
#[verifier::external_body]
pub(crate) fn style_suffix_str(s: &TermStyle) -> (r: String)
    ensures
        r@ == style_suffix(style_code(*s)),
{
    let st = match s {
        TermStyle::RedBold => ansi_term::Colour::Red.bold(),
        TermStyle::GreenBold => ansi_term::Colour::Green.bold(),
        TermStyle::YellowBold => ansi_term::Colour::Yellow.bold(),
        TermStyle::BlueBold => ansi_term::Colour::Blue.bold(),
        TermStyle::PurpleBold => ansi_term::Colour::Purple.bold(),
        TermStyle::GreenPlain => ansi_term::Colour::Green.normal(),
        TermStyle::Dimmed => ansi_term::Style::new().dimmed(),
    };
    st.suffix().to_string()
}

/// Concatenates a prefix, a span, and a suffix.
pub(crate) fn wrap_span(pre: &str, mid: &str, suf: &str) -> (r: String)
    ensures
        r@ == pre@ + mid@ + suf@,
{
    let mut r = pre.to_owned();
    r.append(mid);
    r.append(suf);
    r
}

/// What `Regex::replace_all` produces when every non-overlapping match of
/// the regex compiled from `pat` is wrapped in `pre` and `suf`.
pub uninterp spec fn re_replaced(
    pat: Seq<char>,
    hay: Seq<char>,
    pre: Seq<char>,
    suf: Seq<char>,
) -> Seq<char>;

/// Relies on regex's `Regex::replace_all`: replaces every non-overlapping
/// match with the replacement the closure builds — here the match wrapped in
/// `pre` and `suf` — deterministically in the pattern text, haystack and
/// wrapping. The pattern text determines the behaviour because every regex
/// this crate builds comes from `Regex::new` with default settings; a
/// builder-configured regex could behave differently under the same text.
#[verifier::external_body]
fn replace_all_wrapped(re: &regex::Regex, hay: &str, pre: &str, suf: &str) -> (r: String)
    ensures
        r@ == re_replaced(re_pattern(*re), hay@, pre@, suf@),
{
    re.replace_all(hay, |caps: &regex::Captures| wrap_span(pre, &caps[0], suf)).to_string()
}

/// Sequential single-style highlighting: each pattern is applied in turn to
/// the output of the previous one.
pub open spec fn highlight_all_spec(
    pats: Seq<Seq<char>>,
    line: Seq<char>,
    pre: Seq<char>,
    suf: Seq<char>,
) -> Seq<char>
    decreases pats.len(),
{
    if pats.len() == 0 {
        line
    } else {
        highlight_all_spec(pats.drop_first(), re_replaced(pats[0], line, pre, suf), pre, suf)
    }
}

/// Wraps every match of every pattern in red bold, pattern by pattern.
#[verifier::loop_isolation(false)]
pub fn highlight_keywords(line: &str, patterns: &Vec<regex::Regex>) -> (r: String)
    ensures
        r@ == highlight_all_spec(
            pats_of(patterns@),
            line@,
            style_prefix(style_code(TermStyle::RedBold)),
            style_suffix(style_code(TermStyle::RedBold)),
        ),
{
    let pre = style_prefix_str(&TermStyle::RedBold);
    let suf = style_suffix_str(&TermStyle::RedBold);
    let mut acc = line.to_owned();
    let mut k: usize = 0;
    proof {
        assert(pats_of(patterns@).skip(0) =~= pats_of(patterns@));
    }
    while k < patterns.len()
        invariant
            k <= patterns.len(),
            pre@ == style_prefix(style_code(TermStyle::RedBold)),
            suf@ == style_suffix(style_code(TermStyle::RedBold)),
            highlight_all_spec(pats_of(patterns@).skip(k as int), acc@, pre@, suf@)
                == highlight_all_spec(pats_of(patterns@), line@, pre@, suf@),
        decreases patterns.len() - k,
    {
        proof {
            assert(pats_of(patterns@).skip(k as int)[0] == re_pattern(patterns@[k as int]));
            assert(pats_of(patterns@).skip(k as int).drop_first() =~= pats_of(patterns@).skip(
                k + 1,
            ));
        }
        acc = replace_all_wrapped(&patterns[k], acc.as_str(), pre.as_str(), suf.as_str());
        k = k + 1;
    }
    proof {
        assert(pats_of(patterns@).skip(patterns@.len() as int) =~= Seq::<Seq<char>>::empty());
    }
    acc
}

/// The style the rotating palette assigns to the pattern at position `i`:
/// red, green, yellow, blue, purple, then around again.
pub open spec fn palette_code(i: int) -> int {
    i % 5
}

/// Multi-style highlighting: the pattern at position `i` is wrapped in the
/// palette style for `i`.
pub open spec fn highlight_multi_spec(pats: Seq<Seq<char>>, i: int, line: Seq<char>) -> Seq<char>
    decreases pats.len(),
{
    if pats.len() == 0 {
        line
    } else {
        highlight_multi_spec(
            pats.drop_first(),
            i + 1,
            re_replaced(
                pats[0],
                line,
                style_prefix(palette_code(i)),
                style_suffix(palette_code(i)),
            ),
        )
    }
}

/// Wraps every match of the `k`-th pattern in the `k`-th palette style.
#[verifier::loop_isolation(false)]
pub fn highlight_keywords_multi(line: &str, patterns: &Vec<regex::Regex>) -> (r: String)
    ensures
        r@ == highlight_multi_spec(pats_of(patterns@), 0, line@),
{
    let mut acc = line.to_owned();
    let mut k: usize = 0;
    proof {
        assert(pats_of(patterns@).skip(0) =~= pats_of(patterns@));
    }
    while k < patterns.len()
        invariant
            k <= patterns.len(),
            highlight_multi_spec(pats_of(patterns@).skip(k as int), k as int, acc@)
                == highlight_multi_spec(pats_of(patterns@), 0, line@),
        decreases patterns.len() - k,
    {
        let style = match k % 5 {
            0 => TermStyle::RedBold,
            1 => TermStyle::GreenBold,
            2 => TermStyle::YellowBold,
            3 => TermStyle::BlueBold,
            _ => TermStyle::PurpleBold,
        };
        proof {
            assert(style_code(style) == palette_code(k as int));
            assert(pats_of(patterns@).skip(k as int)[0] == re_pattern(patterns@[k as int]));
            assert(pats_of(patterns@).skip(k as int).drop_first() =~= pats_of(patterns@).skip(
                k + 1,
            ));
        }
        let pre = style_prefix_str(&style);
        let suf = style_suffix_str(&style);
        acc = replace_all_wrapped(&patterns[k], acc.as_str(), pre.as_str(), suf.as_str());
        k = k + 1;
    }
    proof {
        assert(pats_of(patterns@).skip(patterns@.len() as int) =~= Seq::<Seq<char>>::empty());
    }
    acc
}

/// A token is highlighted when its normalized form is within edit distance 2
/// of some matched term's normalized form — a fixed constant, independent of
/// the configured threshold, kept from the tool's established behaviour.
/// Token and term are normalized alike, as every comparison here is.
pub open spec fn fuzzy_hl_token(tok: Seq<char>, terms: Seq<Seq<char>>, cs: bool) -> bool {
    exists|i: int|
        0 <= i < terms.len() && edit_distance(norm(tok, cs), norm(#[trigger] terms[i], cs)) <= 2
}

/// The fuzzy rendering of a token list: highlighted tokens painted red bold,
/// all tokens rejoined with single spaces.
pub open spec fn render_tokens_spec(
    toks: Seq<Seq<char>>,
    terms: Seq<Seq<char>>,
    cs: bool,
) -> Seq<char>
    decreases toks.len(),
{
    if toks.len() == 0 {
        Seq::empty()
    } else {
        let t0 = if fuzzy_hl_token(toks[0], terms, cs) {
            painted(style_code(TermStyle::RedBold), toks[0])
        } else {
            toks[0]
        };
        if toks.len() == 1 {
            t0
        } else {
            t0 + seq![' '] + render_tokens_spec(toks.drop_first(), terms, cs)
        }
    }
}

/// The fuzzy-mode rendering of a line: unchanged when no terms matched,
/// otherwise its whitespace tokens re-joined with single spaces, the
/// highlighted ones painted.
pub open spec fn fuzzy_rendered(line: Seq<char>, terms: Seq<Seq<char>>, cs: bool) -> Seq<char> {
    if terms.len() == 0 {
        line
    } else {
        render_tokens_spec(tokens_of(line), terms, cs)
    }
}

/// Decides [`fuzzy_hl_token`] for one token.
#[verifier::loop_isolation(false)]
fn token_is_match(tok: &Vec<char>, terms: &Vec<String>, cs: bool) -> (b: bool)
    ensures
        b == fuzzy_hl_token(tok@, terms.deep_view(), cs),
{
    let tok_s = from_chars(tok);
    let norm_s = normalize(tok_s.as_str(), cs);
    let norm_c = to_chars(norm_s.as_str());
    let mut i: usize = 0;
    while i < terms.len()
        invariant
            i <= terms.len(),
            norm_c@ == norm(tok@, cs),
            forall|j: int|
                0 <= j < i ==> !(edit_distance(
                    norm(tok@, cs),
                    norm(#[trigger] terms.deep_view()[j], cs),
                ) <= 2),
        decreases terms.len() - i,
    {
        let nterm_s = normalize(terms[i].as_str(), cs);
        let term_c = to_chars(nterm_s.as_str());
        proof {
            assert(terms.deep_view()[i as int] == terms@[i as int]@);
            assert(term_c@ == norm(terms.deep_view()[i as int], cs));
        }
        let d = edit_distance_chars(&norm_c, &term_c);
        if d <= 2 {
            return true;
        }
        i = i + 1;
    }
    false
}

/// Renders a line in fuzzy mode: every whitespace token within distance 2 of
/// a matched term is painted red bold; tokens are re-joined with single
/// spaces. A line with no matched terms is returned unchanged.
#[verifier::loop_isolation(false)]
pub fn highlight_fuzzy_matches(line: &str, matched_terms: &Vec<String>, cs: bool) -> (r: String)
    ensures
        r@ == fuzzy_rendered(line@, matched_terms.deep_view(), cs),
{
    if matched_terms.len() == 0 {
        return line.to_owned();
    }
    let ghost terms_dv = matched_terms.deep_view();
    let chars = to_chars(line);
    let toks = tokenize(&chars);
    let ghost toks_dv = toks.deep_view();
    let pre = style_prefix_str(&TermStyle::RedBold);
    let suf = style_suffix_str(&TermStyle::RedBold);
    let mut acc = String::new();
    let mut k: usize = 0;
    proof {
        assert(toks_dv.skip(0) =~= toks_dv);
    }
    while k < toks.len()
        invariant
            k <= toks.len(),
            toks_dv == tokens_of(line@),
            terms_dv == matched_terms.deep_view(),
            terms_dv.len() > 0,
            pre@ == style_prefix(style_code(TermStyle::RedBold)),
            suf@ == style_suffix(style_code(TermStyle::RedBold)),
            render_tokens_spec(toks_dv, terms_dv, cs) == acc@ + render_tokens_spec(
                toks_dv.skip(k as int),
                terms_dv,
                cs,
            ),
        decreases toks.len() - k,
    {
        proof {
            assert(toks_dv.skip(k as int)[0] == toks@[k as int]@);
            assert(toks_dv.skip(k as int).drop_first() =~= toks_dv.skip(k + 1));
        }
        let hl = token_is_match(&toks[k], matched_terms, cs);
        if hl {
            acc.append(pre.as_str());
        }
        let tok_s = from_chars(&toks[k]);
        acc.append(tok_s.as_str());
        if hl {
            acc.append(suf.as_str());
        }
        if k + 1 < toks.len() {
            proof {
                reveal_strlit(" ");
            }
            acc.append(" ");
            assert(" "@ =~= seq![' ']);
        }
        k = k + 1;
    }
    proof {
        assert(toks_dv.skip(toks@.len() as int) =~= Seq::<Seq<char>>::empty());
        if toks_dv.len() == 0 {
            assert(render_tokens_spec(toks_dv, terms_dv, cs) == Seq::<char>::empty());
        }
        assert(acc@ =~= render_tokens_spec(toks_dv, terms_dv, cs));
        assert(fuzzy_rendered(line@, terms_dv, cs) == render_tokens_spec(toks_dv, terms_dv, cs));
    }
    acc
}

} // verus!
