//! Per-line matching: applies every keyword's test against one line — the
//! compiled pattern in regex mode, substring containment of the normalized
//! keyword in literal mode, or the fuzzy edit-distance test — and combines
//! the outcomes under the AND/OR policy, recording the matched raw tokens in
//! fuzzy mode for the highlighter.
use vstd::prelude::*;

use crate::distance::{edit_distance, edit_distance_chars};
use crate::normalize::{norm, normalize};
use crate::pattern::{pats_of, re_matches, re_pattern, regex_is_match, regex_mode_text};
use crate::text::{contains_chars, contains_sub, from_chars, to_chars, tokenize, tokens_of};

verus! {

/// The verdict for one line: whether it matches, and (fuzzy mode only) the
/// raw tokens of the line that satisfied some keyword, in keyword order.
#[derive(Debug)]
pub struct MatchVerdict {
    pub is_match: bool,
    pub matched_terms: Vec<String>,
}

/// Literal policy for one keyword: the normalized keyword occurs as a
/// substring of the normalized line.
pub open spec fn kw_contained(line: Seq<char>, kw: Seq<char>, cs: bool) -> bool {
    contains_sub(norm(line, cs), norm(kw, cs))
}

/// Regex policy for one keyword: the keyword's compiled pattern matches
/// somewhere in the normalized line.
pub open spec fn kw_regex(line: Seq<char>, kw: Seq<char>, cs: bool) -> bool {
    re_matches(regex_mode_text(kw, cs), norm(line, cs))
}

/// Fuzzy policy for one keyword: some whitespace token of the line, once
/// normalized, is within edit distance `thr` of the normalized keyword.
pub open spec fn kw_fuzzy(line: Seq<char>, kw: Seq<char>, cs: bool, thr: nat) -> bool {
    exists|t: int|
        0 <= t < tokens_of(line).len() && edit_distance(
            norm(#[trigger] tokens_of(line)[t], cs),
            norm(kw, cs),
        ) <= thr
}

/// One keyword's test, under the active mode.
pub open spec fn kw_satisfied(
    line: Seq<char>,
    kw: Seq<char>,
    fuzzy: bool,
    use_regex: bool,
    cs: bool,
    thr: nat,
) -> bool {
    if fuzzy {
        kw_fuzzy(line, kw, cs, thr)
    } else if use_regex {
        kw_regex(line, kw, cs)
    } else {
        kw_contained(line, kw, cs)
    }
}

/// Law: under the AND policy a line matches iff every keyword's test
/// independently succeeds; under the OR policy iff at least one succeeds.
/// This is the definition the matcher is proved against.
pub open spec fn line_matches(
    line: Seq<char>,
    kws: Seq<Seq<char>>,
    fuzzy: bool,
    use_regex: bool,
    cs: bool,
    thr: nat,
    match_any: bool,
) -> bool {
    if match_any {
        exists|k: int|
            0 <= k < kws.len() && kw_satisfied(line, #[trigger] kws[k], fuzzy, use_regex, cs, thr)
    } else {
        forall|k: int|
            0 <= k < kws.len() ==> kw_satisfied(line, #[trigger] kws[k], fuzzy, use_regex, cs, thr)
    }
}

/// The first raw token whose normalized form is within distance `thr` of the
/// normalized keyword, if any: first-found wins, with no guarantee of
/// minimal distance.
pub open spec fn first_fuzzy_token(
    toks: Seq<Seq<char>>,
    nkw: Seq<char>,
    cs: bool,
    thr: nat,
) -> Option<Seq<char>>
    decreases toks.len(),
{
    if toks.len() == 0 {
        None
    } else if edit_distance(norm(toks[0], cs), nkw) <= thr {
        Some(toks[0])
    } else {
        first_fuzzy_token(toks.drop_first(), nkw, cs, thr)
    }
}

/// The matched terms a fuzzy scan accumulates: for each keyword in order,
/// the first raw token that satisfies it, if any.
pub open spec fn fuzzy_terms(
    toks: Seq<Seq<char>>,
    kws: Seq<Seq<char>>,
    cs: bool,
    thr: nat,
) -> Seq<Seq<char>>
    decreases kws.len(),
{
    if kws.len() == 0 {
        Seq::empty()
    } else {
        let head = match first_fuzzy_token(toks, norm(kws[0], cs), cs, thr) {
            Some(t) => seq![t],
            None => Seq::<Seq<char>>::empty(),
        };
        head + fuzzy_terms(toks, kws.drop_first(), cs, thr)
    }
}

pub proof fn lemma_first_fuzzy_token_some(toks: Seq<Seq<char>>, nkw: Seq<char>, cs: bool, thr: nat)
    ensures
        (first_fuzzy_token(toks, nkw, cs, thr) is Some) <==> exists|t: int|
            0 <= t < toks.len() && edit_distance(norm(#[trigger] toks[t], cs), nkw) <= thr,
    decreases toks.len(),
{
    if toks.len() == 0 {
    } else if edit_distance(norm(toks[0], cs), nkw) <= thr {
    } else {
        lemma_first_fuzzy_token_some(toks.drop_first(), nkw, cs, thr);
        if first_fuzzy_token(toks, nkw, cs, thr) is Some {
            let t = choose|t: int|
                0 <= t < toks.drop_first().len() && edit_distance(
                    norm(#[trigger] toks.drop_first()[t], cs),
                    nkw,
                ) <= thr;
            assert(toks[t + 1] == toks.drop_first()[t]);
        }
        if exists|t: int| 0 <= t < toks.len() && edit_distance(norm(#[trigger] toks[t], cs), nkw)
            <= thr {
            let t = choose|t: int|
                0 <= t < toks.len() && edit_distance(norm(#[trigger] toks[t], cs), nkw) <= thr;
            assert(t != 0);
            assert(toks.drop_first()[t - 1] == toks[t]);
        }
    }
}

/// Evaluates one line against every keyword. In regex mode the compiled
/// patterns decide, so they must correspond to the keywords, in order.
#[verifier::loop_isolation(false)]
pub fn match_line(
    line: &str,
    keywords: &Vec<String>,
    patterns: &Vec<regex::Regex>,
    fuzzy: bool,
    use_regex: bool,
    cs: bool,
    thr: usize,
    match_any: bool,
) -> (v: MatchVerdict)
    requires
        (!fuzzy && use_regex) ==> pats_of(patterns@) == keywords.deep_view().map_values(
            |kw: Seq<char>| regex_mode_text(kw, cs),
        ),
    ensures
        v.is_match == line_matches(
            line@,
            keywords.deep_view(),
            fuzzy,
            use_regex,
            cs,
            thr as nat,
            match_any,
        ),
        v.matched_terms.deep_view() == (if fuzzy && line_matches(
            line@,
            keywords.deep_view(),
            fuzzy,
            use_regex,
            cs,
            thr as nat,
            match_any,
        ) {
            fuzzy_terms(tokens_of(line@), keywords.deep_view(), cs, thr as nat)
        } else {
            Seq::<Seq<char>>::empty()
        }),
{
    let ghost kws = keywords.deep_view();
    if fuzzy {
        let raw = to_chars(line);
        let toks = tokenize(&raw);
        let ghost toks_dv = toks.deep_view();
        let mut terms: Vec<String> = Vec::new();
        let mut failed: bool = false;
        let mut any_sat: bool = false;
        let mut k: usize = 0;
        proof {
            assert(kws.skip(0) =~= kws);
            assert(terms.deep_view() + fuzzy_terms(toks_dv, kws, cs, thr as nat) =~~= fuzzy_terms(
                toks_dv,
                kws,
                cs,
                thr as nat,
            ));
        }
        while k < keywords.len() && !failed
            invariant
                k <= keywords.len(),
                toks_dv == tokens_of(line@),
                kws == keywords.deep_view(),
                !failed ==> terms.deep_view() + fuzzy_terms(
                    toks_dv,
                    kws.skip(k as int),
                    cs,
                    thr as nat,
                ) == fuzzy_terms(toks_dv, kws, cs, thr as nat),
                !failed && !match_any ==> forall|kk: int|
                    0 <= kk < k ==> kw_fuzzy(line@, #[trigger] kws[kk], cs, thr as nat),
                any_sat == exists|kk: int|
                    0 <= kk < k && kw_fuzzy(line@, #[trigger] kws[kk], cs, thr as nat),
                failed ==> !match_any && !line_matches(
                    line@,
                    kws,
                    fuzzy,
                    use_regex,
                    cs,
                    thr as nat,
                    match_any,
                ) && terms.len() == 0,
                !any_sat ==> terms.len() == 0,
            decreases keywords.len() - k,
        {
            let nkw_s = normalize(keywords[k].as_str(), cs);
            let nkw = to_chars(nkw_s.as_str());
            proof {
                assert(kws[k as int] == keywords@[k as int]@);
            }
            let mut found: bool = false;
            let mut t: usize = 0;
            proof {
                assert(toks_dv.skip(0) =~= toks_dv);
            }
            while t < toks.len() && !found
                invariant
                    t <= toks.len(),
                    toks.deep_view() == toks_dv,
                    nkw@ == norm(kws[k as int], cs),
                    !found ==> first_fuzzy_token(toks_dv, nkw@, cs, thr as nat)
                        == first_fuzzy_token(toks_dv.skip(t as int), nkw@, cs, thr as nat),
                    found ==> t < toks.len() && first_fuzzy_token(toks_dv, nkw@, cs, thr as nat)
                        == Some(toks_dv[t as int]) && toks_dv[t as int] == toks@[t as int]@,
                decreases toks.len() - t, (if found {
                    0int
                } else {
                    1int
                }),
            {
                let tok_s = from_chars(&toks[t]);
                let ntok_s = normalize(tok_s.as_str(), cs);
                let ntok = to_chars(ntok_s.as_str());
                let d = edit_distance_chars(&ntok, &nkw);
                proof {
                    assert(toks@[t as int]@ == toks_dv[t as int]);
                    assert(ntok@ == norm(toks_dv[t as int], cs));
                    assert(toks_dv.skip(t as int)[0] == toks_dv[t as int]);
                    assert(toks_dv.skip(t as int).drop_first() =~= toks_dv.skip(t + 1));
                }
                if d <= thr {
                    proof {
                        assert(first_fuzzy_token(toks_dv.skip(t as int), nkw@, cs, thr as nat)
                            == Some(toks_dv[t as int]));
                    }
                    found = true;
                } else {
                    t = t + 1;
                }
            }
            proof {
                if !found {
                    assert(toks_dv.skip(toks@.len() as int) =~= Seq::<Seq<char>>::empty());
                }
                lemma_first_fuzzy_token_some(toks_dv, nkw@, cs, thr as nat);
                assert(found == kw_fuzzy(line@, kws[k as int], cs, thr as nat));
                assert(kws.skip(k as int)[0] == kws[k as int]);
                assert(kws.skip(k as int).drop_first() =~= kws.skip(k + 1));
            }
            if found {
                let ghost old_terms = terms.deep_view();
                terms.push(from_chars(&toks[t]));
                any_sat = true;
                proof {
                    assert(toks@[t as int]@ == toks_dv[t as int]);
                    assert(terms.deep_view() =~~= old_terms.push(toks_dv[t as int]));
                    assert(old_terms.push(toks_dv[t as int]) + fuzzy_terms(
                        toks_dv,
                        kws.skip(k + 1),
                        cs,
                        thr as nat,
                    ) =~~= old_terms + (seq![toks_dv[t as int]] + fuzzy_terms(
                        toks_dv,
                        kws.skip(k + 1),
                        cs,
                        thr as nat,
                    )));
                }
            } else if !match_any {
                terms = Vec::new();
                failed = true;
                proof {
                    assert(!kw_satisfied(line@, kws[k as int], fuzzy, use_regex, cs, thr as nat));
                }
            }
            k = k + 1;
        }
        if failed {
            proof {
                assert(terms.deep_view() =~~= Seq::<Seq<char>>::empty());
            }
            return MatchVerdict { is_match: false, matched_terms: terms };
        }
        proof {
            assert(kws.skip(keywords@.len() as int) =~= Seq::<Seq<char>>::empty());
            assert(terms.deep_view() == fuzzy_terms(toks_dv, kws, cs, thr as nat));
        }
        let is_match = if match_any {
            any_sat
        } else {
            true
        };
        if !is_match {
            proof {
                assert(terms.deep_view() =~~= Seq::<Seq<char>>::empty());
            }
        }
        MatchVerdict { is_match, matched_terms: terms }
    } else if use_regex {
        let nline_s = normalize(line, cs);
        let mut all: bool = true;
        let mut any: bool = false;
        let mut k: usize = 0;
        proof {
            assert(pats_of(patterns@).len() == kws.len());
        }
        while k < keywords.len()
            invariant
                k <= keywords.len(),
                kws == keywords.deep_view(),
                nline_s@ == norm(line@, cs),
                patterns@.len() == kws.len(),
                pats_of(patterns@) == kws.map_values(|kw: Seq<char>| regex_mode_text(kw, cs)),
                all == forall|kk: int| 0 <= kk < k ==> kw_regex(line@, #[trigger] kws[kk], cs),
                any == exists|kk: int| 0 <= kk < k && kw_regex(line@, #[trigger] kws[kk], cs),
            decreases keywords.len() - k,
        {
            let c = regex_is_match(&patterns[k], nline_s.as_str());
            proof {
                assert(pats_of(patterns@)[k as int] == re_pattern(patterns@[k as int]));
                assert(kws.map_values(|kw: Seq<char>| regex_mode_text(kw, cs))[k as int]
                    == regex_mode_text(kws[k as int], cs));
                assert(c == kw_regex(line@, kws[k as int], cs));
            }
            all = all && c;
            any = any || c;
            k = k + 1;
        }
        let is_match = if match_any {
            any
        } else {
            all
        };
        let terms: Vec<String> = Vec::new();
        proof {
            assert(terms.deep_view() =~~= Seq::<Seq<char>>::empty());
        }
        MatchVerdict { is_match, matched_terms: terms }
    } else {
        let nline_s = normalize(line, cs);
        let nline = to_chars(nline_s.as_str());
        let mut all: bool = true;
        let mut any: bool = false;
        let mut k: usize = 0;
        while k < keywords.len()
            invariant
                k <= keywords.len(),
                kws == keywords.deep_view(),
                nline@ == norm(line@, cs),
                all == forall|kk: int| 0 <= kk < k ==> kw_contained(line@, #[trigger] kws[kk], cs),
                any == exists|kk: int| 0 <= kk < k && kw_contained(line@, #[trigger] kws[kk], cs),
            decreases keywords.len() - k,
        {
            let nkw_s = normalize(keywords[k].as_str(), cs);
            let nkw = to_chars(nkw_s.as_str());
            proof {
                assert(kws[k as int] == keywords@[k as int]@);
            }
            let c = contains_chars(&nline, &nkw);
            proof {
                assert(c == kw_contained(line@, kws[k as int], cs));
            }
            all = all && c;
            any = any || c;
            k = k + 1;
        }
        let is_match = if match_any {
            any
        } else {
            all
        };
        let terms: Vec<String> = Vec::new();
        proof {
            assert(terms.deep_view() =~~= Seq::<Seq<char>>::empty());
        }
        MatchVerdict { is_match, matched_terms: terms }
    }
}

} // verus!
