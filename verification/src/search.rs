//! The search pipeline: computes per-line verdicts, expands them into a
//! display plan, and renders every planned line, mirroring one pass over the
//! loaded line buffer.
use vstd::prelude::*;

use crate::highlight::{
    fuzzy_rendered, highlight_all_spec, highlight_fuzzy_matches, highlight_keywords,
    highlight_keywords_multi, highlight_multi_spec, painted, style_code, style_prefix,
    style_prefix_str, style_suffix, style_suffix_str, TermStyle,
};
use crate::matcher::{fuzzy_terms, line_matches, match_line, MatchVerdict};
use crate::numfmt::{dec_digits, usize_to_string};
use crate::pattern::{
    compile_patterns, pats_of, pattern_text, re_compiles, re_pattern, regex_mode_text,
    InvalidPatternError,
};
use crate::text::tokens_of;
use crate::window::{build_plan, covered, in_window, plan_has, plan_spec, sorted_strict, PlanEntry};

verus! {

/// Colorization mode of the output.
#[derive(Clone, Copy, PartialEq, Eq, Structural, Debug)]
pub enum ColorMode {
    Always,
    Auto,
    Never,
    Multi,
}

/// The immutable search configuration. Fuzzy mode and regex mode are
/// mutually exclusive: a fuzzy search never compiles a regex.
pub struct SearchConfig {
    pub keywords: Vec<String>,
    pub case_sensitive: bool,
    pub use_regex: bool,
    pub line_numbers: bool,
    pub context_lines: usize,
    pub match_any: bool,
    pub color_mode: ColorMode,
    pub fuzzy_search: bool,
    pub fuzzy_threshold: usize,
}

impl SearchConfig {
    /// Well-formedness: at least one keyword, and fuzzy mode excludes regex
    /// mode.
    pub open spec fn wf(&self) -> bool {
        self.keywords.len() >= 1 && !(self.fuzzy_search && self.use_regex)
    }
}

/// Whether one line matches under the configuration.
pub open spec fn cfg_line_matches(l: Seq<char>, cfg: SearchConfig) -> bool {
    line_matches(
        l,
        cfg.keywords.deep_view(),
        cfg.fuzzy_search,
        cfg.use_regex,
        cfg.case_sensitive,
        cfg.fuzzy_threshold as nat,
        cfg.match_any,
    )
}

/// The matched terms recorded for one line — raw tokens of the line itself —
/// non-empty only for a matching line in fuzzy mode.
pub open spec fn line_terms(l: Seq<char>, cfg: SearchConfig) -> Seq<Seq<char>> {
    if cfg.fuzzy_search && cfg_line_matches(l, cfg) {
        fuzzy_terms(
            tokens_of(l),
            cfg.keywords.deep_view(),
            cfg.case_sensitive,
            cfg.fuzzy_threshold as nat,
        )
    } else {
        Seq::empty()
    }
}

/// The indices, ascending, of the matching lines among the first `n`.
pub open spec fn match_indices_upto(ls: Seq<Seq<char>>, cfg: SearchConfig, n: int) -> Seq<usize>
    decreases n,
{
    if n <= 0 {
        Seq::empty()
    } else if cfg_line_matches(ls[n - 1], cfg) {
        match_indices_upto(ls, cfg, n - 1).push((n - 1) as usize)
    } else {
        match_indices_upto(ls, cfg, n - 1)
    }
}

/// The pattern text each keyword compiles to.
pub open spec fn kw_pattern_texts(cfg: SearchConfig) -> Seq<Seq<char>> {
    cfg.keywords.deep_view().map_values(
        |kw: Seq<char>| pattern_text(kw, cfg.case_sensitive, cfg.use_regex),
    )
}

/// The body of a rendered match line, before any line-number prefix.
pub open spec fn match_body(l: Seq<char>, cfg: SearchConfig) -> Seq<char> {
    match cfg.color_mode {
        ColorMode::Never => l,
        ColorMode::Multi => if cfg.fuzzy_search {
            fuzzy_rendered(l, line_terms(l, cfg), cfg.case_sensitive)
        } else {
            highlight_multi_spec(kw_pattern_texts(cfg), 0, l)
        },
        _ => if cfg.fuzzy_search {
            fuzzy_rendered(l, line_terms(l, cfg), cfg.case_sensitive)
        } else {
            highlight_all_spec(
                kw_pattern_texts(cfg),
                l,
                style_prefix(style_code(TermStyle::RedBold)),
                style_suffix(style_code(TermStyle::RedBold)),
            )
        },
    }
}

/// The 1-based line-number prefix.
pub open spec fn num_prefix(j: int) -> Seq<char> {
    dec_digits(j + 1) + seq![':', ' ']
}

/// One rendered display line: a match line carries its highlighted body and
/// a green line-number prefix when numbering is on; a context line is
/// rendered dimmed.
pub open spec fn display_line(ls: Seq<Seq<char>>, e: PlanEntry, cfg: SearchConfig) -> Seq<char> {
    let l = ls[e.index as int];
    if e.is_match {
        if cfg.line_numbers {
            painted(style_code(TermStyle::GreenPlain), num_prefix(e.index as int)) + match_body(
                l,
                cfg,
            )
        } else {
            match_body(l, cfg)
        }
    } else {
        if cfg.line_numbers {
            painted(style_code(TermStyle::Dimmed), num_prefix(e.index as int)) + painted(
                style_code(TermStyle::Dimmed),
                l,
            )
        } else {
            painted(style_code(TermStyle::Dimmed), l)
        }
    }
}

/// The rendered output for a display plan: every planned line in order, with
/// a `--` separator between two display blocks — adjacent plan entries whose
/// indices are not contiguous — whenever context is enabled.
pub open spec fn output_lines(plan: Seq<PlanEntry>, ls: Seq<Seq<char>>, cfg: SearchConfig) -> Seq<
    Seq<char>,
>
    decreases plan.len(),
{
    if plan.len() == 0 {
        Seq::empty()
    } else if plan.len() == 1 {
        seq![display_line(ls, plan[0], cfg)]
    } else {
        let sep: Seq<Seq<char>> = if cfg.context_lines > 0 && plan[1].index > plan[0].index + 1 {
            seq![seq!['-', '-']]
        } else {
            Seq::empty()
        };
        seq![display_line(ls, plan[0], cfg)] + sep + output_lines(plan.drop_first(), ls, cfg)
    }
}

/// The trailing summary: the match count, or a no-matches message.
pub open spec fn summary_spec(n: int) -> Seq<char> {
    if n == 0 {
        "No matches found."@
    } else {
        "Found "@ + dec_digits(n) + " matching lines"@
    }
}

/// Renders the summary line for a match count.
pub fn summary_line(n: usize) -> (r: String)
    ensures
        r@ == summary_spec(n as int),
{
    if n == 0 {
        "No matches found.".to_owned()
    } else {
        let mut r: String = "Found ".to_owned();
        r.append(usize_to_string(n).as_str());
        r.append(" matching lines");
        r
    }
}

/// Everything a run produces: the display plan, the rendered lines (with
/// separators), the number of matching lines, and the summary line.
#[derive(Debug)]
pub struct SearchOutput {
    pub plan: Vec<PlanEntry>,
    pub lines: Vec<String>,
    pub match_count: usize,
    pub summary: String,
}

/// Runs the whole search over an in-memory line buffer.
///
/// Succeeds exactly when no pattern has to be compiled (fuzzy mode) or every
/// keyword's pattern text compiles; otherwise reports the first keyword that
/// does not. On success the plan covers exactly the matched lines expanded
/// by the context radius, and the rendered lines are pinned by
/// [`output_lines`].
#[verifier::loop_isolation(false)]
pub fn run_search(lines: &Vec<String>, cfg: &SearchConfig) -> (r: Result<
    SearchOutput,
    InvalidPatternError,
>)
    requires
        cfg.wf(),
    ensures
        (r is Ok) <==> (cfg.fuzzy_search || forall|k: int|
            0 <= k < cfg.keywords.deep_view().len() ==> re_compiles(
                pattern_text(
                    #[trigger] cfg.keywords.deep_view()[k],
                    cfg.case_sensitive,
                    cfg.use_regex,
                ),
            )),
        r matches Err(e) ==> !cfg.fuzzy_search && exists|k: int|
            0 <= k < cfg.keywords.deep_view().len() && !re_compiles(
                pattern_text(
                    #[trigger] cfg.keywords.deep_view()[k],
                    cfg.case_sensitive,
                    cfg.use_regex,
                ),
            ) && e.keyword@ == cfg.keywords.deep_view()[k] && (forall|j: int|
                0 <= j < k ==> re_compiles(
                    pattern_text(
                        #[trigger] cfg.keywords.deep_view()[j],
                        cfg.case_sensitive,
                        cfg.use_regex,
                    ),
                )),
        !cfg.use_regex ==> r is Ok,
        r matches Ok(out) ==> {
            &&& plan_spec(
                out.plan@,
                match_indices_upto(lines.deep_view(), *cfg, lines.deep_view().len() as int),
                cfg.context_lines as int,
                lines.deep_view().len() as int,
            )
            &&& out.match_count == match_indices_upto(
                lines.deep_view(),
                *cfg,
                lines.deep_view().len() as int,
            ).len()
            &&& out.lines.deep_view() == output_lines(out.plan@, lines.deep_view(), *cfg)
            &&& out.summary@ == summary_spec(out.match_count as int)
        },
{
    let ghost ls_dv = lines.deep_view();
    let total = lines.len();
    let cs = cfg.case_sensitive;

    // Compile patterns; fuzzy mode compiles none.
    let patterns: Vec<regex::Regex> = if !cfg.fuzzy_search {
        match compile_patterns(&cfg.keywords, cs, cfg.use_regex) {
            Ok(ps) => ps,
            Err(e) => {
                return Err(e);
            },
        }
    } else {
        Vec::new()
    };
    proof {
        if !cfg.fuzzy_search {
            assert(pats_of(patterns@) =~= kw_pattern_texts(*cfg));
            if cfg.use_regex {
                assert(kw_pattern_texts(*cfg) =~= cfg.keywords.deep_view().map_values(
                    |kw: Seq<char>| regex_mode_text(kw, cfg.case_sensitive),
                ));
            }
        }
    }

    // One pass of verdicts over the lines.
    let mut verdicts: Vec<MatchVerdict> = Vec::new();
    let mut ms: Vec<usize> = Vec::new();
    let mut i: usize = 0;
    while i < total
        invariant
            i <= total,
            total == ls_dv.len(),
            ls_dv == lines.deep_view(),
            verdicts@.len() == i,
            ms@ == match_indices_upto(ls_dv, *cfg, i as int),
            sorted_strict(ms@),
            forall|k: int| 0 <= k < ms@.len() ==> ms@[k] < i,
            forall|j: int|
                0 <= j < i ==> (#[trigger] verdicts@[j]).matched_terms.deep_view() == line_terms(
                    ls_dv[j],
                    *cfg,
                ),
        decreases total - i,
    {
        proof {
            assert(ls_dv[i as int] == lines@[i as int]@);
        }
        let v = match_line(
            lines[i].as_str(),
            &cfg.keywords,
            &patterns,
            cfg.fuzzy_search,
            cfg.use_regex,
            cs,
            cfg.fuzzy_threshold,
            cfg.match_any,
        );
        if v.is_match {
            ms.push(i);
        }
        verdicts.push(v);
        i = i + 1;
    }
    let ghost msv = match_indices_upto(ls_dv, *cfg, total as int);
    let match_count = ms.len();

    // Expand matches by the context radius into the display plan.
    let plan = build_plan(&ms, cfg.context_lines, total);

    // Render every planned line.
    let mut out: Vec<String> = Vec::new();
    let mut e: usize = 0;
    proof {
        assert(plan@.skip(0) =~= plan@);
        assert(out.deep_view() + output_lines(plan@, ls_dv, *cfg) =~~= output_lines(
            plan@,
            ls_dv,
            *cfg,
        ));
    }
    while e < plan.len()
        invariant
            e <= plan.len(),
            ls_dv == lines.deep_view(),
            total == ls_dv.len(),
            plan_spec(plan@, msv, cfg.context_lines as int, total as int),
            verdicts@.len() == total,
            !cfg.fuzzy_search ==> pats_of(patterns@) == kw_pattern_texts(*cfg),
            forall|j: int|
                0 <= j < total ==> (#[trigger] verdicts@[j]).matched_terms.deep_view()
                    == line_terms(ls_dv[j], *cfg),
            output_lines(plan@, ls_dv, *cfg) == out.deep_view() + output_lines(
                plan@.skip(e as int),
                ls_dv,
                *cfg,
            ),
        decreases plan.len() - e,
    {
        let entry = plan[e];
        let j = entry.index;
        proof {
            assert(plan_has(plan@, j as int));
            assert(covered(msv, j as int, cfg.context_lines as int, total as int));
            let w = choose|w: int|
                0 <= w < msv.len() && in_window(
                    msv[w] as int,
                    j as int,
                    cfg.context_lines as int,
                    total as int,
                );
            assert(j < total);
        }
        let rendered: String = if entry.is_match {
            let body: String = match cfg.color_mode {
                ColorMode::Never => lines[j].clone(),
                ColorMode::Multi => {
                    if cfg.fuzzy_search {
                        highlight_fuzzy_matches(lines[j].as_str(), &verdicts[j].matched_terms, cs)
                    } else {
                        highlight_keywords_multi(lines[j].as_str(), &patterns)
                    }
                },
                _ => {
                    if cfg.fuzzy_search {
                        highlight_fuzzy_matches(lines[j].as_str(), &verdicts[j].matched_terms, cs)
                    } else {
                        highlight_keywords(lines[j].as_str(), &patterns)
                    }
                },
            };
            proof {
                assert(ls_dv[j as int] == lines@[j as int]@);
                assert(body@ == match_body(ls_dv[j as int], *cfg));
            }
            if cfg.line_numbers {
                let mut nm = usize_to_string(j + 1);
                proof {
                    reveal_strlit(": ");
                }
                nm.append(": ");
                assert(nm@ =~= num_prefix(j as int));
                let pre = style_prefix_str(&TermStyle::GreenPlain);
                let suf = style_suffix_str(&TermStyle::GreenPlain);
                let mut r = pre;
                r.append(nm.as_str());
                r.append(suf.as_str());
                r.append(body.as_str());
                proof {
                    assert(r@ =~= display_line(ls_dv, entry, *cfg));
                }
                r
            } else {
                body
            }
        } else {
            let pre = style_prefix_str(&TermStyle::Dimmed);
            let suf = style_suffix_str(&TermStyle::Dimmed);
            let mut r = String::new();
            if cfg.line_numbers {
                let mut nm = usize_to_string(j + 1);
                proof {
                    reveal_strlit(": ");
                }
                nm.append(": ");
                assert(nm@ =~= num_prefix(j as int));
                r.append(pre.as_str());
                r.append(nm.as_str());
                r.append(suf.as_str());
            }
            r.append(pre.as_str());
            proof {
                assert(ls_dv[j as int] == lines@[j as int]@);
            }
            r.append(lines[j].as_str());
            r.append(suf.as_str());
            proof {
                assert(r@ =~= display_line(ls_dv, entry, *cfg));
            }
            r
        };
        let ghost old_dv = out.deep_view();
        out.push(rendered);
        proof {
            assert(out.deep_view() =~~= old_dv.push(rendered@));
            assert(plan@.skip(e as int)[0] == plan@[e as int]);
        }
        if e + 1 < plan.len() {
            proof {
                assert(plan@.skip(e as int)[1] == plan@[e + 1]);
            }
            if cfg.context_lines > 0 && plan[e + 1].index > plan[e].index + 1 {
                proof {
                    reveal_strlit("--");
                }
                let ghost mid_dv = out.deep_view();
                let sep: String = "--".to_owned();
                assert(sep@ =~= seq!['-', '-']);
                out.push(sep);
                proof {
                    assert(out.deep_view() =~~= mid_dv.push(seq!['-', '-']));
                }
            }
        }
        proof {
            assert(plan@.skip(e as int).drop_first() =~= plan@.skip(e + 1));
            assert(output_lines(plan@, ls_dv, *cfg) =~~= out.deep_view() + output_lines(
                plan@.skip(e + 1),
                ls_dv,
                *cfg,
            ));
        }
        e = e + 1;
    }
    proof {
        assert(plan@.skip(plan@.len() as int) =~= Seq::<PlanEntry>::empty());
        assert(out.deep_view() =~~= output_lines(plan@, ls_dv, *cfg));
    }
    let summary = summary_line(match_count);
    Ok(SearchOutput { plan, lines: out, match_count, summary })
}

} // verus!
