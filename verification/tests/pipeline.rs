use memento::highlight::{highlight_fuzzy_matches, highlight_keywords, highlight_keywords_multi};
use memento::matcher::match_line;
use memento::pattern::compile_patterns;
use memento::search::{run_search, ColorMode, SearchConfig};
use memento::window::build_plan;

fn config(keywords: &[&str]) -> SearchConfig {
    SearchConfig {
        keywords: keywords.iter().map(|k| k.to_string()).collect(),
        case_sensitive: false,
        use_regex: false,
        line_numbers: false,
        context_lines: 0,
        match_any: false,
        color_mode: ColorMode::Never,
        fuzzy_search: false,
        fuzzy_threshold: 2,
    }
}

fn fruit_lines() -> Vec<String> {
    vec![
        "apple pie".to_string(),
        "banana split".to_string(),
        "apple tart".to_string(),
    ]
}

#[test]
fn and_mode_single_keyword() {
    // Keywords ["apple"], AND mode, no context: lines 0 and 2 match.
    let out = run_search(&fruit_lines(), &config(&["apple"])).unwrap();
    assert_eq!(out.match_count, 2);
    let indices: Vec<usize> = out.plan.iter().map(|e| e.index).collect();
    assert_eq!(indices, vec![0, 2]);
    assert!(out.plan.iter().all(|e| e.is_match));
    assert_eq!(out.lines, vec!["apple pie", "apple tart"]);
    assert_eq!(out.summary, "Found 2 matching lines");
}

#[test]
fn or_mode_two_keywords() {
    // Keywords ["apple", "banana"], OR mode: all three lines match.
    let mut cfg = config(&["apple", "banana"]);
    cfg.match_any = true;
    let out = run_search(&fruit_lines(), &cfg).unwrap();
    assert_eq!(out.match_count, 3);
    let indices: Vec<usize> = out.plan.iter().map(|e| e.index).collect();
    assert_eq!(indices, vec![0, 1, 2]);
}

#[test]
fn and_mode_two_keywords_requires_both() {
    let out = run_search(&fruit_lines(), &config(&["apple", "banana"])).unwrap();
    assert_eq!(out.match_count, 0);
    assert_eq!(out.summary, "No matches found.");
    assert!(out.lines.is_empty());
}

#[test]
fn fuzzy_keyword_within_threshold() {
    // Keyword "aple", threshold 2: token "apple" is at distance 1.
    let no_patterns: Vec<regex::Regex> = Vec::new();
    let v = match_line(
        "apple pie",
        &vec!["aple".to_string()],
        &no_patterns,
        true,
        false,
        false,
        2,
        false,
    );
    assert!(v.is_match);
    assert_eq!(v.matched_terms, vec!["apple"]);
}

#[test]
fn fuzzy_terms_are_raw_tokens() {
    // The matching test runs on the normalized token, but the recorded term
    // is the raw token from the line.
    let no_patterns: Vec<regex::Regex> = Vec::new();
    let v = match_line(
        "Ápple pie",
        &vec!["aple".to_string()],
        &no_patterns,
        true,
        false,
        false,
        2,
        false,
    );
    assert!(v.is_match);
    assert_eq!(v.matched_terms, vec!["Ápple"]);
}

#[test]
fn fuzzy_non_match_has_no_terms() {
    let no_patterns: Vec<regex::Regex> = Vec::new();
    let v = match_line(
        "cherry cobbler",
        &vec!["aple".to_string()],
        &no_patterns,
        true,
        false,
        false,
        2,
        false,
    );
    assert!(!v.is_match);
    assert!(v.matched_terms.is_empty());
}

#[test]
fn regex_mode_matches_by_pattern() {
    // "colou?r" is a regex, not literal text: both spellings match, while
    // the line carrying the raw pattern text does not.
    let lines = vec![
        "my color is red".to_string(),
        "my colour is red".to_string(),
        "my colou?r is red".to_string(),
        "no such word".to_string(),
    ];
    let mut cfg = config(&["colou?r"]);
    cfg.use_regex = true;
    let out = run_search(&lines, &cfg).unwrap();
    let indices: Vec<usize> = out.plan.iter().map(|e| e.index).collect();
    assert_eq!(indices, vec![0, 1]);
}

#[test]
fn regex_mode_and_or_policies() {
    let lines = vec![
        "alpha beta".to_string(),
        "alpha only".to_string(),
        "gamma only".to_string(),
    ];
    let mut cfg = config(&["^alpha", "beta$"]);
    cfg.use_regex = true;
    let out = run_search(&lines, &cfg).unwrap();
    let indices: Vec<usize> = out.plan.iter().map(|e| e.index).collect();
    assert_eq!(indices, vec![0]);
    cfg.match_any = true;
    let out = run_search(&lines, &cfg).unwrap();
    let indices: Vec<usize> = out.plan.iter().map(|e| e.index).collect();
    assert_eq!(indices, vec![0, 1]);
}

#[test]
fn regex_mode_case_insensitive() {
    let lines = vec!["Apple Pie".to_string(), "banana".to_string()];
    let mut cfg = config(&["APPLE P.E"]);
    cfg.use_regex = true;
    let out = run_search(&lines, &cfg).unwrap();
    let indices: Vec<usize> = out.plan.iter().map(|e| e.index).collect();
    assert_eq!(indices, vec![0]);
}

#[test]
fn literal_mode_never_fails_to_compile() {
    // Escaped literals always compile, whatever the keyword holds.
    for kw in ["[", "a+b", "(?bad", "\\", "colou?r"] {
        assert!(compile_patterns(&vec![kw.to_string()], false, false).is_ok());
        assert!(run_search(&fruit_lines(), &config(&[kw])).is_ok());
    }
}

#[test]
fn context_radius_one_wraps_match() {
    // A match at line 5 of a 10-line file with radius 1 covers 4, 5, 6.
    let lines: Vec<String> = (0..10)
        .map(|i| {
            if i == 5 {
                "needle here".to_string()
            } else {
                format!("filler {}", i)
            }
        })
        .collect();
    let mut cfg = config(&["needle"]);
    cfg.context_lines = 1;
    let out = run_search(&lines, &cfg).unwrap();
    let indices: Vec<usize> = out.plan.iter().map(|e| e.index).collect();
    assert_eq!(indices, vec![4, 5, 6]);
    let tags: Vec<bool> = out.plan.iter().map(|e| e.is_match).collect();
    assert_eq!(tags, vec![false, true, false]);
}

#[test]
fn overlapping_windows_emit_each_index_once() {
    // Matches at lines 2 and 4 with radius 2: windows overlap, union 0..=6.
    let ms: Vec<usize> = vec![2, 4];
    let plan = build_plan(&ms, 2, 10);
    let indices: Vec<usize> = plan.iter().map(|e| e.index).collect();
    assert_eq!(indices, vec![0, 1, 2, 3, 4, 5, 6]);
    let matched: Vec<usize> = plan.iter().filter(|e| e.is_match).map(|e| e.index).collect();
    assert_eq!(matched, vec![2, 4]);
}

#[test]
fn zero_radius_plan_is_match_lines_only() {
    let ms: Vec<usize> = vec![1, 2, 7];
    let plan = build_plan(&ms, 0, 9);
    let indices: Vec<usize> = plan.iter().map(|e| e.index).collect();
    assert_eq!(indices, vec![1, 2, 7]);
    assert!(plan.iter().all(|e| e.is_match));
}

#[test]
fn separator_between_non_contiguous_blocks_only() {
    // Matches at lines 1 and 7 with radius 1: two blocks, one separator.
    let lines: Vec<String> = (0..10)
        .map(|i| {
            if i == 1 || i == 7 {
                "needle".to_string()
            } else {
                format!("filler {}", i)
            }
        })
        .collect();
    let mut cfg = config(&["needle"]);
    cfg.context_lines = 1;
    let out = run_search(&lines, &cfg).unwrap();
    let seps = out.lines.iter().filter(|l| l.as_str() == "--").count();
    assert_eq!(seps, 1);
    assert_eq!(out.lines[3], "--");
}

#[test]
fn no_separator_when_merged_windows_touch() {
    // Matches at lines 2 and 3 with radius 1 merge into one block: the
    // rendered output must contain no separator.
    let lines: Vec<String> = (0..6)
        .map(|i| {
            if i == 2 || i == 3 {
                "needle".to_string()
            } else {
                format!("filler {}", i)
            }
        })
        .collect();
    let mut cfg = config(&["needle"]);
    cfg.context_lines = 1;
    let out = run_search(&lines, &cfg).unwrap();
    assert!(out.lines.iter().all(|l| l.as_str() != "--"));
    let indices: Vec<usize> = out.plan.iter().map(|e| e.index).collect();
    assert_eq!(indices, vec![1, 2, 3, 4]);
}

#[test]
fn no_separator_with_zero_radius() {
    let mut cfg = config(&["apple"]);
    cfg.context_lines = 0;
    let out = run_search(&fruit_lines(), &cfg).unwrap();
    assert!(out.lines.iter().all(|l| l.as_str() != "--"));
}

#[test]
fn invalid_regex_identifies_keyword() {
    let mut cfg = config(&["apple", "["]);
    cfg.use_regex = true;
    let err = run_search(&fruit_lines(), &cfg).unwrap_err();
    assert_eq!(err.keyword, "[");
    assert!(!err.message.is_empty());
}

#[test]
fn literal_mode_escapes_metacharacters() {
    // "a+b" in literal mode compiles even though it is not a valid regex
    // fragment on its own terms, and highlights the literal text.
    let kws = vec!["a+b".to_string()];
    let patterns = compile_patterns(&kws, false, false).unwrap();
    let painted = highlight_keywords("x a+b y", &patterns);
    let expected_span = ansi_term::Colour::Red.bold().paint("a+b").to_string();
    assert_eq!(painted, format!("x {} y", expected_span));
}

#[test]
fn single_colour_highlight_wraps_match() {
    let kws = vec!["apple".to_string()];
    let patterns = compile_patterns(&kws, false, false).unwrap();
    let painted = highlight_keywords("apple pie", &patterns);
    let expected_span = ansi_term::Colour::Red.bold().paint("apple").to_string();
    assert_eq!(painted, format!("{} pie", expected_span));
    assert_ne!(painted, "apple pie");
}

#[test]
fn case_insensitive_highlight_keeps_original_case() {
    let kws = vec!["apple".to_string()];
    let patterns = compile_patterns(&kws, false, false).unwrap();
    let painted = highlight_keywords("Apple pie", &patterns);
    let expected_span = ansi_term::Colour::Red.bold().paint("Apple").to_string();
    assert_eq!(painted, format!("{} pie", expected_span));
}

#[test]
fn multi_colour_cycles_palette() {
    let kws = vec!["apple".to_string(), "pie".to_string()];
    let patterns = compile_patterns(&kws, false, false).unwrap();
    let painted = highlight_keywords_multi("apple pie", &patterns);
    let red = ansi_term::Colour::Red.bold().paint("apple").to_string();
    let green = ansi_term::Colour::Green.bold().paint("pie").to_string();
    assert_eq!(painted, format!("{} {}", red, green));
}

#[test]
fn fuzzy_highlight_paints_close_tokens() {
    let terms = vec!["apple".to_string()];
    let painted = highlight_fuzzy_matches("apple pie", &terms, false);
    let red = ansi_term::Colour::Red.bold().paint("apple").to_string();
    assert_eq!(painted, format!("{} pie", red));
}

#[test]
fn fuzzy_highlight_without_terms_keeps_line() {
    let terms: Vec<String> = Vec::new();
    assert_eq!(highlight_fuzzy_matches("apple  pie", &terms, false), "apple  pie");
}

#[test]
fn accent_insensitive_matching() {
    let lines = vec!["Crème brûlée".to_string(), "plain toast".to_string()];
    let out = run_search(&lines, &config(&["creme"])).unwrap();
    assert_eq!(out.match_count, 1);
    assert_eq!(out.plan[0].index, 0);
}

#[test]
fn case_sensitive_matching() {
    let lines = vec!["Apple".to_string(), "apple".to_string()];
    let mut cfg = config(&["Apple"]);
    cfg.case_sensitive = true;
    let out = run_search(&lines, &cfg).unwrap();
    assert_eq!(out.match_count, 1);
    assert_eq!(out.plan[0].index, 0);
}

#[test]
fn line_numbers_prefix_match_lines() {
    let mut cfg = config(&["apple"]);
    cfg.line_numbers = true;
    let out = run_search(&fruit_lines(), &cfg).unwrap();
    let green_one = ansi_term::Colour::Green.paint("1: ").to_string();
    assert!(out.lines[0].starts_with(&green_one));
    assert!(out.lines[0].ends_with("apple pie"));
}

#[test]
fn context_lines_render_dimmed() {
    let lines: Vec<String> = vec!["before".to_string(), "needle".to_string(), "after".to_string()];
    let mut cfg = config(&["needle"]);
    cfg.context_lines = 1;
    let out = run_search(&lines, &cfg).unwrap();
    let dim_before = ansi_term::Style::new().dimmed().paint("before").to_string();
    assert_eq!(out.lines[0], dim_before);
    assert_eq!(out.lines[1], "needle");
}

#[test]
fn fuzzy_highlight_uses_fixed_distance_two() {
    // Matching used threshold 0, so only "apple" satisfied the keyword; the
    // highlighter re-checks tokens against the matched terms with a fixed
    // distance of 2, so the nearby token "appel" is painted as well.
    let lines = vec!["apple appel pie".to_string()];
    let mut cfg = SearchConfig {
        keywords: vec!["apple".to_string()],
        case_sensitive: false,
        use_regex: false,
        line_numbers: false,
        context_lines: 0,
        match_any: false,
        color_mode: ColorMode::Always,
        fuzzy_search: true,
        fuzzy_threshold: 0,
    };
    let out = run_search(&lines, &cfg).unwrap();
    let red_apple = ansi_term::Colour::Red.bold().paint("apple").to_string();
    let red_appel = ansi_term::Colour::Red.bold().paint("appel").to_string();
    assert_eq!(out.lines[0], format!("{} {} pie", red_apple, red_appel));
    cfg.fuzzy_threshold = 2;
    let no_patterns: Vec<regex::Regex> = Vec::new();
    let verdict = match_line(
        "apple appel pie",
        &cfg.keywords,
        &no_patterns,
        true,
        false,
        false,
        0,
        false,
    );
    assert!(verdict.is_match);
    assert_eq!(verdict.matched_terms, vec!["apple"]);
}
