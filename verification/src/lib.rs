//! Line-oriented keyword search: given a buffer of lines and a set of
//! keywords, finds the lines that match under a configurable policy —
//! literal substring, regex, or fuzzy edit distance — combined with AND/OR
//! across keywords, expands matches by a context radius into a deduplicated
//! display plan, and renders each planned line with ANSI highlighting.
pub mod distance;
pub mod highlight;
pub mod matcher;
pub mod normalize;
pub mod numfmt;
pub mod pattern;
pub mod search;
pub mod text;
pub mod window;
