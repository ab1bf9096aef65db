//! Folding of text to a comparison-safe form: diacritic removal followed by
//! ASCII lowercasing. Applied identically to haystack lines and keywords so
//! that comparisons are accent- and case-insensitive.
use vstd::prelude::*;

use crate::text::{all_ascii, from_chars, lower_seq, to_chars, to_lower_chars};

verus! {

/// The ASCII transliteration that `unidecode::unidecode` produces for `s`.
pub uninterp spec fn deaccent_of(s: Seq<char>) -> Seq<char>;

/// Relies on `unidecode::unidecode`: returns an ASCII transliteration of the
/// input; its documentation guarantees that the result is valid ASCII and
/// that every ASCII character is mapped to itself (so an all-ASCII string
/// comes back unchanged).
#[verifier::external_body]
fn deaccent(s: &str) -> (r: String)
    ensures
        r@ == deaccent_of(s@),
        all_ascii(r@),
        all_ascii(s@) ==> r@ == s@,
{
    unidecode::unidecode(s)
}

/// The comparison form of `s`: unchanged when `case_sensitive`, otherwise
/// diacritics removed and the result lowercased.
pub open spec fn norm(s: Seq<char>, case_sensitive: bool) -> Seq<char> {
    if case_sensitive {
        s
    } else {
        lower_seq(deaccent_of(s))
    }
}

/// Folds `s` to its comparison form.
///
/// Law: normalization is idempotent — the second `ensures` clause states that
/// the result is a fixed point of `norm`, so `norm(norm(s, cs), cs) ==
/// norm(s, cs)` at every call site. The implementation re-applies the
/// diacritic fold to its own output, which the fold's contract shows is the
/// identity there.
pub fn normalize(s: &str, case_sensitive: bool) -> (r: String)
    ensures
        r@ == norm(s@, case_sensitive),
        norm(r@, case_sensitive) == r@,
        !case_sensitive && all_ascii(s@) ==> r@ == lower_seq(s@),
{
    if case_sensitive {
        return s.to_owned();
    }
    let folded = deaccent(s);
    let chars = to_chars(folded.as_str());
    let lowered = to_lower_chars(&chars);
    let out = from_chars(&lowered);
    proof {
        crate::text::lemma_lower_seq_idempotent(chars@);
    }
    let fixed = deaccent(out.as_str());
    proof {
        assert(fixed@ == out@);
        assert(lower_seq(deaccent_of(fixed@)) == fixed@) by {
            assert(deaccent_of(out@) == out@);
            assert(lower_seq(lower_seq(chars@)) == lower_seq(chars@));
        }
    }
    fixed
}

} // verus!
