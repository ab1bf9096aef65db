//! Character-sequence utilities shared by the matching and rendering layers:
//! conversions between `String` and `Vec<char>`, ASCII lowercasing,
//! whitespace classification, substring containment, and tokenization.
use vstd::prelude::*;

verus! {

/// True of every character in the Unicode `White_Space` set, the set that
/// `str::split_whitespace` splits on.
pub open spec fn is_ws(c: char) -> bool {
    c == ' ' || c == '\t' || c == '\n' || c == '\u{b}' || c == '\u{c}' || c == '\r'
        || c == '\u{85}' || c == '\u{a0}' || c == '\u{1680}'
        || ('\u{2000}' <= c && c <= '\u{200a}')
        || c == '\u{2028}' || c == '\u{2029}' || c == '\u{202f}' || c == '\u{205f}'
        || c == '\u{3000}'
}

/// Runtime test for [`is_ws`].
pub fn is_ws_char(c: char) -> (b: bool)
    ensures
        b == is_ws(c),
{
    c == ' ' || c == '\t' || c == '\n' || c == '\u{b}' || c == '\u{c}' || c == '\r'
        || c == '\u{85}' || c == '\u{a0}' || c == '\u{1680}'
        || ('\u{2000}' <= c && c <= '\u{200a}')
        || c == '\u{2028}' || c == '\u{2029}' || c == '\u{202f}' || c == '\u{205f}'
        || c == '\u{3000}'
}

/// True when every character of `s` is plain ASCII.
pub open spec fn all_ascii(s: Seq<char>) -> bool {
    forall|i: int| 0 <= i < s.len() ==> '\0' <= #[trigger] s[i] <= '\u{7f}'
}

/// ASCII lowercasing of a single character: `A`..`Z` map to `a`..`z`,
/// everything else is unchanged.
pub open spec fn lower_char(c: char) -> char {
    if 'A' <= c && c <= 'Z' {
        ((c as u8) + 32) as char
    } else {
        c
    }
}

/// ASCII lowercasing of a character sequence.
pub open spec fn lower_seq(s: Seq<char>) -> Seq<char> {
    s.map_values(|c: char| lower_char(c))
}

/// Lowercasing is idempotent and keeps a sequence ASCII.
pub proof fn lemma_lower_seq_idempotent(s: Seq<char>)
    ensures
        lower_seq(lower_seq(s)) == lower_seq(s),
        all_ascii(s) ==> all_ascii(lower_seq(s)),
{
    assert(lower_seq(lower_seq(s)) =~= lower_seq(s)) by {
        assert forall|i: int| 0 <= i < s.len() implies lower_char(lower_char(s[i]))
            == lower_char(s[i]) by {
            assert(!('A' <= lower_char(s[i]) && lower_char(s[i]) <= 'Z'));
        }
    }
    if all_ascii(s) {
        assert forall|i: int| 0 <= i < s.len() implies '\0' <= #[trigger] lower_seq(s)[i]
            <= '\u{7f}' by {
            assert(lower_seq(s)[i] == lower_char(s[i]));
        }
    }
}

/// Runtime ASCII lowercasing over a character vector.
pub fn to_lower_chars(v: &Vec<char>) -> (r: Vec<char>)
    ensures
        r@ == lower_seq(v@),
{
    let mut r: Vec<char> = Vec::new();
    let mut i: usize = 0;
    while i < v.len()
        invariant
            i <= v.len(),
            r@ =~= lower_seq(v@.take(i as int)),
        decreases v.len() - i,
    {
        let c = v[i];
        if 'A' <= c && c <= 'Z' {
            let b: u8 = c as u8;
            r.push((b + 32) as char);
        } else {
            r.push(c);
        }
        assert(lower_seq(v@.take(i + 1)) =~= lower_seq(v@.take(i as int)).push(
            lower_char(v@[i as int]),
        ));
        i = i + 1;
    }
    assert(v@.take(v@.len() as int) =~= v@);
    r
}

/// The characters of `s`, in order, as a vector.
pub fn to_chars(s: &str) -> (v: Vec<char>)
    ensures
        v@ == s@,
{
    let n = s.unicode_len();
    let mut v: Vec<char> = Vec::new();
    let mut i: usize = 0;
    while i < n
        invariant
            i <= n,
            n == s@.len(),
            v@ =~= s@.take(i as int),
        decreases n - i,
    {
        v.push(s.get_char(i));
        assert(v@ =~= s@.take(i + 1));
        i = i + 1;
    }
    assert(s@.take(n as int) =~= s@);
    v
}

/// Relies on `String`'s `FromIterator<char>` impl: collecting characters
/// builds the string with exactly those characters in order.
#[verifier::external_body]
pub(crate) fn from_chars(v: &Vec<char>) -> (s: String)
    ensures
        s@ == v@,
{
    v.iter().collect()
}

/// `needle` occurs in `hay` starting at position `i`.
pub open spec fn occurs_at(hay: Seq<char>, needle: Seq<char>, i: int) -> bool {
    0 <= i && i + needle.len() <= hay.len() && hay.subrange(i, i + needle.len()) =~= needle
}

/// `needle` is a contiguous substring of `hay`.
pub open spec fn contains_sub(hay: Seq<char>, needle: Seq<char>) -> bool {
    exists|i: int| occurs_at(hay, needle, i)
}

/// Substring containment test.
pub fn contains_chars(hay: &Vec<char>, needle: &Vec<char>) -> (b: bool)
    ensures
        b == contains_sub(hay@, needle@),
{
    if needle.len() > hay.len() {
        assert(forall|i: int| !occurs_at(hay@, needle@, i));
        return false;
    }
    let mut i: usize = 0;
    while i <= hay.len() - needle.len()
        invariant
            needle.len() <= hay.len(),
            i <= hay.len() - needle.len() + 1,
            forall|k: int| 0 <= k < i ==> !occurs_at(hay@, needle@, k),
        decreases hay.len() - needle.len() + 1 - i,
    {
        let mut j: usize = 0;
        let mut ok: bool = true;
        while ok && j < needle.len()
            invariant
                i + needle.len() <= hay.len(),
                j <= needle.len(),
                ok ==> forall|k: int| 0 <= k < j ==> hay@[i + k] == needle@[k],
                !ok ==> !occurs_at(hay@, needle@, i as int),
            decreases (if ok { 1int } else { 0int }), needle.len() - j,
        {
            if hay[i + j] == needle[j] {
                j = j + 1;
            } else {
                proof {
                    let ghost jj = j as int;
                    if occurs_at(hay@, needle@, i as int) {
                        assert(hay@.subrange(i as int, i + needle@.len())[jj] == needle@[jj]);
                        assert(hay@[i + jj] == needle@[jj]);
                    }
                }
                ok = false;
            }
        }
        if ok {
            assert(hay@.subrange(i as int, i + needle@.len()) =~= needle@);
            assert(occurs_at(hay@, needle@, i as int));
            return true;
        }
        i = i + 1;
    }
    assert(forall|k: int| occurs_at(hay@, needle@, k) ==> 0 <= k <= hay@.len() - needle@.len());
    false
}

/// Length of the leading run of non-whitespace characters.
pub open spec fn token_end(s: Seq<char>) -> int
    decreases s.len(),
{
    if s.len() == 0 || is_ws(s[0]) {
        0
    } else {
        1 + token_end(s.drop_first())
    }
}

pub proof fn lemma_token_end(s: Seq<char>)
    ensures
        0 <= token_end(s) <= s.len(),
        forall|k: int| 0 <= k < token_end(s) ==> !is_ws(#[trigger] s[k]),
        token_end(s) < s.len() ==> is_ws(s[token_end(s)]),
    decreases s.len(),
{
    if s.len() == 0 || is_ws(s[0]) {
    } else {
        lemma_token_end(s.drop_first());
        assert forall|k: int| 0 <= k < token_end(s) implies !is_ws(#[trigger] s[k]) by {
            if k > 0 {
                assert(s[k] == s.drop_first()[k - 1]);
            }
        }
        if token_end(s) < s.len() {
            assert(s[token_end(s)] == s.drop_first()[token_end(s.drop_first())]);
        }
    }
}

/// The whitespace-separated tokens of `s`, in order: the same splitting that
/// `str::split_whitespace` performs.
pub open spec fn tokens_of(s: Seq<char>) -> Seq<Seq<char>>
    decreases s.len(),
{
    if s.len() == 0 {
        Seq::empty()
    } else if is_ws(s[0]) {
        tokens_of(s.drop_first())
    } else {
        let k = token_end_pos(s);
        seq![s.take(k)] + tokens_of(s.skip(k))
    }
}

/// `token_end`, bounded into `1 ..= s.len()` for a sequence whose first
/// character is not whitespace, so that `tokens_of` visibly terminates.
pub open spec fn token_end_pos(s: Seq<char>) -> int {
    if 1 <= token_end(s) <= s.len() {
        token_end(s)
    } else {
        1
    }
}

pub proof fn lemma_token_end_pos(s: Seq<char>)
    requires
        s.len() > 0,
        !is_ws(s[0]),
    ensures
        token_end_pos(s) == token_end(s),
{
    lemma_token_end(s);
}

/// Splits a character vector into its whitespace-separated tokens.
pub fn tokenize(v: &Vec<char>) -> (r: Vec<Vec<char>>)
    ensures
        r.deep_view() == tokens_of(v@),
{
    let mut r: Vec<Vec<char>> = Vec::new();
    let mut i: usize = 0;
    proof {
        assert(v@.skip(0) =~= v@);
        assert(r.deep_view() + tokens_of(v@) =~~= tokens_of(v@));
    }
    while i < v.len()
        invariant
            i <= v.len(),
            tokens_of(v@) == r.deep_view() + tokens_of(v@.skip(i as int)),
        decreases v.len() - i,
    {
        let c = v[i];
        if is_ws_char(c) {
            proof {
                assert(v@.skip(i as int).drop_first() =~= v@.skip(i + 1));
                assert(tokens_of(v@.skip(i as int)) == tokens_of(v@.skip(i + 1)));
            }
            i = i + 1;
        } else {
            let ghost rest = v@.skip(i as int);
            let start: usize = i;
            let mut tok: Vec<char> = Vec::new();
            tok.push(c);
            i = i + 1;
            while i < v.len() && !is_ws_char(v[i])
                invariant
                    start < i <= v.len(),
                    rest == v@.skip(start as int),
                    tok@ =~= v@.subrange(start as int, i as int),
                    forall|k: int| start <= k < i ==> !is_ws(#[trigger] v@[k]),
                decreases v.len() - i,
            {
                tok.push(v[i]);
                assert(tok@ =~= v@.subrange(start as int, i + 1));
                i = i + 1;
            }
            proof {
                lemma_token_end(rest);
                assert forall|k: int| 0 <= k < i - start implies !is_ws(#[trigger] rest[k]) by {
                    assert(rest[k] == v@[start + k]);
                }
                if i < v.len() {
                    assert(rest[i - start] == v@[i as int]);
                    assert(is_ws(rest[i - start]));
                }
                assert(token_end(rest) == i - start) by {
                    if token_end(rest) < i - start {
                        assert(!is_ws(rest[token_end(rest)]));
                    }
                }
                lemma_token_end_pos(rest);
                assert(rest.take(i - start) =~= v@.subrange(start as int, i as int));
                assert(rest.skip(i - start) =~= v@.skip(i as int));
                assert(tokens_of(rest) == seq![tok@] + tokens_of(v@.skip(i as int)));
            }
            let ghost old_dv = r.deep_view();
            r.push(tok);
            proof {
                assert(r.deep_view() =~~= old_dv.push(tok@));
                assert(old_dv + (seq![tok@] + tokens_of(v@.skip(i as int))) =~~= r.deep_view()
                    + tokens_of(v@.skip(i as int)));
            }
        }
    }
    proof {
        assert(v@.skip(v@.len() as int) =~= Seq::<char>::empty());
        assert(tokens_of(v@) =~= r.deep_view());
    }
    r
}

} // verus!
