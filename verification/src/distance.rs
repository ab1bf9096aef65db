//! Edit distance between two character sequences: classic Levenshtein with
//! unit-cost insertions, deletions and substitutions, computed over Unicode
//! scalar values so that a multi-byte character counts as one unit.
use vstd::prelude::*;

verus! {

pub open spec fn min3(x: nat, y: nat, z: nat) -> nat {
    if x <= y && x <= z {
        x
    } else if y <= z {
        y
    } else {
        z
    }
}

/// The minimum number of single-character insertions, deletions, or
/// substitutions that transform `a` into `b`.
pub open spec fn edit_distance(a: Seq<char>, b: Seq<char>) -> nat
    decreases a.len() + b.len(),
{
    if a.len() == 0 {
        b.len()
    } else if b.len() == 0 {
        a.len()
    } else {
        let cost: nat = if a.last() == b.last() {
            0
        } else {
            1
        };
        min3(
            edit_distance(a.drop_last(), b) + 1,
            edit_distance(a, b.drop_last()) + 1,
            edit_distance(a.drop_last(), b.drop_last()) + cost,
        )
    }
}

/// Law: the edit distance never exceeds the longer input's length.
pub proof fn lemma_edit_distance_le_max(a: Seq<char>, b: Seq<char>)
    ensures
        edit_distance(a, b) <= vstd::math::max(a.len() as int, b.len() as int),
    decreases a.len() + b.len(),
{
    if a.len() == 0 || b.len() == 0 {
    } else {
        lemma_edit_distance_le_max(a.drop_last(), b.drop_last());
    }
}

/// Law: edit distance is symmetric — `edit_distance(a, b) == edit_distance(b, a)`.
pub proof fn lemma_edit_distance_symmetric(a: Seq<char>, b: Seq<char>)
    ensures
        edit_distance(a, b) == edit_distance(b, a),
    decreases a.len() + b.len(),
{
    if a.len() == 0 || b.len() == 0 {
    } else {
        lemma_edit_distance_symmetric(a.drop_last(), b);
        lemma_edit_distance_symmetric(a, b.drop_last());
        lemma_edit_distance_symmetric(a.drop_last(), b.drop_last());
    }
}

/// Law: a sequence is at distance zero from itself.
pub proof fn lemma_edit_distance_self(a: Seq<char>)
    ensures
        edit_distance(a, a) == 0,
    decreases a.len(),
{
    if a.len() == 0 {
    } else {
        lemma_edit_distance_self(a.drop_last());
    }
}

/// Law: the distance to or from the empty sequence is the other input's length.
pub proof fn lemma_edit_distance_empty(a: Seq<char>)
    ensures
        edit_distance(a, Seq::<char>::empty()) == a.len(),
        edit_distance(Seq::<char>::empty(), a) == a.len(),
{
}

/// Computes [`edit_distance`] over the characters of the two strings by the
/// standard dynamic-programming table over prefixes.
pub fn levenshtein_distance(s1: &str, s2: &str) -> (d: usize)
    ensures
        d == edit_distance(s1@, s2@),
{
    let a = crate::text::to_chars(s1);
    let b = crate::text::to_chars(s2);
    edit_distance_chars(&a, &b)
}

/// [`levenshtein_distance`], over already-decoded character vectors.
pub fn edit_distance_chars(a: &Vec<char>, b: &Vec<char>) -> (d: usize)
    ensures
        d == edit_distance(a@, b@),
{
    let len1 = a.len();
    let len2 = b.len();
    proof {
        assert(a@.take(len1 as int) =~= a@);
        assert(b@.take(len2 as int) =~= b@);
    }
    if len1 == 0 {
        assert(edit_distance(a@, b@) == b@.len());
        return len2;
    }
    if len2 == 0 {
        return len1;
    }

    // prev holds row i-1 of the table: prev[j] == edit_distance(a[..i-1], b[..j]).
    let mut prev: Vec<usize> = Vec::new();
    let mut jj: usize = 0;
    proof {
        assert(a@.take(0) =~= Seq::<char>::empty());
    }
    prev.push(0);
    while jj < len2
        invariant
            jj <= len2,
            len2 == b@.len(),
            prev@.len() == jj + 1,
            forall|k: int|
                0 <= k <= jj ==> prev@[k] == edit_distance(a@.take(0), b@.take(k)),
        decreases len2 - jj,
    {
        proof {
            assert(a@.take(0) =~= Seq::<char>::empty());
            assert(edit_distance(a@.take(0), b@.take(jj + 1)) == b@.take(jj + 1).len());
        }
        prev.push(jj + 1);
        jj = jj + 1;
    }

    let mut ii: usize = 0;
    while ii < len1
        invariant
            ii <= len1,
            len1 == a@.len(),
            len2 == b@.len(),
            prev@.len() == len2 + 1,
            forall|k: int|
                0 <= k <= len2 ==> prev@[k] == edit_distance(a@.take(ii as int), b@.take(k)),
        decreases len1 - ii,
    {
        let i: usize = ii + 1;
        let mut cur: Vec<usize> = Vec::new();
        cur.push(i);
        proof {
            assert(b@.take(0) =~= Seq::<char>::empty());
            assert(a@.take(i as int).len() == i);
            assert(edit_distance(a@.take(i as int), b@.take(0)) == i);
        }
        let mut jj2: usize = 0;
        while jj2 < len2
            invariant
                1 <= i <= len1,
                i == ii + 1,
                jj2 <= len2,
                len1 == a@.len(),
                len2 == b@.len(),
                prev@.len() == len2 + 1,
                cur@.len() == jj2 + 1,
                forall|k: int|
                    0 <= k <= len2 ==> prev@[k] == edit_distance(a@.take(i - 1), b@.take(k)),
                forall|k: int|
                    0 <= k <= jj2 ==> cur@[k] == edit_distance(a@.take(i as int), b@.take(k)),
            decreases len2 - jj2,
        {
            let j: usize = jj2 + 1;
            let cost: usize = if a[i - 1] == b[j - 1] {
                0
            } else {
                1
            };
            let del: usize = prev[j];
            let ins: usize = cur[j - 1];
            let diag: usize = prev[j - 1];
            proof {
                lemma_edit_distance_le_max(a@.take(i - 1), b@.take(j - 1));
                let ghost ai = a@.take(i as int);
                let ghost bj = b@.take(j as int);
                assert(ai.len() == i && bj.len() == j);
                assert(ai.last() == a@[i - 1] && bj.last() == b@[j - 1]);
                assert(ai.drop_last() =~= a@.take(i - 1));
                assert(bj.drop_last() =~= b@.take(j - 1));
                assert(edit_distance(ai, bj) == min3(
                    edit_distance(a@.take(i - 1), b@.take(j as int)) + 1,
                    edit_distance(a@.take(i as int), b@.take(j - 1)) + 1,
                    edit_distance(a@.take(i - 1), b@.take(j - 1)) + (if a@[i - 1] == b@[j - 1] {
                        0nat
                    } else {
                        1nat
                    }),
                ));
            }
            let mut best: usize = diag + cost;
            if del < best {
                best = del + 1;
            }
            if ins < best {
                best = ins + 1;
            }
            cur.push(best);
            jj2 = jj2 + 1;
        }
        prev = cur;
        ii = ii + 1;
    }
    proof {
        assert(a@.take(len1 as int) =~= a@);
        assert(b@.take(len2 as int) =~= b@);
    }
    prev[len2]
}

} // verus!
