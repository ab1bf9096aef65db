//! Context-window assembly: expands the sorted set of matched line indices by
//! the context radius into an ordered, duplicate-free display plan, each line
//! tagged as a match line or a context line. A maximal contiguous run of plan
//! indices is a display block; rendering places one separator between
//! adjacent blocks.
use vstd::prelude::*;

verus! {

/// One line of the display plan.
#[derive(Clone, Copy, PartialEq, Eq, Structural, Debug)]
pub struct PlanEntry {
    pub index: usize,
    pub is_match: bool,
}

/// First line of the context window around match line `m`.
pub open spec fn win_start(m: int, radius: int) -> int {
    if m - radius >= 0 {
        m - radius
    } else {
        0
    }
}

/// One past the last line of the context window around match line `m`.
pub open spec fn win_end(m: int, radius: int, total: int) -> int {
    if m + radius + 1 <= total {
        m + radius + 1
    } else {
        total
    }
}

/// Line `j` lies in the context window around match line `m`.
pub open spec fn in_window(m: int, j: int, radius: int, total: int) -> bool {
    win_start(m, radius) <= j < win_end(m, radius, total)
}

/// Line `j` lies in some match line's context window.
pub open spec fn covered(ms: Seq<usize>, j: int, radius: int, total: int) -> bool {
    exists|k: int| 0 <= k < ms.len() && in_window(ms[k] as int, j, radius, total)
}

pub open spec fn sorted_strict(ms: Seq<usize>) -> bool {
    forall|k1: int, k2: int| 0 <= k1 < k2 < ms.len() ==> ms[k1] < ms[k2]
}

/// The plan mentions line `j`.
pub open spec fn plan_has(p: Seq<PlanEntry>, j: int) -> bool {
    exists|k: int| 0 <= k < p.len() && (#[trigger] p[k]).index == j
}

/// What [`build_plan`] promises: indices strictly ascending (so no index
/// appears twice), an entry tagged a match exactly when its index is a match
/// line, and an index present exactly when some window covers it.
pub open spec fn plan_spec(p: Seq<PlanEntry>, ms: Seq<usize>, radius: int, total: int) -> bool {
    &&& forall|k1: int, k2: int|
        0 <= k1 < k2 < p.len() ==> (#[trigger] p[k1]).index < (#[trigger] p[k2]).index
    &&& forall|k: int|
        0 <= k < p.len() ==> ((#[trigger] p[k]).is_match <==> ms.contains(p[k].index))
    &&& forall|j: int|
        #![trigger plan_has(p, j)]
        #![trigger covered(ms, j, radius, total)]
        plan_has(p, j) <==> covered(ms, j, radius, total)
}

/// Membership test in a vector of line indices.
pub fn contains_index(ms: &Vec<usize>, j: usize) -> (b: bool)
    ensures
        b == ms@.contains(j),
{
    let mut k: usize = 0;
    while k < ms.len()
        invariant
            k <= ms.len(),
            forall|t: int| 0 <= t < k ==> ms@[t] != j,
        decreases ms.len() - k,
    {
        if ms[k] == j {
            return true;
        }
        k = k + 1;
    }
    false
}

/// Builds the display plan for the given sorted match-line indices, context
/// radius, and file length.
#[verifier::loop_isolation(false)]
pub fn build_plan(ms: &Vec<usize>, radius: usize, total: usize) -> (p: Vec<PlanEntry>)
    requires
        sorted_strict(ms@),
        forall|k: int| 0 <= k < ms@.len() ==> ms@[k] < total,
    ensures
        plan_spec(p@, ms@, radius as int, total as int),
{
    let ghost r = radius as int;
    let ghost tt = total as int;
    let mut p: Vec<PlanEntry> = Vec::new();
    let mut next: usize = 0;
    let mut t: usize = 0;
    while t < ms.len()
        invariant
            t <= ms.len(),
            sorted_strict(ms@),
            forall|k: int| 0 <= k < ms@.len() ==> ms@[k] < total,
            next <= total,
            r == radius as int,
            tt == total as int,
            forall|k1: int, k2: int|
                0 <= k1 < k2 < p@.len() ==> (#[trigger] p@[k1]).index < (#[trigger] p@[k2]).index,
            forall|k: int| 0 <= k < p@.len() ==> (#[trigger] p@[k]).index < next,
            forall|k: int|
                0 <= k < p@.len() ==> ((#[trigger] p@[k]).is_match <==> ms@.contains(p@[k].index)),
            forall|j: int|
                #![trigger plan_has(p@, j)]
                #![trigger covered(ms@.take(t as int), j, r, tt)]
                plan_has(p@, j) <==> covered(ms@.take(t as int), j, r, tt),
            next == 0 || exists|i: int| 0 <= i < t && next == win_end(ms@[i] as int, r, tt),
        decreases ms.len() - t,
    {
        let m = ms[t];
        let start: usize = if m >= radius {
            m - radius
        } else {
            0
        };
        let end: usize = if radius >= total - 1 - m {
            total
        } else {
            m + radius + 1
        };
        proof {
            assert(start as int == win_start(m as int, r));
            assert(end as int == win_end(m as int, r, tt));
        }
        let from: usize = if start > next {
            start
        } else {
            next
        };
        let ghost p_before = p@;
        let mut j: usize = from;
        while j < end
            invariant
                from <= j <= end,
                start <= from,
                end <= total,
                forall|k: int| 0 <= k < ms@.len() ==> ms@[k] < total,
                forall|k1: int, k2: int|
                    0 <= k1 < k2 < p@.len() ==> (#[trigger] p@[k1]).index < (
                    #[trigger] p@[k2]).index,
                forall|k: int| 0 <= k < p_before.len() ==> p@[k] == p_before[k],
                p@.len() == p_before.len() + (j - from),
                forall|k: int|
                    p_before.len() <= k < p@.len() ==> (#[trigger] p@[k]).index == from + (
                    k - p_before.len()),
                forall|k: int| 0 <= k < p@.len() ==> (#[trigger] p@[k]).index < end,
                forall|k: int|
                    0 <= k < p@.len() ==> ((#[trigger] p@[k]).is_match <==> ms@.contains(
                        p@[k].index,
                    )),
                forall|k: int| 0 <= k < p_before.len() ==> (#[trigger] p_before[k]).index < from,
            decreases end - j,
        {
            let is_m = contains_index(ms, j);
            p.push(PlanEntry { index: j, is_match: is_m });
            proof {
                assert forall|k1: int, k2: int| 0 <= k1 < k2 < p@.len() implies (
                #[trigger] p@[k1]).index < (#[trigger] p@[k2]).index by {
                    if k2 == p@.len() - 1 {
                        assert(p@[k2].index == j);
                        if k1 < p_before.len() {
                            assert(p@[k1] == p_before[k1]);
                        }
                    }
                }
            }
            j = j + 1;
        }
        proof {
            // Every line the old plan already covered, plus the fresh window,
            // is exactly what the extended prefix of match lines covers.
            assert(ms@.take(t + 1).drop_last() =~= ms@.take(t as int));
            assert(ms@.take(t + 1).last() == ms@[t as int]);
            assert forall|jj: int|
                #![trigger plan_has(p@, jj)]
                #![trigger covered(ms@.take(t + 1), jj, r, tt)]
                plan_has(p@, jj) <==> covered(ms@.take(t + 1), jj, r, tt) by {
                let ghost msp = ms@.take(t + 1);
                if plan_has(p@, jj) {
                    let k = choose|k: int| 0 <= k < p@.len() && (#[trigger] p@[k]).index == jj;
                    if k < p_before.len() {
                        assert(p_before[k] == p@[k]);
                        assert(p_before[k].index == jj);
                        assert(plan_has(p_before, jj));
                        assert(covered(ms@.take(t as int), jj, r, tt));
                        let i = choose|i: int|
                            0 <= i < ms@.take(t as int).len() && in_window(
                                ms@.take(t as int)[i] as int,
                                jj,
                                r,
                                tt,
                            );
                        assert(msp[i] == ms@.take(t as int)[i]);
                        assert(covered(msp, jj, r, tt));
                    } else {
                        assert(from <= jj < end);
                        assert(in_window(msp[t as int] as int, jj, r, tt));
                        assert(covered(msp, jj, r, tt));
                    }
                }
                if covered(msp, jj, r, tt) {
                    let i = choose|i: int| 0 <= i < msp.len() && in_window(msp[i] as int, jj, r, tt);
                    if i < t {
                        assert(ms@.take(t as int)[i] == msp[i]);
                        assert(covered(ms@.take(t as int), jj, r, tt));
                        assert(plan_has(p_before, jj));
                        let k = choose|k: int|
                            0 <= k < p_before.len() && (#[trigger] p_before[k]).index == jj;
                        assert(p@[k].index == jj);
                        assert(plan_has(p@, jj));
                    } else {
                        assert(msp[i] == m);
                        assert(start <= jj < end);
                        if jj >= from {
                            let k = p_before.len() + (jj - from);
                            assert(p@[k].index == jj);
                            assert(plan_has(p@, jj));
                        } else {
                            // jj < from means jj < next: an earlier window
                            // already covered it.
                            assert(next > 0);
                            let i0 = choose|i0: int|
                                0 <= i0 < t && next == win_end(ms@[i0] as int, r, tt);
                            assert(ms@[i0] <= m);
                            assert(win_start(ms@[i0] as int, r) <= win_start(m as int, r));
                            assert(in_window(ms@[i0] as int, jj, r, tt));
                            assert(ms@.take(t as int)[i0] == ms@[i0]);
                            assert(covered(ms@.take(t as int), jj, r, tt));
                            assert(plan_has(p_before, jj));
                            let k = choose|k: int|
                                0 <= k < p_before.len() && (#[trigger] p_before[k]).index == jj;
                            assert(p@[k].index == jj);
                            assert(plan_has(p@, jj));
                        }
                    }
                }
            }
        }
        if end > next {
            next = end;
            proof {
                assert(next == win_end(ms@[t as int] as int, r, tt));
            }
        } else {
            proof {
                if next > 0 {
                    let i0 = choose|i0: int| 0 <= i0 < t && next == win_end(ms@[i0] as int, r, tt);
                    assert(0 <= i0 < t + 1 && next == win_end(ms@[i0] as int, r, tt));
                }
            }
        }
        t = t + 1;
    }
    proof {
        assert(ms@.take(ms@.len() as int) =~= ms@);
    }
    p
}

/// Law: overlapping or contiguous windows are merged — even when two match
/// lines lie within `2 * radius` of each other, each covered index appears in
/// the plan exactly once.
pub proof fn lemma_plan_no_duplicates(p: Seq<PlanEntry>, ms: Seq<usize>, radius: int, total: int)
    requires
        plan_spec(p, ms, radius, total),
    ensures
        forall|k1: int, k2: int|
            0 <= k1 < k2 < p.len() ==> (#[trigger] p[k1]).index != (#[trigger] p[k2]).index,
{
}

/// Law: the plan specification determines the plan completely — two plans
/// built for the same match lines, radius and file length are equal.
pub proof fn lemma_plan_unique(
    p1: Seq<PlanEntry>,
    p2: Seq<PlanEntry>,
    ms: Seq<usize>,
    radius: int,
    total: int,
)
    requires
        plan_spec(p1, ms, radius, total),
        plan_spec(p2, ms, radius, total),
    ensures
        p1 =~= p2,
{
    // A covered index is never negative, so excluding everything below zero
    // excludes nothing.
    assert forall|j: int|
        #![trigger plan_has(p1, j)]
        plan_has(p1, j) <==> covered(ms, j, radius, total) && j > -1 by {
        if covered(ms, j, radius, total) {
            let k = choose|k: int| 0 <= k < ms.len() && in_window(ms[k] as int, j, radius, total);
            assert(win_start(ms[k] as int, radius) >= 0);
        }
    }
    assert forall|j: int|
        #![trigger plan_has(p2, j)]
        plan_has(p2, j) <==> covered(ms, j, radius, total) && j > -1 by {
        if covered(ms, j, radius, total) {
            let k = choose|k: int| 0 <= k < ms.len() && in_window(ms[k] as int, j, radius, total);
            assert(win_start(ms[k] as int, radius) >= 0);
        }
    }
    lemma_plan_unique_excluding(p1, p2, ms, radius, total, -1);
}

/// Helper: membership in the tail of a strictly ascending plan.
proof fn lemma_tail_has(p: Seq<PlanEntry>, j: int)
    requires
        p.len() > 0,
        forall|k1: int, k2: int|
            0 <= k1 < k2 < p.len() ==> (#[trigger] p[k1]).index < (#[trigger] p[k2]).index,
    ensures
        plan_has(p.drop_first(), j) <==> plan_has(p, j) && j != p[0].index as int,
{
    let t = p.drop_first();
    if plan_has(t, j) {
        let k = choose|k: int| 0 <= k < t.len() && (#[trigger] t[k]).index == j;
        assert(t[k] == p[k + 1]);
        assert(plan_has(p, j));
        assert(p[0].index < p[k + 1].index);
    }
    if plan_has(p, j) && j != p[0].index as int {
        let k = choose|k: int| 0 <= k < p.len() && (#[trigger] p[k]).index == j;
        assert(k != 0);
        assert(t[k - 1] == p[k]);
        assert(plan_has(t, j));
    }
}

/// Helper for [`lemma_plan_unique`]: uniqueness for plans over the covered
/// set with one index removed.
proof fn lemma_plan_unique_excluding(
    p1: Seq<PlanEntry>,
    p2: Seq<PlanEntry>,
    ms: Seq<usize>,
    radius: int,
    total: int,
    excl: int,
)
    requires
        forall|k1: int, k2: int|
            0 <= k1 < k2 < p1.len() ==> (#[trigger] p1[k1]).index < (#[trigger] p1[k2]).index,
        forall|k1: int, k2: int|
            0 <= k1 < k2 < p2.len() ==> (#[trigger] p2[k1]).index < (#[trigger] p2[k2]).index,
        forall|k: int|
            0 <= k < p1.len() ==> ((#[trigger] p1[k]).is_match <==> ms.contains(p1[k].index)),
        forall|k: int|
            0 <= k < p2.len() ==> ((#[trigger] p2[k]).is_match <==> ms.contains(p2[k].index)),
        forall|j: int| #![trigger plan_has(p1, j)] plan_has(p1, j) <==> covered(ms, j, radius, total) && j > excl,
        forall|j: int| #![trigger plan_has(p2, j)] plan_has(p2, j) <==> covered(ms, j, radius, total) && j > excl,
    ensures
        p1 =~= p2,
    decreases p1.len(),
{
    if p1.len() == 0 {
        if p2.len() > 0 {
            assert(plan_has(p2, p2[0].index as int));
            assert(plan_has(p1, p2[0].index as int));
        }
    } else {
        assert(plan_has(p1, p1[0].index as int));
        assert(plan_has(p2, p1[0].index as int));
        let k2 = choose|k: int| 0 <= k < p2.len() && (#[trigger] p2[k]).index == p1[0].index;
        assert(plan_has(p2, p2[0].index as int));
        assert(plan_has(p1, p2[0].index as int));
        let k1 = choose|k: int| 0 <= k < p1.len() && (#[trigger] p1[k]).index == p2[0].index;
        assert(p1[0].index <= p1[k1].index);
        assert(p2[0].index <= p2[k2].index);
        assert(p1[0].index == p2[0].index);
        assert(p1[0] == p2[0]);
        let t1 = p1.drop_first();
        let t2 = p2.drop_first();
        assert forall|k1x: int, k2x: int| 0 <= k1x < k2x < t1.len() implies (
        #[trigger] t1[k1x]).index < (#[trigger] t1[k2x]).index by {
            assert(t1[k1x] == p1[k1x + 1] && t1[k2x] == p1[k2x + 1]);
        }
        assert forall|k1x: int, k2x: int| 0 <= k1x < k2x < t2.len() implies (
        #[trigger] t2[k1x]).index < (#[trigger] t2[k2x]).index by {
            assert(t2[k1x] == p2[k1x + 1] && t2[k2x] == p2[k2x + 1]);
        }
        assert forall|k: int| 0 <= k < t1.len() implies ((#[trigger] t1[k]).is_match
            <==> ms.contains(t1[k].index)) by {
            assert(t1[k] == p1[k + 1]);
        }
        assert forall|k: int| 0 <= k < t2.len() implies ((#[trigger] t2[k]).is_match
            <==> ms.contains(t2[k].index)) by {
            assert(t2[k] == p2[k + 1]);
        }
        assert forall|j: int|
            #![trigger plan_has(t1, j)]
            plan_has(t1, j) <==> covered(ms, j, radius, total) && j > p1[0].index as int by {
            lemma_tail_has(p1, j);
            if plan_has(p1, j) && j != p1[0].index as int {
                let k = choose|k: int| 0 <= k < p1.len() && (#[trigger] p1[k]).index == j;
                if k > 0 {
                    assert(p1[0].index < p1[k].index);
                }
            }
        }
        assert forall|j: int|
            #![trigger plan_has(t2, j)]
            plan_has(t2, j) <==> covered(ms, j, radius, total) && j > p2[0].index as int by {
            lemma_tail_has(p2, j);
            if plan_has(p2, j) && j != p2[0].index as int {
                let k = choose|k: int| 0 <= k < p2.len() && (#[trigger] p2[k]).index == j;
                if k > 0 {
                    assert(p2[0].index < p2[k].index);
                }
            }
        }
        lemma_plan_unique_excluding(t1, t2, ms, radius, total, p1[0].index as int);
        assert forall|k: int| 0 <= k < p1.len() implies p1[k] == p2[k] by {
            if k > 0 {
                assert(t1[k - 1] == p1[k] && t2[k - 1] == p2[k]);
            }
        }
    }
}

/// Law: with context radius zero the plan is exactly the sorted sequence of
/// match lines, each tagged as a match.
pub proof fn lemma_zero_radius_plan(p: Seq<PlanEntry>, ms: Seq<usize>, total: int)
    requires
        plan_spec(p, ms, 0, total),
        sorted_strict(ms),
        forall|k: int| 0 <= k < ms.len() ==> ms[k] < total,
    ensures
        p.len() == ms.len(),
        forall|k: int| 0 <= k < p.len() ==> (#[trigger] p[k]).index == ms[k] && p[k].is_match,
    decreases ms.len(),
{
    if ms.len() == 0 {
        if p.len() > 0 {
            assert(plan_has(p, p[0].index as int));
            assert(covered(ms, p[0].index as int, 0, total));
        }
    } else {
        assert(in_window(ms[0] as int, ms[0] as int, 0, total));
        assert(covered(ms, ms[0] as int, 0, total));
        assert(plan_has(p, ms[0] as int));
        let k0 = choose|k: int| 0 <= k < p.len() && (#[trigger] p[k]).index == ms[0];
        // The first plan entry is a covered line, hence some match line, hence
        // at least the smallest match line; and it is at most ms[0].
        assert(p.len() > 0);
        assert(plan_has(p, p[0].index as int));
        assert(covered(ms, p[0].index as int, 0, total));
        let i0 = choose|i: int| 0 <= i < ms.len() && in_window(ms[i] as int, p[0].index as int, 0, total);
        assert(p[0].index == ms[i0]);
        assert(ms[0] <= ms[i0]);
        assert(p[0].index <= ms[0]) by {
            if k0 > 0 {
                assert(p[0].index < p[k0].index);
            }
        }
        assert(p[0].index == ms[0]);
        assert(p[0].is_match) by {
            assert(ms.contains(p[0].index)) by {
                assert(ms[0] == p[0].index);
            }
        }
        let pt = p.drop_first();
        let mst = ms.drop_first();
        assert forall|k: int| 0 <= k < mst.len() implies mst[k] < total by {
            assert(mst[k] == ms[k + 1]);
        }
        assert(plan_spec(pt, mst, 0, total)) by {
            assert forall|k1: int, k2: int| 0 <= k1 < k2 < pt.len() implies (
            #[trigger] pt[k1]).index < (#[trigger] pt[k2]).index by {
                assert(pt[k1] == p[k1 + 1] && pt[k2] == p[k2 + 1]);
            }
            assert forall|k: int| 0 <= k < pt.len() implies ((#[trigger] pt[k]).is_match
                <==> mst.contains(pt[k].index)) by {
                assert(pt[k] == p[k + 1]);
                assert(p[k + 1].index > p[0].index);
                if p[k + 1].is_match {
                    assert(ms.contains(p[k + 1].index));
                    let i = choose|i: int| 0 <= i < ms.len() && ms[i] == p[k + 1].index;
                    assert(i != 0);
                    assert(mst[i - 1] == p[k + 1].index);
                    assert(mst.contains(pt[k].index));
                }
                if mst.contains(pt[k].index) {
                    let i = choose|i: int| 0 <= i < mst.len() && mst[i] == pt[k].index;
                    assert(ms[i + 1] == pt[k].index);
                    assert(ms.contains(p[k + 1].index));
                }
            }
            assert forall|j: int|
                #![trigger plan_has(pt, j)]
                #![trigger covered(mst, j, 0, total)]
                plan_has(pt, j) <==> covered(mst, j, 0, total) by {
                if plan_has(pt, j) {
                    let k = choose|k: int| 0 <= k < pt.len() && (#[trigger] pt[k]).index == j;
                    assert(pt[k] == p[k + 1]);
                    assert(plan_has(p, j));
                    assert(covered(ms, j, 0, total));
                    let i = choose|i: int| 0 <= i < ms.len() && in_window(ms[i] as int, j, 0, total);
                    assert(j == ms[i]);
                    assert(j > p[0].index);
                    assert(i != 0);
                    assert(mst[i - 1] == ms[i]);
                    assert(in_window(mst[i - 1] as int, j, 0, total));
                    assert(covered(mst, j, 0, total));
                }
                if covered(mst, j, 0, total) {
                    let i = choose|i: int| 0 <= i < mst.len() && in_window(mst[i] as int, j, 0, total);
                    assert(mst[i] == ms[i + 1]);
                    assert(covered(ms, j, 0, total));
                    assert(plan_has(p, j));
                    let k = choose|k: int| 0 <= k < p.len() && (#[trigger] p[k]).index == j;
                    assert(j == mst[i]);
                    assert(j > ms[0]);
                    assert(k != 0);
                    assert(pt[k - 1] == p[k]);
                    assert(plan_has(pt, j));
                }
            }
        }
        lemma_zero_radius_plan(pt, mst, total);
        assert forall|k: int| 0 <= k < p.len() implies (#[trigger] p[k]).index == ms[k]
            && p[k].is_match by {
            if k > 0 {
                assert(pt[k - 1] == p[k]);
                assert(mst[k - 1] == ms[k]);
            }
        }
    }
}

} // verus!
