//! The screen that candidate samples pass before they are iterated in
//! earnest.
//!
//! Candidates are tested in groups of four. The caller runs the test and
//! hands in the iterations that each candidate took; the screen says which
//! of them are kept. Each one that is kept is emitted twice: as itself and
//! mirrored at the real axis, about which the set is symmetric.

use vstd::prelude::*;

verus! {

/// A sample escapes after more than `min_iter` and fewer than `max_iter`
/// iterations: it is neither plainly outside the set nor plainly inside.
pub open spec fn is_interesting(iteration_count: i64, min_iter: usize, max_iter: usize) -> bool {
    min_iter < iteration_count && iteration_count < max_iter
}

/// One sample that the screen emits.
#[derive(Debug, Clone, Copy, PartialEq, Eq, Structural)]
pub struct CheckedSample {
    /// The position of the candidate among those that were handed in.
    pub index: usize,
    /// Whether the candidate is emitted mirrored at the real axis.
    pub y_fliped: bool,
}

/// What the screen emits for the groups `0 .. groups`: for each candidate
/// that is interesting the candidate itself and then its mirror image, in
/// the order of the candidates.
pub open spec fn checked_upto(
    iteration_counts: Seq<[i64; 4]>,
    min_iter: usize,
    max_iter: usize,
    candidates: int,
) -> Seq<CheckedSample>
    decreases candidates,
{
    if candidates <= 0 {
        Seq::empty()
    } else {
        let index = candidates - 1;
        let before = checked_upto(iteration_counts, min_iter, max_iter, index);
        if is_interesting(iteration_counts[index / 4][index % 4], min_iter, max_iter) {
            before.push(CheckedSample { index: index as usize, y_fliped: false }).push(
                CheckedSample { index: index as usize, y_fliped: true },
            )
        } else {
            before
        }
    }
}

/// What the screen emits for all groups.
pub open spec fn checked(iteration_counts: Seq<[i64; 4]>, min_iter: usize, max_iter: usize) -> Seq<
    CheckedSample,
> {
    checked_upto(iteration_counts, min_iter, max_iter, 4 * (iteration_counts.len() as int))
}

/// The screen of one candidate.
pub fn is_checked(iteration_count: i64, min_iter: usize, max_iter: usize) -> (b: bool)
    ensures
        b == is_interesting(iteration_count, min_iter, max_iter),
{
    let count: i128 = iteration_count as i128;
    (min_iter as i128) < count && count < max_iter as i128
}

/// The screen of the candidates of a batch, given the iterations that the
/// candidates of each full group of four took. Candidates that do not fill a
/// group are not tested and not kept.
pub fn check_points(iteration_counts: &Vec<[i64; 4]>, min_iter: usize, max_iter: usize) -> (kept:
    Vec<CheckedSample>)
    requires
        4 * iteration_counts@.len() <= usize::MAX,
    ensures
        kept@ == checked(iteration_counts@, min_iter, max_iter),
{
    let mut kept: Vec<CheckedSample> = Vec::new();
    let mut group: usize = 0;
    while group < iteration_counts.len()
        invariant
            group <= iteration_counts@.len(),
            4 * iteration_counts@.len() <= usize::MAX,
            kept@ == checked_upto(iteration_counts@, min_iter, max_iter, 4 * (group as int)),
        decreases iteration_counts@.len() - group,
    {
        let counts: [i64; 4] = iteration_counts[group];
        let mut lane: usize = 0;
        while lane < 4
            invariant
                lane <= 4,
                group < iteration_counts@.len(),
                4 * iteration_counts@.len() <= usize::MAX,
                counts == iteration_counts@[group as int],
                kept@ == checked_upto(iteration_counts@, min_iter, max_iter, 4 * group + lane),
            decreases 4 - lane,
        {
            let index: usize = 4 * group + lane;
            assert(index as int / 4 == group && index as int % 4 == lane);
            if is_checked(counts[lane], min_iter, max_iter) {
                kept.push(CheckedSample { index, y_fliped: false });
                kept.push(CheckedSample { index, y_fliped: true });
            }
            lane = lane + 1;
        }
        group = group + 1;
    }
    kept
}

/// The screen keeps a candidate if and only if its escape time lies between
/// the two bounds, both excluded, and then emits it twice.
pub proof fn lemma_checked_members(
    iteration_counts: Seq<[i64; 4]>,
    min_iter: usize,
    max_iter: usize,
    candidates: int,
    index: int,
)
    requires
        0 <= index < candidates <= usize::MAX,
    ensures
        is_interesting(iteration_counts[index / 4][index % 4], min_iter, max_iter) <==> checked_upto(
            iteration_counts,
            min_iter,
            max_iter,
            candidates,
        ).contains(CheckedSample { index: index as usize, y_fliped: false }),
        forall|k: int|
            0 <= k < checked_upto(iteration_counts, min_iter, max_iter, candidates).len() ==> (
            #[trigger] checked_upto(iteration_counts, min_iter, max_iter, candidates)[k]).index
                < candidates,
    decreases candidates,
{
    let all = checked_upto(iteration_counts, min_iter, max_iter, candidates);
    let last = candidates - 1;
    let before = checked_upto(iteration_counts, min_iter, max_iter, last);
    let plain = CheckedSample { index: index as usize, y_fliped: false };
    if last > 0 {
        lemma_checked_members(
            iteration_counts,
            min_iter,
            max_iter,
            last,
            if index < last {
                index
            } else {
                0
            },
        );
    }
    assert forall|k: int| 0 <= k < all.len() implies (#[trigger] all[k]).index < candidates by {
        if k < before.len() {
            assert(all[k] == before[k]);
        }
    }
    let kept_last = is_interesting(iteration_counts[last / 4][last % 4], min_iter, max_iter);
    assert forall|k: int| 0 <= k < before.len() implies (#[trigger] before[k]).index < last by {
        if last == 0 {
            assert(before.len() == 0);
        }
    }
    if index == last {
        if kept_last {
            assert(all[before.len() as int] == plain);
        } else if all.contains(plain) {
            let k = choose|k: int| 0 <= k < all.len() && all[k] == plain;
            assert(before[k].index < last);
        }
    } else {
        if before.contains(plain) {
            let k = choose|k: int| 0 <= k < before.len() && before[k] == plain;
            assert(all[k] == plain);
        }
        if all.contains(plain) {
            let k = choose|k: int| 0 <= k < all.len() && all[k] == plain;
            if k < before.len() {
                assert(before[k] == plain);
            } else {
                assert(all[k].index == last);
            }
        }
    }
}

/// With the bounds of the screen, 50 and 100, a candidate of a batch is
/// emitted if and only if its escape time lies between 50 and 100, both
/// excluded: 51 and 99 pass, 50 and 100 do not.
pub proof fn lemma_screening_selectivity(iteration_counts: Seq<[i64; 4]>, index: int)
    requires
        0 <= index < 4 * iteration_counts.len() <= usize::MAX,
    ensures
        checked(iteration_counts, crate::MIN_ITER, crate::MAX_ITER).contains(
            CheckedSample { index: index as usize, y_fliped: false },
        ) <==> 50 < iteration_counts[index / 4][index % 4] < 100,
        is_interesting(51, crate::MIN_ITER, crate::MAX_ITER),
        is_interesting(99, crate::MIN_ITER, crate::MAX_ITER),
        !is_interesting(50, crate::MIN_ITER, crate::MAX_ITER),
        !is_interesting(100, crate::MIN_ITER, crate::MAX_ITER),
{
    lemma_checked_members(
        iteration_counts,
        crate::MIN_ITER,
        crate::MAX_ITER,
        4 * (iteration_counts.len() as int),
        index,
    );
}

} // verus!
