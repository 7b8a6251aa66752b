//! Picking the best of a list of candidates, as the discrete-action planner
//! and the HJB solver's minimisation over the control grid do.

use vstd::prelude::*;

verus! {

/// The scan driven by the answers `taken`: going through the costs in order
/// from `init`, cost `j` replaces the current best exactly when `taken[j]`.
/// The result is the index of the last replacement (`None` if there was
/// none) and the best at the end.
pub open spec fn scan_taken<T>(costs: Seq<T>, init: T, taken: Seq<bool>) -> (Option<int>, T)
    decreases costs.len(),
{
    if costs.len() == 0 {
        (None, init)
    } else {
        let prev = scan_taken(costs.drop_last(), init, taken.drop_last());
        if taken[costs.len() - 1] {
            (Some(costs.len() - 1), costs.last())
        } else {
            prev
        }
    }
}

/// The best kept before cost `j` is looked at.
pub open spec fn best_before<T>(costs: Seq<T>, init: T, taken: Seq<bool>, j: int) -> T {
    scan_taken(costs.take(j), init, taken.take(j)).1
}

/// `taken` holds, for every cost, the answer that the comparison gave when
/// asked whether that cost beats the best kept before it.
pub open spec fn answers_of<T, B: Fn(T, T) -> bool>(
    better: B,
    costs: Seq<T>,
    init: T,
    taken: Seq<bool>,
) -> bool {
    &&& taken.len() == costs.len()
    &&& forall|j: int|
        0 <= j < costs.len() ==> better.ensures(
            (costs[j], best_before(costs, init, taken, j)),
            #[trigger] taken[j],
        )
}

/// `r` is what the scan driven by the comparison's own answers keeps: some
/// sequence of answers that `better` gave drives `scan_taken` to `r`.
pub open spec fn kept_by_scan<T, B: Fn(T, T) -> bool>(
    better: B,
    costs: Seq<T>,
    init: T,
    r: (Option<usize>, T),
) -> bool {
    exists|taken: Seq<bool>|
        {
            &&& #[trigger] answers_of(better, costs, init, taken)
            &&& r.1 == scan_taken(costs, init, taken).1
            &&& (r.0 is None <==> scan_taken(costs, init, taken).0 is None)
            &&& (r.0 matches Some(i) ==> scan_taken(costs, init, taken).0 == Some(i as int))
        }
}

/// The candidate that a left-to-right scan keeps: starting from `init`, a
/// cost replaces the current best when `better(cost, best)` answers `true`.
/// Returns the index of the kept candidate (`None` when no cost replaced
/// `init`) and the best cost.  With `better` a strict "less than" this is the
/// first index of the smallest cost (`lemma_first_best_is_first_minimum`).
pub fn first_best<T: Copy, B: Fn(T, T) -> bool>(costs: &[T], init: T, better: B) -> (r: (
    Option<usize>,
    T,
))
    requires
        forall|a: T, b: T| #[trigger] better.requires((a, b)),
    ensures
        kept_by_scan(better, costs@, init, r),
{
    let n = costs.len();
    let mut idx: Option<usize> = None;
    let mut best = init;
    let ghost mut taken: Seq<bool> = Seq::empty();
    let mut j: usize = 0;
    while j < n
        invariant
            n == costs@.len(),
            j <= n,
            forall|a: T, b: T| #[trigger] better.requires((a, b)),
            answers_of(better, costs@.take(j as int), init, taken),
            best == scan_taken(costs@.take(j as int), init, taken).1,
            idx is None <==> scan_taken(costs@.take(j as int), init, taken).0 is None,
            idx matches Some(i) ==> scan_taken(costs@.take(j as int), init, taken).0 == Some(i as int),
        decreases n - j,
    {
        let c = costs[j];
        let take = better(c, best);
        proof {
            let pre = costs@.take(j as int);
            let post = costs@.take(j + 1);
            let old_taken = taken;
            taken = taken.push(take);
            assert(post.drop_last() =~= pre);
            assert(taken.drop_last() =~= old_taken);
            assert(post.last() == c);
            assert forall|m: int| 0 <= m < post.len() implies better.ensures(
                (post[m], best_before(post, init, taken, m)),
                #[trigger] taken[m],
            ) by {
                assert(post.take(m) =~= pre.take(m));
                assert(taken.take(m) =~= old_taken.take(m));
                if m == j {
                    assert(pre.take(m) =~= pre);
                    assert(old_taken.take(m) =~= old_taken);
                } else {
                    assert(pre[m] == post[m]);
                    assert(old_taken[m] == taken[m]);
                }
            }
        }
        if take {
            idx = Some(j);
            best = c;
        }
        j = j + 1;
    }
    proof {
        assert(costs@.take(n as int) =~= costs@);
        assert(answers_of(better, costs@, init, taken));
    }
    (idx, best)
}

/// `lt` is a strict weak order: irreflexive, transitive, and its
/// incomparability is transitive too (as `<` on integers, or on floats that
/// are not NaN).
pub open spec fn strict_weak_order<T>(lt: spec_fn(T, T) -> bool) -> bool {
    &&& forall|a: T| !#[trigger] lt(a, a)
    &&& forall|a: T, b: T, c: T| #[trigger] lt(a, b) && #[trigger] lt(b, c) ==> lt(a, c)
    &&& forall|a: T, b: T, c: T| !#[trigger] lt(a, b) && !#[trigger] lt(b, c) ==> !lt(a, c)
}

/// Law: when every answer is `lt(cost, best so far)` for a strict weak order
/// `lt`, the scan keeps the first index of the smallest cost.  When it keeps
/// index `i`, no cost is smaller than cost `i`, every earlier cost is larger,
/// and cost `i` is smaller than `init`; when it keeps nothing, no cost is
/// smaller than `init`.
pub proof fn lemma_first_best_is_first_minimum<T>(
    costs: Seq<T>,
    init: T,
    taken: Seq<bool>,
    lt: spec_fn(T, T) -> bool,
)
    requires
        strict_weak_order(lt),
        taken.len() == costs.len(),
        forall|j: int|
            0 <= j < costs.len() ==> #[trigger] taken[j] == lt(costs[j], best_before(costs, init, taken, j)),
    ensures
        scan_taken(costs, init, taken).0 is None ==> {
            &&& scan_taken(costs, init, taken).1 == init
            &&& forall|j: int| 0 <= j < costs.len() ==> !lt(#[trigger] costs[j], init)
        },
        scan_taken(costs, init, taken).0 matches Some(i) ==> {
            &&& 0 <= i < costs.len()
            &&& scan_taken(costs, init, taken).1 == costs[i]
            &&& lt(costs[i], init)
            &&& forall|j: int| 0 <= j < costs.len() ==> !lt(#[trigger] costs[j], costs[i])
            &&& forall|j: int| 0 <= j < i ==> lt(costs[i], #[trigger] costs[j])
        },
    decreases costs.len(),
{
    if costs.len() > 0 {
        let n = costs.len() - 1;
        let pre = costs.drop_last();
        let pt = taken.drop_last();
        assert forall|j: int| 0 <= j < pre.len() implies #[trigger] pt[j] == lt(
            pre[j],
            best_before(pre, init, pt, j),
        ) by {
            assert(pre.take(j) =~= costs.take(j));
            assert(pt.take(j) =~= taken.take(j));
            assert(taken[j] == lt(costs[j], best_before(costs, init, taken, j)));
        }
        lemma_first_best_is_first_minimum(pre, init, pt, lt);
        assert(costs.take(n) =~= pre);
        assert(taken.take(n) =~= pt);
        assert(taken[n] == lt(costs[n], best_before(costs, init, taken, n)));
        let prev = scan_taken(pre, init, pt);
        assert(best_before(costs, init, taken, n) == prev.1);
        assert forall|j: int| 0 <= j < n implies pre[j] == costs[j] by {}
    }
}

/// Law: when `better` answers exactly `lt(cost, best)` for a strict weak
/// order `lt`, the result of `first_best` is the first index of the smallest
/// cost and that cost, or `(None, init)` when no cost is smaller than `init`.
pub proof fn lemma_first_best_keeps_first_minimum<T, B: Fn(T, T) -> bool>(
    better: B,
    lt: spec_fn(T, T) -> bool,
    costs: Seq<T>,
    init: T,
    r: (Option<usize>, T),
)
    requires
        strict_weak_order(lt),
        forall|a: T, b: T, t: bool| #[trigger] better.ensures((a, b), t) ==> t == lt(a, b),
        kept_by_scan(better, costs, init, r),
    ensures
        r.0 is None ==> {
            &&& r.1 == init
            &&& forall|j: int| 0 <= j < costs.len() ==> !lt(#[trigger] costs[j], init)
        },
        r.0 matches Some(i) ==> {
            &&& i < costs.len()
            &&& r.1 == costs[i as int]
            &&& lt(costs[i as int], init)
            &&& forall|j: int| 0 <= j < costs.len() ==> !lt(#[trigger] costs[j], costs[i as int])
            &&& forall|j: int| 0 <= j < i ==> lt(costs[i as int], #[trigger] costs[j])
        },
{
    let taken = choose|taken: Seq<bool>|
        {
            &&& #[trigger] answers_of(better, costs, init, taken)
            &&& r.1 == scan_taken(costs, init, taken).1
            &&& (r.0 is None <==> scan_taken(costs, init, taken).0 is None)
            &&& (r.0 matches Some(i) ==> scan_taken(costs, init, taken).0 == Some(i as int))
        };
    assert forall|j: int| 0 <= j < costs.len() implies #[trigger] taken[j] == lt(
        costs[j],
        best_before(costs, init, taken, j),
    ) by {
        assert(better.ensures((costs[j], best_before(costs, init, taken, j)), taken[j]));
    }
    lemma_first_best_is_first_minimum(costs, init, taken, lt);
}

} // verus!
