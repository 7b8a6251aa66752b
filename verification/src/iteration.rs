//! The bounded iteration shared by the Riccati solvers and the trajectory
//! optimisers: improve a state step by step until a step reports that it is
//! done, or the iteration budget runs out.

use vstd::prelude::*;

verus! {

/// What one iteration step decides.
pub enum Step<S, R> {
    /// Carry on from this state.
    Continue(S),
    /// Stop with this result.
    Stop(R),
}

/// How an iteration ended.
pub enum Outcome<S, R> {
    /// A step stopped with `result` at iteration `iterations` (counted from 0).
    Stopped { result: R, iterations: usize },
    /// Every one of the allowed steps carried on; `state` is the last state.
    Exhausted { state: S },
}

/// `trace` is a run of `step` from `s0`: each state is what the step on the
/// one before carried on with.
pub open spec fn is_run<S, R, F: Fn(S, usize) -> Step<S, R>>(step: F, s0: S, trace: Seq<S>) -> bool {
    &&& trace.len() >= 1
    &&& trace[0] == s0
    &&& forall|k: int|
        0 <= k < trace.len() - 1 ==> step.ensures((trace[k], k as usize), Step::Continue(#[trigger] trace[k + 1]))
}

/// Law: a run starts at `s0`, and its second state (when it has one) is what
/// the step applied to `s0` at iteration 0 carried on with.
pub proof fn lemma_run_starts<S, R, F: Fn(S, usize) -> Step<S, R>>(step: F, s0: S, trace: Seq<S>)
    requires
        is_run(step, s0, trace),
    ensures
        trace[0] == s0,
        trace.len() >= 2 ==> step.ensures((s0, 0usize), Step::Continue(trace[1])),
{
    if trace.len() >= 2 {
        let z: int = 0;
        assert(step.ensures((trace[z], z as usize), Step::Continue(trace[z + 1])));
    }
}

/// Runs `step` on `s0`, `s1`, ... with the iteration index, for at most
/// `max_iter` steps.  It stops at the first step that returns `Stop`;
/// otherwise it hands back the state reached after `max_iter` steps.
pub fn iterate<S, R, F: Fn(S, usize) -> Step<S, R>>(s0: S, max_iter: usize, step: F) -> (out: Outcome<S, R>)
    requires
        forall|s: S, k: usize| #[trigger] step.requires((s, k)),
    ensures
        exists|trace: Seq<S>| {
            &&& #[trigger] is_run(step, s0, trace)
            &&& match out {
                Outcome::Stopped { result, iterations } => {
                    &&& iterations < max_iter
                    &&& trace.len() == iterations + 1
                    &&& step.ensures((trace.last(), iterations), Step::Stop(result))
                }
                Outcome::Exhausted { state } => {
                    &&& trace.len() == max_iter + 1
                    &&& state == trace.last()
                }
            }
        },
{
    let ghost mut trace: Seq<S> = seq![s0];
    let mut state = s0;
    let mut k: usize = 0;
    while k < max_iter
        invariant
            k <= max_iter,
            forall|s: S, k: usize| #[trigger] step.requires((s, k)),
            is_run(step, s0, trace),
            trace.len() == k + 1,
            state == trace.last(),
        decreases max_iter - k,
    {
        match step(state, k) {
            Step::Continue(next) => {
                proof {
                    let old_trace = trace;
                    trace = trace.push(next);
                    assert forall|j: int| 0 <= j < trace.len() - 1 implies step.ensures(
                        (trace[j], j as usize),
                        Step::Continue(#[trigger] trace[j + 1]),
                    ) by {
                        if j < old_trace.len() - 1 {
                            assert(trace[j] == old_trace[j] && trace[j + 1] == old_trace[j + 1]);
                        }
                    }
                }
                state = next;
            },
            Step::Stop(result) => {
                let out = Outcome::Stopped { result, iterations: k };
                assert(is_run(step, s0, trace));
                return out;
            },
        }
        k = k + 1;
    }
    assert(is_run(step, s0, trace));
    Outcome::Exhausted { state }
}

} // verus!
