//! Closed-loop simulation of a discrete-time system.

use vstd::prelude::*;

verus! {

/// Runs `n` steps from `x0`: at step `k` the control is `control(x_k, k)` and
/// the next state is `step(x_k, u_k)`.  Returns the `n + 1` states visited,
/// `x0` first, and the `n` controls applied.
pub fn rollout<X, U, C: Fn(&X, usize) -> U, S: Fn(&X, &U) -> X>(
    x0: X,
    n: usize,
    control: C,
    step: S,
) -> (r: (Vec<X>, Vec<U>))
    requires
        forall|x: &X, k: usize| #[trigger] control.requires((x, k)),
        forall|x: &X, u: &U| #[trigger] step.requires((x, u)),
    ensures
        r.0@.len() == n + 1,
        r.1@.len() == n,
        r.0@[0] == x0,
        forall|k: int|
            0 <= k < n ==> control.ensures((&r.0@[k], k as usize), #[trigger] r.1@[k]),
        forall|k: int|
            0 <= k < n ==> step.ensures((&r.0@[k], &r.1@[k]), #[trigger] r.0@[k + 1]),
{
    let mut states: Vec<X> = Vec::new();
    let mut controls: Vec<U> = Vec::new();
    states.push(x0);
    let mut k: usize = 0;
    while k < n
        invariant
            k <= n,
            states@.len() == k + 1,
            controls@.len() == k,
            states@[0] == x0,
            forall|x: &X, j: usize| #[trigger] control.requires((x, j)),
            forall|x: &X, u: &U| #[trigger] step.requires((x, u)),
            forall|j: int|
                0 <= j < k ==> control.ensures((&states@[j], j as usize), #[trigger] controls@[j]),
            forall|j: int|
                0 <= j < k ==> step.ensures((&states@[j], &controls@[j]), #[trigger] states@[j + 1]),
        decreases n - k,
    {
        let u = control(&states[k], k);
        let next = step(&states[k], &u);
        states.push(next);
        controls.push(u);
        k = k + 1;
    }
    (states, controls)
}

} // verus!
