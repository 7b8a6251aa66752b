# optimal_control

Optimal control in Rust — LQR, Riccati equations, Pontryagin's principle,
Hamilton-Jacobi-Bellman, bang-bang control, trajectory optimisation and
controllability analysis.  The numerics are floating point and are not
verified; the index logic, the simulation and sweep loops, the selection of
the best candidate and the switching rules they run on are verified in Verus
against the contracts in `src/`.

## Layout

- `src/` — the verified library, generic in the element type:
  - `matrix`: dense row-major matrices (`Mat<T>`).  They stand in for
    `nalgebra::DMatrix<f64>`, whose element type is floating point and whose
    contents could only be named by a generic name, which the verified part
    cannot declare;
  - `lqr`: Kronecker products and column-major (un)vectorisation, with the
    round-trip laws;
  - `controllability`: side-by-side and stacked block concatenation, with the
    block-placement laws and the column law relating the two;
  - `dynamics`: `rollout`, the closed-loop simulation loop;
  - `hjb`: grid cells, finite-difference stencils and the backward sweep of
    the HJB solver;
  - `selection`: the left-to-right choice of the best candidate, with the law
    that under a strict order it is the first smallest;
  - `iteration`: the bounded iteration of the Riccati solvers and the
    trajectory optimisers;
  - `bangbang`: the bang-bang control law, the sign scan that locates
    switching times, and the switch record (the first crossing of the
    switching curve).
- `app/` — the floating-point solvers on `nalgebra` matrices, with serde
  support, built on the library above.
- `tests/` — tests of the library.
