//! The matrix index algebra behind the continuous-time Riccati solver:
//! Kronecker products and column-major vectorisation.

use vstd::prelude::*;
use vstd::arithmetic::div_mod::lemma_fundamental_div_mod_converse;

use crate::matrix::Mat;

verus! {

/// The column-major stacking of an `nr x nc` matrix given by its rows:
/// entry `k` is the one in row `k % nr` and column `k / nr`.
pub open spec fn spec_vectorize<T>(rows: Seq<Seq<T>>, nr: nat, nc: nat) -> Seq<T> {
    Seq::new(nr * nc, |k: int| rows[k % (nr as int)][k / (nr as int)])
}

/// The `r x c` matrix, given by its rows, whose column-major stacking starts
/// the sequence `v`: entry `(i, j)` is `v[j * r + i]`.
pub open spec fn spec_unvectorize<T>(v: Seq<T>, r: nat, c: nat) -> Seq<Seq<T>> {
    Seq::new(r, |i: int| Seq::new(c, |j: int| v[j * r + i]))
}

/// Stacks the columns of `m`, first to last, into one vector.
pub fn vectorize<T: Copy>(m: &Mat<T>) -> (v: Vec<T>)
    ensures
        v@.len() == m.nr() * m.nc(),
        forall|i: int, j: int|
            0 <= i < m.nr() && 0 <= j < m.nc() ==> v@[j * m.nr() + i] == #[trigger] m@[i][j],
        v@ == spec_vectorize(m@, m.nr(), m.nc()),
{
    let r = m.nrows();
    let c = m.ncols();
    let mut v: Vec<T> = Vec::new();
    let mut j: usize = 0;
    while j < c
        invariant
            r == m.nr(),
            c == m.nc(),
            j <= c,
            v@.len() == j * r,
            forall|ii: int, jj: int|
                0 <= ii < r && 0 <= jj < j ==> v@[jj * r + ii] == #[trigger] m@[ii][jj],
        decreases c - j,
    {
        let mut i: usize = 0;
        while i < r
            invariant
                r == m.nr(),
                c == m.nc(),
                j < c,
                i <= r,
                v@.len() == j * r + i,
                forall|ii: int, jj: int|
                    0 <= ii < r && 0 <= jj < j ==> v@[jj * r + ii] == #[trigger] m@[ii][jj],
                forall|ii: int| 0 <= ii < i ==> v@[j * r + ii] == #[trigger] m@[ii][j as int],
            decreases r - i,
        {
            let ghost before = v@;
            v.push(m.get(i, j));
            proof {
                assert forall|ii: int, jj: int| 0 <= ii < r && 0 <= jj < j implies v@[jj * r + ii]
                    == #[trigger] m@[ii][jj] by {
                    lemma_block_index_below(ii, jj, j as int, r as int);
                    assert(v@[jj * r + ii] == before[jj * r + ii]);
                }
            }
            i = i + 1;
        }
        proof {
            assert((j + 1) * r == j * r + r) by (nonlinear_arith);
            assert forall|ii: int, jj: int| 0 <= ii < r && 0 <= jj < j + 1 implies v@[jj * r + ii]
                == #[trigger] m@[ii][jj] by {
                if jj < j {
                    lemma_block_index_below(ii, jj, j as int, r as int);
                }
            }
        }
        j = j + 1;
    }
    proof {
        assert(j * r == r * c) by (nonlinear_arith)
            requires j == c;
        lemma_vectorize_index(m@, r as nat, c as nat, v@);
    }
    v
}

/// Fills an `r x c` matrix column by column from the first `r * c` entries
/// of `v`: entry `(i, j)` is `v[j * r + i]`.
pub fn unvectorize<T: Copy>(v: &[T], r: usize, c: usize) -> (m: Mat<T>)
    requires
        r * c <= v@.len(),
    ensures
        m.wf(),
        m.nr() == r,
        m.nc() == c,
        forall|i: int, j: int| 0 <= i < r && 0 <= j < c ==> #[trigger] m@[i][j] == v@[j * r + i],
        m@ == spec_unvectorize(v@, r as nat, c as nat),
{
    let len = v.len();
    let mut rows: Vec<Vec<T>> = Vec::new();
    let mut i: usize = 0;
    while i < r
        invariant
            len == v@.len(),
            r * c <= len,
            i <= r,
            rows@.len() == i,
            forall|k: int| 0 <= k < i ==> #[trigger] rows@[k]@.len() == c,
            forall|k: int, j: int| 0 <= k < i && 0 <= j < c ==> #[trigger] rows@[k]@[j] == v@[j * r + k],
        decreases r - i,
    {
        let mut row: Vec<T> = Vec::new();
        let mut j: usize = 0;
        while j < c
            invariant
                len == v@.len(),
                r * c <= len,
                i < r,
                j <= c,
                row@.len() == j,
                forall|l: int| 0 <= l < j ==> #[trigger] row@[l] == v@[l * r + i],
            decreases c - j,
        {
            proof {
                lemma_block_index_below(i as int, j as int, c as int, r as int);
                assert(c * r == r * c) by (nonlinear_arith);
            }
            row.push(v[j * r + i]);
            j = j + 1;
        }
        rows.push(row);
        i = i + 1;
    }
    let m = Mat::from_rows(rows, c);
    assert forall|i: int, j: int| 0 <= i < r && 0 <= j < c implies #[trigger] m@[i][j] == v@[j * r + i] by {
        assert(m@[i] == rows@[i]@);
    }
    assert(m@ =~~= spec_unvectorize(v@, r as nat, c as nat));
    m
}

/// The Kronecker product of `a` (`ra x ca`) and `b` (`rb x cb`): the
/// `(ra * rb) x (ca * cb)` matrix whose entry in row `i * rb + p` and column
/// `j * cb + q` is `times(a[i][j], b[p][q])`.
pub fn kronecker<T: Copy, F: Fn(T, T) -> T>(a: &Mat<T>, b: &Mat<T>, times: F) -> (k: Mat<T>)
    requires
        a.nr() * b.nr() <= usize::MAX,
        a.nc() * b.nc() <= usize::MAX,
        forall|x: T, y: T| #[trigger] times.requires((x, y)),
    ensures
        k.wf(),
        k.nr() == a.nr() * b.nr(),
        k.nc() == a.nc() * b.nc(),
        forall|i: int, p: int, j: int, q: int|
            0 <= i < a.nr() && 0 <= p < b.nr() && 0 <= j < a.nc() && 0 <= q < b.nc() ==> times.ensures(
                (#[trigger] a@[i][j], #[trigger] b@[p][q]),
                k@[i * b.nr() + p][j * b.nc() + q],
            ),
        forall|row: int, col: int|
            0 <= row < k.nr() && 0 <= col < k.nc() ==> times.ensures(
                (
                    a@[row / (b.nr() as int)][col / (b.nc() as int)],
                    b@[row % (b.nr() as int)][col % (b.nc() as int)],
                ),
                #[trigger] k@[row][col],
            ),
{
    let ra = a.nrows();
    let ca = a.ncols();
    let rb = b.nrows();
    let cb = b.ncols();
    let nr = ra * rb;
    let nc = ca * cb;
    let mut rows: Vec<Vec<T>> = Vec::new();
    let mut row: usize = 0;
    while row < nr
        invariant
            ra == a.nr(),
            ca == a.nc(),
            rb == b.nr(),
            cb == b.nc(),
            nr == ra * rb,
            nc == ca * cb,
            row <= nr,
            rows@.len() == row,
            forall|x: T, y: T| #[trigger] times.requires((x, y)),
            forall|r: int| 0 <= r < row ==> #[trigger] rows@[r]@.len() == nc,
            forall|r: int, col: int|
                0 <= r < row && 0 <= col < nc ==> times.ensures(
                    (a@[r / (rb as int)][col / (cb as int)], b@[r % (rb as int)][col % (cb as int)]),
                    #[trigger] rows@[r]@[col],
                ),
        decreases nr - row,
    {
        proof {
            lemma_grid_position(row as int, ra as int, rb as int);
        }
        let i = row / rb;
        let p = row % rb;
        let mut entries: Vec<T> = Vec::new();
        let mut col: usize = 0;
        while col < nc
            invariant
                ra == a.nr(),
                ca == a.nc(),
                rb == b.nr(),
                cb == b.nc(),
                nc == ca * cb,
                i < ra,
                p < rb,
                i == (row as int) / (rb as int),
                p == (row as int) % (rb as int),
                col <= nc,
                entries@.len() == col,
                forall|x: T, y: T| #[trigger] times.requires((x, y)),
                forall|c: int|
                    0 <= c < col ==> times.ensures(
                        (a@[i as int][c / (cb as int)], b@[p as int][c % (cb as int)]),
                        #[trigger] entries@[c],
                    ),
            decreases nc - col,
        {
            proof {
                lemma_grid_position(col as int, ca as int, cb as int);
            }
            let j = col / cb;
            let q = col % cb;
            let x = times(a.get(i, j), b.get(p, q));
            entries.push(x);
            col = col + 1;
        }
        rows.push(entries);
        row = row + 1;
    }
    let k = Mat::from_rows(rows, nc);
    proof {
        assert forall|r: int, col: int| 0 <= r < nr && 0 <= col < nc implies times.ensures(
            (a@[r / (rb as int)][col / (cb as int)], b@[r % (rb as int)][col % (cb as int)]),
            #[trigger] k@[r][col],
        ) by {
            assert(k@[r] == rows@[r]@);
            assert(rows@[r]@[col] == k@[r][col]);
        }
        assert forall|i: int, p: int, j: int, q: int|
            0 <= i < ra && 0 <= p < rb && 0 <= j < ca && 0 <= q < cb implies times.ensures(
            (#[trigger] a@[i][j], #[trigger] b@[p][q]),
            k@[i * rb + p][j * cb + q],
        ) by {
            lemma_block_index_below(p, i, ra as int, rb as int);
            lemma_block_index_below(q, j, ca as int, cb as int);
            assert(ra * rb == rb * ra && ca * cb == cb * ca) by (nonlinear_arith);
            lemma_fundamental_div_mod_converse(i * rb + p, rb as int, i, p);
            lemma_fundamental_div_mod_converse(j * cb + q, cb as int, j, q);
            assert(k@[i * rb + p][j * cb + q] == k@[i * rb + p][j * cb + q]);
        }
    }
    k
}

/// A position `x` in a grid of `count` blocks of `width` lies in block
/// `x / width` at offset `x % width`.
proof fn lemma_grid_position(x: int, count: int, width: int)
    requires
        0 <= count,
        0 <= width,
        0 <= x < count * width,
    ensures
        width > 0,
        0 <= x / width < count,
        0 <= x % width < width,
        x == (x / width) * width + x % width,
{
    assert(width > 0) by (nonlinear_arith)
        requires 0 <= x < count * width, 0 <= count, 0 <= width;
    vstd::arithmetic::div_mod::lemma_fundamental_div_mod(x, width);
    vstd::arithmetic::div_mod::lemma_mod_bound(x, width);
    let q = x / width;
    let r = x % width;
    assert(0 <= q < count) by (nonlinear_arith)
        requires 0 <= x < count * width, x == width * q + r, 0 <= r < width, width > 0;
    assert(x == q * width + r) by (nonlinear_arith)
        requires x == width * q + r;
}

/// Index `jj * width + ii` of an entry of an earlier block lies before block `j`.
proof fn lemma_block_index_below(ii: int, jj: int, j: int, width: int)
    requires
        0 <= ii < width,
        0 <= jj < j,
    ensures
        0 <= jj * width + ii < j * width,
{
    assert(0 <= jj * width + ii < j * width) by (nonlinear_arith)
        requires 0 <= ii < width, 0 <= jj < j;
}

/// A sequence that holds entry `(i, j)` at `j * nr + i`, and has the right
/// length, is the column-major stacking.
proof fn lemma_vectorize_index<T>(rows: Seq<Seq<T>>, nr: nat, nc: nat, v: Seq<T>)
    requires
        v.len() == nr * nc,
        forall|i: int, j: int| 0 <= i < nr && 0 <= j < nc ==> v[j * nr + i] == #[trigger] rows[i][j],
    ensures
        v == spec_vectorize(rows, nr, nc),
{
    let w = spec_vectorize(rows, nr, nc);
    assert forall|k: int| 0 <= k < v.len() implies v[k] == w[k] by {
        let i = k % (nr as int);
        let j = k / (nr as int);
        assert(nr > 0) by (nonlinear_arith)
            requires 0 <= k < nr * nc;
        vstd::arithmetic::div_mod::lemma_fundamental_div_mod(k, nr as int);
        assert(0 <= i < nr) by {
            vstd::arithmetic::div_mod::lemma_mod_bound(k, nr as int);
        }
        assert(0 <= j < nc) by (nonlinear_arith)
            requires 0 <= k < nr * nc, k == nr * j + i, 0 <= i < nr, nr > 0;
        assert(j * nr + i == k) by (nonlinear_arith)
            requires k == nr * j + i;
        assert(v[j * nr + i] == rows[i][j]);
    }
    assert(v =~= w);
}

/// Law: un-stacking the column-major stacking of a matrix gives the matrix
/// back.
pub proof fn lemma_unvectorize_vectorize<T>(rows: Seq<Seq<T>>, nr: nat, nc: nat)
    requires
        rows.len() == nr,
        forall|i: int| 0 <= i < nr ==> #[trigger] rows[i].len() == nc,
    ensures
        spec_unvectorize(spec_vectorize(rows, nr, nc), nr, nc) == rows,
{
    let v = spec_vectorize(rows, nr, nc);
    let back = spec_unvectorize(v, nr, nc);
    assert forall|i: int| 0 <= i < nr implies #[trigger] back[i] == rows[i] by {
        assert forall|j: int| 0 <= j < nc implies #[trigger] back[i][j] == rows[i][j] by {
            let k = j * nr + i;
            lemma_block_index_below(i, j, nc as int, nr as int);
            assert(nc * nr == nr * nc) by (nonlinear_arith);
            lemma_fundamental_div_mod_converse(k, nr as int, j, i);
        }
        assert(back[i] =~= rows[i]);
    }
    assert(back =~= rows);
}

/// Law: stacking the columns of the matrix un-stacked from a sequence of
/// length `r * c` gives the sequence back.
pub proof fn lemma_vectorize_unvectorize<T>(v: Seq<T>, r: nat, c: nat)
    requires
        v.len() == r * c,
    ensures
        spec_vectorize(spec_unvectorize(v, r, c), r, c) == v,
{
    let m = spec_unvectorize(v, r, c);
    assert forall|i: int, j: int| 0 <= i < r && 0 <= j < c implies v[j * r + i] == #[trigger] m[i][j] by {
    }
    lemma_vectorize_index(m, r, c, v);
}

} // verus!
