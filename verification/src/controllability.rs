//! Block concatenation, used to assemble the controllability matrix
//! `[B | AB | ... | A^(n-1) B]` and the observability matrix
//! `[C; CA; ...; CA^(n-1)]`.

use vstd::prelude::*;

use crate::matrix::Mat;

verus! {

broadcast use Seq::lemma_flatten_push;

/// The total number of columns of the blocks.
pub open spec fn total_cols<T>(blocks: Seq<Mat<T>>) -> nat
    decreases blocks.len(),
{
    if blocks.len() == 0 {
        0
    } else {
        total_cols(blocks.drop_last()) + blocks.last().nc()
    }
}

/// Row `i` of every block, in block order.
pub open spec fn row_of_blocks<T>(blocks: Seq<Mat<T>>, i: int) -> Seq<Seq<T>> {
    blocks.map_values(|m: Mat<T>| m@[i])
}

/// The rows of every block, in block order.
pub open spec fn rows_of_blocks<T>(blocks: Seq<Mat<T>>) -> Seq<Seq<Seq<T>>> {
    blocks.map_values(|m: Mat<T>| m@)
}

/// Every block has the row count of the first.
pub open spec fn same_row_count<T>(blocks: Seq<Mat<T>>) -> bool {
    forall|k: int| 0 <= k < blocks.len() ==> #[trigger] blocks[k].nr() == blocks[0].nr()
}

/// Every block has the column count of the first.
pub open spec fn same_col_count<T>(blocks: Seq<Mat<T>>) -> bool {
    forall|k: int| 0 <= k < blocks.len() ==> #[trigger] blocks[k].nc() == blocks[0].nc()
}

/// The columns of a prefix of the blocks are no more than those of all of them.
proof fn lemma_total_cols_prefix<T>(blocks: Seq<Mat<T>>, k: int)
    requires
        0 <= k <= blocks.len(),
    ensures
        total_cols(blocks.take(k)) <= total_cols(blocks),
    decreases blocks.len(),
{
    if k == blocks.len() {
        assert(blocks.take(k) =~= blocks);
    } else {
        lemma_total_cols_prefix(blocks.drop_last(), k);
        assert(blocks.drop_last().take(k) =~= blocks.take(k));
    }
}

/// Places the blocks side by side, left to right.  All blocks must have the
/// row count of the first; no blocks give the `0 x 0` matrix.
pub fn concatenate_columns<T: Copy>(blocks: &[Mat<T>]) -> (m: Mat<T>)
    requires
        same_row_count(blocks@),
        total_cols(blocks@) <= usize::MAX,
    ensures
        m.wf(),
        blocks@.len() == 0 ==> m.nr() == 0 && m.nc() == 0,
        blocks@.len() > 0 ==> m.nr() == blocks@[0].nr(),
        m.nc() == total_cols(blocks@),
        forall|i: int| 0 <= i < m.nr() ==> #[trigger] m@[i] == row_of_blocks(blocks@, i).flatten(),
{
    let count = blocks.len();
    if count == 0 {
        let m = Mat::from_rows(Vec::new(), 0);
        return m;
    }
    // Total number of columns.
    let mut width: usize = 0;
    let mut k: usize = 0;
    while k < count
        invariant
            count == blocks@.len(),
            k <= count,
            width == total_cols(blocks@.take(k as int)),
            total_cols(blocks@) <= usize::MAX,
        decreases count - k,
    {
        proof {
            assert(blocks@.take(k + 1).drop_last() =~= blocks@.take(k as int));
            lemma_total_cols_prefix(blocks@, k + 1);
        }
        width = width + blocks[k].ncols();
        k = k + 1;
    }
    assert(blocks@.take(count as int) =~= blocks@);
    let nrows = blocks[0].nrows();
    let mut rows: Vec<Vec<T>> = Vec::new();
    let mut i: usize = 0;
    while i < nrows
        invariant
            count == blocks@.len(),
            count > 0,
            nrows == blocks@[0].nr(),
            same_row_count(blocks@),
            width == total_cols(blocks@),
            i <= nrows,
            rows@.len() == i,
            forall|r: int| 0 <= r < i ==> #[trigger] rows@[r]@ == row_of_blocks(blocks@, r).flatten(),
            forall|r: int| 0 <= r < i ==> #[trigger] rows@[r]@.len() == width,
        decreases nrows - i,
    {
        let mut entries: Vec<T> = Vec::new();
        let mut k: usize = 0;
        while k < count
            invariant
                count == blocks@.len(),
                nrows == blocks@[0].nr(),
                same_row_count(blocks@),
                i < nrows,
                k <= count,
                entries@ == row_of_blocks(blocks@.take(k as int), i as int).flatten(),
                entries@.len() == total_cols(blocks@.take(k as int)),
            decreases count - k,
        {
            let block = &blocks[k];
            let w = block.ncols();
            proof {
                assert(block.nr() == nrows);
                assert(block.wf());
            }
            let ghost start = entries@;
            let mut j: usize = 0;
            while j < w
                invariant
                    w == block.nc(),
                    i < block.nr(),
                    block.wf(),
                    j <= w,
                    entries@ == start + block@[i as int].take(j as int),
                decreases w - j,
            {
                entries.push(block.get(i, j));
                proof {
                    assert(start + block@[i as int].take(j + 1) =~= (start + block@[i as int].take(
                        j as int,
                    )).push(block@[i as int][j as int]));
                }
                j = j + 1;
            }
            proof {
                assert(block@[i as int].take(w as int) =~= block@[i as int]);
                let pre = blocks@.take(k as int);
                let post = blocks@.take(k + 1);
                assert(post.drop_last() =~= pre);
                assert(row_of_blocks(post, i as int) =~= row_of_blocks(pre, i as int).push(
                    block@[i as int],
                ));
            }
            k = k + 1;
        }
        proof {
            assert(blocks@.take(count as int) =~= blocks@);
        }
        rows.push(entries);
        i = i + 1;
    }
    let m = Mat::from_rows(rows, width);
    assert forall|i: int| 0 <= i < m.nr() implies #[trigger] m@[i] == row_of_blocks(blocks@, i).flatten() by {
        assert(m@[i] == rows@[i]@);
    }
    m
}

/// Stacks the blocks on top of each other, first to last.  All blocks must
/// have the column count of the first; no blocks give the `0 x 0` matrix.
pub fn concatenate_rows<T: Copy>(blocks: &[Mat<T>]) -> (m: Mat<T>)
    requires
        same_col_count(blocks@),
    ensures
        m.wf(),
        blocks@.len() == 0 ==> m.nr() == 0 && m.nc() == 0,
        blocks@.len() > 0 ==> m.nc() == blocks@[0].nc(),
        m@ == rows_of_blocks(blocks@).flatten(),
{
    let count = blocks.len();
    if count == 0 {
        let m = Mat::from_rows(Vec::new(), 0);
        assert(m@ =~= rows_of_blocks(blocks@).flatten());
        return m;
    }
    let width = blocks[0].ncols();
    let mut rows: Vec<Vec<T>> = Vec::new();
    let mut k: usize = 0;
    while k < count
        invariant
            count == blocks@.len(),
            count > 0,
            width == blocks@[0].nc(),
            same_col_count(blocks@),
            k <= count,
            forall|r: int| 0 <= r < rows@.len() ==> #[trigger] rows@[r]@.len() == width,
            rows@.map_values(|r: Vec<T>| r@) == rows_of_blocks(blocks@.take(k as int)).flatten(),
        decreases count - k,
    {
        let block = &blocks[k];
        let h = block.nrows();
        proof {
            assert(block.nc() == width);
            assert(block.wf());
        }
        let ghost start = rows@.map_values(|r: Vec<T>| r@);
        let mut i: usize = 0;
        while i < h
            invariant
                h == block.nr(),
                width == block.nc(),
                block.wf(),
                i <= h,
                forall|r: int| 0 <= r < rows@.len() ==> #[trigger] rows@[r]@.len() == width,
                rows@.map_values(|r: Vec<T>| r@) == start + block@.take(i as int),
            decreases h - i,
        {
            let mut entries: Vec<T> = Vec::new();
            let mut j: usize = 0;
            while j < width
                invariant
                    width == block.nc(),
                    i < block.nr(),
                    block.wf(),
                    j <= width,
                    entries@ == block@[i as int].take(j as int),
                decreases width - j,
            {
                entries.push(block.get(i, j));
                proof {
                    assert(block@[i as int].take(j + 1) =~= block@[i as int].take(j as int).push(
                        block@[i as int][j as int],
                    ));
                }
                j = j + 1;
            }
            proof {
                assert(block@[i as int].take(width as int) =~= block@[i as int]);
            }
            let ghost before = rows@;
            rows.push(entries);
            proof {
                assert(rows@.map_values(|r: Vec<T>| r@) =~= before.map_values(|r: Vec<T>| r@).push(
                    block@[i as int],
                ));
                assert(start + block@.take(i + 1) =~= (start + block@.take(i as int)).push(
                    block@[i as int],
                ));
            }
            i = i + 1;
        }
        proof {
            assert(block@.take(h as int) =~= block@);
            let pre = blocks@.take(k as int);
            let post = blocks@.take(k + 1);
            assert(rows_of_blocks(post) =~= rows_of_blocks(pre).push(block@));
        }
        k = k + 1;
    }
    proof {
        assert(blocks@.take(count as int) =~= blocks@);
    }
    let m = Mat::from_rows(rows, width);
    m
}

/// Every block is well formed.
pub open spec fn all_wf<T>(blocks: Seq<Mat<T>>) -> bool {
    forall|k: int| 0 <= k < blocks.len() ==> #[trigger] blocks[k].wf()
}

/// Row `i` of the blocks, laid side by side, is as long as their column count.
proof fn lemma_row_of_blocks_len<T>(blocks: Seq<Mat<T>>, i: int)
    requires
        all_wf(blocks),
        0 <= i,
        forall|k: int| 0 <= k < blocks.len() ==> i < #[trigger] blocks[k].nr(),
    ensures
        row_of_blocks(blocks, i).flatten().len() == total_cols(blocks),
    decreases blocks.len(),
{
    if blocks.len() > 0 {
        let pre = blocks.drop_last();
        assert forall|k: int| 0 <= k < pre.len() implies i < #[trigger] pre[k].nr() by {
            assert(pre[k] == blocks[k]);
        }
        assert forall|k: int| 0 <= k < pre.len() implies #[trigger] pre[k].wf() by {
            assert(pre[k] == blocks[k]);
        }
        lemma_row_of_blocks_len(pre, i);
        let last = blocks.len() - 1;
        assert(i < blocks[last].nr());
        assert(blocks[last].wf());
        assert(row_of_blocks(blocks, i) =~= row_of_blocks(pre, i).push(blocks[last]@[i]));
    }
}

/// Law: in the side-by-side concatenation, block `k` occupies the columns
/// that follow those of the blocks before it.  Entry `(i, j)` of block `k` is
/// entry `(i, c + j)` of the result, where `c` is the number of columns of
/// blocks `0 .. k`.
pub proof fn lemma_concatenate_columns_entry<T>(blocks: Seq<Mat<T>>, i: int, k: int, j: int)
    requires
        all_wf(blocks),
        same_row_count(blocks),
        0 <= k < blocks.len(),
        0 <= i < blocks[0].nr(),
        0 <= j < blocks[k].nc(),
    ensures
        row_of_blocks(blocks, i).flatten()[total_cols(blocks.take(k)) + j] == blocks[k]@[i][j],
{
    let before = blocks.take(k);
    let rest = blocks.skip(k + 1);
    assert(row_of_blocks(blocks, i) =~= row_of_blocks(before, i).push(blocks[k]@[i]) + row_of_blocks(
        rest,
        i,
    ));
    vstd::seq_lib::lemma_flatten_concat(
        row_of_blocks(before, i).push(blocks[k]@[i]),
        row_of_blocks(rest, i),
    );
    assert(all_wf(before));
    assert forall|m: int| 0 <= m < before.len() implies i < #[trigger] before[m].nr() by {
        assert(before[m] == blocks[m]);
    }
    lemma_row_of_blocks_len(before, i);
    assert(blocks[k].wf());
}

/// Law: in the stacked concatenation, block `k` occupies the rows that
/// follow those of the blocks before it: row `i` of block `k` is row `r + i`
/// of the result, where `r` is the number of rows of blocks `0 .. k`.
pub proof fn lemma_concatenate_rows_entry<T>(blocks: Seq<Mat<T>>, k: int, i: int)
    requires
        all_wf(blocks),
        0 <= k < blocks.len(),
        0 <= i < blocks[k].nr(),
    ensures
        rows_of_blocks(blocks).flatten()[rows_of_blocks(blocks.take(k)).flatten().len() + i] == blocks[k]@[i],
{
    let before = blocks.take(k);
    let rest = blocks.skip(k + 1);
    assert(rows_of_blocks(blocks) =~= rows_of_blocks(before).push(blocks[k]@) + rows_of_blocks(rest));
    vstd::seq_lib::lemma_flatten_concat(rows_of_blocks(before).push(blocks[k]@), rows_of_blocks(rest));
    assert(blocks[k].wf());
}

/// Column `j` of a matrix given by its rows.
pub open spec fn column<T>(rows: Seq<Seq<T>>, j: int) -> Seq<T> {
    Seq::new(rows.len(), |i: int| rows[i][j])
}

/// Law (the two concatenations are transposes of each other): column `j`
/// of the blocks stacked on top of each other is column `j` of every block,
/// laid end to end in block order.
pub proof fn lemma_stacked_column<T>(blocks: Seq<Mat<T>>, j: int)
    ensures
        column(rows_of_blocks(blocks).flatten(), j) == blocks.map_values(|m: Mat<T>| column(m@, j)).flatten(),
    decreases blocks.len(),
{
    let cols = blocks.map_values(|m: Mat<T>| column(m@, j));
    if blocks.len() == 0 {
        assert(column(rows_of_blocks(blocks).flatten(), j) =~= Seq::<T>::empty());
        assert(cols.flatten() =~= Seq::<T>::empty());
    } else {
        let pre = blocks.drop_last();
        let last = blocks.last();
        lemma_stacked_column(pre, j);
        assert(rows_of_blocks(blocks) =~= rows_of_blocks(pre).push(last@));
        assert(cols =~= pre.map_values(|m: Mat<T>| column(m@, j)).push(column(last@, j)));
        let x = rows_of_blocks(pre).flatten();
        assert(column(x + last@, j) =~= column(x, j) + column(last@, j));
    }
}

} // verus!
