//! The mathematical model of a monitor grid: per-column maxima and sums,
//! accumulated extents, and which monitor a point falls on.

use vstd::prelude::*;
use vstd::seq_lib::{commutative_foldr, lemma_fold_right_permutation};
use crate::monitor::Monitor;
use crate::window::WINDOW_DECORATION;

verus! {

/// The widest monitor width in a column (0 for an empty column).
pub open spec fn col_max_width(col: Seq<Monitor>) -> int
    decreases col.len(),
{
    if col.len() == 0 {
        0
    } else {
        let rest = col_max_width(col.drop_last());
        if col.last().width > rest {
            col.last().width as int
        } else {
            rest
        }
    }
}

/// The summed monitor heights of a column.
pub open spec fn col_height_sum(col: Seq<Monitor>) -> int
    decreases col.len(),
{
    if col.len() == 0 {
        0
    } else {
        col_height_sum(col.drop_last()) + col.last().height
    }
}

/// The workspace width: the sum over columns of each column's widest width.
pub open spec fn grid_width(cols: Seq<Seq<Monitor>>) -> int
    decreases cols.len(),
{
    if cols.len() == 0 {
        0
    } else {
        grid_width(cols.drop_last()) + col_max_width(cols.last())
    }
}

/// The workspace height: the tallest column's summed height.
pub open spec fn grid_height(cols: Seq<Seq<Monitor>>) -> int
    decreases cols.len(),
{
    if cols.len() == 0 {
        0
    } else {
        let rest = grid_height(cols.drop_last());
        let ch = col_height_sum(cols.last());
        if ch > rest {
            ch
        } else {
            rest
        }
    }
}

/// The total number of monitors in the grid.
pub open spec fn count_monitors(cols: Seq<Seq<Monitor>>) -> int
    decreases cols.len(),
{
    if cols.len() == 0 {
        0
    } else {
        count_monitors(cols.drop_last()) + cols.last().len()
    }
}

/// Every monitor in the column has positive dimensions.
pub open spec fn col_positive(col: Seq<Monitor>) -> bool {
    forall|r: int| 0 <= r < col.len() ==> (#[trigger] col[r]).width > 0 && col[r].height > 0
}

/// A grid the pixel arithmetic can work on: positive dimensions and extents
/// that fit in `i32`.
pub open spec fn grid_wf(cols: Seq<Seq<Monitor>>) -> bool {
    &&& forall|c: int| 0 <= c < cols.len() ==> col_positive(#[trigger] cols[c])
    &&& grid_width(cols) <= i32::MAX
    &&& forall|c: int| 0 <= c < cols.len() ==> col_height_sum(#[trigger] cols[c]) <= i32::MAX
    &&& count_monitors(cols) <= i32::MAX
}

// ---------- monotonicity of the accumulated quantities ----------

pub proof fn lemma_col_max_width_nonneg(col: Seq<Monitor>)
    ensures
        col_max_width(col) >= 0,
    decreases col.len(),
{
    if col.len() > 0 {
        lemma_col_max_width_nonneg(col.drop_last());
    }
}

/// The running maximum over a prefix never exceeds the whole column's
/// maximum.
pub proof fn lemma_col_max_width_prefix(col: Seq<Monitor>, r: int)
    requires
        0 <= r <= col.len(),
    ensures
        col_max_width(col.subrange(0, r)) <= col_max_width(col),
    decreases col.len() - r,
{
    if r == col.len() {
        assert(col.subrange(0, r) =~= col);
    } else {
        let pre = col.subrange(0, col.len() - 1);
        assert(pre =~= col.drop_last());
        assert(pre.subrange(0, r) =~= col.subrange(0, r));
        lemma_col_max_width_prefix(pre, r);
    }
}

pub proof fn lemma_col_height_sum_prefix(col: Seq<Monitor>, r: int)
    requires
        col_positive(col),
        0 <= r <= col.len(),
    ensures
        0 <= col_height_sum(col.subrange(0, r)) <= col_height_sum(col),
    decreases col.len() - r,
{
    if r == col.len() {
        assert(col.subrange(0, r) =~= col);
        lemma_col_height_sum_nonneg(col);
    } else {
        let pre = col.subrange(0, col.len() - 1);
        assert(pre =~= col.drop_last());
        assert(pre.subrange(0, r) =~= col.subrange(0, r));
        assert(col_positive(pre));
        lemma_col_height_sum_prefix(pre, r);
        assert(col.last().height > 0);
    }
}

pub proof fn lemma_col_height_sum_nonneg(col: Seq<Monitor>)
    requires
        col_positive(col),
    ensures
        col_height_sum(col) >= 0,
    decreases col.len(),
{
    if col.len() > 0 {
        assert(col_positive(col.drop_last()));
        lemma_col_height_sum_nonneg(col.drop_last());
        assert(col.last().height > 0);
    }
}

/// Dropping the last column takes one column's maximum off the width.
pub proof fn lemma_grid_width_step(cols: Seq<Seq<Monitor>>, c: int)
    requires
        0 <= c < cols.len(),
    ensures
        grid_width(cols.subrange(0, c + 1)) == grid_width(cols.subrange(0, c)) + col_max_width(
            cols[c],
        ),
{
    let t = cols.subrange(0, c + 1);
    assert(t.drop_last() =~= cols.subrange(0, c));
    assert(t.last() == cols[c]);
}

pub proof fn lemma_grid_width_prefix(cols: Seq<Seq<Monitor>>, c: int)
    requires
        0 <= c <= cols.len(),
    ensures
        0 <= grid_width(cols.subrange(0, c)) <= grid_width(cols),
    decreases cols.len() - c,
{
    if c == cols.len() {
        assert(cols.subrange(0, c) =~= cols);
        lemma_grid_width_nonneg(cols);
    } else {
        let pre = cols.subrange(0, cols.len() - 1);
        assert(pre =~= cols.drop_last());
        assert(pre.subrange(0, c) =~= cols.subrange(0, c));
        lemma_grid_width_prefix(pre, c);
        lemma_col_max_width_nonneg(cols.last());
    }
}

pub proof fn lemma_grid_width_nonneg(cols: Seq<Seq<Monitor>>)
    ensures
        grid_width(cols) >= 0,
    decreases cols.len(),
{
    if cols.len() > 0 {
        lemma_grid_width_nonneg(cols.drop_last());
        lemma_col_max_width_nonneg(cols.last());
    }
}

pub proof fn lemma_grid_height_nonneg(cols: Seq<Seq<Monitor>>)
    ensures
        grid_height(cols) >= 0,
    decreases cols.len(),
{
    if cols.len() > 0 {
        lemma_grid_height_nonneg(cols.drop_last());
    }
}

/// A bound on every column's height sum bounds the workspace height.
pub proof fn lemma_grid_height_bounded(cols: Seq<Seq<Monitor>>, b: int)
    requires
        b >= 0,
        forall|c: int| 0 <= c < cols.len() ==> col_height_sum(#[trigger] cols[c]) <= b,
    ensures
        grid_height(cols) <= b,
    decreases cols.len(),
{
    if cols.len() > 0 {
        assert(forall|c: int|
            0 <= c < cols.len() - 1 ==> cols.drop_last()[c] == #[trigger] cols[c]);
        lemma_grid_height_bounded(cols.drop_last(), b);
    }
}

/// Every column's height sum is bounded by the workspace height.
pub proof fn lemma_grid_height_col(cols: Seq<Seq<Monitor>>, c: int)
    requires
        0 <= c < cols.len(),
    ensures
        col_height_sum(cols[c]) <= grid_height(cols),
    decreases cols.len(),
{
    if c == cols.len() - 1 {
    } else {
        assert(cols.drop_last()[c] == cols[c]);
        lemma_grid_height_col(cols.drop_last(), c);
    }
}

pub proof fn lemma_count_step(cols: Seq<Seq<Monitor>>, c: int)
    requires
        0 <= c < cols.len(),
    ensures
        count_monitors(cols.subrange(0, c + 1)) == count_monitors(cols.subrange(0, c))
            + cols[c].len(),
{
    let t = cols.subrange(0, c + 1);
    assert(t.drop_last() =~= cols.subrange(0, c));
    assert(t.last() == cols[c]);
}

pub proof fn lemma_count_prefix(cols: Seq<Seq<Monitor>>, c: int)
    requires
        0 <= c <= cols.len(),
    ensures
        0 <= count_monitors(cols.subrange(0, c)) <= count_monitors(cols),
    decreases cols.len() - c,
{
    if c == cols.len() {
        assert(cols.subrange(0, c) =~= cols);
        lemma_count_nonneg(cols);
    } else {
        let pre = cols.subrange(0, cols.len() - 1);
        assert(pre =~= cols.drop_last());
        assert(pre.subrange(0, c) =~= cols.subrange(0, c));
        lemma_count_prefix(pre, c);
    }
}

pub proof fn lemma_count_nonneg(cols: Seq<Seq<Monitor>>)
    ensures
        count_monitors(cols) >= 0,
    decreases cols.len(),
{
    if cols.len() > 0 {
        lemma_count_nonneg(cols.drop_last());
    }
}

// ---------- which monitor a point falls on ----------

pub open spec fn valid_pos(cols: Seq<Seq<Monitor>>, c: int, r: int) -> bool {
    0 <= c < cols.len() && 0 <= r < cols[c].len()
}

/// The rightmost x extent claimed once the traversal has processed monitor
/// `(c, r)`: the full widths of the earlier columns plus the running maximum
/// of the current column.
pub open spec fn x_extent_at(cols: Seq<Seq<Monitor>>, c: int, r: int) -> int {
    grid_width(cols.subrange(0, c)) + col_max_width(cols[c].subrange(0, r + 1))
}

/// The bottommost y extent claimed once the traversal has processed monitor
/// `(c, r)`, compensated for the window decoration height.
pub open spec fn y_extent_at(cols: Seq<Seq<Monitor>>, c: int, r: int) -> int {
    col_height_sum(cols[c].subrange(0, r + 1)) - WINDOW_DECORATION
}

/// Whether the accumulated extents at monitor `(c, r)` cover the point.
pub open spec fn monitor_covers(cols: Seq<Seq<Monitor>>, c: int, r: int, x: int, y: int) -> bool {
    valid_pos(cols, c, r) && x < x_extent_at(cols, c, r) && y < y_extent_at(cols, c, r)
}

/// Column-major, top-to-bottom traversal order.
pub open spec fn pos_before(c1: int, r1: int, c2: int, r2: int) -> bool {
    c1 < c2 || (c1 == c2 && r1 < r2)
}

/// Monitor `(c, r)` is the first in traversal order whose extents cover the
/// point.
pub open spec fn first_covering(cols: Seq<Seq<Monitor>>, c: int, r: int, x: int, y: int) -> bool {
    &&& monitor_covers(cols, c, r, x, y)
    &&& forall|c2: int, r2: int|
        pos_before(c2, r2, c, r) ==> !monitor_covers(cols, c2, r2, x, y)
}

/// The linear index of position `(c, r)`: the number of monitors before it.
pub open spec fn linear_index_of(cols: Seq<Seq<Monitor>>, c: int, r: int) -> int {
    count_monitors(cols.subrange(0, c)) + r
}

/// Linear index `k` is where the point is located: the first covering
/// monitor in traversal order.
pub open spec fn located_at(cols: Seq<Seq<Monitor>>, k: int, x: int, y: int) -> bool {
    exists|c: int, r: int|
        #[trigger] first_covering(cols, c, r, x, y) && k == linear_index_of(cols, c, r)
}

/// Some monitor's accumulated extents cover the point.
pub open spec fn covered(cols: Seq<Seq<Monitor>>, x: int, y: int) -> bool {
    exists|c: int, r: int| monitor_covers(cols, c, r, x, y)
}

/// The monitor the point is located on, if any.
pub open spec fn spec_locate(cols: Seq<Seq<Monitor>>, x: int, y: int) -> Option<int> {
    if covered(cols, x, y) {
        Some(choose|k: int| located_at(cols, k, x, y))
    } else {
        None
    }
}

/// Among the monitors that cover a point, there is a first one in traversal
/// order.
pub proof fn lemma_first_cover_exists(cols: Seq<Seq<Monitor>>, x: int, y: int, c0: int, r0: int)
    requires
        monitor_covers(cols, c0, r0, x, y),
    ensures
        exists|c: int, r: int| first_covering(cols, c, r, x, y),
    decreases c0, r0,
{
    if exists|c2: int, r2: int|
        pos_before(c2, r2, c0, r0) && monitor_covers(cols, c2, r2, x, y) {
        let (c2, r2) = choose|c2: int, r2: int|
            pos_before(c2, r2, c0, r0) && monitor_covers(cols, c2, r2, x, y);
        lemma_first_cover_exists(cols, x, y, c2, r2);
    } else {
        assert(first_covering(cols, c0, r0, x, y));
    }
}

/// Distinct valid positions have distinct linear indices.
pub proof fn lemma_linear_index_injective(
    cols: Seq<Seq<Monitor>>,
    c1: int,
    r1: int,
    c2: int,
    r2: int,
)
    requires
        valid_pos(cols, c1, r1),
        valid_pos(cols, c2, r2),
        linear_index_of(cols, c1, r1) == linear_index_of(cols, c2, r2),
    ensures
        c1 == c2 && r1 == r2,
{
    if c1 < c2 {
        lemma_count_step(cols, c1);
        lemma_prefix_count_mono(cols, c1 + 1, c2);
        assert(false);
    } else if c2 < c1 {
        lemma_count_step(cols, c2);
        lemma_prefix_count_mono(cols, c2 + 1, c1);
        assert(false);
    }
}

proof fn lemma_prefix_count_mono(cols: Seq<Seq<Monitor>>, c1: int, c2: int)
    requires
        0 <= c1 <= c2 <= cols.len(),
    ensures
        count_monitors(cols.subrange(0, c1)) <= count_monitors(cols.subrange(0, c2)),
    decreases c2 - c1,
{
    if c1 < c2 {
        lemma_count_step(cols, c2 - 1);
        lemma_prefix_count_mono(cols, c1, c2 - 1);
    }
}

/// A located point's linear index is a valid monitor number.
pub proof fn lemma_located_in_range(cols: Seq<Seq<Monitor>>, k: int, x: int, y: int)
    requires
        located_at(cols, k, x, y),
    ensures
        0 <= k < count_monitors(cols),
{
    let (c, r) = choose|c: int, r: int|
        #[trigger] first_covering(cols, c, r, x, y) && k == linear_index_of(cols, c, r);
    lemma_count_prefix(cols, c);
    lemma_count_step(cols, c);
    lemma_count_prefix(cols, c + 1);
}

/// A point is located at one linear index at most.
pub proof fn lemma_located_at_unique(cols: Seq<Seq<Monitor>>, x: int, y: int, k1: int, k2: int)
    requires
        located_at(cols, k1, x, y),
        located_at(cols, k2, x, y),
    ensures
        k1 == k2,
{
    let (c1, r1) = choose|c: int, r: int|
        #[trigger] first_covering(cols, c, r, x, y) && k1 == linear_index_of(cols, c, r);
    let (c2, r2) = choose|c: int, r: int|
        #[trigger] first_covering(cols, c, r, x, y) && k2 == linear_index_of(cols, c, r);
    if pos_before(c1, r1, c2, r2) || pos_before(c2, r2, c1, r1) {
        assert(false);
    }
}

/// `spec_locate` answers `Some(k)` exactly when the point is located at `k`;
/// together with [`lemma_located_at_unique`] that monitor is unique, and a
/// point outside all accumulated extents is located nowhere.
pub proof fn lemma_spec_locate_characterizes(cols: Seq<Seq<Monitor>>, x: int, y: int, k: int)
    ensures
        located_at(cols, k, x, y) <==> spec_locate(cols, x, y) == Some(k),
{
    if located_at(cols, k, x, y) {
        let (c, r) = choose|c: int, r: int|
            #[trigger] first_covering(cols, c, r, x, y) && k == linear_index_of(cols, c, r);
        assert(monitor_covers(cols, c, r, x, y));
        assert(covered(cols, x, y));
        let k2 = choose|k2: int| located_at(cols, k2, x, y);
        lemma_located_at_unique(cols, x, y, k, k2);
    }
    if spec_locate(cols, x, y) == Some(k) {
        assert(covered(cols, x, y));
        let (c0, r0) = choose|c: int, r: int| monitor_covers(cols, c, r, x, y);
        lemma_first_cover_exists(cols, x, y, c0, r0);
        let (c, r) = choose|c: int, r: int| first_covering(cols, c, r, x, y);
        assert(located_at(cols, linear_index_of(cols, c, r), x, y));
    }
}

// ---------- workspace size is independent of column order ----------

/// Reordering the columns of a grid changes neither the workspace width nor
/// the workspace height: the width is a sum and the height a maximum over
/// the same multiset of columns.
pub proof fn lemma_workspace_size_permutation(cols1: Seq<Seq<Monitor>>, cols2: Seq<Seq<Monitor>>)
    requires
        cols1.to_multiset() == cols2.to_multiset(),
    ensures
        grid_width(cols1) == grid_width(cols2),
        grid_height(cols1) == grid_height(cols2),
{
    let fw = |col: Seq<Monitor>, acc: int| acc + col_max_width(col);
    let fh = |col: Seq<Monitor>, acc: int|
        if col_height_sum(col) > acc {
            col_height_sum(col)
        } else {
            acc
        };
    assert(commutative_foldr(fw)) by {
        assert(forall|x: Seq<Monitor>, y: Seq<Monitor>, v: int| #[trigger]
            fw(x, fw(y, v)) == fw(y, fw(x, v)));
    }
    assert(commutative_foldr(fh)) by {
        assert(forall|x: Seq<Monitor>, y: Seq<Monitor>, v: int| #[trigger]
            fh(x, fh(y, v)) == fh(y, fh(x, v)));
    }
    lemma_grid_width_fold(cols1, 0, fw);
    lemma_grid_width_fold(cols2, 0, fw);
    lemma_fold_right_permutation(cols1, cols2, fw, 0);
    lemma_grid_height_fold(cols1, 0, fh);
    lemma_grid_height_fold(cols2, 0, fh);
    lemma_fold_right_permutation(cols1, cols2, fh, 0);
    lemma_grid_height_nonneg(cols1);
    lemma_grid_height_nonneg(cols2);
}

proof fn lemma_grid_width_fold(cols: Seq<Seq<Monitor>>, b: int, fw: spec_fn(Seq<Monitor>, int) -> int)
    requires
        forall|col: Seq<Monitor>, acc: int| #[trigger] fw(col, acc) == acc + col_max_width(col),
    ensures
        cols.fold_right(fw, b) == grid_width(cols) + b,
    decreases cols.len(),
{
    if cols.len() > 0 {
        lemma_grid_width_fold(cols.drop_last(), fw(cols.last(), b), fw);
    }
}

proof fn lemma_grid_height_fold(
    cols: Seq<Seq<Monitor>>,
    b: int,
    fh: spec_fn(Seq<Monitor>, int) -> int,
)
    requires
        b >= 0,
        forall|col: Seq<Monitor>, acc: int| #[trigger]
            fh(col, acc) == if col_height_sum(col) > acc {
                col_height_sum(col)
            } else {
                acc
            },
    ensures
        cols.fold_right(fh, b) == if grid_height(cols) > b {
            grid_height(cols)
        } else {
            b
        },
    decreases cols.len(),
{
    if cols.len() > 0 {
        lemma_grid_height_fold(cols.drop_last(), fh(cols.last(), b), fh);
    }
}

} // verus!
