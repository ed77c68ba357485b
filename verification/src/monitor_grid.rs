//! The monitor grid: columns of stacked monitors, wraparound index
//! arithmetic, and point-to-monitor resolution by accumulated extents.

use vstd::prelude::*;
use vstd::arithmetic::div_mod::{lemma_add_mod_noop, lemma_mod_multiples_vanish, lemma_small_mod};
use crate::errors::FocusError;
use crate::focus_direction::FocusDirection;
use crate::grid_geometry::{
    col_height_sum, col_max_width, col_positive, count_monitors, covered, first_covering,
    grid_wf, grid_width, lemma_col_height_sum_prefix, lemma_col_max_width_nonneg,
    lemma_col_max_width_prefix, lemma_count_nonneg, lemma_count_prefix, lemma_count_step,
    lemma_grid_width_prefix, lemma_grid_width_step, linear_index_of, located_at, monitor_covers,
    pos_before, valid_pos, x_extent_at, y_extent_at,
};
use crate::monitor::{Monitor, MonitorIndex};
use crate::window::{Window, WINDOW_DECORATION};

verus! {

/// The sequence-of-sequences view of a vector of monitor columns.
pub open spec fn cols_of(v: Seq<Vec<Monitor>>) -> Seq<Seq<Monitor>> {
    v.map_values(|c: Vec<Monitor>| c@)
}

/// An ordered sequence of monitor columns, each column ordered top to
/// bottom.
#[derive(Debug)]
pub struct MonitorGrid(pub Vec<Vec<Monitor>>);

impl MonitorGrid {
    /// The grid's mathematical value.
    pub open spec fn cols(&self) -> Seq<Seq<Monitor>> {
        cols_of(self.0@)
    }
}

/// Copies a vector of monitor columns, keeping the mathematical value.
pub fn clone_columns(v: &Vec<Vec<Monitor>>) -> (res: Vec<Vec<Monitor>>)
    ensures
        cols_of(res@) == cols_of(v@),
{
    let n = v.len();
    let mut columns: Vec<Vec<Monitor>> = Vec::new();
    let mut c: usize = 0;
    while c < n
        invariant
            n == v@.len(),
            0 <= c <= n,
            cols_of(columns@) == cols_of(v@).subrange(0, c as int),
        decreases n - c,
    {
        let col = &v[c];
        let m = col.len();
        let mut copy: Vec<Monitor> = Vec::new();
        let mut r: usize = 0;
        while r < m
            invariant
                m == col@.len(),
                0 <= r <= m,
                copy@ == col@.subrange(0, r as int),
            decreases m - r,
        {
            copy.push(col[r]);
            proof {
                assert(copy@ =~= col@.subrange(0, r + 1));
            }
            r += 1;
        }
        proof {
            assert(copy@ =~= col@);
        }
        let ghost old_cols = columns@;
        let ghost copy_view = copy@;
        columns.push(copy);
        proof {
            assert(cols_of(columns@) =~= cols_of(old_cols).push(copy_view));
            assert(cols_of(v@).subrange(0, c + 1) =~= cols_of(v@).subrange(
                0,
                c as int,
            ).push(v@[c as int]@));
            assert(cols_of(columns@) =~= cols_of(v@).subrange(0, c + 1));
        }
        c += 1;
    }
    proof {
        assert(cols_of(v@).subrange(0, n as int) =~= cols_of(v@));
    }
    columns
}

impl Clone for MonitorGrid {
    fn clone(&self) -> (res: Self)
        ensures
            res.cols() == self.cols(),
    {
        MonitorGrid(clone_columns(&self.0))
    }
}

// ---------- wraparound index arithmetic ----------

/// The next monitor index in a direction, with wraparound:
/// `((i + step) mod n + n) mod n` for step -1 / +1, written with the step
/// already made non-negative.
pub open spec fn next_index(n: int, i: int, d: FocusDirection) -> int {
    match d {
        FocusDirection::Left => (i + n - 1) % n,
        FocusDirection::Right => (i + 1) % n,
    }
}

/// The wraparound arithmetic, case by case.
pub proof fn lemma_next_index_cases(n: int, i: int, d: FocusDirection)
    requires
        n >= 1,
        0 <= i < n,
    ensures
        0 <= next_index(n, i, d) < n,
        d is Left ==> next_index(n, i, d) == if i == 0 {
            n - 1
        } else {
            i - 1
        },
        d is Right ==> next_index(n, i, d) == if i == n - 1 {
            0
        } else {
            i + 1
        },
{
    match d {
        FocusDirection::Left => {
            if i == 0 {
                lemma_small_mod((n - 1) as nat, n as nat);
            } else {
                lemma_mod_multiples_vanish(1, i - 1, n);
                lemma_small_mod((i - 1) as nat, n as nat);
            }
        },
        FocusDirection::Right => {
            if i == n - 1 {
                lemma_mod_multiples_vanish(1, 0, n);
                lemma_small_mod(0, n as nat);
            } else {
                lemma_small_mod((i + 1) as nat, n as nat);
            }
        },
    }
}

/// Stepping right then left (or left then right) returns to the start:
/// `next_monitor` round-trips.
pub proof fn lemma_next_index_round_trip(n: int, i: int)
    requires
        n >= 1,
        0 <= i < n,
    ensures
        next_index(n, next_index(n, i, FocusDirection::Right), FocusDirection::Left) == i,
        next_index(n, next_index(n, i, FocusDirection::Left), FocusDirection::Right) == i,
{
    lemma_next_index_cases(n, i, FocusDirection::Right);
    lemma_next_index_cases(n, next_index(n, i, FocusDirection::Right), FocusDirection::Left);
    lemma_next_index_cases(n, i, FocusDirection::Left);
    lemma_next_index_cases(n, next_index(n, i, FocusDirection::Left), FocusDirection::Right);
}

/// For a fixed direction, `next_monitor` is a bijection on `{0, …, n-1}`:
/// it is injective, and the opposite direction is its inverse, so every
/// index is reached.
pub proof fn lemma_next_index_bijective(n: int, i: int, j: int, d: FocusDirection)
    requires
        n >= 1,
        0 <= i < n,
        0 <= j < n,
    ensures
        next_index(n, i, d) == next_index(n, j, d) ==> i == j,
        exists|k: int| 0 <= k < n && #[trigger] next_index(n, k, d) == j,
{
    lemma_next_index_cases(n, i, d);
    lemma_next_index_cases(n, j, d);
    let back = match d {
        FocusDirection::Left => FocusDirection::Right,
        FocusDirection::Right => FocusDirection::Left,
    };
    let k = next_index(n, j, back);
    lemma_next_index_cases(n, j, back);
    lemma_next_index_round_trip(n, j);
    assert(0 <= k < n && next_index(n, k, d) == j);
}

/// The index reached after `k` wraparound steps in a direction.
pub open spec fn advance_index(n: int, i: int, d: FocusDirection, k: int) -> int
    decreases k,
{
    if k <= 0 {
        i
    } else {
        next_index(n, advance_index(n, i, d, k - 1), d)
    }
}

pub open spec fn dir_offset(n: int, d: FocusDirection) -> int {
    match d {
        FocusDirection::Left => n - 1,
        FocusDirection::Right => 1,
    }
}

pub proof fn lemma_advance_formula(n: int, i: int, d: FocusDirection, k: int)
    requires
        n >= 1,
        0 <= i < n,
        k >= 0,
    ensures
        0 <= advance_index(n, i, d, k) < n,
        advance_index(n, i, d, k) == (i + k * dir_offset(n, d)) % n,
    decreases k,
{
    let off = dir_offset(n, d);
    if k == 0 {
        assert(k * off == 0) by (nonlinear_arith)
            requires
                k == 0,
        ;
        lemma_small_mod(i as nat, n as nat);
    } else {
        lemma_advance_formula(n, i, d, k - 1);
        let prev = advance_index(n, i, d, k - 1);
        lemma_next_index_cases(n, prev, d);
        assert(next_index(n, prev, d) == (prev + off) % n) by {
            match d {
                FocusDirection::Left => {},
                FocusDirection::Right => {},
            }
        }
        lemma_add_mod_noop(prev, off, n);
        lemma_add_mod_noop(i + (k - 1) * off, off, n);
        assert((k - 1) * off + off == k * off) by (nonlinear_arith)
            requires
                k >= 1,
        ;
        assert(prev % n == prev) by {
            lemma_small_mod(prev as nat, n as nat);
        }
    }
}

/// After `n` steps the traversal has wrapped all the way around.
pub proof fn lemma_advance_full_cycle(n: int, i: int, d: FocusDirection)
    requires
        n >= 1,
        0 <= i < n,
    ensures
        advance_index(n, i, d, n) == i,
{
    lemma_advance_formula(n, i, d, n);
    let off = dir_offset(n, d);
    lemma_mod_multiples_vanish(off, i, n);
    assert(n * off == off * n) by (nonlinear_arith);
    lemma_small_mod(i as nat, n as nat);
}

// ---------- the grid's operations ----------

impl MonitorGrid {
    /// The total number of monitors: the sum of all column lengths.
    pub fn calculate_monitor_count(&self) -> (r: i32)
        requires
            grid_wf(self.cols()),
        ensures
            r as int == count_monitors(self.cols()),
    {
        let ghost cols = self.cols();
        let n = self.0.len();
        let mut acc: i64 = 0;
        let mut c: usize = 0;
        proof {
            assert(cols.subrange(0, 0) =~= Seq::<Seq<Monitor>>::empty());
        }
        while c < n
            invariant
                n == self.0@.len(),
                cols == self.cols(),
                grid_wf(cols),
                0 <= c <= n,
                acc == count_monitors(cols.subrange(0, c as int)),
            decreases n - c,
        {
            proof {
                lemma_count_step(cols, c as int);
                lemma_count_prefix(cols, c as int);
                lemma_count_prefix(cols, c + 1);
                assert(cols[c as int] == self.0@[c as int]@);
                assert(self.0@[c as int]@.len() == count_monitors(cols.subrange(0, c + 1))
                    - count_monitors(cols.subrange(0, c as int)));
                assert(self.0@[c as int]@.len() <= i32::MAX);
            }
            acc = acc + self.0[c].len() as i64;
            c += 1;
        }
        proof {
            assert(cols.subrange(0, n as int) =~= cols);
            lemma_count_prefix(cols, 0);
        }
        acc as i32
    }

    /// The adjacent monitor index in a direction, wrapping at both ends.
    pub fn get_next_monitor(&self, current_monitor: &MonitorIndex, direction: &FocusDirection) -> (r:
        MonitorIndex)
        requires
            grid_wf(self.cols()),
            count_monitors(self.cols()) > 0,
            (current_monitor.0 as int) < count_monitors(self.cols()),
        ensures
            r.0 as int == next_index(
                count_monitors(self.cols()),
                current_monitor.0 as int,
                *direction,
            ),
    {
        let monitors_count = self.calculate_monitor_count();
        let n = monitors_count as usize;
        let i = current_monitor.0;
        proof {
            lemma_next_index_cases(n as int, i as int, *direction);
        }
        match direction {
            FocusDirection::Left => {
                if i == 0 {
                    MonitorIndex(n - 1)
                } else {
                    MonitorIndex(i - 1)
                }
            },
            FocusDirection::Right => {
                if i == n - 1 {
                    MonitorIndex(0)
                } else {
                    MonitorIndex(i + 1)
                }
            },
        }
    }

    /// Resolves which monitor a window sits on by walking the columns in
    /// order and accumulating extents; the first monitor whose extents cover
    /// the window's offsets is the answer.
    pub fn determine_which_monitor_window_is_on(&self, window: &Window) -> (r: Result<
        MonitorIndex,
        FocusError,
    >)
        requires
            grid_wf(self.cols()),
        ensures
            match r {
                Ok(idx) => located_at(
                    self.cols(),
                    idx.0 as int,
                    window.x_offset as int,
                    window.y_offset as int,
                ),
                Err(e) => {
                    &&& !covered(self.cols(), window.x_offset as int, window.y_offset as int)
                    &&& e matches FocusError::WindowNotOnAnyMonitor(x, y) && x == window.x_offset
                        && y == window.y_offset
                },
            },
    {
        let ghost cols = self.cols();
        let ghost wx = window.x_offset as int;
        let ghost wy = window.y_offset as int;
        let n = self.0.len();
        let mut monitor_index: usize = 0;
        let mut x_position: i32 = 0;
        let mut c: usize = 0;
        proof {
            assert(cols.subrange(0, 0) =~= Seq::<Seq<Monitor>>::empty());
        }
        while c < n
            invariant
                n == self.0@.len(),
                cols == self.cols(),
                grid_wf(cols),
                wx == window.x_offset as int,
                wy == window.y_offset as int,
                0 <= c <= n,
                monitor_index == count_monitors(cols.subrange(0, c as int)),
                x_position == grid_width(cols.subrange(0, c as int)),
                forall|c2: int, r2: int|
                    c2 < c ==> !monitor_covers(cols, c2, r2, wx, wy),
            decreases n - c,
        {
            let col = &self.0[c];
            let m = col.len();
            proof {
                assert(cols[c as int] == col@);
            }
            let mut y_position: i32 = -WINDOW_DECORATION;
            let mut greatest_column_width: i32 = 0;
            let base_x_position = x_position;
            let mut r: usize = 0;
            proof {
                assert(col@.subrange(0, 0) =~= Seq::<Monitor>::empty());
            }
            while r < m
                invariant
                    n == self.0@.len(),
                    cols == self.cols(),
                    grid_wf(cols),
                    wx == window.x_offset as int,
                    wy == window.y_offset as int,
                    0 <= c < n,
                    m == col@.len(),
                    col@ == cols[c as int],
                    0 <= r <= m,
                    monitor_index == count_monitors(cols.subrange(0, c as int)) + r,
                    base_x_position == grid_width(cols.subrange(0, c as int)),
                    greatest_column_width == col_max_width(col@.subrange(0, r as int)),
                    x_position == base_x_position + greatest_column_width,
                    y_position == col_height_sum(col@.subrange(0, r as int)) - WINDOW_DECORATION,
                    forall|c2: int, r2: int|
                        c2 < c ==> !monitor_covers(cols, c2, r2, wx, wy),
                    forall|r2: int| r2 < r ==> !monitor_covers(cols, c as int, r2, wx, wy),
                decreases m - r,
            {
                let monitor = col[r];
                proof {
                    assert(col_positive(cols[c as int]));
                    assert(col@.subrange(0, r + 1).drop_last() =~= col@.subrange(0, r as int));
                    assert(col@.subrange(0, r + 1).last() == col@[r as int]);
                    lemma_col_height_sum_prefix(col@, r + 1);
                    lemma_col_max_width_prefix(col@, r + 1);
                    lemma_col_max_width_nonneg(col@.subrange(0, r as int));
                    lemma_grid_width_prefix(cols, c as int);
                    lemma_grid_width_step(cols, c as int);
                    lemma_grid_width_prefix(cols, c + 1);
                    lemma_count_prefix(cols, c as int);
                    lemma_count_step(cols, c as int);
                    lemma_count_prefix(cols, c + 1);
                }
                y_position = y_position + monitor.height;
                if monitor.width > greatest_column_width {
                    greatest_column_width = monitor.width;
                    x_position = base_x_position + greatest_column_width;
                }
                proof {
                    assert(x_position == x_extent_at(cols, c as int, r as int));
                    assert(y_position == y_extent_at(cols, c as int, r as int));
                }
                if window.x_offset < x_position && window.y_offset < y_position {
                    proof {
                        assert(monitor_covers(cols, c as int, r as int, wx, wy));
                        assert forall|c2: int, r2: int|
                            pos_before(c2, r2, c as int, r as int) implies !monitor_covers(
                            cols,
                            c2,
                            r2,
                            wx,
                            wy,
                        ) by {}
                        assert(first_covering(cols, c as int, r as int, wx, wy));
                        assert(monitor_index == linear_index_of(cols, c as int, r as int));
                        assert(located_at(cols, monitor_index as int, wx, wy));
                    }
                    return Ok(MonitorIndex(monitor_index));
                }
                monitor_index += 1;
                r += 1;
            }
            proof {
                assert(col@.subrange(0, m as int) =~= col@);
                lemma_count_step(cols, c as int);
                lemma_grid_width_step(cols, c as int);
                assert forall|c2: int, r2: int| c2 < c + 1 implies !monitor_covers(
                    cols,
                    c2,
                    r2,
                    wx,
                    wy,
                ) by {
                    if c2 == c && valid_pos(cols, c2, r2) {
                        assert(!monitor_covers(cols, c as int, r2, wx, wy));
                    }
                }
            }
            c += 1;
        }
        proof {
            assert(!covered(cols, wx, wy)) by {
                if exists|c2: int, r2: int| monitor_covers(cols, c2, r2, wx, wy) {
                    let (c2, r2) = choose|c2: int, r2: int| monitor_covers(cols, c2, r2, wx, wy);
                    assert(c2 < n);
                }
            }
        }
        Err(FocusError::WindowNotOnAnyMonitor(window.x_offset, window.y_offset))
    }
}

/// Checks executably that a grid is well-formed: positive dimensions and
/// extents that fit the pixel arithmetic.
pub fn check_grid_wf(columns: &Vec<Vec<Monitor>>) -> (b: bool)
    ensures
        b == grid_wf(cols_of(columns@)),
{
    let ghost cols = cols_of(columns@);
    let n = columns.len();
    // First pass: every monitor has positive dimensions.
    let mut c: usize = 0;
    while c < n
        invariant
            n == columns@.len(),
            cols == cols_of(columns@),
            0 <= c <= n,
            forall|c2: int| 0 <= c2 < c ==> col_positive(#[trigger] cols[c2]),
        decreases n - c,
    {
        let col = &columns[c];
        let m = col.len();
        let mut r: usize = 0;
        while r < m
            invariant
                n == columns@.len(),
                cols == cols_of(columns@),
                0 <= c < n,
                m == col@.len(),
                col@ == cols[c as int],
                0 <= r <= m,
                forall|r2: int|
                    0 <= r2 < r ==> (#[trigger] col@[r2]).width > 0 && col@[r2].height > 0,
            decreases m - r,
        {
            let monitor = col[r];
            if monitor.width <= 0 || monitor.height <= 0 {
                proof {
                    assert(!col_positive(cols[c as int]));
                }
                return false;
            }
            r += 1;
        }
        c += 1;
    }
    // Second pass: accumulated extents stay within `i32`.
    let mut total_width: i64 = 0;
    let mut total_count: i64 = 0;
    let mut c: usize = 0;
    proof {
        assert(cols.subrange(0, 0) =~= Seq::<Seq<Monitor>>::empty());
    }
    while c < n
        invariant
            n == columns@.len(),
            cols == cols_of(columns@),
            0 <= c <= n,
            forall|c2: int| 0 <= c2 < n ==> col_positive(#[trigger] cols[c2]),
            total_width == grid_width(cols.subrange(0, c as int)),
            total_width <= i32::MAX,
            total_count == count_monitors(cols.subrange(0, c as int)),
            total_count <= i32::MAX,
            forall|c2: int| 0 <= c2 < c ==> col_height_sum(#[trigger] cols[c2]) <= i32::MAX,
        decreases n - c,
    {
        let col = &columns[c];
        let m = col.len();
        proof {
            assert(col@ == cols[c as int]);
            assert(col@.subrange(0, 0) =~= Seq::<Monitor>::empty());
        }
        let mut hsum: i64 = 0;
        let mut wmax: i64 = 0;
        let mut r: usize = 0;
        while r < m
            invariant
                n == columns@.len(),
                cols == cols_of(columns@),
                0 <= c < n,
                m == col@.len(),
                col@ == cols[c as int],
                col_positive(col@),
                0 <= r <= m,
                hsum == col_height_sum(col@.subrange(0, r as int)),
                hsum <= i32::MAX,
                wmax == col_max_width(col@.subrange(0, r as int)),
                0 <= wmax <= i32::MAX,
            decreases m - r,
        {
            let monitor = col[r];
            proof {
                assert(col@.subrange(0, r + 1).drop_last() =~= col@.subrange(0, r as int));
                assert(col@.subrange(0, r + 1).last() == col@[r as int]);
            }
            hsum = hsum + monitor.height as i64;
            if hsum > i32::MAX as i64 {
                proof {
                    lemma_col_height_sum_prefix(col@, r + 1);
                }
                return false;
            }
            if monitor.width as i64 > wmax {
                wmax = monitor.width as i64;
            }
            r += 1;
        }
        proof {
            assert(col@.subrange(0, m as int) =~= col@);
            lemma_grid_width_step(cols, c as int);
            lemma_count_step(cols, c as int);
            lemma_count_prefix(cols, c as int);
            assert(m as int == count_monitors(cols.subrange(0, c + 1)) - count_monitors(
                cols.subrange(0, c as int),
            ));
        }
        total_width = total_width + wmax;
        if total_width > i32::MAX as i64 {
            proof {
                lemma_grid_width_prefix(cols, c + 1);
            }
            return false;
        }
        if m as u64 > i32::MAX as u64 {
            proof {
                lemma_count_nonneg(cols.subrange(0, c as int));
                lemma_count_prefix(cols, c + 1);
            }
            return false;
        }
        total_count = total_count + m as i64;
        if total_count > i32::MAX as i64 {
            proof {
                lemma_count_prefix(cols, c + 1);
            }
            return false;
        }
        c += 1;
    }
    proof {
        assert(cols.subrange(0, n as int) =~= cols);
    }
    true
}

} // verus!
