//! The current workspace: a monitor grid together with its accumulated pixel
//! size.

use vstd::prelude::*;
use crate::grid_geometry::{
    col_height_sum, col_max_width, col_positive, grid_height, grid_wf, grid_width,
    lemma_col_height_sum_prefix, lemma_col_max_width_nonneg, lemma_col_max_width_prefix,
    lemma_grid_height_nonneg, lemma_grid_width_prefix, lemma_grid_width_step,
};
use crate::monitor::Monitor;
use crate::monitor_grid::{cols_of, MonitorGrid};
use crate::window::{Window, WindowV};

verus! {

/// The single visible plane that all connected monitors form.
#[derive(Debug)]
pub struct Workspace {
    /// The arrangement of the connected monitors.
    pub monitor_grid: MonitorGrid,
    /// The workspace's width in pixels: the sum of the columns' widest
    /// widths.
    pub workspace_width: i32,
    /// The workspace's height in pixels: the tallest column's summed height.
    pub workspace_height: i32,
}

impl Workspace {
    /// The stored size agrees with the grid, and the grid supports the pixel
    /// arithmetic.
    pub open spec fn wf(&self) -> bool {
        &&& grid_wf(self.monitor_grid.cols())
        &&& self.workspace_width as int == grid_width(self.monitor_grid.cols())
        &&& self.workspace_height as int == grid_height(self.monitor_grid.cols())
    }

    /// Whether a window's offsets place it on this workspace's plane rather
    /// than on another virtual desktop.
    pub open spec fn spec_contains(&self, w: WindowV) -> bool {
        &&& 0 <= w.x_offset < self.workspace_width
        &&& 0 <= w.y_offset < self.workspace_height
    }

    pub fn new(monitor_grid: MonitorGrid) -> (r: Self)
        requires
            grid_wf(monitor_grid.cols()),
        ensures
            r.monitor_grid == monitor_grid,
            r.wf(),
    {
        let (workspace_width, workspace_height) = Self::calculate_workspace_size(&monitor_grid);
        Workspace { monitor_grid, workspace_width, workspace_height }
    }

    pub fn is_window_in_current_workspace(&self, window: &Window) -> (r: bool)
        ensures
            r == self.spec_contains(window@),
    {
        window.x_offset >= 0 && window.x_offset < self.workspace_width && window.y_offset >= 0
            && window.y_offset < self.workspace_height
    }

    /// The workspace's pixel size: summed column widths, maximal column
    /// height.
    pub fn calculate_workspace_size(monitor_grid: &MonitorGrid) -> (r: (i32, i32))
        requires
            grid_wf(monitor_grid.cols()),
        ensures
            r.0 as int == grid_width(monitor_grid.cols()),
            r.1 as int == grid_height(monitor_grid.cols()),
    {
        grid_pixel_size(&monitor_grid.0)
    }
}

/// The pixel size of an arrangement of monitor columns: summed column
/// widths, maximal column height.
pub(crate) fn grid_pixel_size(columns: &Vec<Vec<Monitor>>) -> (r: (i32, i32))
    requires
        grid_wf(cols_of(columns@)),
    ensures
        r.0 as int == grid_width(cols_of(columns@)),
        r.1 as int == grid_height(cols_of(columns@)),
{
    let ghost cols = cols_of(columns@);
    let n = columns.len();
    let mut workspace_width: i32 = 0;
    let mut workspace_height: i32 = 0;
    let mut c: usize = 0;
    proof {
        assert(cols.subrange(0, 0) =~= Seq::<Seq<Monitor>>::empty());
    }
    while c < n
        invariant
            n == columns@.len(),
            cols == cols_of(columns@),
            grid_wf(cols),
            0 <= c <= n,
            workspace_width as int == grid_width(cols.subrange(0, c as int)),
            workspace_height as int == grid_height(cols.subrange(0, c as int)),
        decreases n - c,
    {
        let col = &columns[c];
        let m = col.len();
        proof {
            assert(col@ == cols[c as int]);
            assert(col@.subrange(0, 0) =~= Seq::<Monitor>::empty());
            assert(col_positive(col@));
        }
        let mut column_height: i32 = 0;
        let mut max_column_width: i32 = 0;
        let mut r: usize = 0;
        while r < m
            invariant
                n == columns@.len(),
                cols == cols_of(columns@),
                grid_wf(cols),
                0 <= c < n,
                m == col@.len(),
                col@ == cols[c as int],
                col_positive(col@),
                0 <= r <= m,
                column_height as int == col_height_sum(col@.subrange(0, r as int)),
                max_column_width as int == col_max_width(col@.subrange(0, r as int)),
            decreases m - r,
        {
            let monitor = col[r];
            proof {
                assert(col@.subrange(0, r + 1).drop_last() =~= col@.subrange(0, r as int));
                assert(col@.subrange(0, r + 1).last() == col@[r as int]);
                lemma_col_height_sum_prefix(col@, r + 1);
                lemma_col_max_width_prefix(col@, r + 1);
                lemma_col_max_width_nonneg(col@.subrange(0, r as int));
                lemma_grid_width_step(cols, c as int);
                lemma_grid_width_prefix(cols, c as int);
                lemma_grid_width_prefix(cols, c + 1);
            }
            column_height = column_height + monitor.height;
            if monitor.width > max_column_width {
                max_column_width = monitor.width;
            }
            r += 1;
        }
        proof {
            assert(col@.subrange(0, m as int) =~= col@);
            lemma_grid_width_step(cols, c as int);
            lemma_grid_width_prefix(cols, c as int);
            lemma_grid_width_prefix(cols, c + 1);
            assert(cols.subrange(0, c + 1).drop_last() =~= cols.subrange(0, c as int));
            assert(cols.subrange(0, c + 1).last() == cols[c as int]);
            lemma_grid_height_nonneg(cols.subrange(0, c as int));
        }
        if column_height > workspace_height {
            workspace_height = column_height;
        }
        workspace_width = workspace_width + max_column_width;
        c += 1;
    }
    proof {
        assert(cols.subrange(0, n as int) =~= cols);
    }
    (workspace_width, workspace_height)
}

} // verus!
