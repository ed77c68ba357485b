//! A workspace grid: the monitor arrangement together with the full plane's
//! dimensions as the window manager reports them.

use vstd::prelude::*;
use crate::errors::FocusError;
use crate::grid_geometry::{
    covered, grid_height, grid_wf, grid_width, lemma_grid_height_bounded,
    lemma_grid_height_nonneg, lemma_grid_width_prefix, located_at,
};
use crate::monitor::Monitor;
use crate::monitor_grid::{clone_columns, cols_of, MonitorGrid};
use crate::text::{
    parse_usize, spec_parse_usize, spec_split, spec_trim, split_on, trim_str, views_of,
};
use crate::window::{Window, WindowV};
use crate::workspace::grid_pixel_size;

verus! {

/// A `WxH` string whose `x`-separated fields are all valid sizes, at least
/// two of them.
pub open spec fn valid_grid_dimensions(s: Seq<char>) -> bool {
    let parts = spec_split(spec_trim(s), 'x');
    &&& parts.len() >= 2
    &&& forall|i: int| 0 <= i < parts.len() ==> spec_parse_usize(#[trigger] parts[i]) is Some
}

/// The arrangement of monitors that makes up one workspace, with the whole
/// plane's reported dimensions.
pub struct WorkspaceGrid {
    /// The full plane's width in pixels, as reported.
    pub width: usize,
    /// The full plane's height in pixels, as reported.
    pub height: usize,
    /// The length of the tallest column.
    pub rows_count: usize,
    /// The number of columns.
    pub columns_count: usize,
    /// Columns of monitors, each column ordered top to bottom.
    pub monitor_arrangement: Vec<Vec<Monitor>>,
    /// The single workspace's width: the sum of the columns' widest widths.
    pub workspace_width: usize,
    /// The single workspace's height: the tallest column's summed height.
    pub workspace_height: usize,
}

impl WorkspaceGrid {
    /// The arrangement's mathematical value.
    pub open spec fn cols(&self) -> Seq<Seq<Monitor>> {
        cols_of(self.monitor_arrangement@)
    }

    /// The stored workspace size agrees with the arrangement, and the
    /// arrangement supports the pixel arithmetic.
    pub open spec fn wf(&self) -> bool {
        &&& grid_wf(self.cols())
        &&& self.workspace_width as int == grid_width(self.cols())
        &&& self.workspace_height as int == grid_height(self.cols())
    }

    pub fn new(width: usize, height: usize, monitor_arrangement: Vec<Vec<Monitor>>) -> (r: Self)
        requires
            grid_wf(cols_of(monitor_arrangement@)),
        ensures
            r.width == width,
            r.height == height,
            r.cols() == cols_of(monitor_arrangement@),
            r.wf(),
    {
        let (ww, wh) = grid_pixel_size(&monitor_arrangement);
        proof {
            lemma_grid_width_prefix(cols_of(monitor_arrangement@), 0);
            assert(cols_of(monitor_arrangement@).subrange(
                0,
                cols_of(monitor_arrangement@).len() as int,
            ) =~= cols_of(monitor_arrangement@));
            lemma_grid_height_nonneg(cols_of(monitor_arrangement@));
        }
        let columns_count = monitor_arrangement.len();
        let mut rows_count: usize = 0;
        let mut c: usize = 0;
        while c < columns_count
            invariant
                columns_count == monitor_arrangement@.len(),
                0 <= c <= columns_count,
            decreases columns_count - c,
        {
            if monitor_arrangement[c].len() > rows_count {
                rows_count = monitor_arrangement[c].len();
            }
            c += 1;
        }
        WorkspaceGrid {
            width,
            height,
            rows_count,
            columns_count,
            monitor_arrangement,
            workspace_width: ww as usize,
            workspace_height: wh as usize,
        }
    }

    /// Builds the grid from a `WxH` plane-dimensions string, e.g.
    /// `5760x1080`.
    pub fn from_string_dimensions(string_dimensions: &str, monitor_arrangement: Vec<Vec<Monitor>>)
        -> (r: Self)
        requires
            valid_grid_dimensions(string_dimensions@),
            grid_wf(cols_of(monitor_arrangement@)),
        ensures
            Some(r.width as int) == spec_parse_usize(
                spec_split(spec_trim(string_dimensions@), 'x')[0],
            ),
            Some(r.height as int) == spec_parse_usize(
                spec_split(spec_trim(string_dimensions@), 'x')[1],
            ),
            r.cols() == cols_of(monitor_arrangement@),
            r.wf(),
    {
        let trimmed = trim_str(string_dimensions);
        let parts = split_on(trimmed.as_str(), 'x');
        proof {
            assert(views_of(parts@)[0] == parts@[0]@);
            assert(views_of(parts@)[1] == parts@[1]@);
        }
        let w = match parse_usize(parts[0].as_str()) {
            Some(v) => v,
            None => {
                proof {
                    assert(false);
                }
                0
            },
        };
        let h = match parse_usize(parts[1].as_str()) {
            Some(v) => v,
            None => {
                proof {
                    assert(false);
                }
                0
            },
        };
        Self::new(w, h, monitor_arrangement)
    }

    /// The workspace's pixel size: summed column widths, maximal column
    /// height.
    pub fn calculate_workspace_size(monitor_arrangement: &Vec<Vec<Monitor>>) -> (r: (
        usize,
        usize,
    ))
        requires
            grid_wf(cols_of(monitor_arrangement@)),
        ensures
            r.0 as int == grid_width(cols_of(monitor_arrangement@)),
            r.1 as int == grid_height(cols_of(monitor_arrangement@)),
    {
        let (w, h) = grid_pixel_size(monitor_arrangement);
        proof {
            let cols = cols_of(monitor_arrangement@);
            lemma_grid_width_prefix(cols, cols.len() as int);
            assert(cols.subrange(0, cols.len() as int) =~= cols);
            lemma_grid_height_nonneg(cols);
        }
        (w as usize, h as usize)
    }

    /// Whether a window's offsets place it on this workspace's plane rather
    /// than on another virtual desktop.
    pub fn is_window_in_current_workspace(&self, window: &Window) -> (r: bool)
        requires
            self.wf(),
        ensures
            r == {
                &&& 0 <= window@.x_offset < self.workspace_width as int
                &&& 0 <= window@.y_offset < self.workspace_height as int
            },
    {
        proof {
            lemma_grid_width_prefix(self.cols(), self.cols().len() as int);
            assert(self.cols().subrange(0, self.cols().len() as int) =~= self.cols());
            lemma_grid_height_nonneg(self.cols());
            lemma_grid_height_bounded(self.cols(), i32::MAX as int);
        }
        window.x_offset >= 0 && window.x_offset < self.workspace_width as i32
            && window.y_offset >= 0 && window.y_offset < self.workspace_height as i32
    }

    /// Resolves which monitor a window sits on; see
    /// [`MonitorGrid::determine_which_monitor_window_is_on`].
    pub fn determine_which_monitor_window_is_on(&self, window: &Window) -> (r: Result<
        usize,
        FocusError,
    >)
        requires
            grid_wf(self.cols()),
        ensures
            match r {
                Ok(k) => located_at(
                    self.cols(),
                    k as int,
                    window.x_offset as int,
                    window.y_offset as int,
                ),
                Err(e) => {
                    &&& !covered(self.cols(), window.x_offset as int, window.y_offset as int)
                    &&& e matches FocusError::WindowNotOnAnyMonitor(x, y) && x == window.x_offset
                        && y == window.y_offset
                },
            },
    {
        let grid = MonitorGrid(clone_columns(&self.monitor_arrangement));
        match grid.determine_which_monitor_window_is_on(window) {
            Ok(idx) => Ok(idx.0),
            Err(e) => Err(e),
        }
    }
}

} // verus!
