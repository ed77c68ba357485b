//! The focus resolver: given the monitor grid, the visible windows, the
//! currently focused window and a direction or monitor index, decides which
//! window should receive focus next.

use vstd::prelude::*;
use vstd::multiset::Multiset;
use crate::errors::FocusError;
use crate::focus_direction::{spec_step, FocusDirection};
use crate::grid_geometry::{
    count_monitors, covered, grid_wf, lemma_count_nonneg, lemma_located_at_unique,
    lemma_located_in_range, located_at,
};
use crate::monitor::MonitorIndex;
use crate::monitor_grid::MonitorGrid;
use crate::window::{Window, WindowId};
use crate::workspace::Workspace;

verus! {

// ---------- the workspace filter and left-to-right order ----------

/// The windows whose offsets place them on the workspace, in their original
/// order.
pub open spec fn ws_filter(ws: Workspace, windows: Seq<Window>) -> Seq<Window>
    decreases windows.len(),
{
    if windows.len() == 0 {
        Seq::empty()
    } else {
        let rest = ws_filter(ws, windows.drop_last());
        if ws.spec_contains(windows.last()@) {
            rest.push(windows.last())
        } else {
            rest
        }
    }
}

/// Inserts a window after every window with an x offset at or left of its
/// own: a stable insertion.
pub open spec fn insert_by_x(sorted: Seq<Window>, w: Window) -> Seq<Window>
    decreases sorted.len(),
{
    if sorted.len() == 0 {
        seq![w]
    } else if sorted[0].x_offset <= w.x_offset {
        seq![sorted[0]] + insert_by_x(sorted.drop_first(), w)
    } else {
        seq![w] + sorted
    }
}

/// The stable sort of windows by x offset.
pub open spec fn sort_by_x(s: Seq<Window>) -> Seq<Window>
    decreases s.len(),
{
    if s.len() == 0 {
        Seq::empty()
    } else {
        insert_by_x(sort_by_x(s.drop_last()), s.last())
    }
}

proof fn lemma_insert_by_x_at(s: Seq<Window>, w: Window, j: int)
    requires
        0 <= j <= s.len(),
        forall|k: int| 0 <= k < j ==> (#[trigger] s[k]).x_offset <= w.x_offset,
        j == s.len() || !(s[j].x_offset <= w.x_offset),
    ensures
        insert_by_x(s, w) == s.subrange(0, j) + seq![w] + s.subrange(j, s.len() as int),
    decreases j,
{
    if j == 0 {
        assert(insert_by_x(s, w) =~= s.subrange(0, 0) + seq![w] + s.subrange(0, s.len() as int));
    } else {
        let rest = s.drop_first();
        assert(forall|k: int| 0 <= k < j - 1 ==> (#[trigger] rest[k]).x_offset <= w.x_offset);
        lemma_insert_by_x_at(rest, w, j - 1);
        assert(insert_by_x(s, w) =~= s.subrange(0, j) + seq![w] + s.subrange(j, s.len() as int));
    }
}

/// Windows ordered left to right by x offset.
pub open spec fn x_sorted(ws: Seq<Window>) -> bool {
    forall|i: int, j: int|
        0 <= i <= j < ws.len() ==> (#[trigger] ws[i]).x_offset <= (#[trigger] ws[j]).x_offset
}

proof fn lemma_insert_by_x_elems(s: Seq<Window>, w: Window)
    ensures
        forall|i: int|
            0 <= i < insert_by_x(s, w).len() ==> (#[trigger] insert_by_x(s, w)[i]) == w
                || s.contains(insert_by_x(s, w)[i]),
    decreases s.len(),
{
    if s.len() > 0 && s[0].x_offset <= w.x_offset {
        let rest = s.drop_first();
        lemma_insert_by_x_elems(rest, w);
        let out = insert_by_x(s, w);
        assert forall|i: int| 0 <= i < out.len() implies (#[trigger] out[i]) == w || s.contains(
            out[i],
        ) by {
            if i == 0 {
                assert(out[0] == s[0]);
            } else {
                assert(out[i] == insert_by_x(rest, w)[i - 1]);
                if insert_by_x(rest, w)[i - 1] != w {
                    let j = choose|j: int|
                        0 <= j < rest.len() && rest[j] == insert_by_x(rest, w)[i - 1];
                    assert(s[j + 1] == rest[j]);
                }
            }
        }
    }
}

proof fn lemma_insert_by_x_sorted(s: Seq<Window>, w: Window)
    requires
        x_sorted(s),
    ensures
        x_sorted(insert_by_x(s, w)),
        insert_by_x(s, w).len() == s.len() + 1,
        insert_by_x(s, w).to_multiset() == s.to_multiset().insert(w),
    decreases s.len(),
{
    broadcast use vstd::seq_lib::group_to_multiset_ensures;

    if s.len() == 0 {
        assert(insert_by_x(s, w) =~= Seq::<Window>::empty().push(w));
    } else if s[0].x_offset <= w.x_offset {
        let rest = s.drop_first();
        assert(x_sorted(rest)) by {
            assert(forall|i: int| 0 <= i < rest.len() ==> rest[i] == s[i + 1]);
        }
        lemma_insert_by_x_sorted(rest, w);
        lemma_insert_by_x_elems(rest, w);
        let out = insert_by_x(s, w);
        let inner = insert_by_x(rest, w);
        assert forall|i: int, j: int| 0 <= i <= j < out.len() implies (#[trigger] out[i]).x_offset
            <= (#[trigger] out[j]).x_offset by {
            if i == 0 && j > 0 {
                assert(out[j] == inner[j - 1]);
                if inner[j - 1] != w {
                    let jj = choose|jj: int| 0 <= jj < rest.len() && rest[jj] == inner[j - 1];
                    assert(rest[jj] == s[jj + 1]);
                }
            } else if i > 0 {
                assert(out[i] == inner[i - 1] && out[j] == inner[j - 1]);
            }
        }
        // The multiset: [s[0]] + inner holds s[0] beside rest's elements
        // plus w.
        assert(out =~= seq![s[0]] + inner);
        vstd::seq_lib::lemma_multiset_commutative(seq![s[0]], inner);
        assert(seq![s[0]].to_multiset() =~= Multiset::<Window>::empty().insert(s[0])) by {
            assert(seq![s[0]] =~= Seq::<Window>::empty().push(s[0]));
        }
        assert(s =~= seq![s[0]] + rest);
        vstd::seq_lib::lemma_multiset_commutative(seq![s[0]], rest);
        assert(out.to_multiset() =~= s.to_multiset().insert(w));
    } else {
        let out = insert_by_x(s, w);
        assert(out =~= seq![w] + s);
        assert forall|i: int, j: int| 0 <= i <= j < out.len() implies (#[trigger] out[i]).x_offset
            <= (#[trigger] out[j]).x_offset by {
            if i == 0 && j > 0 {
                assert(out[j] == s[j - 1]);
                assert(s[0].x_offset <= s[j - 1].x_offset);
            }
        }
        vstd::seq_lib::lemma_multiset_commutative(seq![w], s);
        assert(seq![w].to_multiset() =~= Multiset::<Window>::empty().insert(w)) by {
            assert(seq![w] =~= Seq::<Window>::empty().push(w));
        }
        assert(out.to_multiset() =~= s.to_multiset().insert(w));
    }
}

/// The order the resolver works on is exactly what the design asks of it:
/// sorting by x offset keeps every window, and the result is ordered left
/// to right.
pub proof fn lemma_sort_by_x_ordered(s: Seq<Window>)
    ensures
        x_sorted(sort_by_x(s)),
        sort_by_x(s).len() == s.len(),
        sort_by_x(s).to_multiset() == s.to_multiset(),
    decreases s.len(),
{
    broadcast use vstd::seq_lib::group_to_multiset_ensures;

    if s.len() > 0 {
        lemma_sort_by_x_ordered(s.drop_last());
        lemma_insert_by_x_sorted(sort_by_x(s.drop_last()), s.last());
        assert(s =~= s.drop_last().push(s.last()));
        assert(s.to_multiset() =~= s.drop_last().to_multiset().insert(s.last()));
    }
}

/// Keeps the windows that sit on the workspace and orders them left to
/// right by x offset, stably.
pub fn get_current_workspace_windows(workspace: &Workspace, windows: Vec<Window>) -> (r: Vec<
    Window,
>)
    ensures
        r@ == sort_by_x(ws_filter(*workspace, windows@)),
{
    let n = windows.len();
    let mut filtered: Vec<Window> = Vec::new();
    let mut i: usize = 0;
    proof {
        assert(windows@.subrange(0, 0) =~= Seq::<Window>::empty());
    }
    while i < n
        invariant
            n == windows@.len(),
            0 <= i <= n,
            filtered@ == ws_filter(*workspace, windows@.subrange(0, i as int)),
        decreases n - i,
    {
        proof {
            assert(windows@.subrange(0, i + 1).drop_last() =~= windows@.subrange(0, i as int));
            assert(windows@.subrange(0, i + 1).last() == windows@[i as int]);
        }
        if workspace.is_window_in_current_workspace(&windows[i]) {
            filtered.push(windows[i].clone());
        }
        i += 1;
    }
    proof {
        assert(windows@.subrange(0, n as int) =~= windows@);
    }
    let ghost fseq = filtered@;
    let m = filtered.len();
    let mut out: Vec<Window> = Vec::new();
    let mut i: usize = 0;
    proof {
        assert(fseq.subrange(0, 0) =~= Seq::<Window>::empty());
    }
    while i < m
        invariant
            m == filtered@.len(),
            fseq == filtered@,
            0 <= i <= m,
            out@ == sort_by_x(fseq.subrange(0, i as int)),
        decreases m - i,
    {
        let w = filtered[i].clone();
        let mut j: usize = 0;
        let olen = out.len();
        while j < olen && out[j].x_offset <= w.x_offset
            invariant
                olen == out@.len(),
                0 <= j <= olen,
                forall|k: int| 0 <= k < j ==> (#[trigger] out@[k]).x_offset <= w.x_offset,
            decreases olen - j,
        {
            j += 1;
        }
        proof {
            lemma_insert_by_x_at(out@, w, j as int);
            assert(fseq.subrange(0, i + 1).drop_last() =~= fseq.subrange(0, i as int));
            assert(fseq.subrange(0, i + 1).last() == fseq[i as int]);
        }
        let ghost old_out = out@;
        out.insert(j, w);
        proof {
            assert(out@ =~= old_out.subrange(0, j as int) + seq![fseq[i as int]]
                + old_out.subrange(j as int, old_out.len() as int));
        }
        i += 1;
    }
    proof {
        assert(fseq.subrange(0, m as int) =~= fseq);
    }
    out
}

// ---------- partitioning windows by monitor ----------

/// Every window's offsets fall on some monitor.
pub open spec fn all_located(cols: Seq<Seq<crate::monitor::Monitor>>, windows: Seq<Window>)
    -> bool {
    forall|i: int|
        0 <= i < windows.len() ==> covered(
            cols,
            (#[trigger] windows[i]).x_offset as int,
            windows[i].y_offset as int,
        )
}

/// The windows that sit on monitor `k`, in their original order.
pub open spec fn windows_on_monitor(
    cols: Seq<Seq<crate::monitor::Monitor>>,
    windows: Seq<Window>,
    k: int,
) -> Seq<Window>
    decreases windows.len(),
{
    if windows.len() == 0 {
        Seq::empty()
    } else {
        let rest = windows_on_monitor(cols, windows.drop_last(), k);
        let w = windows.last();
        if located_at(cols, k, w.x_offset as int, w.y_offset as int) {
            rest.push(w)
        } else {
            rest
        }
    }
}

/// A window that is located on monitor `k` appears in that monitor's list.
pub proof fn lemma_windows_on_monitor_contains(
    cols: Seq<Seq<crate::monitor::Monitor>>,
    windows: Seq<Window>,
    k: int,
    i: int,
)
    requires
        0 <= i < windows.len(),
        located_at(cols, k, windows[i].x_offset as int, windows[i].y_offset as int),
    ensures
        windows_on_monitor(cols, windows, k).contains(windows[i]),
    decreases windows.len(),
{
    if i == windows.len() - 1 {
        let l = windows_on_monitor(cols, windows, k);
        assert(l.last() == windows[i]);
        assert(l[l.len() - 1] == windows[i]);
    } else {
        assert(windows.drop_last()[i] == windows[i]);
        lemma_windows_on_monitor_contains(cols, windows.drop_last(), k, i);
        let rest = windows_on_monitor(cols, windows.drop_last(), k);
        let j = choose|j: int| 0 <= j < rest.len() && rest[j] == windows[i];
        assert(windows_on_monitor(cols, windows, k)[j] == windows[i]);
    }
}

proof fn lemma_windows_on_monitor_elems(
    cols: Seq<Seq<crate::monitor::Monitor>>,
    windows: Seq<Window>,
    k: int,
)
    ensures
        forall|i: int|
            0 <= i < windows_on_monitor(cols, windows, k).len() ==> windows.contains(
                #[trigger] windows_on_monitor(cols, windows, k)[i],
            ),
    decreases windows.len(),
{
    if windows.len() > 0 {
        lemma_windows_on_monitor_elems(cols, windows.drop_last(), k);
        let l = windows_on_monitor(cols, windows, k);
        let rest = windows_on_monitor(cols, windows.drop_last(), k);
        assert forall|i: int| 0 <= i < l.len() implies windows.contains(#[trigger] l[i]) by {
            if i < rest.len() {
                assert(l[i] == rest[i]);
                let j = choose|j: int|
                    0 <= j < windows.drop_last().len() && windows.drop_last()[j] == rest[i];
                assert(windows[j] == rest[i]);
            } else {
                assert(l[i] == windows.last());
                assert(windows[windows.len() - 1] == windows.last());
            }
        }
    }
}

/// Each monitor's list keeps the left-to-right order of the window list it
/// was partitioned from.
pub proof fn lemma_windows_on_monitor_sorted(
    cols: Seq<Seq<crate::monitor::Monitor>>,
    windows: Seq<Window>,
    k: int,
)
    requires
        x_sorted(windows),
    ensures
        x_sorted(windows_on_monitor(cols, windows, k)),
    decreases windows.len(),
{
    if windows.len() > 0 {
        assert(x_sorted(windows.drop_last())) by {
            assert(forall|i: int|
                0 <= i < windows.len() - 1 ==> windows.drop_last()[i] == #[trigger] windows[i]);
        }
        lemma_windows_on_monitor_sorted(cols, windows.drop_last(), k);
        lemma_windows_on_monitor_elems(cols, windows.drop_last(), k);
        let l = windows_on_monitor(cols, windows, k);
        let rest = windows_on_monitor(cols, windows.drop_last(), k);
        assert forall|i: int, j: int| 0 <= i <= j < l.len() implies (#[trigger] l[i]).x_offset
            <= (#[trigger] l[j]).x_offset by {
            if j < rest.len() {
            } else if j == rest.len() && l.len() > rest.len() {
                // The appended window is the rightmost in the original
                // order.
                if i < rest.len() {
                    let jj = choose|jj: int|
                        0 <= jj < windows.drop_last().len() && windows.drop_last()[jj] == rest[i];
                    assert(windows[jj] == rest[i]);
                    assert(windows[jj].x_offset <= windows[windows.len() - 1].x_offset);
                    assert(l[j] == windows.last());
                }
            }
        }
    }
}

/// The failure that an unlocatable window produces: the first window, in
/// list order, whose offsets fall outside every monitor's extents.
pub open spec fn locate_failure(
    cols: Seq<Seq<crate::monitor::Monitor>>,
    windows: Seq<Window>,
    e: FocusError,
) -> bool {
    &&& !all_located(cols, windows)
    &&& e matches FocusError::WindowNotOnAnyMonitor(x, y) && exists|i: int|
        {
            &&& 0 <= i < windows.len()
            &&& x == (#[trigger] windows[i]).x_offset
            &&& y == windows[i].y_offset
            &&& !covered(cols, windows[i].x_offset as int, windows[i].y_offset as int)
            &&& forall|j: int|
                0 <= j < i ==> covered(
                    cols,
                    (#[trigger] windows[j]).x_offset as int,
                    windows[j].y_offset as int,
                )
        }
}

/// Locates every window, yielding each window's monitor index in list
/// order.
fn locate_all(monitor_grid: &MonitorGrid, windows: &Vec<Window>) -> (r: Result<
    Vec<usize>,
    FocusError,
>)
    requires
        grid_wf(monitor_grid.cols()),
    ensures
        match r {
            Ok(idxs) => {
                &&& all_located(monitor_grid.cols(), windows@)
                &&& idxs@.len() == windows@.len()
                &&& forall|i: int|
                    0 <= i < windows@.len() ==> located_at(
                        monitor_grid.cols(),
                        #[trigger] idxs@[i] as int,
                        windows@[i].x_offset as int,
                        windows@[i].y_offset as int,
                    )
            },
            Err(e) => locate_failure(monitor_grid.cols(), windows@, e),
        },
{
    let ghost cols = monitor_grid.cols();
    let n = windows.len();
    let mut idxs: Vec<usize> = Vec::new();
    let mut i: usize = 0;
    while i < n
        invariant
            n == windows@.len(),
            cols == monitor_grid.cols(),
            grid_wf(cols),
            0 <= i <= n,
            idxs@.len() == i,
            forall|j: int|
                0 <= j < i ==> located_at(
                    cols,
                    #[trigger] idxs@[j] as int,
                    windows@[j].x_offset as int,
                    windows@[j].y_offset as int,
                ),
            forall|j: int|
                0 <= j < i ==> covered(
                    cols,
                    (#[trigger] windows@[j]).x_offset as int,
                    windows@[j].y_offset as int,
                ),
        decreases n - i,
    {
        match monitor_grid.determine_which_monitor_window_is_on(&windows[i]) {
            Ok(idx) => {
                proof {
                    lemma_located_in_range(
                        cols,
                        idx.0 as int,
                        windows@[i as int].x_offset as int,
                        windows@[i as int].y_offset as int,
                    );
                }
                idxs.push(idx.0);
            },
            Err(e) => {
                return Err(e);
            },
        }
        i += 1;
    }
    Ok(idxs)
}

/// Partitions the windows into one left-to-right list per monitor index.
pub fn index_windows_by_monitor(monitor_grid: &MonitorGrid, windows: &Vec<Window>) -> (r: Result<
    Vec<Vec<Window>>,
    FocusError,
>)
    requires
        grid_wf(monitor_grid.cols()),
    ensures
        match r {
            Ok(v) => {
                &&& all_located(monitor_grid.cols(), windows@)
                &&& v@.len() == count_monitors(monitor_grid.cols())
                &&& forall|k: int|
                    0 <= k < v@.len() ==> (#[trigger] v@[k])@ == windows_on_monitor(
                        monitor_grid.cols(),
                        windows@,
                        k,
                    )
            },
            Err(e) => locate_failure(monitor_grid.cols(), windows@, e),
        },
{
    let ghost cols = monitor_grid.cols();
    let idxs = match locate_all(monitor_grid, windows) {
        Ok(idxs) => idxs,
        Err(e) => {
            return Err(e);
        },
    };
    proof {
        lemma_count_nonneg(cols);
    }
    let count = monitor_grid.calculate_monitor_count() as usize;
    let n = windows.len();
    let mut v: Vec<Vec<Window>> = Vec::new();
    let mut k: usize = 0;
    while k < count
        invariant
            n == windows@.len(),
            cols == monitor_grid.cols(),
            grid_wf(cols),
            count == count_monitors(cols),
            idxs@.len() == n,
            forall|j: int|
                0 <= j < n ==> located_at(
                    cols,
                    #[trigger] idxs@[j] as int,
                    windows@[j].x_offset as int,
                    windows@[j].y_offset as int,
                ),
            0 <= k <= count,
            v@.len() == k,
            forall|k2: int|
                0 <= k2 < k ==> (#[trigger] v@[k2])@ == windows_on_monitor(cols, windows@, k2),
        decreases count - k,
    {
        let mut col: Vec<Window> = Vec::new();
        let mut i: usize = 0;
        proof {
            assert(windows@.subrange(0, 0) =~= Seq::<Window>::empty());
        }
        while i < n
            invariant
                n == windows@.len(),
                cols == monitor_grid.cols(),
                idxs@.len() == n,
                forall|j: int|
                    0 <= j < n ==> located_at(
                        cols,
                        #[trigger] idxs@[j] as int,
                        windows@[j].x_offset as int,
                        windows@[j].y_offset as int,
                    ),
                0 <= i <= n,
                col@ == windows_on_monitor(cols, windows@.subrange(0, i as int), k as int),
            decreases n - i,
        {
            proof {
                assert(windows@.subrange(0, i + 1).drop_last() =~= windows@.subrange(
                    0,
                    i as int,
                ));
                assert(windows@.subrange(0, i + 1).last() == windows@[i as int]);
                if idxs@[i as int] as int == k as int {
                } else {
                    if located_at(
                        cols,
                        k as int,
                        windows@[i as int].x_offset as int,
                        windows@[i as int].y_offset as int,
                    ) {
                        lemma_located_at_unique(
                            cols,
                            windows@[i as int].x_offset as int,
                            windows@[i as int].y_offset as int,
                            k as int,
                            idxs@[i as int] as int,
                        );
                    }
                }
            }
            if idxs[i] == k {
                col.push(windows[i].clone());
            }
            i += 1;
        }
        proof {
            assert(windows@.subrange(0, n as int) =~= windows@);
        }
        v.push(col);
        k += 1;
    }
    Ok(v)
}

/// Maps each window id to the monitor index the window sits on, in list
/// order.
pub fn index_monitors_by_window(monitor_grid: &MonitorGrid, windows: &Vec<Window>) -> (r: Result<
    Vec<(WindowId, MonitorIndex)>,
    FocusError,
>)
    requires
        grid_wf(monitor_grid.cols()),
    ensures
        match r {
            Ok(m) => {
                &&& all_located(monitor_grid.cols(), windows@)
                &&& m@.len() == windows@.len()
                &&& forall|i: int|
                    0 <= i < windows@.len() ==> (#[trigger] m@[i]).0 == windows@[i].id
                        && located_at(
                        monitor_grid.cols(),
                        m@[i].1.0 as int,
                        windows@[i].x_offset as int,
                        windows@[i].y_offset as int,
                    )
            },
            Err(e) => locate_failure(monitor_grid.cols(), windows@, e),
        },
{
    let ghost cols = monitor_grid.cols();
    let idxs = match locate_all(monitor_grid, windows) {
        Ok(idxs) => idxs,
        Err(e) => {
            return Err(e);
        },
    };
    let n = windows.len();
    let mut m: Vec<(WindowId, MonitorIndex)> = Vec::new();
    let mut i: usize = 0;
    while i < n
        invariant
            n == windows@.len(),
            cols == monitor_grid.cols(),
            idxs@.len() == n,
            forall|j: int|
                0 <= j < n ==> located_at(
                    cols,
                    #[trigger] idxs@[j] as int,
                    windows@[j].x_offset as int,
                    windows@[j].y_offset as int,
                ),
            0 <= i <= n,
            m@.len() == i,
            forall|j: int|
                0 <= j < i ==> (#[trigger] m@[j]).0 == windows@[j].id && m@[j].1.0 == idxs@[j],
        decreases n - i,
    {
        m.push((windows[i].id, MonitorIndex(idxs[i])));
        i += 1;
    }
    Ok(m)
}

/// The monitor recorded for the first entry with the given window id.
pub fn get_current_monitor(
    current_window_id: &WindowId,
    monitors_by_window: &Vec<(WindowId, MonitorIndex)>,
) -> (r: MonitorIndex)
    requires
        exists|i: int|
            0 <= i < monitors_by_window@.len() && (#[trigger] monitors_by_window@[i]).0
                == *current_window_id,
    ensures
        exists|i: int|
            {
                &&& 0 <= i < monitors_by_window@.len()
                &&& (#[trigger] monitors_by_window@[i]).0 == *current_window_id
                &&& r == monitors_by_window@[i].1
                &&& forall|j: int|
                    0 <= j < i ==> (#[trigger] monitors_by_window@[j]).0 != *current_window_id
            },
{
    let n = monitors_by_window.len();
    let mut i: usize = 0;
    while i < n
        invariant
            n == monitors_by_window@.len(),
            0 <= i <= n,
            exists|j: int|
                0 <= j < n && (#[trigger] monitors_by_window@[j]).0 == *current_window_id,
            forall|j: int|
                0 <= j < i ==> (#[trigger] monitors_by_window@[j]).0 != *current_window_id,
        decreases n - i,
    {
        let entry = &monitors_by_window[i];
        if entry.0 == *current_window_id {
            return entry.1;
        }
        i += 1;
    }
    proof {
        assert(false);
    }
    MonitorIndex(0)
}

// ---------- choosing the next window ----------

/// Whether the focused window is the extreme one in the requested direction
/// (or alone), so that the search must move to another monitor.
pub open spec fn spec_needs_wrap(d: FocusDirection, len: int, pos: int) -> bool {
    ||| len == 1
    ||| (d is Left && pos == 0)
    ||| (d is Right && pos == len - 1)
}

/// Given the windows of the current monitor and the direction, decides
/// whether the closest window lies on another monitor.
pub fn is_closest_window_not_on_current_monitor(
    direction: &FocusDirection,
    current_monitor_windows: &Vec<Window>,
    current_window_position: usize,
) -> (r: bool)
    requires
        current_monitor_windows@.len() > 0,
    ensures
        r == spec_needs_wrap(
            *direction,
            current_monitor_windows@.len() as int,
            current_window_position as int,
        ),
{
    if current_monitor_windows.len() == 1 {
        true
    } else {
        match direction {
            FocusDirection::Left => current_window_position == 0,
            FocusDirection::Right => current_window_position == current_monitor_windows.len() - 1,
        }
    }
}

/// The views of a vector of per-monitor window lists.
pub open spec fn wcols_of(v: Seq<Vec<Window>>) -> Seq<Seq<Window>> {
    v.map_values(|c: Vec<Window>| c@)
}

/// The window a wraparound step lands on: the rightmost window of the
/// monitor when moving left, the leftmost when moving right.
pub open spec fn edge_window(lists: Seq<Seq<Window>>, m: int, d: FocusDirection) -> Option<
    Window,
> {
    if 0 <= m < lists.len() && lists[m].len() > 0 {
        Some(
            match d {
                FocusDirection::Left => lists[m].last(),
                FocusDirection::Right => lists[m][0],
            },
        )
    } else {
        None
    }
}

/// Picks the edge window of a monitor's list for the direction, if the
/// monitor has any windows.
pub fn find_next_monitor_window(
    windows_by_monitor: &Vec<Vec<Window>>,
    monitor: &MonitorIndex,
    direction: &FocusDirection,
) -> (r: Option<Window>)
    ensures
        r == edge_window(wcols_of(windows_by_monitor@), monitor.0 as int, *direction),
{
    if monitor.0 < windows_by_monitor.len() {
        let list = &windows_by_monitor[monitor.0];
        proof {
            assert(wcols_of(windows_by_monitor@)[monitor.0 as int] == list@);
        }
        if list.len() > 0 {
            match direction {
                FocusDirection::Left => Some(list[list.len() - 1].clone()),
                FocusDirection::Right => Some(list[0].clone()),
            }
        } else {
            None
        }
    } else {
        None
    }
}

// ---------- the resolver's postcondition ----------

/// The index of the first window with the given id, or the length if there
/// is none.
pub open spec fn first_id_idx(ws: Seq<Window>, id: WindowId) -> int
    decreases ws.len(),
{
    if ws.len() == 0 {
        0
    } else if ws[0].id == id {
        0
    } else {
        1 + first_id_idx(ws.drop_first(), id)
    }
}

proof fn lemma_first_id_scan(ws: Seq<Window>, id: WindowId, j: int)
    requires
        0 <= j <= ws.len(),
        forall|k: int| 0 <= k < j ==> (#[trigger] ws[k]).id != id,
        j == ws.len() || ws[j].id == id,
    ensures
        first_id_idx(ws, id) == j,
    decreases j,
{
    if j > 0 {
        let rest = ws.drop_first();
        assert(forall|k: int| 0 <= k < j - 1 ==> (#[trigger] rest[k]).id != id);
        lemma_first_id_scan(rest, id, j - 1);
    }
}

proof fn lemma_first_id_props(ws: Seq<Window>, id: WindowId)
    ensures
        0 <= first_id_idx(ws, id) <= ws.len(),
        first_id_idx(ws, id) < ws.len() ==> ws[first_id_idx(ws, id)].id == id,
        forall|k: int| 0 <= k < first_id_idx(ws, id) ==> (#[trigger] ws[k]).id != id,
    decreases ws.len(),
{
    if ws.len() > 0 && ws[0].id != id {
        let rest = ws.drop_first();
        lemma_first_id_props(rest, id);
        let f = first_id_idx(ws, id);
        assert(f == 1 + first_id_idx(rest, id));
        if f < ws.len() {
            assert(ws[f] == rest[f - 1]);
        }
        assert forall|k: int| 0 <= k < f implies (#[trigger] ws[k]).id != id by {
            if k > 0 {
                assert(ws[k] == rest[k - 1]);
            }
        }
    }
}

/// A found wraparound step: `j` steps from the origin monitor reach the
/// first monitor in the direction that has any windows, and the result is
/// that monitor's edge window.
pub open spec fn wrap_found(
    cols: Seq<Seq<crate::monitor::Monitor>>,
    windows: Seq<Window>,
    d: FocusDirection,
    km: int,
    j: int,
    r: Result<Option<Window>, FocusError>,
) -> bool {
    let n = count_monitors(cols);
    let target = crate::monitor_grid::advance_index(n, km, d, j);
    &&& windows_on_monitor(cols, windows, target).len() > 0
    &&& forall|j2: int|
        1 <= j2 < j ==> windows_on_monitor(
            cols,
            windows,
            #[trigger] crate::monitor_grid::advance_index(n, km, d, j2),
        ).len() == 0
    &&& r == Ok::<Option<Window>, FocusError>(
        Some(
            match d {
                FocusDirection::Left => windows_on_monitor(cols, windows, target).last(),
                FocusDirection::Right => windows_on_monitor(cols, windows, target)[0],
            },
        ),
    )
}

/// The outcome once the focused window's monitor `km` is known.
pub open spec fn post_on_monitor(
    cols: Seq<Seq<crate::monitor::Monitor>>,
    windows: Seq<Window>,
    id: WindowId,
    d: FocusDirection,
    km: int,
    r: Result<Option<Window>, FocusError>,
) -> bool {
    let mlist = windows_on_monitor(cols, windows, km);
    let pos = first_id_idx(mlist, id);
    if pos >= mlist.len() {
        r == Err::<Option<Window>, FocusError>(FocusError::FocusedWindowNotFound)
    } else if spec_needs_wrap(d, mlist.len() as int, pos) {
        exists|j: int| 1 <= j <= count_monitors(cols) && #[trigger] wrap_found(cols, windows, d, km, j, r)
    } else {
        r == Ok::<Option<Window>, FocusError>(Some(mlist[pos + spec_step(d)]))
    }
}

/// Everything the direction resolver promises: the no-window and
/// inconsistent-state outcomes, the adjacent-window case, and the
/// wraparound search.
pub open spec fn closest_window_post(
    cols: Seq<Seq<crate::monitor::Monitor>>,
    windows: Seq<Window>,
    id: WindowId,
    d: FocusDirection,
    r: Result<Option<Window>, FocusError>,
) -> bool {
    if windows.len() == 0 {
        r == Ok::<Option<Window>, FocusError>(None)
    } else if !all_located(cols, windows) {
        r matches Err(e) && locate_failure(cols, windows, e)
    } else if first_id_idx(windows, id) >= windows.len() {
        r == Err::<Option<Window>, FocusError>(FocusError::FocusedWindowNotFound)
    } else {
        let wi = first_id_idx(windows, id);
        exists|km: int|
            #[trigger] located_at(
                cols,
                km,
                windows[wi].x_offset as int,
                windows[wi].y_offset as int,
            ) && post_on_monitor(cols, windows, id, d, km, r)
    }
}

/// Finds the window closest to the focused one in the requested direction,
/// wrapping across monitors when the focused window is the extreme one.
pub fn find_closest_window(
    current_window_id: &WindowId,
    monitor_grid: &MonitorGrid,
    windows: &Vec<Window>,
    direction: &FocusDirection,
) -> (r: Result<Option<Window>, FocusError>)
    requires
        grid_wf(monitor_grid.cols()),
    ensures
        closest_window_post(monitor_grid.cols(), windows@, *current_window_id, *direction, r),
{
    let ghost cols = monitor_grid.cols();
    if windows.len() == 0 {
        return Ok(None);
    }
    let windows_by_monitor = match index_windows_by_monitor(monitor_grid, windows) {
        Ok(v) => v,
        Err(e) => {
            proof {
                lemma_first_id_props(windows@, *current_window_id);
            }
            return Err(e);
        },
    };
    let monitors_by_window = match index_monitors_by_window(monitor_grid, windows) {
        Ok(m) => m,
        Err(e) => {
            return Err(e);
        },
    };
    // The first window carrying the focused id, if any.
    let n_w = windows.len();
    let mut wi: usize = 0;
    while wi < n_w && windows[wi].id != *current_window_id
        invariant
            n_w == windows@.len(),
            0 <= wi <= n_w,
            forall|k: int| 0 <= k < wi ==> (#[trigger] windows@[k]).id != *current_window_id,
        decreases n_w - wi,
    {
        wi += 1;
    }
    proof {
        lemma_first_id_scan(windows@, *current_window_id, wi as int);
    }
    if wi == n_w {
        return Err(FocusError::FocusedWindowNotFound);
    }
    proof {
        assert(monitors_by_window@[wi as int].0 == windows@[wi as int].id);
        assert(monitors_by_window@[wi as int].0 == *current_window_id);
    }
    let current_monitor = get_current_monitor(current_window_id, &monitors_by_window);
    let ghost km = current_monitor.0 as int;
    proof {
        let i = choose|i: int|
            {
                &&& 0 <= i < monitors_by_window@.len()
                &&& (#[trigger] monitors_by_window@[i]).0 == *current_window_id
                &&& current_monitor == monitors_by_window@[i].1
                &&& forall|j: int|
                    0 <= j < i ==> (#[trigger] monitors_by_window@[j]).0 != *current_window_id
            };
        assert(monitors_by_window@[i].0 == windows@[i].id);
        assert(windows@[i].id == *current_window_id);
        if i < wi as int {
            assert(windows@[i].id != *current_window_id);
        }
        if i > wi as int {
            assert(monitors_by_window@[wi as int].0 != *current_window_id);
        }
        assert(i == wi as int);
        assert(located_at(
            cols,
            km,
            windows@[wi as int].x_offset as int,
            windows@[wi as int].y_offset as int,
        ));
        lemma_located_in_range(
            cols,
            km,
            windows@[wi as int].x_offset as int,
            windows@[wi as int].y_offset as int,
        );
        lemma_windows_on_monitor_contains(cols, windows@, km, wi as int);
    }
    let current_monitor_windows = &windows_by_monitor[current_monitor.0];
    let ghost mlist = windows_on_monitor(cols, windows@, km);
    proof {
        assert(current_monitor_windows@ == mlist);
    }
    // The focused window's position within its own monitor's list.
    let m_len = current_monitor_windows.len();
    let mut pos: usize = 0;
    while pos < m_len && current_monitor_windows[pos].id != *current_window_id
        invariant
            m_len == current_monitor_windows@.len(),
            mlist == current_monitor_windows@,
            0 <= pos <= m_len,
            forall|k: int| 0 <= k < pos ==> (#[trigger] mlist[k]).id != *current_window_id,
        decreases m_len - pos,
    {
        pos += 1;
    }
    proof {
        lemma_first_id_scan(mlist, *current_window_id, pos as int);
    }
    if pos == m_len {
        return Err(FocusError::FocusedWindowNotFound);
    }
    proof {
        // The focused window is in its monitor's list, so the list is
        // non-empty.
        let ci = choose|ci: int| 0 <= ci < mlist.len() && mlist[ci] == windows@[wi as int];
        assert(mlist.len() > 0);
    }
    if is_closest_window_not_on_current_monitor(direction, current_monitor_windows, pos) {
        let count = monitor_grid.calculate_monitor_count();
        let ghost n = count_monitors(cols);
        proof {
            crate::monitor_grid::lemma_advance_formula(n, km, *direction, 1);
        }
        let mut next_monitor = monitor_grid.get_next_monitor(&current_monitor, direction);
        let mut k: usize = 1;
        loop
            invariant
                n == count_monitors(cols),
                count as int == n,
                cols == monitor_grid.cols(),
                grid_wf(cols),
                0 <= km < n,
                mlist == windows_on_monitor(cols, windows@, km),
                (pos as int) < mlist.len(),
                windows_by_monitor@.len() == n,
                forall|k2: int|
                    0 <= k2 < n ==> (#[trigger] windows_by_monitor@[k2])@ == windows_on_monitor(
                        cols,
                        windows@,
                        k2,
                    ),
                1 <= k <= n,
                next_monitor.0 as int == crate::monitor_grid::advance_index(
                    n,
                    km,
                    *direction,
                    k as int,
                ),
                forall|j2: int|
                    1 <= j2 < k ==> windows_on_monitor(
                        cols,
                        windows@,
                        #[trigger] crate::monitor_grid::advance_index(n, km, *direction, j2),
                    ).len() == 0,
                closest_window_post_frame(
                    cols,
                    windows@,
                    *current_window_id,
                    *direction,
                    km,
                    wi as int,
                    pos as int,
                ),
            decreases n - k,
        {
            proof {
                crate::monitor_grid::lemma_advance_formula(n, km, *direction, k as int);
            }
            match find_next_monitor_window(&windows_by_monitor, &next_monitor, direction) {
                Some(window) => {
                    proof {
                        assert(wcols_of(windows_by_monitor@)[next_monitor.0 as int]
                            == windows_by_monitor@[next_monitor.0 as int]@);
                        assert(wrap_found(
                            cols,
                            windows@,
                            *direction,
                            km,
                            k as int,
                            Ok(Some(window)),
                        ));
                    }
                    return Ok(Some(window));
                },
                None => {
                    proof {
                        assert(wcols_of(windows_by_monitor@)[next_monitor.0 as int]
                            == windows_by_monitor@[next_monitor.0 as int]@);
                        assert(windows_on_monitor(
                            cols,
                            windows@,
                            next_monitor.0 as int,
                        ).len() == 0);
                        if k as int == n {
                            crate::monitor_grid::lemma_advance_full_cycle(n, km, *direction);
                            assert(false);
                        }
                    }
                    next_monitor = monitor_grid.get_next_monitor(&next_monitor, direction);
                    k += 1;
                },
            }
        }
    } else {
        let target: usize = match direction {
            FocusDirection::Left => pos - 1,
            FocusDirection::Right => pos + 1,
        };
        Ok(Some(current_monitor_windows[target].clone()))
    }
}

/// The facts the wraparound loop carries about the focused window; spelled
/// out so the loop can re-establish the resolver's postcondition.
pub open spec fn closest_window_post_frame(
    cols: Seq<Seq<crate::monitor::Monitor>>,
    windows: Seq<Window>,
    id: WindowId,
    d: FocusDirection,
    km: int,
    wi: int,
    pos: int,
) -> bool {
    &&& windows.len() > 0
    &&& all_located(cols, windows)
    &&& wi == first_id_idx(windows, id)
    &&& wi < windows.len()
    &&& located_at(cols, km, windows[wi].x_offset as int, windows[wi].y_offset as int)
    &&& pos == first_id_idx(windows_on_monitor(cols, windows, km), id)
    &&& pos < windows_on_monitor(cols, windows, km).len()
    &&& spec_needs_wrap(d, windows_on_monitor(cols, windows, km).len() as int, pos)
}

// ---------- the two entry points ----------

/// Decides which window should receive focus when stepping in a direction:
/// the workspace's windows are filtered and ordered left to right, and the
/// closest window to the focused one is chosen, wrapping across monitors.
pub fn focus_by_direction(
    workspace: &Workspace,
    windows: Vec<Window>,
    current_window_id: &WindowId,
    direction: &FocusDirection,
) -> (r: Result<Option<WindowId>, FocusError>)
    requires
        workspace.wf(),
    ensures
        ({
            let cols = workspace.monitor_grid.cols();
            let sorted = sort_by_x(ws_filter(*workspace, windows@));
            match r {
                Ok(Some(wid)) => exists|w: Window|
                    #[trigger] closest_window_post(
                        cols,
                        sorted,
                        *current_window_id,
                        *direction,
                        Ok(Some(w)),
                    ) && wid == w.id,
                Ok(None) => closest_window_post(
                    cols,
                    sorted,
                    *current_window_id,
                    *direction,
                    Ok(None),
                ),
                Err(e) => closest_window_post(
                    cols,
                    sorted,
                    *current_window_id,
                    *direction,
                    Err(e),
                ),
            }
        }),
{
    let current_workspace_windows = get_current_workspace_windows(workspace, windows);
    match find_closest_window(
        current_window_id,
        &workspace.monitor_grid,
        &current_workspace_windows,
        direction,
    ) {
        Ok(Some(window)) => Ok(Some(window.id)),
        Ok(None) => Ok(None),
        Err(e) => Err(e),
    }
}

/// Decides which window should receive focus for a monitor index: the
/// leftmost window of that monitor, or nothing when the monitor has no
/// windows or the index is out of range.
pub fn focus_by_monitor_index(workspace: &Workspace, windows: Vec<Window>, index: &MonitorIndex)
    -> (r: Result<Option<WindowId>, FocusError>)
    requires
        workspace.wf(),
    ensures
        ({
            let cols = workspace.monitor_grid.cols();
            let sorted = sort_by_x(ws_filter(*workspace, windows@));
            match r {
                Ok(opt) => {
                    &&& all_located(cols, sorted)
                    &&& {
                        let mlist = windows_on_monitor(cols, sorted, index.0 as int);
                        if (index.0 as int) < count_monitors(cols) && mlist.len() > 0 {
                            opt == Some(mlist[0].id)
                        } else {
                            opt is None
                        }
                    }
                },
                Err(e) => locate_failure(cols, sorted, e),
            }
        }),
{
    let current_workspace_windows = get_current_workspace_windows(workspace, windows);
    let windows_by_monitor = match index_windows_by_monitor(
        &workspace.monitor_grid,
        &current_workspace_windows,
    ) {
        Ok(v) => v,
        Err(e) => {
            return Err(e);
        },
    };
    if index.0 < windows_by_monitor.len() {
        let list = &windows_by_monitor[index.0];
        if list.len() > 0 {
            Ok(Some(list[0].id))
        } else {
            Ok(None)
        }
    } else {
        Ok(None)
    }
}

// ---------- determinism of the resolver ----------

/// Repeated direction-focus resolution with unchanged state is
/// deterministic: the resolver's postcondition allows exactly one outcome
/// for a given grid, window list, focused window and direction.
pub proof fn lemma_closest_window_deterministic(
    cols: Seq<Seq<crate::monitor::Monitor>>,
    windows: Seq<Window>,
    id: WindowId,
    d: FocusDirection,
    r1: Result<Option<Window>, FocusError>,
    r2: Result<Option<Window>, FocusError>,
)
    requires
        closest_window_post(cols, windows, id, d, r1),
        closest_window_post(cols, windows, id, d, r2),
    ensures
        r1 == r2,
{
    if windows.len() == 0 {
    } else if !all_located(cols, windows) {
        match (r1, r2) {
            (Err(e1), Err(e2)) => {
                match (e1, e2) {
                    (
                        FocusError::WindowNotOnAnyMonitor(x1, y1),
                        FocusError::WindowNotOnAnyMonitor(x2, y2),
                    ) => {
                        let i1 = choose|i: int|
                            {
                                &&& 0 <= i < windows.len()
                                &&& x1 == (#[trigger] windows[i]).x_offset
                                &&& y1 == windows[i].y_offset
                                &&& !covered(
                                    cols,
                                    windows[i].x_offset as int,
                                    windows[i].y_offset as int,
                                )
                                &&& forall|j: int|
                                    0 <= j < i ==> covered(
                                        cols,
                                        (#[trigger] windows[j]).x_offset as int,
                                        windows[j].y_offset as int,
                                    )
                            };
                        let i2 = choose|i: int|
                            {
                                &&& 0 <= i < windows.len()
                                &&& x2 == (#[trigger] windows[i]).x_offset
                                &&& y2 == windows[i].y_offset
                                &&& !covered(
                                    cols,
                                    windows[i].x_offset as int,
                                    windows[i].y_offset as int,
                                )
                                &&& forall|j: int|
                                    0 <= j < i ==> covered(
                                        cols,
                                        (#[trigger] windows[j]).x_offset as int,
                                        windows[j].y_offset as int,
                                    )
                            };
                        if i1 < i2 {
                            assert(covered(
                                cols,
                                windows[i1].x_offset as int,
                                windows[i1].y_offset as int,
                            ));
                            assert(false);
                        }
                        if i2 < i1 {
                            assert(covered(
                                cols,
                                windows[i2].x_offset as int,
                                windows[i2].y_offset as int,
                            ));
                            assert(false);
                        }
                        assert(e1 == e2);
                    },
                    _ => {
                        assert(false);
                    },
                }
            },
            _ => {
                assert(false);
            },
        }
    } else if first_id_idx(windows, id) >= windows.len() {
    } else {
        let wi = first_id_idx(windows, id);
        let wx = windows[wi].x_offset as int;
        let wy = windows[wi].y_offset as int;
        let km1 = choose|km: int|
            #[trigger] located_at(cols, km, wx, wy) && post_on_monitor(
                cols,
                windows,
                id,
                d,
                km,
                r1,
            );
        let km2 = choose|km: int|
            #[trigger] located_at(cols, km, wx, wy) && post_on_monitor(
                cols,
                windows,
                id,
                d,
                km,
                r2,
            );
        lemma_located_at_unique(cols, wx, wy, km1, km2);
        let km = km1;
        let mlist = windows_on_monitor(cols, windows, km);
        let pos = first_id_idx(mlist, id);
        if pos >= mlist.len() {
        } else if spec_needs_wrap(d, mlist.len() as int, pos) {
            let n = count_monitors(cols);
            let j1 = choose|j: int|
                1 <= j <= n && #[trigger] wrap_found(cols, windows, d, km, j, r1);
            let j2 = choose|j: int|
                1 <= j <= n && #[trigger] wrap_found(cols, windows, d, km, j, r2);
            if j1 < j2 {
                assert(windows_on_monitor(
                    cols,
                    windows,
                    crate::monitor_grid::advance_index(n, km, d, j1),
                ).len() == 0);
                assert(false);
            }
            if j2 < j1 {
                assert(windows_on_monitor(
                    cols,
                    windows,
                    crate::monitor_grid::advance_index(n, km, d, j2),
                ).len() == 0);
                assert(false);
            }
        } else {
        }
    }
}

} // verus!
