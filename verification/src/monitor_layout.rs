//! Parsing the display server's monitor listing: per-monitor descriptor
//! lines become `(dimensions, x offset, y offset)` triples, which are sorted
//! and grouped into the canonical monitor grid.

use vstd::prelude::*;
use crate::errors::FocusError;
use crate::grid_geometry::grid_wf;
use crate::monitor::{spec_monitor_dims, Monitor};
use crate::monitor_grid::{check_grid_wf, cols_of, MonitorGrid};
use crate::text::{
    contains_seq, contains_str, parse_i32, spec_parse_i32, spec_split, spec_tokens, spec_trim,
    split_on, split_whitespace_tokens, str_eq, trim_str, views_of,
};
use crate::workspace::Workspace;

verus! {

/// What one raw monitor descriptor line yields: at least 3 whitespace
/// tokens, a `WxH+X+Y` geometry token (after an optional `primary` marker),
/// split into the dimensions string and two integer offsets.
pub open spec fn spec_monitor_config_of(line: Seq<char>) -> Option<(Seq<char>, int, int)> {
    let toks = spec_tokens(line);
    if toks.len() < 3 {
        None
    } else {
        let pos_idx: int = if toks[2] == "primary"@ {
            3
        } else {
            2
        };
        if pos_idx >= toks.len() {
            None
        } else {
            let parts = spec_split(toks[pos_idx], '+');
            if parts.len() != 3 {
                None
            } else {
                match (spec_parse_i32(parts[1]), spec_parse_i32(parts[2])) {
                    (Some(x), Some(y)) => Some((parts[0], x, y)),
                    _ => None,
                }
            }
        }
    }
}

/// The parsed triple of a line, defaulting when the line does not parse;
/// meaningful only under [`all_configs_ok`].
pub open spec fn spec_config_val(line: Seq<char>) -> (Seq<char>, int, int) {
    match spec_monitor_config_of(line) {
        Some(t) => t,
        None => (Seq::empty(), 0, 0),
    }
}

pub open spec fn all_configs_ok(lines: Seq<Seq<char>>) -> bool {
    forall|i: int| 0 <= i < lines.len() ==> spec_monitor_config_of(#[trigger] lines[i]) is Some
}

pub open spec fn configs_of(lines: Seq<Seq<char>>) -> Seq<(Seq<char>, int, int)> {
    lines.map_values(|l: Seq<char>| spec_config_val(l))
}

/// The view of an owned triple.
pub open spec fn triple_view(t: (String, i32, i32)) -> (Seq<char>, int, int) {
    (t.0@, t.1 as int, t.2 as int)
}

pub open spec fn triple_views(s: Seq<(String, i32, i32)>) -> Seq<(Seq<char>, int, int)> {
    s.map_values(|t: (String, i32, i32)| triple_view(t))
}

/// Sort order for monitor triples: by x offset, then by y offset.
pub open spec fn triple_le(a: (Seq<char>, int, int), b: (Seq<char>, int, int)) -> bool {
    a.1 < b.1 || (a.1 == b.1 && a.2 <= b.2)
}

/// Inserts a triple after every triple that sorts at or before it, keeping
/// the insertion stable.
pub open spec fn insert_sorted_triple(s: Seq<(Seq<char>, int, int)>, t: (Seq<char>, int, int))
    -> Seq<(Seq<char>, int, int)>
    decreases s.len(),
{
    if s.len() == 0 {
        seq![t]
    } else if triple_le(s[0], t) {
        seq![s[0]] + insert_sorted_triple(s.drop_first(), t)
    } else {
        seq![t] + s
    }
}

/// The stable sort of monitor triples by `(x offset, y offset)`.
pub open spec fn sort_triples(s: Seq<(Seq<char>, int, int)>) -> Seq<(Seq<char>, int, int)>
    decreases s.len(),
{
    if s.len() == 0 {
        Seq::empty()
    } else {
        insert_sorted_triple(sort_triples(s.drop_last()), s.last())
    }
}

pub open spec fn all_dims_ok(sorted: Seq<(Seq<char>, int, int)>) -> bool {
    forall|i: int| 0 <= i < sorted.len() ==> spec_monitor_dims((#[trigger] sorted[i]).0) is Some
}

/// The monitor a triple's dimensions string yields; meaningful only under
/// [`all_dims_ok`].
pub open spec fn spec_monitor_val(d: Seq<char>) -> Monitor {
    match spec_monitor_dims(d) {
        Some(wh) => Monitor { width: wh.0 as i32, height: wh.1 as i32 },
        None => Monitor { width: 0, height: 0 },
    }
}

/// Groups the sorted triples into columns of monitors: adjacent triples with
/// equal x offsets stack into one column.
pub open spec fn build_grid(sorted: Seq<(Seq<char>, int, int)>) -> Seq<Seq<Monitor>>
    decreases sorted.len(),
{
    if sorted.len() == 0 {
        Seq::empty()
    } else {
        let g = build_grid(sorted.drop_last());
        let t = sorted.last();
        let m = spec_monitor_val(t.0);
        if sorted.len() >= 2 && sorted[sorted.len() - 2].1 == t.1 {
            g.update(g.len() - 1, g.last().push(m))
        } else {
            g.push(seq![m])
        }
    }
}

/// The lines of the display server's raw output that describe a connected
/// monitor.
pub open spec fn filter_connected(lines: Seq<Seq<char>>) -> Seq<Seq<char>>
    decreases lines.len(),
{
    if lines.len() == 0 {
        Seq::empty()
    } else {
        let rest = filter_connected(lines.drop_last());
        if contains_seq(lines.last(), " connected "@) {
            rest.push(lines.last())
        } else {
            rest
        }
    }
}

/// Selects the connected-monitor lines out of the display server's raw
/// output.
pub fn select_connected_outputs(raw_output: &str) -> (r: Vec<String>)
    ensures
        views_of(r@) == filter_connected(spec_split(spec_trim(raw_output@), '\n')),
{
    let trimmed = trim_str(raw_output);
    let lines = split_on(trimmed.as_str(), '\n');
    let ghost lviews = views_of(lines@);
    let n = lines.len();
    let mut out: Vec<String> = Vec::new();
    let mut i: usize = 0;
    proof {
        assert(lviews.subrange(0, 0) =~= Seq::<Seq<char>>::empty());
    }
    while i < n
        invariant
            n == lines@.len(),
            lviews == views_of(lines@),
            0 <= i <= n,
            views_of(out@) == filter_connected(lviews.subrange(0, i as int)),
        decreases n - i,
    {
        proof {
            assert(lviews.subrange(0, i + 1).drop_last() =~= lviews.subrange(0, i as int));
            assert(lviews.subrange(0, i + 1).last() == lviews[i as int]);
            assert(lviews[i as int] == lines@[i as int]@);
        }
        if contains_str(lines[i].as_str(), " connected ") {
            let ghost old_out = out@;
            out.push(lines[i].clone());
            proof {
                assert(views_of(out@) =~= views_of(old_out).push(lines@[i as int]@));
            }
        }
        i += 1;
    }
    proof {
        assert(lviews.subrange(0, n as int) =~= lviews);
    }
    out
}

/// Parses one raw monitor descriptor, e.g.
/// `DisplayPort-0 connected 3440x1440+1920+540 (normal …) 800mm x 337mm`.
pub fn parse_monitor_config(monitor_config: &str) -> (r: Result<(String, i32, i32), FocusError>)
    ensures
        match r {
            Ok(t) => spec_monitor_config_of(monitor_config@) == Some(triple_view(t)),
            Err(e) => {
                &&& spec_monitor_config_of(monitor_config@) is None
                &&& e matches FocusError::InvalidMonitorConfig(t) && t@ == monitor_config@
            },
        },
{
    let toks = split_whitespace_tokens(monitor_config);
    if toks.len() < 3 {
        return Err(FocusError::InvalidMonitorConfig(monitor_config.to_owned()));
    }
    proof {
        assert(views_of(toks@)[2] == toks@[2]@);
    }
    let position_index: usize = if str_eq(toks[2].as_str(), "primary") {
        3
    } else {
        2
    };
    if position_index >= toks.len() {
        return Err(FocusError::InvalidMonitorConfig(monitor_config.to_owned()));
    }
    proof {
        assert(views_of(toks@)[position_index as int] == toks@[position_index as int]@);
    }
    let offsets = split_on(toks[position_index].as_str(), '+');
    if offsets.len() != 3 {
        return Err(FocusError::InvalidMonitorConfig(monitor_config.to_owned()));
    }
    proof {
        assert(views_of(offsets@)[0] == offsets@[0]@);
        assert(views_of(offsets@)[1] == offsets@[1]@);
        assert(views_of(offsets@)[2] == offsets@[2]@);
    }
    let x_offset = match parse_i32(offsets[1].as_str()) {
        Some(v) => v,
        None => {
            return Err(FocusError::InvalidMonitorConfig(monitor_config.to_owned()));
        },
    };
    let y_offset = match parse_i32(offsets[2].as_str()) {
        Some(v) => v,
        None => {
            return Err(FocusError::InvalidMonitorConfig(monitor_config.to_owned()));
        },
    };
    let dimensions = offsets[0].clone();
    Ok((dimensions, x_offset, y_offset))
}

fn triple_le_exec(a: &(String, i32, i32), b: &(String, i32, i32)) -> (r: bool)
    ensures
        r == triple_le(triple_view(*a), triple_view(*b)),
{
    a.1 < b.1 || (a.1 == b.1 && a.2 <= b.2)
}

/// Inserting at the first position whose triple sorts strictly after the new
/// one matches the recursive insertion.
proof fn lemma_insert_sorted_at(
    s: Seq<(Seq<char>, int, int)>,
    t: (Seq<char>, int, int),
    j: int,
)
    requires
        0 <= j <= s.len(),
        forall|k: int| 0 <= k < j ==> triple_le(#[trigger] s[k], t),
        j == s.len() || !triple_le(s[j], t),
    ensures
        insert_sorted_triple(s, t) == s.subrange(0, j) + seq![t] + s.subrange(j, s.len() as int),
    decreases j,
{
    if j == 0 {
        if s.len() == 0 {
            assert(insert_sorted_triple(s, t) =~= s.subrange(0, 0) + seq![t] + s.subrange(
                0,
                s.len() as int,
            ));
        } else {
            assert(!triple_le(s[0], t));
            assert(insert_sorted_triple(s, t) =~= s.subrange(0, 0) + seq![t] + s.subrange(
                0,
                s.len() as int,
            ));
        }
    } else {
        assert(triple_le(s[0], t));
        let rest = s.drop_first();
        assert(forall|k: int| 0 <= k < j - 1 ==> triple_le(#[trigger] rest[k], t));
        lemma_insert_sorted_at(rest, t, j - 1);
        assert(insert_sorted_triple(s, t) =~= s.subrange(0, j) + seq![t] + s.subrange(
            j,
            s.len() as int,
        ));
    }
}

/// Stable-sorts the monitor triples by `(x offset, y offset)`.
fn sort_monitor_triples(triples: Vec<(String, i32, i32)>) -> (r: Vec<(String, i32, i32)>)
    ensures
        triple_views(r@) == sort_triples(triple_views(triples@)),
{
    let ghost src = triple_views(triples@);
    let n = triples.len();
    let mut out: Vec<(String, i32, i32)> = Vec::new();
    let mut i: usize = 0;
    proof {
        assert(src.subrange(0, 0) =~= Seq::<(Seq<char>, int, int)>::empty());
        assert(triple_views(out@) =~= sort_triples(src.subrange(0, 0)));
    }
    while i < n
        invariant
            n == triples@.len(),
            src == triple_views(triples@),
            0 <= i <= n,
            triple_views(out@) == sort_triples(src.subrange(0, i as int)),
        decreases n - i,
    {
        let t_ref = &triples[i];
        let t = (t_ref.0.clone(), t_ref.1, t_ref.2);
        proof {
            assert(triple_view(t) == src[i as int]);
        }
        let mut j: usize = 0;
        let m = out.len();
        while j < m && triple_le_exec(&out[j], &t)
            invariant
                m == out@.len(),
                0 <= j <= m,
                forall|k: int|
                    0 <= k < j ==> triple_le(triple_views(out@)[k], triple_view(t)),
            decreases m - j,
        {
            proof {
                assert(triple_views(out@)[j as int] == triple_view(out@[j as int]));
            }
            j += 1;
        }
        proof {
            assert(j < m ==> triple_views(out@)[j as int] == triple_view(out@[j as int]));
            lemma_insert_sorted_at(triple_views(out@), triple_view(t), j as int);
        }
        let ghost old_out = out@;
        out.insert(j, t);
        proof {
            assert(src.subrange(0, i + 1).drop_last() =~= src.subrange(0, i as int));
            assert(src.subrange(0, i + 1).last() == src[i as int]);
            assert(triple_views(out@) =~= triple_views(old_out).subrange(0, j as int) + seq![
                triple_view(t),
            ] + triple_views(old_out).subrange(j as int, old_out.len() as int));
            assert(triple_views(out@) =~= sort_triples(src.subrange(0, i + 1)));
        }
        i += 1;
    }
    proof {
        assert(src.subrange(0, n as int) =~= src);
    }
    out
}

/// Converts the sorted triples into the monitor grid, stacking triples with
/// equal x offsets into one column.
fn assemble_grid(sorted: Vec<(String, i32, i32)>) -> (r: Result<Vec<Vec<Monitor>>, FocusError>)
    ensures
        match r {
            Ok(grid) => {
                &&& all_dims_ok(triple_views(sorted@))
                &&& cols_of(grid@) == build_grid(triple_views(sorted@))
            },
            Err(e) => {
                let views = triple_views(sorted@);
                &&& !all_dims_ok(views)
                &&& e matches FocusError::InvalidMonitorDimensions(t) && exists|i: int|
                    {
                        &&& 0 <= i < views.len()
                        &&& t@ == (#[trigger] views[i]).0
                        &&& spec_monitor_dims(views[i].0) is None
                        &&& forall|k: int|
                            0 <= k < i ==> spec_monitor_dims((#[trigger] views[k]).0) is Some
                    }
            },
        },
{
    let ghost views = triple_views(sorted@);
    let n = sorted.len();
    let mut grid: Vec<Vec<Monitor>> = Vec::new();
    let mut i: usize = 0;
    proof {
        assert(views.subrange(0, 0) =~= Seq::<(Seq<char>, int, int)>::empty());
        assert(cols_of(grid@) =~= build_grid(views.subrange(0, 0)));
    }
    while i < n
        invariant
            n == sorted@.len(),
            views == triple_views(sorted@),
            0 <= i <= n,
            cols_of(grid@) == build_grid(views.subrange(0, i as int)),
            i > 0 ==> grid@.len() > 0,
            forall|k: int| 0 <= k < i ==> spec_monitor_dims((#[trigger] views[k]).0) is Some,
        decreases n - i,
    {
        proof {
            assert(views[i as int] == triple_view(sorted@[i as int]));
            assert(views.subrange(0, i + 1).drop_last() =~= views.subrange(0, i as int));
            assert(views.subrange(0, i + 1).last() == views[i as int]);
            if i > 0 {
                assert(views.subrange(0, i + 1)[i - 1] == views[i - 1]);
                assert(views[i - 1] == triple_view(sorted@[i - 1]));
            }
        }
        let t_ref = &sorted[i];
        let monitor = match Monitor::from_string_dimensions(t_ref.0.as_str()) {
            Ok(m) => m,
            Err(e) => {
                return Err(e);
            },
        };
        let ghost old_grid = grid@;
        if i > 0 && sorted[i - 1].1 == sorted[i].1 {
            let last_col = match grid.pop() {
                Some(col) => col,
                None => {
                    proof {
                        assert(false);
                    }
                    Vec::new()
                },
            };
            let mut last_col = last_col;
            last_col.push(monitor);
            grid.push(last_col);
            proof {
                assert(cols_of(grid@) =~= cols_of(old_grid).update(
                    old_grid.len() - 1,
                    cols_of(old_grid).last().push(monitor),
                ));
                assert(cols_of(grid@) =~= build_grid(views.subrange(0, i + 1)));
            }
        } else {
            let mut new_col: Vec<Monitor> = Vec::new();
            new_col.push(monitor);
            grid.push(new_col);
            proof {
                assert(cols_of(grid@) =~= cols_of(old_grid).push(seq![monitor]));
                assert(cols_of(grid@) =~= build_grid(views.subrange(0, i + 1)));
            }
        }
        i += 1;
    }
    proof {
        assert(views.subrange(0, n as int) =~= views);
    }
    Ok(grid)
}

/// Parses the raw connected-monitor descriptors into the canonical monitor
/// grid: triples sorted by `(x offset, y offset)`, grouped into columns by
/// x offset, each dimensions string converted to a monitor.
pub fn parse_raw_monitors_config(raw_monitors: &Vec<String>) -> (r: Result<
    Vec<Vec<Monitor>>,
    FocusError,
>)
    ensures
        match r {
            Ok(grid) => {
                let lines = views_of(raw_monitors@);
                &&& all_configs_ok(lines)
                &&& all_dims_ok(sort_triples(configs_of(lines)))
                &&& cols_of(grid@) == build_grid(sort_triples(configs_of(lines)))
            },
            Err(e) => {
                let lines = views_of(raw_monitors@);
                match e {
                    FocusError::InvalidMonitorConfig(t) => exists|i: int|
                        {
                            &&& 0 <= i < lines.len()
                            &&& t@ == #[trigger] lines[i]
                            &&& spec_monitor_config_of(lines[i]) is None
                            &&& forall|k: int|
                                0 <= k < i ==> spec_monitor_config_of(#[trigger] lines[k])
                                    is Some
                        },
                    FocusError::InvalidMonitorDimensions(t) => {
                        let sorted = sort_triples(configs_of(lines));
                        &&& all_configs_ok(lines)
                        &&& !all_dims_ok(sorted)
                        &&& exists|i: int|
                            {
                                &&& 0 <= i < sorted.len()
                                &&& t@ == (#[trigger] sorted[i]).0
                                &&& spec_monitor_dims(sorted[i].0) is None
                                &&& forall|k: int|
                                    0 <= k < i ==> spec_monitor_dims(
                                        (#[trigger] sorted[k]).0,
                                    ) is Some
                            }
                    },
                    _ => false,
                }
            },
        },
{
    let ghost lines = views_of(raw_monitors@);
    let n = raw_monitors.len();
    let mut triples: Vec<(String, i32, i32)> = Vec::new();
    let mut i: usize = 0;
    proof {
        assert(lines.subrange(0, 0) =~= Seq::<Seq<char>>::empty());
        assert(triple_views(triples@) =~= configs_of(lines.subrange(0, 0)));
    }
    while i < n
        invariant
            n == raw_monitors@.len(),
            lines == views_of(raw_monitors@),
            0 <= i <= n,
            triple_views(triples@) == configs_of(lines.subrange(0, i as int)),
            forall|k: int|
                0 <= k < i ==> spec_monitor_config_of(#[trigger] lines[k]) is Some,
        decreases n - i,
    {
        proof {
            assert(lines[i as int] == raw_monitors@[i as int]@);
        }
        let triple = match parse_monitor_config(raw_monitors[i].as_str()) {
            Ok(t) => t,
            Err(e) => {
                return Err(e);
            },
        };
        let ghost old_triples = triples@;
        triples.push(triple);
        proof {
            assert(triple_views(triples@) =~= triple_views(old_triples).push(
                triple_view(triple),
            ));
            assert(configs_of(lines.subrange(0, i + 1)) =~= configs_of(
                lines.subrange(0, i as int),
            ).push(spec_config_val(lines[i as int])));
        }
        i += 1;
    }
    proof {
        assert(lines.subrange(0, n as int) =~= lines);
    }
    let sorted = sort_monitor_triples(triples);
    assemble_grid(sorted)
}

/// Parses the raw connected-monitor descriptors into a full [`Workspace`],
/// rejecting layouts whose dimensions the pixel arithmetic cannot represent.
pub fn parse_workspace(raw_monitors: &Vec<String>) -> (r: Result<Workspace, FocusError>)
    ensures
        match r {
            Ok(ws) => {
                let lines = views_of(raw_monitors@);
                &&& all_configs_ok(lines)
                &&& all_dims_ok(sort_triples(configs_of(lines)))
                &&& ws.monitor_grid.cols() == build_grid(sort_triples(configs_of(lines)))
                &&& grid_wf(build_grid(sort_triples(configs_of(lines))))
                &&& ws.wf()
            },
            Err(e) => {
                let lines = views_of(raw_monitors@);
                match e {
                    FocusError::InvalidMonitorConfig(t) => exists|i: int|
                        {
                            &&& 0 <= i < lines.len()
                            &&& t@ == #[trigger] lines[i]
                            &&& spec_monitor_config_of(lines[i]) is None
                            &&& forall|k: int|
                                0 <= k < i ==> spec_monitor_config_of(#[trigger] lines[k])
                                    is Some
                        },
                    FocusError::InvalidMonitorDimensions(t) => {
                        let sorted = sort_triples(configs_of(lines));
                        &&& all_configs_ok(lines)
                        &&& !all_dims_ok(sorted)
                        &&& exists|i: int|
                            {
                                &&& 0 <= i < sorted.len()
                                &&& t@ == (#[trigger] sorted[i]).0
                                &&& spec_monitor_dims(sorted[i].0) is None
                                &&& forall|k: int|
                                    0 <= k < i ==> spec_monitor_dims(
                                        (#[trigger] sorted[k]).0,
                                    ) is Some
                            }
                    },
                    FocusError::UnsupportedMonitorLayout => {
                        &&& all_configs_ok(lines)
                        &&& all_dims_ok(sort_triples(configs_of(lines)))
                        &&& !grid_wf(build_grid(sort_triples(configs_of(lines))))
                    },
                    _ => false,
                }
            },
        },
{
    let grid_columns = match parse_raw_monitors_config(raw_monitors) {
        Ok(g) => g,
        Err(e) => {
            return Err(e);
        },
    };
    if !check_grid_wf(&grid_columns) {
        return Err(FocusError::UnsupportedMonitorLayout);
    }
    Ok(Workspace::new(MonitorGrid(grid_columns)))
}

} // verus!
