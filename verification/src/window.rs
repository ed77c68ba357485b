//! Windows as the window manager reports them: id, position, size, class and
//! title, parsed from the fixed-column descriptor lines.

use vstd::prelude::*;
use crate::errors::FocusError;
use crate::text::{
    dec_string_of, int_string_of, i32_to_string, join_from, parse_hex_usize, parse_i32,
    spec_join_sp, spec_parse_hex_usize, spec_parse_i32, spec_split, spec_strip_hex_prefix,
    spec_tokens, split_on, split_whitespace_tokens, str_eq, strip_hex_prefix, usize_to_string,
    views_of,
};

verus! {

/// An opaque window identifier, as the window manager assigns them.
#[derive(Clone, Copy, Debug, Eq, Hash, PartialEq, Structural)]
pub struct WindowId(pub usize);

impl WindowId {
    /// The id rendered in decimal.
    pub fn to_string(&self) -> (r: String)
        ensures
            r@ == dec_string_of(self.0 as int),
    {
        usize_to_string(self.0)
    }
}

/// The fixed pixel height of the title-bar decoration the window manager adds
/// above a window's content area.
pub const WINDOW_DECORATION: i32 = 24;

/// One on-screen window: its id, its offsets from the top-left of the whole
/// workspace plane, its size, its window-manager class, and its title.
#[derive(Debug)]
pub struct Window {
    pub id: WindowId,
    pub x_offset: i32,
    pub y_offset: i32,
    pub width: i32,
    pub height: i32,
    pub window_class: String,
    pub title: String,
}

/// The mathematical value of a [`Window`].
pub struct WindowV {
    pub id: int,
    pub x_offset: int,
    pub y_offset: int,
    pub width: int,
    pub height: int,
    pub window_class: Seq<char>,
    pub title: Seq<char>,
}

impl View for Window {
    type V = WindowV;

    open spec fn view(&self) -> WindowV {
        WindowV {
            id: self.id.0 as int,
            x_offset: self.x_offset as int,
            y_offset: self.y_offset as int,
            width: self.width as int,
            height: self.height as int,
            window_class: self.window_class@,
            title: self.title@,
        }
    }
}

impl Clone for Window {
    fn clone(&self) -> (res: Self)
        ensures
            res == *self,
    {
        Window {
            id: self.id,
            x_offset: self.x_offset,
            y_offset: self.y_offset,
            width: self.width,
            height: self.height,
            window_class: self.window_class.clone(),
            title: self.title.clone(),
        }
    }
}

/// The views of a sequence of windows.
pub open spec fn window_views(ws: Seq<Window>) -> Seq<WindowV> {
    ws.map_values(|w: Window| w@)
}

/// What one raw window descriptor line yields: at least 8 whitespace tokens,
/// a hexadecimal id in token 0, integer offsets and sizes in tokens 2 to 5,
/// the class in token 6, and tokens 8 onward joined as the title.
pub open spec fn spec_window_of(line: Seq<char>) -> Option<WindowV> {
    let toks = spec_tokens(line);
    if toks.len() >= 8 {
        match (
            spec_parse_hex_usize(spec_strip_hex_prefix(toks[0])),
            spec_parse_i32(toks[2]),
            spec_parse_i32(toks[3]),
            spec_parse_i32(toks[4]),
            spec_parse_i32(toks[5]),
        ) {
            (Some(id), Some(x), Some(y), Some(w), Some(h)) => Some(
                WindowV {
                    id: id,
                    x_offset: x,
                    y_offset: y,
                    width: w,
                    height: h,
                    window_class: toks[6],
                    title: spec_join_sp(toks.subrange(8, toks.len() as int)),
                },
            ),
            _ => None,
        }
    } else {
        None
    }
}

/// The rendering that [`Window::to_string`] produces.
pub open spec fn spec_window_display(w: WindowV) -> Seq<char> {
    "ID: "@ + dec_string_of(w.id) + "\nX Offset: "@ + int_string_of(w.x_offset)
        + "\nY Offset: "@ + int_string_of(w.y_offset) + "\nDimensions: "@ + int_string_of(
        w.width,
    ) + "x"@ + int_string_of(w.height) + "\nClass: "@ + w.window_class + "\nTitle: "@ + w.title
}

impl Window {
    pub fn new(
        id: WindowId,
        x_offset: i32,
        y_offset: i32,
        width: i32,
        height: i32,
        window_class: String,
        title: String,
    ) -> (r: Self)
        ensures
            r.id == id,
            r.x_offset == x_offset,
            r.y_offset == y_offset,
            r.width == width,
            r.height == height,
            r.window_class == window_class,
            r.title == title,
    {
        Self { id, x_offset, y_offset, width, height, window_class, title }
    }

    /// Parses a window id: any leading `0x` prefixes are stripped, and the
    /// rest is read as hexadecimal.
    pub fn parse_id(hex_string: &str) -> (r: Result<WindowId, FocusError>)
        ensures
            match r {
                Ok(id) => spec_parse_hex_usize(spec_strip_hex_prefix(hex_string@)) == Some(
                    id.0 as int,
                ),
                Err(e) => {
                    &&& spec_parse_hex_usize(spec_strip_hex_prefix(hex_string@)) is None
                    &&& e matches FocusError::MalformedWindowConfig(t) && t@ == hex_string@
                },
            },
    {
        let stripped = strip_hex_prefix(hex_string);
        match parse_hex_usize(stripped.as_str()) {
            Some(v) => Ok(WindowId(v)),
            None => Err(FocusError::MalformedWindowConfig(hex_string.to_owned())),
        }
    }

    /// Parses one raw window descriptor line, e.g.
    /// `0x05000006  0 1920 24 1920 1056 gnome-terminal-server.Gnome-terminal devin-Desktop Terminal`.
    pub fn from_raw_config(raw_config: &str) -> (r: Result<Self, FocusError>)
        ensures
            match r {
                Ok(w) => spec_window_of(raw_config@) == Some(w@),
                Err(e) => {
                    &&& spec_window_of(raw_config@) is None
                    &&& e matches FocusError::MalformedWindowConfig(t) && t@ == raw_config@
                },
            },
    {
        let toks = split_whitespace_tokens(raw_config);
        if toks.len() < 8 {
            return Err(FocusError::MalformedWindowConfig(raw_config.to_owned()));
        }
        proof {
            assert(views_of(toks@)[0] == toks@[0]@);
            assert(views_of(toks@)[2] == toks@[2]@);
            assert(views_of(toks@)[3] == toks@[3]@);
            assert(views_of(toks@)[4] == toks@[4]@);
            assert(views_of(toks@)[5] == toks@[5]@);
            assert(views_of(toks@)[6] == toks@[6]@);
        }
        let id = match Self::parse_id(toks[0].as_str()) {
            Ok(id) => id,
            Err(_) => {
                return Err(FocusError::MalformedWindowConfig(raw_config.to_owned()));
            },
        };
        let x_offset = match parse_i32(toks[2].as_str()) {
            Some(v) => v,
            None => {
                return Err(FocusError::MalformedWindowConfig(raw_config.to_owned()));
            },
        };
        let y_offset = match parse_i32(toks[3].as_str()) {
            Some(v) => v,
            None => {
                return Err(FocusError::MalformedWindowConfig(raw_config.to_owned()));
            },
        };
        let width = match parse_i32(toks[4].as_str()) {
            Some(v) => v,
            None => {
                return Err(FocusError::MalformedWindowConfig(raw_config.to_owned()));
            },
        };
        let height = match parse_i32(toks[5].as_str()) {
            Some(v) => v,
            None => {
                return Err(FocusError::MalformedWindowConfig(raw_config.to_owned()));
            },
        };
        let window_class = toks[6].clone();
        let title = join_from(&toks, 8);
        proof {
            assert(views_of(toks@).subrange(8, toks@.len() as int) =~= spec_tokens(
                raw_config@,
            ).subrange(8, spec_tokens(raw_config@).len() as int));
        }
        Ok(Self { id, x_offset, y_offset, width, height, window_class, title })
    }

    /// A multi-line rendering of the window's fields.
    pub fn to_string(&self) -> (r: String)
        ensures
            r@ == spec_window_display(self@),
    {
        let mut out = String::new();
        out.append("ID: ");
        let ids = usize_to_string(self.id.0);
        out.append(ids.as_str());
        out.append("\nX Offset: ");
        let xs = i32_to_string(self.x_offset);
        out.append(xs.as_str());
        out.append("\nY Offset: ");
        let ys = i32_to_string(self.y_offset);
        out.append(ys.as_str());
        out.append("\nDimensions: ");
        let ws = i32_to_string(self.width);
        out.append(ws.as_str());
        out.append("x");
        let hs = i32_to_string(self.height);
        out.append(hs.as_str());
        out.append("\nClass: ");
        out.append(self.window_class.as_str());
        out.append("\nTitle: ");
        out.append(self.title.as_str());
        proof {
            assert(int_string_of(self.id.0 as int) == dec_string_of(self.id.0 as int));
            assert(out@ =~= spec_window_display(self@));
        }
        out
    }
}

/// The class filter: discard the window manager's "not applicable" surfaces,
/// the desktop background, and windows whose y offset is not positive.
pub open spec fn keep_window(w: WindowV) -> bool {
    &&& w.window_class != "N/A"@
    &&& w.window_class != "nemo-desktop.Nemo-desktop"@
    &&& w.y_offset > 0
}

/// Every non-empty line parses as a window descriptor.
pub open spec fn all_window_lines_parse(lines: Seq<Seq<char>>) -> bool {
    forall|i: int|
        0 <= i < lines.len() ==> (#[trigger] lines[i]).len() == 0 || spec_window_of(lines[i])
            is Some
}

/// The windows that the non-empty lines yield, in order, after the class and
/// offset filter.
pub open spec fn spec_windows_list(lines: Seq<Seq<char>>) -> Seq<WindowV>
    decreases lines.len(),
{
    if lines.len() == 0 {
        Seq::empty()
    } else {
        let rest = spec_windows_list(lines.drop_last());
        let line = lines.last();
        if line.len() == 0 {
            rest
        } else {
            match spec_window_of(line) {
                Some(w) => if keep_window(w) {
                    rest.push(w)
                } else {
                    rest
                },
                None => rest,
            }
        }
    }
}

/// Parses the window manager's newline-separated window listing, skipping
/// blank lines and filtering out non-application surfaces.
pub fn parse_windows_config(windows_config: &str) -> (r: Result<Vec<Window>, FocusError>)
    ensures
        match r {
            Ok(ws) => {
                &&& all_window_lines_parse(spec_split(windows_config@, '\n'))
                &&& window_views(ws@) == spec_windows_list(spec_split(windows_config@, '\n'))
            },
            Err(e) => {
                let lines = spec_split(windows_config@, '\n');
                &&& !all_window_lines_parse(lines)
                &&& e matches FocusError::MalformedWindowConfig(t) && exists|i: int|
                    {
                        &&& 0 <= i < lines.len()
                        &&& t@ == lines[i]
                        &&& lines[i].len() > 0
                        &&& spec_window_of(lines[i]) is None
                        &&& forall|j: int|
                            0 <= j < i ==> (#[trigger] lines[j]).len() == 0 || spec_window_of(
                                lines[j],
                            ) is Some
                    }
            },
        },
{
    let ghost lines = spec_split(windows_config@, '\n');
    let split_lines = split_on(windows_config, '\n');
    let mut windows: Vec<Window> = Vec::new();
    let n = split_lines.len();
    proof {
        assert(lines.subrange(0, 0) =~= Seq::<Seq<char>>::empty());
    }
    let mut i: usize = 0;
    while i < n
        invariant
            n == split_lines@.len(),
            views_of(split_lines@) == lines,
            lines == spec_split(windows_config@, '\n'),
            0 <= i <= n,
            window_views(windows@) == spec_windows_list(lines.subrange(0, i as int)),
            forall|j: int|
                0 <= j < i ==> (#[trigger] lines[j]).len() == 0 || spec_window_of(lines[j])
                    is Some,
        decreases n - i,
    {
        proof {
            assert(views_of(split_lines@)[i as int] == split_lines@[i as int]@);
            assert(lines.subrange(0, i + 1).drop_last() =~= lines.subrange(0, i as int));
            assert(lines.subrange(0, i + 1).last() == lines[i as int]);
        }
        let line = &split_lines[i];
        if !line.as_str().is_empty() {
            match Window::from_raw_config(line.as_str()) {
                Ok(w) => {
                    let keep = !str_eq(w.window_class.as_str(), "N/A") && !str_eq(
                        w.window_class.as_str(),
                        "nemo-desktop.Nemo-desktop",
                    ) && w.y_offset > 0;
                    let ghost old_ws = windows@;
                    if keep {
                        windows.push(w);
                        proof {
                            assert(window_views(windows@) =~= window_views(old_ws).push(w@));
                        }
                    }
                },
                Err(e) => {
                    return Err(e);
                },
            }
        }
        i += 1;
    }
    proof {
        assert(lines.subrange(0, n as int) =~= lines);
    }
    Ok(windows)
}

} // verus!
