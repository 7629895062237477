//! Where a view starts after a scroll, and the passes over the document
//! that lay out lines the screen does not show.
//!
//! Laying out lines off the screen runs the whole pipeline of the view;
//! the functions here say what to ask of such a pass and what to make of
//! the line offsets it gives back.

use vstd::prelude::*;

use crate::screen::screen::Screen;

verus! {

/// What a change of the view's start comes to: the start stays, it moves
/// to `offset`, or the line offsets of the document from `start_offset` to
/// `end_offset`, laid out on a screen of `width` by `height`, are needed
/// first.
#[derive(Debug, Clone, Copy, PartialEq, Eq, Structural)]
pub enum ViewStart {
    Keep,
    StartAt { offset: u64 },
    NeedLines { start_offset: u64, end_offset: u64, width: usize, height: usize },
}

/// The first offset recorded in the first cell of a line of the screen,
/// from line `j` on, that lies after `start`.
pub open spec fn first_start_after(s: Screen, start: u64, j: int) -> Option<u64>
    decreases s.spec_height() - j,
{
    if j < 0 || j >= s.spec_height() {
        None
    } else {
        match s.cell_xy(0, j).cpi.offset {
            Some(o) => if o > start {
                Some(o)
            } else {
                first_start_after(s, start, j + 1)
            },
            None => first_start_after(s, start, j + 1),
        }
    }
}

/// Where the view starts after a scroll of `nb_lines` lines down: nothing
/// moves for no line or when the screen shows the end of the document;
/// past the screen's height the lines are laid out from the view's start
/// over four bytes per cell of the lines to skip (at most to
/// `max_offset`), on a screen 32 lines taller; otherwise the view starts
/// at the first line from line `nb_lines` on that starts after it.
pub open spec fn scroll_down_start(s: Screen, start_offset: u64, max_offset: u64, nb_lines: usize) -> ViewStart {
    let h = s.spec_height();
    let w = s.spec_width();
    if nb_lines == 0 || s.has_eof {
        ViewStart::Keep
    } else if nb_lines >= h {
        let end = start_offset + 4 * nb_lines * w;
        ViewStart::NeedLines {
            start_offset,
            end_offset: if end < max_offset {
                end as u64
            } else {
                max_offset
            },
            width: w as usize,
            height: (h + 32) as usize,
        }
    } else {
        match first_start_after(s, start_offset, nb_lines as int) {
            Some(o) => ViewStart::StartAt { offset: o },
            None => ViewStart::Keep,
        }
    }
}

/// Where the view that starts at `start_offset` starts after a scroll of
/// `nb_lines` lines down (see `scroll_down_start`).
pub fn scroll_view_down(screen: &Screen, start_offset: u64, max_offset: u64, nb_lines: usize) -> (r: ViewStart)
    requires
        screen.wf(),
        nb_lines >= screen.spec_height() && nb_lines > 0 && !screen.has_eof ==> {
            &&& 4 * nb_lines <= usize::MAX
            &&& 4 * nb_lines * screen.spec_width() <= usize::MAX
            &&& start_offset + 4 * nb_lines * screen.spec_width() <= u64::MAX
            &&& screen.spec_height() + 32 <= usize::MAX
        },
        0 < nb_lines < screen.spec_height() && !screen.has_eof ==> screen.spec_width() > 0,
    ensures
        r == scroll_down_start(*screen, start_offset, max_offset, nb_lines),
        r matches ViewStart::StartAt { offset } ==> offset > start_offset,
        r matches ViewStart::NeedLines { start_offset: s, end_offset: e, .. } ==> s == start_offset && e
            <= max_offset,
{
    if nb_lines == 0 || screen.has_eof() {
        return ViewStart::Keep;
    }
    let h = screen.height();
    let w = screen.width();
    if nb_lines >= h {
        proof {
            assert(4 * nb_lines * w <= usize::MAX);
            assert(0 <= 4 * nb_lines * w) by (nonlinear_arith)
                requires
                    nb_lines >= 0,
                    w >= 0,
            ;
        }
        let skip = (4 * nb_lines * w) as u64;
        let end = start_offset + skip;
        let end_offset = if end < max_offset {
            end
        } else {
            max_offset
        };
        return ViewStart::NeedLines { start_offset, end_offset, width: w, height: h + 32 };
    }
    let mut j: usize = nb_lines;
    while j < h
        invariant
            screen.wf(),
            h == screen.spec_height(),
            w == screen.spec_width(),
            w > 0,
            0 < nb_lines < h,
            !screen.has_eof,
            nb_lines <= j <= h,
            first_start_after(*screen, start_offset, nb_lines as int) == first_start_after(
                *screen,
                start_offset,
                j as int,
            ),
        decreases h - j,
    {
        if let Some(line) = screen.get_line(j) {
            if let Some(cpi) = line.get_first_cpi() {
                if let Some(o) = cpi.offset {
                    if o > start_offset {
                        assert(screen.cell_xy(0, j as int).cpi.offset == Some(o));
                        assert(first_start_after(*screen, start_offset, j as int) == Some(o));
                        return ViewStart::StartAt { offset: o };
                    }
                }
            }
        }
        j = j + 1;
    }
    ViewStart::Keep
}

/// The index of the first of `lines` from index `k` on whose offset range
/// holds `offset`.
pub open spec fn line_holding(lines: Seq<(u64, u64)>, offset: u64, k: int) -> Option<int>
    decreases lines.len() - k,
{
    if k < 0 || k >= lines.len() {
        None
    } else if lines[k].0 <= offset <= lines[k].1 {
        Some(k)
    } else {
        line_holding(lines, offset, k + 1)
    }
}

/// The line a scroll of `nb_lines` lines down starts at, among the lines
/// laid out from the view's start: `nb_lines` lines after the one holding
/// the start (at most the last line), or the first line when none holds it.
pub open spec fn scroll_down_line(lines: Seq<(u64, u64)>, start_offset: u64, nb_lines: usize) -> int {
    match line_holding(lines, start_offset, 0) {
        None => 0,
        Some(i) => if i + nb_lines < lines.len() - 1 {
            i + nb_lines
        } else {
            lines.len() - 1
        },
    }
}

/// Where the view starts after a scroll of `nb_lines` lines down, from the
/// lines laid out off the screen (see `scroll_down_line`).
pub fn scroll_down_view_off_screen(lines: &Vec<(u64, u64)>, start_offset: u64, nb_lines: usize) -> (r: u64)
    requires
        lines@.len() >= 1,
    ensures
        r == lines@[scroll_down_line(lines@, start_offset, nb_lines)].0,
{
    let n = lines.len();
    let mut k: usize = 0;
    while k < n
        invariant
            n == lines@.len(),
            0 <= k <= n,
            line_holding(lines@, start_offset, 0) == line_holding(lines@, start_offset, k as int),
        decreases n - k,
    {
        let (a, b) = lines[k];
        if a <= start_offset && start_offset <= b {
            let index = if nb_lines < n - 1 - k {
                k + nb_lines
            } else {
                n - 1
            };
            return lines[index].0;
        }
        k = k + 1;
    }
    lines[0].0
}

/// What moving `offset` back by lines asks for: a rewind of four bytes per
/// cell of the screen; when that reaches within one screen line of the
/// offset, the document's start; otherwise the lines from the rewound
/// offset to `offset`.
pub open spec fn previous_line_request(offset: u64, width: usize, height: usize) -> ViewStart {
    let rewind = 4 * width * height;
    let start = if offset >= rewind {
        offset - rewind
    } else {
        0
    };
    if offset - start <= width {
        ViewStart::StartAt { offset: 0 }
    } else {
        ViewStart::NeedLines { start_offset: start as u64, end_offset: offset, width, height }
    }
}

/// Moving `offset` back by lines on a screen of `width` by `height`: what
/// is needed first (see `previous_line_request`).
pub fn move_offset_to_previous_line_index(offset: u64, width: usize, height: usize) -> (r: ViewStart)
    requires
        4 * width * height <= usize::MAX,
    ensures
        r == previous_line_request(offset, width, height),
        r matches ViewStart::NeedLines { start_offset, end_offset, .. } ==> start_offset < end_offset
            && end_offset == offset,
{
    proof {
        assert(0 <= width * height) by (nonlinear_arith)
            requires
                width >= 0,
                height >= 0,
        ;
        assert(4 * width * height == 4 * (width * height)) by (nonlinear_arith);
    }
    let cells = width * height;
    let rewind = (4 * cells) as u64;
    let start_offset = offset.saturating_sub(rewind);
    if offset - start_offset <= width as u64 {
        return ViewStart::StartAt { offset: 0 };
    }
    ViewStart::NeedLines { start_offset, end_offset: offset, width, height }
}

/// The start of the line `line_index` lines before the last of `lines`
/// (the first line when there are not that many).
pub open spec fn previous_line_start(lines: Seq<(u64, u64)>, line_index: usize) -> u64 {
    let index = if line_index < lines.len() - 1 {
        lines.len() - (line_index + 1)
    } else {
        0
    };
    lines[index].0
}

/// Where an offset goes back to by `line_index` lines, from the lines laid
/// out up to it (see `previous_line_start`).
pub fn previous_line_index_start(lines: &Vec<(u64, u64)>, line_index: usize) -> (r: u64)
    requires
        lines@.len() >= 1,
    ensures
        r == previous_line_start(lines@, line_index),
{
    let n = lines.len();
    let index = if line_index < n - 1 {
        n - (line_index + 1)
    } else {
        0
    };
    lines[index].0
}

/// The screen the passes that lay out lines fill: at least one column and
/// four lines.
pub fn lines_screen_dimension(width: usize, height: usize) -> (d: (usize, usize))
    ensures
        d.0 == if width > 1 {
            width
        } else {
            1
        },
        d.1 == if height > 4 {
            height
        } else {
            4
        },
{
    let w = if width > 1 {
        width
    } else {
        1
    };
    let h = if height > 4 {
        height
    } else {
        4
    };
    (w, h)
}

/// What comes after a pass that laid out lines until `end_offset` on
/// `screen`: no further pass once the screen holds the offset before the
/// end, shows the end of the document or received nothing; otherwise a
/// pass from the offset after the last cell of its last used line.
pub open spec fn next_lines_pass_start(s: Screen, end_offset: u64) -> Option<u64> {
    let target = if end_offset >= 1 {
        (end_offset - 1) as u64
    } else {
        0
    };
    if s.offset_in_range(target) || s.has_eof || s.push_count == 0 {
        None
    } else {
        let i0 = s.spec_last_used_line_index();
        let i = if s.line@[i0].nb_cells == 0 && i0 > 1 {
            i0 - 1
        } else {
            i0
        };
        let line = s.line@[i];
        Some((line.cell_at(line.nb_cells - 1).cpi.offset->0 + 1) as u64)
    }
}

/// The start of the next pass that lays out lines until `end_offset`,
/// after one that filled `screen` (see `next_lines_pass_start`).
pub fn next_lines_pass(screen: &Screen, end_offset: u64) -> (r: Option<u64>)
    requires
        screen.wf(),
        ({
            let target = if end_offset >= 1 {
                (end_offset - 1) as u64
            } else {
                0
            };
            screen.offset_in_range(target) ==> screen.lines_sorted() && exists|i: int|
                screen.line_holds_offset(i, target)
        }),
        screen.push_count > 0 ==> screen.spec_last_used_line_index() >= 0
            && screen.spec_last_used_line_index() < screen.line@.len(),
        screen.push_count > 0 ==> ({
            let i0 = screen.spec_last_used_line_index();
            let i = if screen.line@[i0].nb_cells == 0 && i0 > 1 {
                i0 - 1
            } else {
                i0
            };
            let line = screen.line@[i];
            &&& line.nb_cells > 0
            &&& line.cell_at(line.nb_cells - 1).cpi.offset is Some
            &&& line.cell_at(line.nb_cells - 1).cpi.offset->0 < u64::MAX
        }),
    ensures
        r == next_lines_pass_start(*screen, end_offset),
{
    let target = end_offset.saturating_sub(1);
    if screen.contains_offset(target) {
        return None;
    }
    if screen.has_eof() {
        return None;
    }
    if screen.push_count() == 0 {
        return None;
    }
    let line = screen.get_last_used_line().unwrap();
    let cpi = line.get_last_cpi().unwrap();
    Some(1 + cpi.offset.unwrap())
}

} // verus!
