//! Shows the marks on the screen: the cells of a mark in inverse video,
//! and the lines that hold a mark with a lighter background.

use vstd::prelude::*;

use super::text_mode::TextModeContext;
use crate::codec::TextCodec;
use crate::codepointinfo::{CodepointInfo, TextStyle};
use crate::mark::Mark;
use crate::screen::line::LineCell;
use crate::screen::screen::Screen;
use crate::view::layout::LayoutEnv;

verus! {

/// The first mark, from `i` on, that is not before `offset`.
pub open spec fn first_mark_from(marks: Seq<Mark>, i: int, offset: u64) -> int
    decreases marks.len() - i,
{
    if i < 0 || i >= marks.len() || marks[i].offset >= offset {
        i
    } else {
        first_mark_from(marks, i + 1, offset)
    }
}

/// The first mark, from `i` on, that is after `offset`.
pub open spec fn next_mark_after(marks: Seq<Mark>, i: int, offset: u64) -> int
    decreases marks.len() - i,
{
    if i < 0 || i >= marks.len() || marks[i].offset > offset {
        i
    } else {
        next_mark_after(marks, i + 1, offset)
    }
}

/// The current mark and whether the walk stopped, once the used cell `c`
/// was visited with mark `idx` current.
pub open spec fn mark_visit(marks: Seq<Mark>, last: u64, doc_max: u64, idx: int, c: CodepointInfo) -> (
    int,
    bool,
) {
    match c.offset {
        None => (idx, false),
        Some(o) => if !(0 <= idx < marks.len()) || marks[idx].offset > last {
            (idx, true)
        } else if o == marks[idx].offset {
            (idx, c.cp != '\n' && o > doc_max)
        } else {
            let j = next_mark_after(marks, idx, o);
            (j, j >= marks.len())
        },
    }
}

/// The used cell `c`, visited with mark `idx` current, is the cell of that
/// mark.
pub open spec fn mark_hit(marks: Seq<Mark>, last: u64, idx: int, c: CodepointInfo) -> bool {
    c.offset matches Some(o) && 0 <= idx < marks.len() && marks[idx].offset <= last && o
        == marks[idx].offset
}

/// The current mark and whether the walk stopped before the used cell `x`
/// of line `l` of the clipping rectangle, the walk starting at mark `start`.
pub open spec fn mark_state(s: Screen, marks: Seq<Mark>, start: int, l: int, x: int) -> (int, bool)
    decreases l, x,
{
    if x > 0 {
        let p = mark_state(s, marks, start, l, x - 1);
        if p.1 {
            p
        } else {
            mark_visit(marks, s.last_offset->0, s.doc_max_offset, p.0, s.cell_xy(x - 1, l).cpi)
        }
    } else if l > 0 {
        mark_state(s, marks, start, l - 1, s.line@[s.row(l - 1)].nb_cells as int)
    } else {
        (start, false)
    }
}

/// The used cell `x` of line `l` shows a mark.
pub open spec fn mark_shown(s: Screen, marks: Seq<Mark>, start: int, l: int, x: int) -> bool {
    let p = mark_state(s, marks, start, l, x);
    !p.1 && mark_hit(marks, s.last_offset->0, p.0, s.cell_xy(x, l).cpi)
}

/// Line `l` shows a mark.
pub open spec fn line_shows_mark(s: Screen, marks: Seq<Mark>, start: int, l: int) -> bool {
    exists|x: int| 0 <= x < s.line@[s.row(l)].nb_cells && mark_shown(s, marks, start, l, x)
}

/// The marks are drawn: there is something to draw when the screen
/// records its first and last offsets and a mark lies between them.
pub open spec fn marks_walked(s: Screen, marks: Seq<Mark>) -> bool {
    s.first_offset is Some && s.last_offset is Some && {
        let i = first_mark_from(marks, 0, s.first_offset->0);
        i < marks.len() && marks[i].offset <= s.last_offset->0
    }
}

/// A cell shown in inverse video.
pub open spec fn inverse_cell(c: LineCell, inverse: bool) -> LineCell {
    LineCell { cpi: CodepointInfo { style: TextStyle { is_inverse: inverse, ..c.cpi.style }, ..c.cpi }, ..c }
}

/// A cell of a line that holds a mark: its background lighter unless it is
/// selected.
pub open spec fn mark_line_cell(c: LineCell) -> LineCell {
    if c.cpi.style.is_selected {
        c
    } else {
        LineCell {
            cpi: CodepointInfo {
                style: TextStyle { bg_color: TextStyle::spec_default_mark_line_bg_color(), ..c.cpi.style },
                ..c.cpi
            },
            ..c
        }
    }
}

/// What cell `k` of row `r` of `o` becomes once the marks are drawn.
pub open spec fn marked_cell(o: Screen, marks: Seq<Mark>, set: bool, r: int, k: int) -> LineCell {
    let b = o.line@[r];
    let c = b.cells@[k];
    let in_clip = o.clip.y <= r < o.clip.height;
    let used = b.start_index <= k < b.start_index + b.nb_cells;
    if !set {
        if in_clip && used {
            inverse_cell(c, false)
        } else {
            c
        }
    } else if !marks_walked(o, marks) {
        c
    } else {
        let start = first_mark_from(marks, 0, o.first_offset->0);
        let l = r - o.clip.y;
        let c1 = if in_clip && used && mark_shown(o, marks, start, l, k - b.start_index) {
            inverse_cell(c, true)
        } else {
            c
        };
        if in_clip && line_shows_mark(o, marks, start, l) {
            mark_line_cell(c1)
        } else {
            c1
        }
    }
}

/// `f` is `o` once the marks were drawn (see `marked_cell`).
pub open spec fn marks_drawn(o: Screen, f: Screen, marks: Seq<Mark>, set: bool) -> bool {
    &&& f.wf()
    &&& f.same_but_lines(o)
    &&& forall|r: int|
        0 <= r < o.max_height ==> {
            let a = #[trigger] f.line@[r];
            let b = o.line@[r];
            &&& a.same_layout(b)
            &&& a.cells@.len() == b.cells@.len()
            &&& forall|k: int|
                0 <= k < b.cells@.len() ==> #[trigger] a.cells@[k] == marked_cell(o, marks, set, r, k)
        }
}

proof fn lemma_mark_stopped_persists(s: Screen, marks: Seq<Mark>, start: int, l: int, c: int, l2: int, x2: int)
    requires
        0 <= l,
        0 <= c,
        0 <= x2,
        c <= s.line@[s.row(l)].nb_cells,
        mark_state(s, marks, start, l, c).1,
        l < l2 || (l == l2 && c <= x2),
    ensures
        mark_state(s, marks, start, l2, x2) == mark_state(s, marks, start, l, c),
        !mark_shown(s, marks, start, l2, x2),
    decreases l2, x2,
{
    if l2 == l && x2 == c {
    } else if x2 > 0 {
        lemma_mark_stopped_persists(s, marks, start, l, c, l2, x2 - 1);
    } else {
        if l2 - 1 > l || s.line@[s.row(l2 - 1)].nb_cells >= c {
            lemma_mark_stopped_persists(s, marks, start, l, c, l2 - 1, s.line@[s.row(l2 - 1)].nb_cells as int);
        }
    }
}

/// Clears the inverse video of the used cells of the clipping rectangle.
fn clear_marks(screen: &mut Screen, marks: &Vec<Mark>)
    requires
        old(screen).wf(),
    ensures
        marks_drawn(*old(screen), *final(screen), marks@, false),
{
    let ghost o = *screen;
    let h = screen.height();
    let mut l: usize = 0;
    while l < h
        invariant
            h == o.spec_height(),
            o.wf(),
            0 <= l <= h,
            screen.wf(),
            screen.same_but_lines(o),
            forall|r: int|
                0 <= r < o.max_height ==> {
                    let a = #[trigger] screen.line@[r];
                    let b = o.line@[r];
                    &&& a.same_layout(b)
                    &&& a.cells@.len() == b.cells@.len()
                    &&& forall|k: int|
                        0 <= k < b.cells@.len() ==> #[trigger] a.cells@[k] == if o.clip.y <= r
                            < o.clip.y + l && b.start_index <= k < b.start_index + b.nb_cells {
                            inverse_cell(b.cells@[k], false)
                        } else {
                            b.cells@[k]
                        }
                },
        decreases h - l,
    {
        let ghost s0 = *screen;
        let ghost row = o.clip.y + l;
        let ghost lo = o.line@[row];
        let line = screen.get_line_mut(l).unwrap();
        let n = line.nb_cells;
        let mut c: usize = 0;
        assert(line.cells@ =~= lo.cells@);
        while c < n
            invariant
                n == lo.nb_cells,
                lo == o.line@[row],
                row == o.row(l as int),
                l < h,
                o.wf(),
                h == o.spec_height(),
                0 <= c <= n,
                line.wf(),
                line.same_layout(lo),
                line.cells@.len() == lo.cells@.len(),
                forall|k: int|
                    0 <= k < lo.cells@.len() ==> #[trigger] line.cells@[k] == if lo.start_index <= k
                        < lo.start_index + c {
                        inverse_cell(lo.cells@[k], false)
                    } else {
                        lo.cells@[k]
                    },
            decreases n - c,
        {
            let k = line.start_index + c;
            let mut cell = line.cells[k];
            cell.cpi.style.is_inverse = false;
            line.cells.set(k, cell);
            c = c + 1;
        }
        proof {
            assert forall|r: int| 0 <= r < o.max_height && r != row implies screen.line@[r]
                == s0.line@[r] by {}
        }
        l = l + 1;
    }
}

/// Walks the used cells of the clipping rectangle from mark `start`,
/// shows the marks in inverse video and returns the lines that hold one,
/// in increasing order.
fn walk_marks(screen: &mut Screen, marks: &Vec<Mark>, start: usize) -> (lines: Vec<usize>)
    requires
        old(screen).wf(),
        old(screen).last_offset is Some,
        start < marks@.len(),
    ensures
        final(screen).wf(),
        final(screen).same_but_lines(*old(screen)),
        forall|r: int|
            0 <= r < old(screen).max_height ==> {
                let a = #[trigger] final(screen).line@[r];
                let b = old(screen).line@[r];
                &&& a.same_layout(b)
                &&& a.cells@.len() == b.cells@.len()
                &&& forall|k: int|
                    0 <= k < b.cells@.len() ==> #[trigger] a.cells@[k] == if old(screen).clip.y <= r
                        < old(screen).clip.height && b.start_index <= k < b.start_index + b.nb_cells
                        && mark_shown(
                        *old(screen),
                        marks@,
                        start as int,
                        r - old(screen).clip.y,
                        k - b.start_index,
                    ) {
                        inverse_cell(b.cells@[k], true)
                    } else {
                        b.cells@[k]
                    }
            },
        forall|i: int, j: int| 0 <= i < j < lines@.len() ==> lines@[i] < lines@[j],
        forall|i: int| 0 <= i < lines@.len() ==> lines@[i] < old(screen).spec_height(),
        forall|l: int|
            0 <= l < old(screen).spec_height() ==> (lines@.contains(l as usize) <==> line_shows_mark(
                *old(screen),
                marks@,
                start as int,
                l,
            )),
{
    let ghost o = *screen;
    let last_offset = match screen.last_offset {
        Some(x) => x,
        None => 0,
    };
    let doc_max_offset = screen.doc_max_offset;
    let idx_max = marks.len();
    let mut idx = start;
    let mut lines: Vec<usize> = Vec::new();
    let h = screen.height();
    let mut l: usize = 0;
    let mut stop = false;
    while l < h && !stop
        invariant
            h == o.spec_height(),
            o.wf(),
            0 <= l <= h,
            idx_max == marks@.len(),
            last_offset == o.last_offset->0,
            doc_max_offset == o.doc_max_offset,
            screen.wf(),
            screen.same_but_lines(o),
            (idx as int, stop) == mark_state(o, marks@, start as int, l as int, 0),
            stop ==> forall|l2: int, x: int| l <= l2 && 0 <= x ==> !mark_shown(o, marks@, start as int, l2, x),
            forall|i: int, j: int| 0 <= i < j < lines@.len() ==> lines@[i] < lines@[j],
            forall|i: int| 0 <= i < lines@.len() ==> lines@[i] < l,
            forall|l2: int|
                0 <= l2 < l ==> (lines@.contains(l2 as usize) <==> line_shows_mark(
                    o,
                    marks@,
                    start as int,
                    l2,
                )),
            forall|r: int|
                0 <= r < o.max_height ==> {
                    let a = #[trigger] screen.line@[r];
                    let b = o.line@[r];
                    &&& a.same_layout(b)
                    &&& a.cells@.len() == b.cells@.len()
                    &&& forall|k: int|
                        0 <= k < b.cells@.len() ==> #[trigger] a.cells@[k] == if o.clip.y <= r
                            < o.clip.y + l && b.start_index <= k < b.start_index + b.nb_cells
                            && mark_shown(o, marks@, start as int, r - o.clip.y, k - b.start_index) {
                            inverse_cell(b.cells@[k], true)
                        } else {
                            b.cells@[k]
                        }
                },
        decreases h - l,
    {
        let ghost s0 = *screen;
        let ghost row = o.clip.y + l;
        let ghost lo = o.line@[row];
        let ghost lines0 = lines@;
        let line = screen.get_line_mut(l).unwrap();
        let n = line.nb_cells;
        let mut c: usize = 0;
        let mut found = false;
        assert(line.cells@ =~= lo.cells@);
        while c < n && !stop
            invariant
                n == lo.nb_cells,
                lo == o.line@[row],
                row == o.row(l as int),
                l < h,
                h == o.spec_height(),
                o.wf(),
                0 <= c <= n,
                line.wf(),
                line.same_layout(lo),
                line.cells@.len() == lo.cells@.len(),
                idx_max == marks@.len(),
                last_offset == o.last_offset->0,
                doc_max_offset == o.doc_max_offset,
                (idx as int, stop) == mark_state(o, marks@, start as int, l as int, c as int),
                found <==> exists|x: int| 0 <= x < c && mark_shown(o, marks@, start as int, l as int, x),
                lines@ == if found {
                    lines0.push(l)
                } else {
                    lines0
                },
                forall|k: int|
                    0 <= k < lo.cells@.len() ==> #[trigger] line.cells@[k] == if lo.start_index <= k
                        < lo.start_index + c && mark_shown(
                        o,
                        marks@,
                        start as int,
                        l as int,
                        k - lo.start_index,
                    ) {
                        inverse_cell(lo.cells@[k], true)
                    } else {
                        lo.cells@[k]
                    },
            decreases n - c,
        {
            let k = line.start_index + c;
            let cell = line.cells[k];
            assert(cell == o.cell_xy(c as int, l as int));
            let ghost before = mark_state(o, marks@, start as int, l as int, c as int);
            let mut shown = false;
            if let Some(offset) = cell.cpi.offset {
                if idx >= idx_max || marks[idx].offset > last_offset {
                    stop = true;
                } else if offset == marks[idx].offset {
                    shown = true;
                    if cell.cpi.cp != '\n' && offset > doc_max_offset {
                        stop = true;
                    }
                } else {
                    let ghost i0 = idx as int;
                    let mut after = false;
                    while idx < idx_max && !after
                        invariant
                            idx_max == marks@.len(),
                            i0 <= idx <= idx_max,
                            i0 >= 0,
                            next_mark_after(marks@, idx as int, offset) == next_mark_after(
                                marks@,
                                i0,
                                offset,
                            ),
                            after ==> idx < idx_max && marks@[idx as int].offset > offset,
                        decreases idx_max - idx + if after {
                            0int
                        } else {
                            1int
                        },
                    {
                        if marks[idx].offset > offset {
                            after = true;
                        } else {
                            idx = idx + 1;
                        }
                    }
                    if idx == idx_max {
                        stop = true;
                    }
                }
            }
            if shown {
                let mut nc = cell;
                nc.cpi.style.is_inverse = true;
                line.cells.set(k, nc);
                if !found {
                    lines.push(l);
                    found = true;
                }
            }
            proof {
                assert(shown == mark_shown(o, marks@, start as int, l as int, c as int));
            }
            c = c + 1;
        }
        proof {
            if stop {
                assert forall|l2: int, x: int| l + 1 <= l2 && 0 <= x implies !mark_shown(
                    o,
                    marks@,
                    start as int,
                    l2,
                    x,
                ) by {
                    lemma_mark_stopped_persists(o, marks@, start as int, l as int, c as int, l2, x);
                }
            }
            if c == n {
                assert(mark_state(o, marks@, start as int, l + 1, 0) == mark_state(
                    o,
                    marks@,
                    start as int,
                    l as int,
                    n as int,
                ));
            } else {
                lemma_mark_stopped_persists(o, marks@, start as int, l as int, c as int, l + 1, 0);
            }
            assert(found <==> line_shows_mark(o, marks@, start as int, l as int)) by {
                if line_shows_mark(o, marks@, start as int, l as int) && !found {
                    let x = choose|x: int| 0 <= x < n && mark_shown(o, marks@, start as int, l as int, x);
                    if x >= c {
                        lemma_mark_stopped_persists(o, marks@, start as int, l as int, c as int, l as int, x);
                    }
                }
            }
            assert forall|l2: int| 0 <= l2 < l + 1 implies (lines@.contains(l2 as usize) <==> line_shows_mark(
                o,
                marks@,
                start as int,
                l2,
            )) by {
                if l2 < l {
                    if lines@.contains(l2 as usize) && found {
                        let i = choose|i: int| 0 <= i < lines@.len() && lines@[i] == l2 as usize;
                        assert(i < lines0.len());
                        assert(lines0[i] == l2);
                    }
                    if lines0.contains(l2 as usize) {
                        let i = choose|i: int| 0 <= i < lines0.len() && lines0[i] == l2 as usize;
                        assert(lines@[i] == l2);
                    }
                } else {
                    if found {
                        assert(lines@[lines@.len() - 1] == l);
                    } else {
                        if lines@.contains(l2 as usize) {
                            let i = choose|i: int| 0 <= i < lines@.len() && lines@[i] == l2 as usize;
                            assert(lines0[i] < l);
                        }
                    }
                }
            }
            assert forall|r: int| 0 <= r < o.max_height implies {
                let a = #[trigger] screen.line@[r];
                let b = o.line@[r];
                &&& a.same_layout(b)
                &&& a.cells@.len() == b.cells@.len()
                &&& forall|k: int|
                    0 <= k < b.cells@.len() ==> #[trigger] a.cells@[k] == if o.clip.y <= r < o.clip.y
                        + l + 1 && b.start_index <= k < b.start_index + b.nb_cells && mark_shown(
                        o,
                        marks@,
                        start as int,
                        r - o.clip.y,
                        k - b.start_index,
                    ) {
                        inverse_cell(b.cells@[k], true)
                    } else {
                        b.cells@[k]
                    }
            } by {
                if r != row {
                    assert(screen.line@[r] == s0.line@[r]);
                } else {
                    assert forall|k: int| 0 <= k < lo.cells@.len() implies #[trigger] screen.line@[
                        r].cells@[k] == if lo.start_index <= k < lo.start_index + lo.nb_cells
                        && mark_shown(o, marks@, start as int, l as int, k - lo.start_index) {
                        inverse_cell(lo.cells@[k], true)
                    } else {
                        lo.cells@[k]
                    } by {
                        if lo.start_index + c <= k < lo.start_index + lo.nb_cells {
                            lemma_mark_stopped_persists(
                                o,
                                marks@,
                                start as int,
                                l as int,
                                c as int,
                                l as int,
                                k - lo.start_index,
                            );
                        }
                    }
                }
            }
        }
        l = l + 1;
    }
    proof {
        assert forall|l2: int| 0 <= l2 < h implies (lines@.contains(l2 as usize) <==> line_shows_mark(
            o,
            marks@,
            start as int,
            l2,
        )) by {
            if l2 >= l {
                if line_shows_mark(o, marks@, start as int, l2) {
                    let x = choose|x: int| 0 <= x < o.line@[o.row(l2)].nb_cells && mark_shown(o, marks@, start as int, l2, x);
                }
                if lines@.contains(l2 as usize) {
                    let i = choose|i: int| 0 <= i < lines@.len() && lines@[i] == l2 as usize;
                }
            }
        }
    }
    lines
}

/// Gives the lines of the clipping rectangle listed in `lines` a lighter
/// background, but for their selected cells.
fn paint_mark_lines(screen: &mut Screen, lines: &Vec<usize>)
    requires
        old(screen).wf(),
        forall|i: int, j: int| 0 <= i < j < lines@.len() ==> lines@[i] < lines@[j],
        forall|i: int| 0 <= i < lines@.len() ==> lines@[i] < old(screen).spec_height(),
    ensures
        final(screen).wf(),
        final(screen).same_but_lines(*old(screen)),
        forall|r: int|
            0 <= r < old(screen).max_height ==> {
                let a = #[trigger] final(screen).line@[r];
                let b = old(screen).line@[r];
                &&& a.same_layout(b)
                &&& a.cells@.len() == b.cells@.len()
                &&& forall|k: int|
                    0 <= k < b.cells@.len() ==> #[trigger] a.cells@[k] == if old(screen).clip.y <= r
                        < old(screen).clip.height && lines@.contains((r - old(screen).clip.y) as usize) {
                        mark_line_cell(b.cells@[k])
                    } else {
                        b.cells@[k]
                    }
            },
{
    let ghost o = *screen;
    let m = lines.len();
    let mut i: usize = 0;
    while i < m
        invariant
            m == lines@.len(),
            0 <= i <= m,
            o.wf(),
            forall|a: int, b: int| 0 <= a < b < lines@.len() ==> lines@[a] < lines@[b],
            forall|a: int| 0 <= a < lines@.len() ==> lines@[a] < o.spec_height(),
            screen.wf(),
            screen.same_but_lines(o),
            forall|r: int|
                0 <= r < o.max_height ==> {
                    let a = #[trigger] screen.line@[r];
                    let b = o.line@[r];
                    &&& a.same_layout(b)
                    &&& a.cells@.len() == b.cells@.len()
                    &&& forall|k: int|
                        0 <= k < b.cells@.len() ==> #[trigger] a.cells@[k] == if o.clip.y <= r
                            < o.clip.height && lines@.take(i as int).contains(
                            (r - o.clip.y) as usize,
                        ) {
                            mark_line_cell(b.cells@[k])
                        } else {
                            b.cells@[k]
                        }
                },
        decreases m - i,
    {
        let l = lines[i];
        let ghost s0 = *screen;
        let ghost row = o.clip.y + l;
        let ghost lo = o.line@[row];
        proof {
            assert(!lines@.take(i as int).contains(l)) by {
                if lines@.take(i as int).contains(l) {
                    let j = choose|j: int| 0 <= j < i && lines@.take(i as int)[j] == l;
                    assert(lines@[j] < lines@[i as int]);
                }
            }
        }
        let line = screen.get_line_mut(l).unwrap();
        assert(line.cells@ =~= lo.cells@);
        let n = line.cells.len();
        let mut k: usize = 0;
        while k < n
            invariant
                n == lo.cells@.len(),
                lo == o.line@[row],
                line.wf(),
                line.same_layout(lo),
                line.cells@.len() == lo.cells@.len(),
                0 <= k <= n,
                forall|q: int|
                    0 <= q < lo.cells@.len() ==> #[trigger] line.cells@[q] == if q < k {
                        mark_line_cell(lo.cells@[q])
                    } else {
                        lo.cells@[q]
                    },
            decreases n - k,
        {
            let cell = line.cells[k];
            if !cell.cpi.style.is_selected {
                let mut nc = cell;
                nc.cpi.style.bg_color = TextStyle::default_mark_line_bg_color();
                line.cells.set(k, nc);
            }
            k = k + 1;
        }
        proof {
            assert forall|r: int| 0 <= r < o.max_height implies {
                let a = #[trigger] screen.line@[r];
                let b = o.line@[r];
                &&& a.same_layout(b)
                &&& a.cells@.len() == b.cells@.len()
                &&& forall|q: int|
                    0 <= q < b.cells@.len() ==> #[trigger] a.cells@[q] == if o.clip.y <= r
                        < o.clip.height && lines@.take(i + 1).contains((r - o.clip.y) as usize) {
                        mark_line_cell(b.cells@[q])
                    } else {
                        b.cells@[q]
                    }
            } by {
                let t0 = lines@.take(i as int);
                let t1 = lines@.take(i + 1);
                assert(t1 =~= t0.push(l));
                if r != row {
                    assert(screen.line@[r] == s0.line@[r]);
                    if o.clip.y <= r < o.clip.height {
                        assert(t1.contains((r - o.clip.y) as usize) == t0.contains((r - o.clip.y) as usize)) by {
                            if t1.contains((r - o.clip.y) as usize) {
                                let j = choose|j: int| 0 <= j < t1.len() && t1[j] == (r - o.clip.y) as usize;
                                if j < i {
                                    assert(t0[j] == t1[j]);
                                }
                            }
                            if t0.contains((r - o.clip.y) as usize) {
                                let j = choose|j: int| 0 <= j < t0.len() && t0[j] == (r - o.clip.y) as usize;
                                assert(t1[j] == t0[j]);
                            }
                        }
                    }
                } else {
                    assert(t1[i as int] == l);
                }
            }
        }
        i = i + 1;
    }
    assert(lines@.take(m as int) =~= lines@);
}

/// Draws the marks of `marks` on the screen when `set`, else clears the
/// inverse video of its cells (see `marked_cell`).
pub fn refresh_screen_marks(screen: &mut Screen, marks: &Vec<Mark>, set: bool)
    requires
        old(screen).wf(),
    ensures
        marks_drawn(*old(screen), *final(screen), marks@, set),
{
    if !set {
        clear_marks(screen, marks);
        return ;
    }
    let ghost o = *screen;
    let first_offset = match screen.first_offset {
        Some(f) => f,
        None => {
            return ;
        },
    };
    let last_offset = match screen.last_offset {
        Some(l) => l,
        None => {
            return ;
        },
    };
    let idx_max = marks.len();
    let mut idx: usize = 0;
    let mut found = false;
    while idx < idx_max && !found
        invariant
            idx_max == marks@.len(),
            0 <= idx <= idx_max,
            first_mark_from(marks@, idx as int, first_offset) == first_mark_from(marks@, 0, first_offset),
            found ==> idx < idx_max && marks@[idx as int].offset >= first_offset,
        decreases idx_max - idx + if found {
            0int
        } else {
            1int
        },
    {
        if marks[idx].offset < first_offset {
            idx = idx + 1;
        } else {
            found = true;
        }
    }
    if idx < idx_max && marks[idx].offset <= last_offset {
        let lines = walk_marks(screen, marks, idx);
        paint_mark_lines(screen, &lines);
        proof {
            assert forall|l: int| 0 <= l < o.spec_height() implies lines@.contains(l as usize)
                == line_shows_mark(o, marks@, idx as int, l) by {}
        }
    }
}

pub struct DrawMarks {}

impl DrawMarks {
    pub fn new() -> (f: DrawMarks) {
        DrawMarks {  }
    }

    /// Draws the marks of the view, unless the layout is off screen.
    pub fn finish<C: TextCodec>(&mut self, env: &mut LayoutEnv, tm: &TextModeContext<C>)
        requires
            old(env).screen.wf(),
        ensures
            if old(env).screen.is_off_screen {
                final(env).screen == old(env).screen
            } else {
                marks_drawn(old(env).screen, final(env).screen, tm.marks@, true)
            },
            final(env).quit == old(env).quit,
    {
        if env.screen.is_off_screen == true {
            return ;
        }
        let draw_marks = env.screen.is_off_screen == false;
        refresh_screen_marks(&mut env.screen, &tm.marks, draw_marks);
    }
}

} // verus!
