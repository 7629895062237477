//! Paints, on the screen, the cells of the selected ranges.

use vstd::prelude::*;

use super::text_mode::TextModeContext;
use crate::codec::TextCodec;
use crate::codepointinfo::{CodepointInfo, TextStyle};
use crate::screen::line::LineCell;
use crate::screen::screen::Screen;
use crate::sort_tuple_pair;
use crate::view::layout::LayoutEnv;

verus! {

/// From range `idx` on, the first range that does not end before `offset`
/// (or that starts after it).
pub open spec fn sel_skip(sel: Seq<(u64, u64)>, idx: int, offset: u64) -> int
    decreases sel.len() - idx,
{
    if idx < 0 || idx >= sel.len() {
        idx
    } else if offset < sel[idx].0 || offset <= sel[idx].1 {
        idx
    } else {
        sel_skip(sel, idx + 1, offset)
    }
}

/// A cell recording `offset` visited with range `idx` current: the new
/// current range, whether the cell is selected, and whether the walk stops
/// (no range is left).
pub open spec fn sel_visit(sel: Seq<(u64, u64)>, idx: int, offset: Option<u64>) -> (int, bool, bool) {
    match offset {
        None => (idx, false, false),
        Some(o) => {
            let j = sel_skip(sel, idx, o);
            if j >= sel.len() {
                (j, false, true)
            } else {
                (j, sel[j].0 <= o, false)
            }
        },
    }
}

/// The current range and whether the walk stopped, before the used cell
/// `x` of line `l` of the clipping rectangle; the walk goes line by line.
pub open spec fn sel_state(s: Screen, sel: Seq<(u64, u64)>, l: int, x: int) -> (int, bool)
    decreases l, x,
{
    if x > 0 {
        let p = sel_state(s, sel, l, x - 1);
        if p.1 {
            p
        } else {
            let v = sel_visit(sel, p.0, s.cell_xy(x - 1, l).cpi.offset);
            (v.0, v.2)
        }
    } else if l > 0 {
        sel_state(s, sel, l - 1, s.line@[s.row(l - 1)].nb_cells as int)
    } else {
        (0, false)
    }
}

/// The used cell `x` of line `l` is painted.
pub open spec fn sel_painted(s: Screen, sel: Seq<(u64, u64)>, l: int, x: int) -> bool {
    let p = sel_state(s, sel, l, x);
    !p.1 && sel_visit(sel, p.0, s.cell_xy(x, l).cpi.offset).1
}

/// A cell painted as selected.
pub open spec fn selected_cell(c: LineCell) -> LineCell {
    LineCell {
        cpi: CodepointInfo {
            style: TextStyle { bg_color: TextStyle::spec_default_selected_bg_color(), ..c.cpi.style },
            ..c.cpi
        },
        ..c
    }
}

/// `f` is `o` with the cells of the ranges `sel` painted: the used cells
/// of the clipping rectangle are walked line by line, each range in turn;
/// the walk stops once a cell is past the last range.
pub open spec fn selections_drawn(o: Screen, f: Screen, sel: Seq<(u64, u64)>) -> bool {
    &&& f.wf()
    &&& f.same_but_lines(o)
    &&& forall|r: int|
        0 <= r < o.max_height ==> {
            let a = #[trigger] f.line@[r];
            let b = o.line@[r];
            &&& a.same_layout(b)
            &&& a.cells@.len() == b.cells@.len()
            &&& forall|k: int|
                0 <= k < b.cells@.len() ==> #[trigger] a.cells@[k] == if o.clip.y <= r < o.clip.height
                    && b.start_index <= k < b.start_index + b.nb_cells && sel_painted(
                    o,
                    sel,
                    r - o.clip.y,
                    k - b.start_index,
                ) {
                    selected_cell(b.cells@[k])
                } else {
                    b.cells@[k]
                }
        }
}

/// Paints the cells whose offsets lie in one of the ranges `sel` (both
/// ends included), the ranges and the cells taken in order.
pub fn refresh_screen_selections(screen: &mut Screen, sel: &Vec<(u64, u64)>)
    requires
        old(screen).wf(),
    ensures
        selections_drawn(*old(screen), *final(screen), sel@),
{
    let ghost o = *screen;
    let idx_max = sel.len();
    let mut idx: usize = 0;
    if idx_max == 0 {
        proof {
            assert forall|l: int, x: int| 0 <= l && 0 <= x implies !sel_painted(o, sel@, l, x) by {
                lemma_sel_state_bound(o, sel@, l, x);
            }
        }
        return ;
    }
    let h = screen.height();
    let mut l: usize = 0;
    let mut stop = false;
    while l < h && !stop
        invariant
            h == o.spec_height(),
            o.wf(),
            0 <= l <= h,
            idx_max == sel@.len(),
            idx_max > 0,
            screen.wf(),
            screen.same_but_lines(o),
            (idx as int, stop) == sel_state(o, sel@, l as int, 0),
            stop ==> forall|l2: int, x: int| l <= l2 && 0 <= x ==> !sel_painted(o, sel@, l2, x),
            forall|r: int|
                0 <= r < o.max_height ==> {
                    let a = #[trigger] screen.line@[r];
                    let b = o.line@[r];
                    &&& a.same_layout(b)
                    &&& a.cells@.len() == b.cells@.len()
                    &&& forall|k: int|
                        0 <= k < b.cells@.len() ==> #[trigger] a.cells@[k] == if o.clip.y <= r
                            < o.clip.y + l && b.start_index <= k < b.start_index + b.nb_cells
                            && sel_painted(o, sel@, r - o.clip.y, k - b.start_index) {
                            selected_cell(b.cells@[k])
                        } else {
                            b.cells@[k]
                        }
                },
        decreases h - l,
    {
        let ghost s0 = *screen;
        let ghost row = o.clip.y + l;
        let ghost lo = o.line@[row];
        proof {
            lemma_sel_state_bound(o, sel@, l as int, 0);
        }
        let line = screen.get_line_mut(l).unwrap();
        let n = line.nb_cells;
        let mut c: usize = 0;
        assert(line.cells@ =~= lo.cells@);
        while c < n && !stop
            invariant
                n == lo.nb_cells,
                lo == o.line@[row],
                row == o.row(l as int),
                l < h,
                h == o.spec_height(),
                o.wf(),
                0 <= c <= n,
                line.wf(),
                line.same_layout(lo),
                line.cells@.len() == lo.cells@.len(),
                idx_max == sel@.len(),
                (idx as int, stop) == sel_state(o, sel@, l as int, c as int),
                0 <= idx <= idx_max,
                forall|k: int|
                    0 <= k < lo.cells@.len() ==> #[trigger] line.cells@[k] == if lo.start_index <= k
                        < lo.start_index + c && sel_painted(o, sel@, l as int, k - lo.start_index) {
                        selected_cell(lo.cells@[k])
                    } else {
                        lo.cells@[k]
                    },
            decreases n - c,
        {
            let k = line.start_index + c;
            let cell = line.cells[k];
            assert(cell == o.cell_xy(c as int, l as int));
            let mut painted = false;
            let ghost p0 = idx as int;
            if let Some(offset) = cell.cpi.offset {
                let mut done = false;
                while idx < idx_max && !done
                    invariant
                        idx_max == sel@.len(),
                        p0 <= idx <= idx_max,
                        p0 >= 0,
                        sel_skip(sel@, idx as int, offset) == sel_skip(sel@, p0, offset),
                        !done ==> !painted,
                        done ==> idx < idx_max && sel_skip(sel@, idx as int, offset) == idx
                            && painted == (sel@[idx as int].0 <= offset),
                    decreases idx_max - idx + if done {
                        0int
                    } else {
                        1int
                    },
                {
                    if offset < sel[idx].0 {
                        done = true;
                    } else if offset <= sel[idx].1 {
                        painted = true;
                        done = true;
                    } else {
                        idx = idx + 1;
                    }
                }
                if !done {
                    stop = true;
                }
            }
            if painted {
                let mut nc = cell;
                nc.cpi.style.bg_color = TextStyle::default_selected_bg_color();
                line.cells.set(k, nc);
            }
            proof {
                assert(painted == sel_painted(o, sel@, l as int, c as int));
            }
            c = c + 1;
        }
        proof {
            if stop {
                assert forall|l2: int, x: int| l + 1 <= l2 && 0 <= x implies !sel_painted(
                    o,
                    sel@,
                    l2,
                    x,
                ) by {
                    lemma_sel_stopped_persists(o, sel@, l as int, c as int, l2, x);
                }
            }
            if c == n {
                assert(sel_state(o, sel@, l + 1, 0) == sel_state(o, sel@, l as int, n as int));
            } else {
                lemma_sel_stopped_persists(o, sel@, l as int, c as int, l + 1, 0);
            }
        }
        proof {
            assert forall|r: int| 0 <= r < o.max_height implies {
                let a = #[trigger] screen.line@[r];
                let b = o.line@[r];
                &&& a.same_layout(b)
                &&& a.cells@.len() == b.cells@.len()
                &&& forall|k: int|
                    0 <= k < b.cells@.len() ==> #[trigger] a.cells@[k] == if o.clip.y <= r < o.clip.y
                        + l + 1 && b.start_index <= k < b.start_index + b.nb_cells && sel_painted(
                        o,
                        sel@,
                        r - o.clip.y,
                        k - b.start_index,
                    ) {
                        selected_cell(b.cells@[k])
                    } else {
                        b.cells@[k]
                    }
            } by {
                if r != row {
                    assert(screen.line@[r] == s0.line@[r]);
                } else {
                    assert forall|k: int| 0 <= k < lo.cells@.len() implies #[trigger] screen.line@[
                        r].cells@[k] == if lo.start_index <= k < lo.start_index + lo.nb_cells
                        && sel_painted(o, sel@, l as int, k - lo.start_index) {
                        selected_cell(lo.cells@[k])
                    } else {
                        lo.cells@[k]
                    } by {
                        if lo.start_index + c <= k < lo.start_index + lo.nb_cells {
                            lemma_sel_stopped_persists(
                                o,
                                sel@,
                                l as int,
                                c as int,
                                l as int,
                                k - lo.start_index,
                            );
                        }
                    }
                }
            }
        }
        l = l + 1;
    }
}

proof fn lemma_sel_stopped_persists(s: Screen, sel: Seq<(u64, u64)>, l: int, c: int, l2: int, x2: int)
    requires
        0 <= l,
        0 <= c,
        0 <= x2,
        c <= s.line@[s.row(l)].nb_cells,
        sel_state(s, sel, l, c).1,
        l < l2 || (l == l2 && c <= x2),
    ensures
        sel_state(s, sel, l2, x2) == sel_state(s, sel, l, c),
        !sel_painted(s, sel, l2, x2),
    decreases l2, x2,
{
    if l2 == l && x2 == c {
    } else if x2 > 0 {
        lemma_sel_stopped_persists(s, sel, l, c, l2, x2 - 1);
    } else {
        if l2 - 1 > l || s.line@[s.row(l2 - 1)].nb_cells >= c {
            lemma_sel_stopped_persists(s, sel, l, c, l2 - 1, s.line@[s.row(l2 - 1)].nb_cells as int);
        }
    }
}

/// A painted cell records an offset that lies in one of the ranges (both
/// ends included).
pub proof fn lemma_painted_in_range(s: Screen, sel: Seq<(u64, u64)>, l: int, x: int)
    requires
        0 <= l,
        0 <= x,
        sel_painted(s, sel, l, x),
    ensures
        s.cell_xy(x, l).cpi.offset is Some,
        exists|j: int|
            0 <= j < sel.len() && #[trigger] sel[j].0 <= s.cell_xy(x, l).cpi.offset->0 <= sel[j].1,
{
    lemma_sel_state_bound(s, sel, l, x);
    let p = sel_state(s, sel, l, x);
    let o = s.cell_xy(x, l).cpi.offset->0;
    lemma_sel_skip_ge(sel, p.0, o);
    let j = sel_skip(sel, p.0, o);
    assert(0 <= j < sel.len());
    lemma_sel_skip_stop(sel, p.0, o);
    assert(sel[j].0 <= o <= sel[j].1);
}

/// Where the skip over the ranges stops, the offset is not past the range.
proof fn lemma_sel_skip_stop(sel: Seq<(u64, u64)>, idx: int, offset: u64)
    requires
        0 <= idx,
    ensures
        sel_skip(sel, idx, offset) < sel.len() ==> offset < sel[sel_skip(sel, idx, offset)].0 || offset
            <= sel[sel_skip(sel, idx, offset)].1,
    decreases sel.len() - idx,
{
    if idx < sel.len() && !(offset < sel[idx].0 || offset <= sel[idx].1) {
        lemma_sel_skip_stop(sel, idx + 1, offset);
    }
}

proof fn lemma_sel_state_bound(s: Screen, sel: Seq<(u64, u64)>, l: int, x: int)
    requires
        0 <= l,
        0 <= x,
    ensures
        0 <= sel_state(s, sel, l, x).0 <= sel.len(),
    decreases l, x,
{
    if x > 0 {
        lemma_sel_state_bound(s, sel, l, x - 1);
        let p = sel_state(s, sel, l, x - 1);
        if let Some(o) = s.cell_xy(x - 1, l).cpi.offset {
            lemma_sel_skip_ge(sel, p.0, o);
        }
    } else if l > 0 {
        lemma_sel_state_bound(s, sel, l - 1, s.line@[s.row(l - 1)].nb_cells as int);
    }
}

proof fn lemma_sel_skip_ge(sel: Seq<(u64, u64)>, idx: int, offset: u64)
    requires
        idx >= 0,
    ensures
        sel_skip(sel, idx, offset) >= idx,
        idx <= sel.len() ==> sel_skip(sel, idx, offset) <= sel.len(),
    decreases sel.len() - idx,
{
    if idx < sel.len() && !(offset < sel[idx].0 || offset <= sel[idx].1) {
        lemma_sel_skip_ge(sel, idx + 1, offset);
    }
}

/// The selected ranges of the view: from each mark to its selection
/// point, in increasing order.
pub open spec fn selection_ranges<C: TextCodec>(tm: &TextModeContext<C>) -> Seq<(u64, u64)> {
    Seq::new(
        tm.marks@.len(),
        |i: int|
            {
                let a = tm.marks@[i].offset;
                let b = tm.select_point@[i].offset;
                if a <= b {
                    (a, b)
                } else {
                    (b, a)
                }
            },
    )
}

pub struct HighlightSelectionOverlay {}

impl HighlightSelectionOverlay {
    pub fn new() -> (f: HighlightSelectionOverlay) {
        HighlightSelectionOverlay {  }
    }

    /// Paints the selected ranges, when each mark has its selection point;
    /// an off-screen layout is left as it is.
    pub fn finish<C: TextCodec>(&mut self, env: &mut LayoutEnv, tm: &TextModeContext<C>)
        requires
            old(env).screen.wf(),
        ensures
            if !old(env).screen.is_off_screen && tm.marks@.len() == tm.select_point@.len() {
                selections_drawn(old(env).screen, final(env).screen, selection_ranges(tm))
            } else {
                final(env).screen == old(env).screen
            },
            final(env).quit == old(env).quit,
    {
        if env.screen.is_off_screen {
            return ;
        }
        if tm.marks.len() == tm.select_point.len() {
            let n = tm.marks.len();
            let mut range: Vec<(u64, u64)> = Vec::new();
            let mut i: usize = 0;
            while i < n
                invariant
                    n == tm.marks@.len(),
                    n == tm.select_point@.len(),
                    0 <= i <= n,
                    range@.len() == i,
                    forall|k: int| 0 <= k < i ==> range@[k] == #[trigger] selection_ranges(tm)[k],
                decreases n - i,
            {
                let min = tm.marks[i].offset;
                let max = tm.select_point[i].offset;
                let pair = sort_tuple_pair((min, max));
                range.push(pair);
                i = i + 1;
            }
            assert(range@ =~= selection_ranges(tm));
            refresh_screen_selections(&mut env.screen, &range);
        }
    }
}

} // verus!
