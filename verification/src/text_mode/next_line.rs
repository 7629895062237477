//! Moving every mark to the next line.
//!
//! A single mark on the last line of the screen moves by scrolling the
//! view one line. Otherwise screens are laid out, from the view's start
//! (or the first mark, when it lies before it) on, each from the first
//! offset of the last line of the one before, until each mark was moved
//! on the screen that shows it or the end of the document is reached.
//! Laying out a screen runs the whole pipeline of the view: the functions
//! here decide what each pass starts from and what it does to the marks.

use vstd::prelude::*;

use super::movement::{move_on_screen_mark_to_next_line, next_line_move, next_line_move_ok};
use super::text_mode::{PostInputAction, TextModeAction, TextModeContext};
use crate::codec::TextCodec;
use crate::mark::Mark;
use crate::screen::screen::Screen;

verus! {

/// The index of the line the last push went to, as the screen gives it
/// back: the line before when that one holds no cell.
pub open spec fn last_line_index(s: Screen) -> int {
    let i0 = s.spec_last_used_line_index();
    if s.line@[i0].nb_cells == 0 && i0 > 1 {
        i0 - 1
    } else {
        i0
    }
}

/// The offset recorded in the first cell of the last line of the screen.
pub open spec fn last_line_start(s: Screen) -> u64 {
    s.line@[last_line_index(s)].cell_at(0).cpi.offset->0
}

/// A screen that received cells has a last line whose first cell records
/// an offset.
pub open spec fn last_line_ok(s: Screen) -> bool {
    s.push_count > 0 ==> {
        &&& 0 <= s.spec_last_used_line_index() < s.line@.len()
        &&& s.line@[last_line_index(s)].nb_cells > 0
        &&& s.line@[last_line_index(s)].cell_at(0).cpi.offset is Some
    }
}

/// The first offset of the last line of `screen`.
fn last_line_first_offset(screen: &Screen) -> (o: u64)
    requires
        screen.wf(),
        screen.push_count > 0,
        last_line_ok(*screen),
    ensures
        o == last_line_start(*screen),
{
    let line = screen.get_last_used_line().unwrap();
    let cpi = line.get_used_cpi(0).unwrap();
    cpi.offset.unwrap()
}

/// The single mark moves by a scroll of the view: it is the only mark, the
/// screen shows it on (or past the start of) its last line, and the
/// document goes on after the screen.
pub open spec fn next_line_scrolls(marks: Seq<Mark>, s: Screen) -> bool {
    &&& marks.len() == 1
    &&& s.offset_in_range(marks[0].offset)
    &&& marks[0].offset >= last_line_start(s)
    &&& !s.has_eof
}

/// When a single mark moves by a scroll of the view, the offset the view
/// then starts from: the first offset of the screen's second line.
pub fn next_line_scroll_start(marks: &Vec<Mark>, screen: &Screen) -> (r: Option<u64>)
    requires
        screen.wf(),
        screen.covers_its_range(),
        marks@.len() == 1 && screen.offset_in_range(marks@[0].offset) ==> {
            &&& screen.push_count > 0
            &&& last_line_ok(*screen)
        },
        next_line_scrolls(marks@, *screen) ==> {
            &&& screen.spec_height() > 1
            &&& screen.spec_width() > 0
            &&& screen.cell_xy(0, 1).cpi.offset is Some
        },
    ensures
        next_line_scrolls(marks@, *screen) ==> r == screen.cell_xy(0, 1).cpi.offset,
        !next_line_scrolls(marks@, *screen) ==> r is None,
{
    if marks.len() != 1 {
        return None;
    }
    if !screen.contains_offset(marks[0].offset) {
        return None;
    }
    let first = last_line_first_offset(screen);
    if marks[0].offset >= first && !screen.has_eof() {
        let line = screen.get_line(1).unwrap();
        let cpi = line.get_first_cpi().unwrap();
        Some(cpi.offset.unwrap())
    } else {
        None
    }
}

/// Once the view scrolled one line, moves the single mark to the next line
/// of the new screen (see `next_line_move`).
pub fn move_single_mark_after_scroll<C: TextCodec>(tm: &mut TextModeContext<C>, screen: &Screen)
    requires
        old(tm).marks@.len() == 1,
        screen.wf(),
        screen.covers_its_range(),
        next_line_move_ok(*screen, old(tm).marks@[0].offset),
    ensures
        final(tm).same_but_marks(*old(tm)),
        final(tm).marks@ == seq![Mark { offset: next_line_move(*screen, old(tm).marks@[0].offset).3 }],
        final(tm).mark_index == old(tm).mark_index,
        final(tm).pre_compose_action == old(tm).pre_compose_action,
        final(tm).prev_action == old(tm).prev_action,
{
    let mut m = tm.marks[0];
    move_on_screen_mark_to_next_line(&mut m, screen);
    tm.marks.set(0, m);
    assert(tm.marks@ =~= seq![m]);
}

/// The screen the passes fill, `width` by one line more than the view's
/// screen, and the offset the first pass starts from: the view's first
/// offset, or the first mark's when it comes before.
pub open spec fn next_line_passes_setup_spec(s: Screen, marks: Seq<Mark>) -> (usize, usize, u64) {
    let f = s.first_offset->0;
    let m = marks[0].offset;
    (s.spec_width() as usize, (s.spec_height() + 1) as usize, if m < f {
        m
    } else {
        f
    })
}

/// Prepares the passes over the document (see `next_line_passes_setup_spec`)
/// for the view's `screen` and a document of `doc_size` bytes.
pub fn next_line_passes_setup(screen: &Screen, marks: &Vec<Mark>, doc_size: u64) -> (r: (usize, usize, u64))
    requires
        screen.wf(),
        screen.first_offset is Some,
        marks@.len() > 0,
        screen.spec_height() + 1 <= usize::MAX,
        doc_size > 0 ==> next_line_passes_setup_spec(*screen, marks@).2 <= doc_size,
    ensures
        r == next_line_passes_setup_spec(*screen, marks@),
{
    let first = screen.first_offset.unwrap();
    let m = marks[0].offset;
    let start = if m < first {
        m
    } else {
        first
    };
    (screen.width(), screen.height() + 1, start)
}

/// What a pass comes to: the screen received nothing (the marks are left
/// as they were), every mark was seen to, or another pass starts from
/// `start_offset` with the mark `index`.
#[derive(Debug, Clone, Copy, PartialEq, Eq, Structural)]
pub enum MarksPassStep {
    Stop,
    Done,
    Next { start_offset: u64, index: usize },
}

/// The first index from `j` on of a mark at or past `limit`, or the
/// number of marks.
pub open spec fn group_end(marks: Seq<Mark>, j: int, limit: u64) -> int
    decreases marks.len() - j,
{
    if j < 0 || j >= marks.len() {
        marks.len() as int
    } else if marks[j].offset >= limit {
        j
    } else {
        group_end(marks, j + 1, limit)
    }
}

/// The marks after a pass that laid out `s`, from the mark `index` on, and
/// what comes next. A screen that received nothing stops the move. When
/// the screen does not show the mark, the next pass starts from its last
/// line, unless it shows the end of the document. Otherwise the mark and
/// those after it that come before the last line move to the next line.
pub open spec fn marks_pass(marks: Seq<Mark>, s: Screen, index: int) -> (Seq<Mark>, MarksPassStep) {
    if s.push_count == 0 {
        (marks, MarksPassStep::Stop)
    } else {
        let l = last_line_start(s);
        if !s.offset_in_range(marks[index].offset) {
            if s.has_eof {
                (marks, MarksPassStep::Done)
            } else {
                (marks, MarksPassStep::Next { start_offset: l, index: index as usize })
            }
        } else {
            let e = group_end(marks, index + 1, l);
            (moved_range(marks, s, index, e), if e >= marks.len() {
                MarksPassStep::Done
            } else {
                MarksPassStep::Next { start_offset: l, index: e as usize }
            })
        }
    }
}

/// The marks moved to the next line of `s` from index `from` to `to`
/// (excluded).
pub open spec fn moved_range(marks: Seq<Mark>, s: Screen, from: int, to: int) -> Seq<Mark> {
    Seq::new(
        marks.len(),
        |i: int|
            if from <= i < to {
                Mark { offset: next_line_move(s, marks[i].offset).3 }
            } else {
                marks[i]
            },
    )
}

/// The index of the first mark from `from` on at or past `limit` (see
/// `group_end`).
fn find_group_end(marks: &Vec<Mark>, from: usize, limit: u64) -> (e: usize)
    requires
        from <= marks@.len(),
    ensures
        e == group_end(marks@, from as int, limit),
        from <= e <= marks@.len(),
{
    let n = marks.len();
    let mut e: usize = from;
    while e < n
        invariant
            n == marks@.len(),
            from <= e <= n,
            group_end(marks@, from as int, limit) == group_end(marks@, e as int, limit),
        decreases n - e,
    {
        if marks[e].offset >= limit {
            return e;
        }
        e = e + 1;
    }
    e
}

/// Moves the marks from index `from` to `to` (excluded) to the next line
/// of `screen`.
fn move_marks_range(marks: &mut Vec<Mark>, from: usize, to: usize, screen: &Screen)
    requires
        from <= to <= old(marks)@.len(),
        screen.wf(),
        screen.covers_its_range(),
        forall|i: int| 0 <= i < old(marks)@.len() ==> next_line_move_ok(*screen, #[trigger] old(marks)@[i].offset),
    ensures
        final(marks)@ == moved_range(old(marks)@, *screen, from as int, to as int),
{
    let ghost m0 = marks@;
    let n = marks.len();
    let mut i: usize = from;
    while i < to
        invariant
            m0 == old(marks)@,
            n == m0.len(),
            from <= i <= to <= n,
            marks@.len() == n,
            screen.wf(),
            screen.covers_its_range(),
            forall|k: int| 0 <= k < n ==> next_line_move_ok(*screen, #[trigger] m0[k].offset),
            forall|k: int|
                0 <= k < n ==> #[trigger] marks@[k] == if from <= k < i {
                    Mark { offset: next_line_move(*screen, m0[k].offset).3 }
                } else {
                    m0[k]
                },
        decreases to - i,
    {
        let mut m = marks[i];
        assert(next_line_move_ok(*screen, m0[i as int].offset));
        move_on_screen_mark_to_next_line(&mut m, screen);
        marks.set(i, m);
        i = i + 1;
    }
    assert(marks@ =~= moved_range(m0, *screen, from as int, to as int));
}

/// Runs on `marks` what a pass that laid out `screen` does, from the mark
/// `index` on (see `marks_pass`).
#[verifier::spinoff_prover]
pub fn move_marks_to_next_line_pass(marks: &mut Vec<Mark>, index: usize, screen: &Screen) -> (r: MarksPassStep)
    requires
        index < old(marks)@.len(),
        screen.wf(),
        screen.covers_its_range(),
        last_line_ok(*screen),
        forall|i: int| 0 <= i < old(marks)@.len() ==> next_line_move_ok(*screen, #[trigger] old(marks)@[i].offset),
    ensures
        (final(marks)@, r) == marks_pass(old(marks)@, *screen, index as int),
        r matches MarksPassStep::Next { index: j, .. } ==> j >= index,
{
    if screen.push_count() == 0 {
        return MarksPassStep::Stop;
    }
    let l = last_line_first_offset(screen);
    if !screen.contains_offset(marks[index].offset) {
        if screen.has_eof() {
            return MarksPassStep::Done;
        }
        return MarksPassStep::Next { start_offset: l, index };
    }
    let n = marks.len();
    let e = find_group_end(marks, index + 1, l);
    move_marks_range(marks, index, e, screen);
    if e >= n {
        MarksPassStep::Done
    } else {
        MarksPassStep::Next { start_offset: l, index: e }
    }
}

/// Puts the moved marks back once every pass ran. The view's `screen` is
/// asked to scroll one line down when it does not show the main mark; the
/// marks are then checked.
pub fn end_marks_to_next_line<C: TextCodec>(tm: &mut TextModeContext<C>, marks: Vec<Mark>, screen: &Screen)
    requires
        old(tm).mark_index < marks@.len(),
        screen.wf(),
        screen.covers_its_range(),
    ensures
        final(tm).same_but_marks(*old(tm)),
        final(tm).marks@ == marks@,
        final(tm).mark_index == old(tm).mark_index,
        final(tm).pre_compose_action@ == if screen.offset_in_range(marks@[old(tm).mark_index as int].offset) {
            old(tm).pre_compose_action@.push(PostInputAction::CheckMarks)
        } else {
            old(tm).pre_compose_action@.push(PostInputAction::ScrollDown { n: 1 }).push(
                PostInputAction::CheckMarks,
            )
        },
        final(tm).prev_action == TextModeAction::MarksMove,
{
    tm.marks = marks;
    let idx = tm.mark_index;
    if !screen.contains_offset(tm.marks[idx].offset) {
        tm.pre_compose_action.push(PostInputAction::ScrollDown { n: 1 });
    }
    tm.pre_compose_action.push(PostInputAction::CheckMarks);
    tm.prev_action = TextModeAction::MarksMove;
}

} // verus!
