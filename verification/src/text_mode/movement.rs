//! Moves a mark over what the screen shows.

use vstd::prelude::*;

use super::text_mode::{PostInputAction, TextModeAction, TextModeContext};
use crate::buffer::Buffer;
use crate::codec::TextCodec;
use crate::mark::{char_backward, char_forward, eol_pattern, line_end_of, line_start_of, token_end, token_start, Mark};
use crate::screen::screen::{cpi_covers, Screen};

verus! {

/// The line of the clipping rectangle whose offset range holds `offset`.
pub open spec fn offset_line(s: Screen, offset: u64) -> int {
    choose|i: int|
        0 <= i <= s.current_line_index && #[trigger] s.line_first_offset(i) <= offset
            <= s.line_last_offset(i)
}

/// The first cell of line `y` that covers `offset`.
pub open spec fn offset_column(s: Screen, offset: u64, y: int) -> int {
    choose|x: int|
        0 <= x < s.spec_width() && cpi_covers(#[trigger] s.cell_xy(x, y).cpi, offset) && forall|k: int|
            0 <= k < x ==> !cpi_covers(#[trigger] s.cell_xy(k, y).cpi, offset)
}

/// The column of line `y` closest to `x` among its used cells.
pub open spec fn nearest_column(s: Screen, x: int, y: int) -> int {
    let n = s.line@[s.row(y)].nb_cells;
    if x < n - 1 {
        x
    } else {
        n - 1
    }
}

/// What moving a mark at `offset` to the next screen line gives: whether
/// the mark moved, the offsets it went from and to, what must be done
/// first when it cannot move, and its new offset.
///
/// The mark goes to the cell of the next line under it, or to the last
/// used cell of that line when the line is shorter. A mark on the last line
/// asks to scroll down. When the cell below records the same offset (a
/// wrapped line), the mark goes one line further, or asks to scroll.
pub open spec fn next_line_move(s: Screen, offset: u64) -> (
    bool,
    Option<(u64, u64)>,
    Option<PostInputAction>,
    u64,
) {
    if !s.offset_in_range(offset) {
        (false, None, None, offset)
    } else {
        let y = offset_line(s, offset);
        let x = offset_column(s, offset, y);
        let ny = y + 1;
        if ny >= s.spec_height() {
            (false, None, Some(PostInputAction::ScrollDown { n: 1 }), offset)
        } else if !s.line_is_used(ny) {
            (true, Some((offset, offset)), None, offset)
        } else {
            match s.cell_xy(nearest_column(s, x, ny), ny).cpi.offset {
                None => (false, None, None, offset),
                Some(no) => if no != offset {
                    (true, Some((offset, no)), None, no)
                } else if ny + 1 < s.spec_height() && s.line_is_used(ny + 1) {
                    let c = s.cell_xy(nearest_column(s, x, ny + 1), ny + 1).cpi;
                    (true, Some((offset, c.offset->0)), None, c.offset->0)
                } else {
                    (false, None, Some(PostInputAction::ScrollDown { n: 1 }), no)
                },
            }
        }
    }
}

/// The used cells of each line up to the fill cursor record offsets
/// within the range of that line.
#[verifier::opaque]
pub open spec fn cells_within_lines(s: Screen) -> bool {
    forall|i: int, x: int|
        0 <= i <= s.current_line_index && 0 <= x < s.line@[s.row(i)].nb_cells
            ==> (#[trigger] s.cell_xy(x, i).cpi.offset matches Some(o) && s.line_first_offset(i) <= o
            <= s.line_last_offset(i))
}

/// The used cells of a line after the one holding `o` record offsets past
/// `o`.
proof fn lemma_cells_after(s: Screen, o: u64, y: int, ny: int)
    requires
        s.lines_sorted(),
        cells_within_lines(s),
        0 <= y < ny <= s.current_line_index,
        o <= s.line_last_offset(y),
    ensures
        forall|x: int|
            0 <= x < s.line@[s.row(ny)].nb_cells ==> (#[trigger] s.cell_xy(x, ny).cpi.offset matches Some(v)
                && v > o),
{
    reveal(cells_within_lines);
    assert(s.line_last_offset(y) < s.line_first_offset(ny));
    assert forall|x: int| 0 <= x < s.line@[s.row(ny)].nb_cells implies (#[trigger] s.cell_xy(
        x,
        ny,
    ).cpi.offset matches Some(v) && v > o) by {
        assert(s.cell_xy(x, ny).cpi.offset matches Some(v) && (s.line_first_offset(ny) <= v));
    }
}

/// Moving a mark to the next line never takes it back: on a screen laid
/// out in document order, the mark ends at or after where it was.
#[verifier::spinoff_prover]
#[verifier::rlimit(60)]
pub proof fn lemma_next_line_not_back(s: Screen, offset: u64)
    requires
        s.wf(),
        s.offset_in_range(offset) ==> s.lines_sorted() && exists|i: int| s.line_holds_offset(i, offset),
        cells_within_lines(s),
    ensures
        next_line_move(s, offset).3 >= offset,
{
    if s.offset_in_range(offset) {
        let i0 = choose|i: int| s.line_holds_offset(i, offset);
        assert(s.line_holds_offset(i0, offset));
        lemma_offset_line_unique(s, offset, i0);
        let y = offset_line(s, offset);
        assert(y == i0);
        lemma_offset_column_exists(s, offset, y);
        let x = offset_column(s, offset, y);
        assert(0 <= x);
        let ny = y + 1;
        if ny < s.spec_height() && s.line_is_used(ny) {
            lemma_cells_after(s, offset, y, ny);
            let n = s.line@[s.row(ny)].nb_cells;
            let cx = nearest_column(s, x, ny);
            if 0 <= x {
                assert(0 <= cx < n);
                assert(s.cell_xy(cx, ny).cpi.offset matches Some(v) && v > offset);
            }
            if ny + 1 < s.spec_height() && s.line_is_used(ny + 1) {
                lemma_cells_after(s, offset, y, ny + 1);
                let cx2 = nearest_column(s, x, ny + 1);
                if 0 <= x {
                    assert(0 <= cx2 < s.line@[s.row(ny + 1)].nb_cells);
                    assert(s.cell_xy(cx2, ny + 1).cpi.offset matches Some(v) && v > offset);
                }
            }
        }
    }
}

/// When the mark goes one line further, the cell it lands on records an
/// offset.
pub open spec fn next_line_move_ok(s: Screen, offset: u64) -> bool {
    s.offset_in_range(offset) ==> {
        let y = offset_line(s, offset);
        let x = offset_column(s, offset, y);
        let ny = y + 1;
        ny < s.spec_height() && s.line_is_used(ny) && s.cell_xy(nearest_column(s, x, ny), ny).cpi.offset
            == Some(offset) && ny + 1 < s.spec_height() && s.line_is_used(ny + 1) ==> s.cell_xy(
            nearest_column(s, x, ny + 1),
            ny + 1,
        ).cpi.offset is Some
    }
}

proof fn lemma_offset_line_unique(s: Screen, offset: u64, y: int)
    requires
        s.lines_sorted(),
        0 <= y <= s.current_line_index,
        s.line_first_offset(y) <= offset <= s.line_last_offset(y),
    ensures
        offset_line(s, offset) == y,
{
    let i = offset_line(s, offset);
    assert(0 <= i <= s.current_line_index && s.line_first_offset(i) <= offset <= s.line_last_offset(i));
    if i < y {
        assert(s.line_last_offset(i) < s.line_first_offset(y));
    } else if i > y {
        assert(s.line_last_offset(y) < s.line_first_offset(i));
    }
}

/// A line that covers `offset` in some column has a first such column.
proof fn lemma_first_cover(s: Screen, offset: u64, y: int, x0: int)
    requires
        0 <= x0 < s.spec_width(),
        cpi_covers(s.cell_xy(x0, y).cpi, offset),
    ensures
        exists|x: int|
            0 <= x < s.spec_width() && cpi_covers(#[trigger] s.cell_xy(x, y).cpi, offset) && forall|k: int|
                0 <= k < x ==> !cpi_covers(#[trigger] s.cell_xy(k, y).cpi, offset),
    decreases x0,
{
    if exists|k: int| 0 <= k < x0 && cpi_covers(#[trigger] s.cell_xy(k, y).cpi, offset) {
        let k = choose|k: int| 0 <= k < x0 && cpi_covers(#[trigger] s.cell_xy(k, y).cpi, offset);
        lemma_first_cover(s, offset, y, k);
    } else {
        assert(0 <= x0 < s.spec_width() && cpi_covers(s.cell_xy(x0, y).cpi, offset) && forall|k: int|
            0 <= k < x0 ==> !cpi_covers(#[trigger] s.cell_xy(k, y).cpi, offset));
    }
}

/// The column `offset_column` picks lies in the line when a column of the
/// line covers `offset`.
proof fn lemma_offset_column_exists(s: Screen, offset: u64, y: int)
    requires
        exists|x: int| 0 <= x < s.spec_width() && #[trigger] cpi_covers(s.cell_xy(x, y).cpi, offset),
    ensures
        0 <= offset_column(s, offset, y) < s.spec_width(),
{
    let x0 = choose|x: int| 0 <= x < s.spec_width() && #[trigger] cpi_covers(s.cell_xy(x, y).cpi, offset);
    lemma_first_cover(s, offset, y, x0);
}

proof fn lemma_offset_column_unique(s: Screen, offset: u64, y: int, x: int)
    requires
        0 <= x < s.spec_width(),
        cpi_covers(s.cell_xy(x, y).cpi, offset),
        forall|k: int| 0 <= k < x ==> !cpi_covers(#[trigger] s.cell_xy(k, y).cpi, offset),
    ensures
        offset_column(s, offset, y) == x,
{
    let c = offset_column(s, offset, y);
    assert(0 <= c < s.spec_width() && cpi_covers(s.cell_xy(c, y).cpi, offset) && forall|k: int|
        0 <= k < c ==> !cpi_covers(#[trigger] s.cell_xy(k, y).cpi, offset));
    if c < x {
        assert(!cpi_covers(s.cell_xy(c, y).cpi, offset));
    } else if c > x {
        assert(!cpi_covers(s.cell_xy(x, y).cpi, offset));
    }
}

/// Moves the mark `m` to the next line of `screen` (see `next_line_move`).
pub fn move_on_screen_mark_to_next_line(m: &mut Mark, screen: &Screen) -> (r: (
    bool,
    Option<(u64, u64)>,
    Option<PostInputAction>,
))
    requires
        screen.wf(),
        screen.offset_in_range(old(m).offset) ==> screen.lines_sorted() && exists|i: int|
            screen.line_holds_offset(i, old(m).offset),
        next_line_move_ok(*screen, old(m).offset),
    ensures
        ({
            let t = next_line_move(*screen, old(m).offset);
            &&& r == (t.0, t.1, t.2)
            &&& final(m).offset == t.3
        }),
{
    if !screen.contains_offset(m.offset) {
        return (false, None, None);
    }
    let (_, x, y) = screen.find_cpi_by_offset(m.offset);
    proof {
        lemma_offset_line_unique(*screen, m.offset, y as int);
        lemma_offset_column_unique(*screen, m.offset, y as int, x as int);
    }
    let screen_height = screen.height();
    let new_y = y + 1;
    if new_y >= screen_height {
        assert(y == screen_height - 1);
        return (false, None, Some(PostInputAction::ScrollDown { n: 1 }));
    }
    let l = match screen.get_used_line(new_y) {
        Some(l) => l,
        None => {
            return (true, Some((m.offset, m.offset)), None);
        },
    };
    if l.nb_cells == 0 {
        return (true, Some((m.offset, m.offset)), None);
    }
    let new_x = if x < l.nb_cells - 1 {
        x
    } else {
        l.nb_cells - 1
    };
    let cpi = match screen.get_cpinfo(new_x, new_y) {
        Some(c) => c,
        None => {
            return (false, None, None);
        },
    };
    let new_offset = match cpi.offset {
        Some(o) => o,
        None => {
            return (false, None, None);
        },
    };
    let old_offset = m.offset;
    m.offset = new_offset;
    if old_offset == m.offset {
        if let Some(l) = screen.get_used_line(new_y + 1) {
            if l.nb_cells > 0 {
                let k = if x < l.nb_cells - 1 {
                    x
                } else {
                    l.nb_cells - 1
                };
                let cpi = l.get_used_cpi(k).unwrap();
                m.offset = cpi.offset.unwrap();
                return (true, Some((old_offset, m.offset)), None);
            }
        }
        return (false, None, Some(PostInputAction::ScrollDown { n: 1 }));
    }
    (true, Some((old_offset, m.offset)), None)
}

/// The marks all lie in a buffer of `len` bytes.
pub open spec fn marks_within(marks: Seq<Mark>, len: nat) -> bool {
    forall|k: int| 0 <= k < marks.len() ==> #[trigger] marks[k].offset <= len
}

/// Where moving forward over one code point takes an offset `o`.
pub open spec fn forward_offset<C: TextCodec>(codec: &C, buf: Seq<u8>, o: int) -> int {
    if o < buf.len() {
        o + char_forward(codec, buf, o).2
    } else {
        o
    }
}

/// `s` followed by `a` when `b`.
pub open spec fn push_if(s: Seq<PostInputAction>, b: bool, a: PostInputAction) -> Seq<PostInputAction> {
    if b {
        s.push(a)
    } else {
        s
    }
}

/// Keeps the main mark alone, as the first mark.
pub fn cancel_marks<C: TextCodec>(tm: &mut TextModeContext<C>)
    requires
        old(tm).mark_index < old(tm).marks@.len(),
    ensures
        final(tm).same_but_marks(*old(tm)),
        final(tm).marks@ == seq![old(tm).marks@[old(tm).mark_index as int]],
        final(tm).mark_index == 0,
        final(tm).pre_compose_action@ == old(tm).pre_compose_action@.push(PostInputAction::ResetMarks),
        final(tm).prev_action == old(tm).prev_action,
{
    let offset = tm.marks[tm.mark_index].offset;
    tm.mark_index = 0;
    tm.marks.clear();
    tm.marks.push(Mark { offset });
    tm.pre_compose_action.push(PostInputAction::ResetMarks);
}

/// Moves each mark back over the code point before it. When the main mark
/// was at or before the start of the view, the view scrolls up a line.
pub fn move_marks_backward<C: TextCodec>(tm: &mut TextModeContext<C>, buffer: &Buffer, start_offset: u64)
    requires
        old(tm).marks@.len() > 0,
        marks_within(old(tm).marks@, buffer@.len()),
    ensures
        final(tm).same_but_marks(*old(tm)),
        final(tm).marks@.len() == old(tm).marks@.len(),
        forall|k: int|
            0 <= k < old(tm).marks@.len() ==> #[trigger] final(tm).marks@[k].offset == char_backward(
                &old(tm).text_codec,
                buffer@,
                old(tm).marks@[k].offset as int,
            ).1,
        final(tm).mark_index == old(tm).mark_index,
        final(tm).pre_compose_action@ == push_if(
            push_if(
                old(tm).pre_compose_action@,
                old(tm).mark_index < old(tm).marks@.len() && old(tm).marks@[old(tm).mark_index as int].offset
                    <= start_offset,
                PostInputAction::ScrollUp { n: 1 },
            ).push(PostInputAction::CheckMarks),
            old(tm).center_on_mark_move,
            PostInputAction::CenterAroundMainMark,
        ),
        final(tm).prev_action == TextModeAction::MarksMove,
{
    let midx = tm.mark_index;
    let n = tm.marks.len();
    let scroll = midx < n && tm.marks[midx].offset <= start_offset;
    let ghost old_marks = tm.marks@;
    let ghost t0 = *tm;
    let mut i: usize = 0;
    while i < n
        invariant
            n == old_marks.len(),
            tm.marks@.len() == n,
            tm.same_but_marks(t0),
            tm.pre_compose_action == t0.pre_compose_action,
            tm.mark_index == t0.mark_index,
            tm.prev_action == t0.prev_action,
            0 <= i <= n,
            marks_within(old_marks, buffer@.len()),
            forall|k: int| i <= k < n ==> #[trigger] tm.marks@[k] == old_marks[k],
            forall|k: int|
                0 <= k < i ==> #[trigger] tm.marks@[k].offset == char_backward(
                    &tm.text_codec,
                    buffer@,
                    old_marks[k].offset as int,
                ).1,
        decreases n - i,
    {
        let mut m = tm.marks[i];
        m.move_backward(buffer, &tm.text_codec);
        tm.marks.set(i, m);
        i = i + 1;
    }
    if scroll {
        tm.pre_compose_action.push(PostInputAction::ScrollUp { n: 1 });
    }
    tm.pre_compose_action.push(PostInputAction::CheckMarks);
    if tm.center_on_mark_move {
        tm.pre_compose_action.push(PostInputAction::CenterAroundMainMark);
    }
    tm.prev_action = TextModeAction::MarksMove;
}

/// Moves each mark over the code point at it; the last mark becomes the
/// main one. When the main mark moved past the end of the view, and the
/// screen does not show the end of the document, the view scrolls down a
/// line.
pub fn move_marks_forward<C: TextCodec>(
    tm: &mut TextModeContext<C>,
    buffer: &Buffer,
    end_offset: u64,
    screen_has_eof: bool,
)
    requires
        old(tm).mark_index < old(tm).marks@.len(),
        marks_within(old(tm).marks@, buffer@.len()),
    ensures
        final(tm).same_but_marks(*old(tm)),
        final(tm).marks@.len() == old(tm).marks@.len(),
        forall|k: int|
            0 <= k < old(tm).marks@.len() ==> #[trigger] final(tm).marks@[k].offset == forward_offset(
                &old(tm).text_codec,
                buffer@,
                old(tm).marks@[k].offset as int,
            ),
        final(tm).mark_index == old(tm).marks@.len() - 1,
        ({
            let p = old(tm).marks@[old(tm).mark_index as int].offset;
            let q = final(tm).marks@[old(tm).mark_index as int].offset;
            final(tm).pre_compose_action@ == push_if(
                old(tm).pre_compose_action@,
                p > 0 && q != p && q > end_offset && !screen_has_eof,
                PostInputAction::ScrollDown { n: 1 },
            ).push(PostInputAction::CheckMarks)
        }),
        final(tm).prev_action == TextModeAction::MarksMove,
{
    let midx = tm.mark_index;
    let n = tm.marks.len();
    let prev_main = tm.marks[midx];
    let ghost old_marks = tm.marks@;
    let ghost t0 = *tm;
    let mut i: usize = 0;
    while i < n
        invariant
            n == old_marks.len(),
            tm.marks@.len() == n,
            tm.same_but_marks(t0),
            tm.pre_compose_action == t0.pre_compose_action,
            tm.mark_index == t0.mark_index,
            tm.prev_action == t0.prev_action,
            0 <= i <= n,
            marks_within(old_marks, buffer@.len()),
            forall|k: int| i <= k < n ==> #[trigger] tm.marks@[k] == old_marks[k],
            forall|k: int|
                0 <= k < i ==> #[trigger] tm.marks@[k].offset == forward_offset(
                    &tm.text_codec,
                    buffer@,
                    old_marks[k].offset as int,
                ),
        decreases n - i,
    {
        let mut m = tm.marks[i];
        m.move_forward(buffer, &tm.text_codec);
        tm.marks.set(i, m);
        i = i + 1;
    }
    let main_mark = tm.marks[midx];
    let scroll = prev_main.offset > 0 && main_mark.offset != prev_main.offset && main_mark.offset
        > end_offset && !screen_has_eof;
    tm.mark_index = n - 1;
    if scroll {
        tm.pre_compose_action.push(PostInputAction::ScrollDown { n: 1 });
    }
    tm.pre_compose_action.push(PostInputAction::CheckMarks);
    tm.prev_action = TextModeAction::MarksMove;
}

/// Moves each mark to the start of its line; the view is centered on the
/// main mark when the screen does not show it any more.
pub fn move_marks_to_start_of_line<C: TextCodec>(tm: &mut TextModeContext<C>, buffer: &Buffer, screen: &Screen)
    requires
        screen.wf(),
        screen.covers_its_range(),
    ensures
        final(tm).same_but_marks(*old(tm)),
        final(tm).marks@.len() == old(tm).marks@.len(),
        forall|k: int|
            0 <= k < old(tm).marks@.len() ==> line_start_of(
                buffer@,
                eol_pattern(&old(tm).text_codec),
                old(tm).marks@[k].offset as int,
                #[trigger] final(tm).marks@[k].offset as int,
            ),
        final(tm).mark_index == old(tm).mark_index,
        final(tm).pre_compose_action@ == push_if(
            old(tm).pre_compose_action@,
            old(tm).mark_index < old(tm).marks@.len() && !screen.offset_in_range(
                final(tm).marks@[old(tm).mark_index as int].offset,
            ),
            PostInputAction::CenterAroundMainMark,
        ).push(PostInputAction::CheckMarks),
        final(tm).prev_action == TextModeAction::MarksMove,
{
    let midx = tm.mark_index;
    let n = tm.marks.len();
    let ghost old_marks = tm.marks@;
    let ghost t0 = *tm;
    let mut center = false;
    let mut i: usize = 0;
    while i < n
        invariant
            n == old_marks.len(),
            tm.marks@.len() == n,
            tm.same_but_marks(t0),
            tm.pre_compose_action == t0.pre_compose_action,
            tm.mark_index == t0.mark_index,
            tm.prev_action == t0.prev_action,
            0 <= i <= n,
            midx == tm.mark_index,
            screen.wf(),
            screen.covers_its_range(),
            forall|k: int| i <= k < n ==> #[trigger] tm.marks@[k] == old_marks[k],
            forall|k: int|
                0 <= k < i ==> line_start_of(
                    buffer@,
                    eol_pattern(&tm.text_codec),
                    old_marks[k].offset as int,
                    #[trigger] tm.marks@[k].offset as int,
                ),
            center == (midx < i && !screen.offset_in_range(tm.marks@[midx as int].offset)),
        decreases n - i,
    {
        let mut m = tm.marks[i];
        m.move_to_start_of_line(buffer, &tm.text_codec);
        tm.marks.set(i, m);
        if i == midx && !screen.contains_offset(m.offset) {
            center = true;
        }
        i = i + 1;
    }
    if center {
        tm.pre_compose_action.push(PostInputAction::CenterAroundMainMark);
    }
    tm.pre_compose_action.push(PostInputAction::CheckMarks);
    tm.prev_action = TextModeAction::MarksMove;
}

/// Moves each mark to the end of its line; the view is centered on the
/// main mark when the screen does not show it any more.
pub fn move_marks_to_end_of_line<C: TextCodec>(tm: &mut TextModeContext<C>, buffer: &Buffer, screen: &Screen)
    requires
        screen.wf(),
        screen.covers_its_range(),
    ensures
        final(tm).same_but_marks(*old(tm)),
        final(tm).marks@.len() == old(tm).marks@.len(),
        forall|k: int|
            0 <= k < old(tm).marks@.len() ==> line_end_of(
                buffer@,
                eol_pattern(&old(tm).text_codec),
                old(tm).marks@[k].offset as int,
                #[trigger] final(tm).marks@[k].offset as int,
            ),
        final(tm).mark_index == old(tm).mark_index,
        final(tm).pre_compose_action@ == push_if(
            old(tm).pre_compose_action@,
            old(tm).mark_index < old(tm).marks@.len() && !screen.offset_in_range(
                final(tm).marks@[old(tm).mark_index as int].offset,
            ),
            PostInputAction::CenterAroundMainMark,
        ).push(PostInputAction::CheckMarks),
        final(tm).prev_action == TextModeAction::MarksMove,
{
    let midx = tm.mark_index;
    let n = tm.marks.len();
    let ghost old_marks = tm.marks@;
    let ghost t0 = *tm;
    let mut center = false;
    let mut i: usize = 0;
    while i < n
        invariant
            n == old_marks.len(),
            tm.marks@.len() == n,
            tm.same_but_marks(t0),
            tm.pre_compose_action == t0.pre_compose_action,
            tm.mark_index == t0.mark_index,
            tm.prev_action == t0.prev_action,
            0 <= i <= n,
            midx == tm.mark_index,
            screen.wf(),
            screen.covers_its_range(),
            forall|k: int| i <= k < n ==> #[trigger] tm.marks@[k] == old_marks[k],
            forall|k: int|
                0 <= k < i ==> line_end_of(
                    buffer@,
                    eol_pattern(&tm.text_codec),
                    old_marks[k].offset as int,
                    #[trigger] tm.marks@[k].offset as int,
                ),
            center == (midx < i && !screen.offset_in_range(tm.marks@[midx as int].offset)),
        decreases n - i,
    {
        let mut m = tm.marks[i];
        m.move_to_end_of_line(buffer, &tm.text_codec);
        tm.marks.set(i, m);
        if i == midx && !screen.contains_offset(m.offset) {
            center = true;
        }
        i = i + 1;
    }
    if center {
        tm.pre_compose_action.push(PostInputAction::CenterAroundMainMark);
    }
    tm.pre_compose_action.push(PostInputAction::CheckMarks);
    tm.prev_action = TextModeAction::MarksMove;
}

/// Puts a single mark at the end of the document, and the view there,
/// half a screen of `height` lines to scroll back up.
pub fn move_mark_to_end_of_file<C: TextCodec>(
    tm: &mut TextModeContext<C>,
    buffer: &Buffer,
    start_offset: &mut u64,
    height: usize,
)
    ensures
        final(tm).same_but_marks(*old(tm)),
        final(tm).marks@ == seq![Mark { offset: buffer@.len() as u64 }],
        final(tm).mark_index == 0,
        *final(start_offset) == buffer@.len(),
        final(tm).pre_compose_action@ == old(tm).pre_compose_action@.push(
            PostInputAction::ScrollUp { n: height / 2 },
        ),
        final(tm).prev_action == old(tm).prev_action,
{
    let offset = buffer.size() as u64;
    *start_offset = offset;
    let n = height / 2;
    tm.mark_index = 0;
    tm.marks.clear();
    tm.marks.push(Mark { offset });
    tm.pre_compose_action.push(PostInputAction::ScrollUp { n });
}

/// Puts a single mark at the start of the document, and the view there.
pub fn move_mark_to_start_of_file<C: TextCodec>(tm: &mut TextModeContext<C>, start_offset: &mut u64)
    ensures
        final(tm).same_but_marks(*old(tm)),
        final(tm).marks@ == seq![Mark { offset: 0 }],
        final(tm).mark_index == 0,
        *final(start_offset) == 0,
        final(tm).pre_compose_action == old(tm).pre_compose_action,
        final(tm).prev_action == old(tm).prev_action,
{
    *start_offset = 0;
    tm.mark_index = 0;
    tm.marks.clear();
    tm.marks.push(Mark { offset: 0 });
}

/// Where a mark at `o` goes when the marks outside the view, from
/// `start_offset` to `end_offset`, are brought to `target`.
pub open spec fn brought_into_view(o: u64, start_offset: u64, end_offset: u64, target: u64) -> u64 {
    if o < start_offset || o > end_offset {
        target
    } else {
        o
    }
}

/// Brings the marks that lie outside the view, from `start_offset` to
/// `end_offset`, to `target`.
fn bring_marks_into_view<C: TextCodec>(tm: &mut TextModeContext<C>, start_offset: u64, end_offset: u64, target: u64)
    ensures
        final(tm).same_but_marks(*old(tm)),
        final(tm).marks@.len() == old(tm).marks@.len(),
        forall|k: int|
            0 <= k < old(tm).marks@.len() ==> #[trigger] final(tm).marks@[k].offset == brought_into_view(
                old(tm).marks@[k].offset,
                start_offset,
                end_offset,
                target,
            ),
        final(tm).mark_index == old(tm).mark_index,
        final(tm).pre_compose_action == old(tm).pre_compose_action,
        final(tm).prev_action == old(tm).prev_action,
{
    let n = tm.marks.len();
    let ghost old_marks = tm.marks@;
    let ghost t0 = *tm;
    let mut i: usize = 0;
    while i < n
        invariant
            n == old_marks.len(),
            tm.marks@.len() == n,
            tm.same_but_marks(t0),
            tm.pre_compose_action == t0.pre_compose_action,
            tm.mark_index == t0.mark_index,
            tm.prev_action == t0.prev_action,
            0 <= i <= n,
            forall|k: int| i <= k < n ==> #[trigger] tm.marks@[k] == old_marks[k],
            forall|k: int|
                0 <= k < i ==> #[trigger] tm.marks@[k].offset == brought_into_view(
                    old_marks[k].offset,
                    start_offset,
                    end_offset,
                    target,
                ),
        decreases n - i,
    {
        let o = tm.marks[i].offset;
        if o < start_offset || o > end_offset {
            tm.marks.set(i, Mark { offset: target });
        }
        i = i + 1;
    }
}

/// Brings the marks that lie outside the view, from `start_offset` to
/// `end_offset`, to its end.
pub fn move_mark_to_screen_end<C: TextCodec>(tm: &mut TextModeContext<C>, start_offset: u64, end_offset: u64)
    ensures
        final(tm).same_but_marks(*old(tm)),
        final(tm).marks@.len() == old(tm).marks@.len(),
        forall|k: int|
            0 <= k < old(tm).marks@.len() ==> #[trigger] final(tm).marks@[k].offset == brought_into_view(
                old(tm).marks@[k].offset,
                start_offset,
                end_offset,
                end_offset,
            ),
        final(tm).mark_index == old(tm).mark_index,
        final(tm).pre_compose_action == old(tm).pre_compose_action,
        final(tm).prev_action == old(tm).prev_action,
{
    bring_marks_into_view(tm, start_offset, end_offset, end_offset);
}

/// Brings the marks that lie outside the view, from `start_offset` to
/// `end_offset`, to its start.
pub fn move_mark_to_screen_start<C: TextCodec>(tm: &mut TextModeContext<C>, start_offset: u64, end_offset: u64)
    ensures
        final(tm).same_but_marks(*old(tm)),
        final(tm).marks@.len() == old(tm).marks@.len(),
        forall|k: int|
            0 <= k < old(tm).marks@.len() ==> #[trigger] final(tm).marks@[k].offset == brought_into_view(
                old(tm).marks@[k].offset,
                start_offset,
                end_offset,
                start_offset,
            ),
        final(tm).mark_index == old(tm).mark_index,
        final(tm).pre_compose_action == old(tm).pre_compose_action,
        final(tm).prev_action == old(tm).prev_action,
{
    bring_marks_into_view(tm, start_offset, end_offset, start_offset);
}

/// Moves each mark to the start of the token before it; the view is
/// centered on the main mark when the screen does not show it any more.
pub fn move_to_token_start<C: TextCodec>(tm: &mut TextModeContext<C>, buffer: &Buffer, screen: &Screen)
    requires
        screen.wf(),
        screen.covers_its_range(),
        marks_within(old(tm).marks@, buffer@.len()),
    ensures
        final(tm).same_but_marks(*old(tm)),
        final(tm).marks@.len() == old(tm).marks@.len(),
        forall|k: int|
            0 <= k < old(tm).marks@.len() ==> #[trigger] final(tm).marks@[k].offset == token_start(
                &old(tm).text_codec,
                buffer@,
                old(tm).marks@[k].offset as int,
            ),
        final(tm).mark_index == old(tm).mark_index,
        final(tm).pre_compose_action@ == push_if(
            old(tm).pre_compose_action@,
            old(tm).mark_index < old(tm).marks@.len() && !screen.offset_in_range(
                final(tm).marks@[old(tm).mark_index as int].offset,
            ),
            PostInputAction::CenterAroundMainMark,
        ),
        final(tm).prev_action == TextModeAction::MarksMove,
{
    let midx = tm.mark_index;
    let n = tm.marks.len();
    let ghost old_marks = tm.marks@;
    let ghost t0 = *tm;
    let mut center = false;
    let mut i: usize = 0;
    while i < n
        invariant
            n == old_marks.len(),
            tm.marks@.len() == n,
            tm.same_but_marks(t0),
            tm.pre_compose_action == t0.pre_compose_action,
            tm.mark_index == t0.mark_index,
            tm.prev_action == t0.prev_action,
            0 <= i <= n,
            midx == tm.mark_index,
            screen.wf(),
            screen.covers_its_range(),
            marks_within(old_marks, buffer@.len()),
            forall|k: int| i <= k < n ==> #[trigger] tm.marks@[k] == old_marks[k],
            forall|k: int|
                0 <= k < i ==> #[trigger] tm.marks@[k].offset == token_start(
                    &tm.text_codec,
                    buffer@,
                    old_marks[k].offset as int,
                ),
            center == (midx < i && !screen.offset_in_range(tm.marks@[midx as int].offset)),
        decreases n - i,
    {
        let mut m = tm.marks[i];
        m.move_to_token_start(buffer, &tm.text_codec);
        tm.marks.set(i, m);
        if i == midx && !screen.contains_offset(m.offset) {
            center = true;
        }
        i = i + 1;
    }
    if center {
        tm.pre_compose_action.push(PostInputAction::CenterAroundMainMark);
    }
    tm.prev_action = TextModeAction::MarksMove;
}

/// Moves each mark to the end of the token at or after it; the view is
/// centered on the main mark when the screen does not show one of the
/// marks any more.
pub fn move_to_token_end<C: TextCodec>(tm: &mut TextModeContext<C>, buffer: &Buffer, screen: &Screen)
    requires
        screen.wf(),
        screen.covers_its_range(),
        marks_within(old(tm).marks@, buffer@.len()),
    ensures
        final(tm).same_but_marks(*old(tm)),
        final(tm).marks@.len() == old(tm).marks@.len(),
        forall|k: int|
            0 <= k < old(tm).marks@.len() ==> #[trigger] final(tm).marks@[k].offset == token_end(
                &old(tm).text_codec,
                buffer@,
                old(tm).marks@[k].offset as int,
            ),
        final(tm).mark_index == old(tm).mark_index,
        final(tm).pre_compose_action@ == push_if(
            old(tm).pre_compose_action@,
            exists|k: int|
                0 <= k < old(tm).marks@.len() && !screen.offset_in_range(
                    #[trigger] final(tm).marks@[k].offset,
                ),
            PostInputAction::CenterAroundMainMark,
        ),
        final(tm).prev_action == TextModeAction::MarksMove,
{
    let n = tm.marks.len();
    let ghost old_marks = tm.marks@;
    let ghost t0 = *tm;
    let mut sync = false;
    let ghost mut w: int = -1;
    let mut i: usize = 0;
    while i < n
        invariant
            n == old_marks.len(),
            tm.marks@.len() == n,
            tm.same_but_marks(t0),
            tm.pre_compose_action == t0.pre_compose_action,
            tm.mark_index == t0.mark_index,
            tm.prev_action == t0.prev_action,
            0 <= i <= n,
            screen.wf(),
            screen.covers_its_range(),
            marks_within(old_marks, buffer@.len()),
            forall|k: int| i <= k < n ==> #[trigger] tm.marks@[k] == old_marks[k],
            forall|k: int|
                0 <= k < i ==> #[trigger] tm.marks@[k].offset == token_end(
                    &tm.text_codec,
                    buffer@,
                    old_marks[k].offset as int,
                ),
            sync ==> 0 <= w < i && !screen.offset_in_range(tm.marks@[w].offset),
            !sync ==> forall|k: int| 0 <= k < i ==> screen.offset_in_range(#[trigger] tm.marks@[k].offset),
        decreases n - i,
    {
        let mut m = tm.marks[i];
        m.move_to_token_end(buffer, &tm.text_codec);
        tm.marks.set(i, m);
        if !screen.contains_offset(m.offset) {
            sync = true;
            proof {
                w = i as int;
            }
        }
        i = i + 1;
    }
    if sync {
        tm.pre_compose_action.push(PostInputAction::CenterAroundMainMark);
    }
    tm.prev_action = TextModeAction::MarksMove;
}

/// What moving a mark to the next line comes to once the screen was
/// looked at: done (with the offsets the mark went from and to, when it
/// moved), or the lines of the document from `start_offset` to
/// `end_offset`, laid out on a screen of `width` by `height`, are needed.
pub enum NextLineStep {
    Done(Option<(u64, u64)>),
    NeedLines { start_offset: u64, end_offset: u64, width: usize, height: usize },
}

/// Moves the mark `mark_idx` to the next line when the screen shows it
/// (see `next_line_move`; an action it asks for is queued). A mark at the
/// end of the document stays. When the screen does not show the mark,
/// asks for the lines from the start of its line to a line further.
pub fn move_mark_to_next_line<C: TextCodec>(
    tm: &mut TextModeContext<C>,
    buffer: &Buffer,
    screen: &Screen,
    mark_idx: usize,
) -> (r: NextLineStep)
    requires
        mark_idx < old(tm).marks@.len(),
        screen.wf(),
        screen.covers_its_range(),
        next_line_move_ok(*screen, old(tm).marks@[mark_idx as int].offset),
        old(tm).marks@[mark_idx as int].offset + 4 * screen.spec_width() <= u64::MAX,
    ensures
        final(tm).same_but_marks(*old(tm)),
        final(tm).mark_index == old(tm).mark_index,
        final(tm).prev_action == old(tm).prev_action,
        final(tm).marks@.len() == old(tm).marks@.len(),
        ({
            let o = old(tm).marks@[mark_idx as int].offset;
            let t = next_line_move(*screen, o);
            if o == buffer@.len() {
                &&& r == NextLineStep::Done(None)
                &&& final(tm).marks == old(tm).marks
                &&& final(tm).pre_compose_action == old(tm).pre_compose_action
            } else {
                &&& final(tm).marks@ == old(tm).marks@.update(mark_idx as int, Mark { offset: t.3 })
                &&& final(tm).pre_compose_action@ == match t.2 {
                    Some(a) => old(tm).pre_compose_action@.push(a),
                    None => old(tm).pre_compose_action@,
                }
                &&& t.0 ==> r == NextLineStep::Done(t.1)
                &&& !t.0 ==> (r matches NextLineStep::NeedLines { start_offset, end_offset, width, height }
                    && line_start_of(buffer@, eol_pattern(&old(tm).text_codec), t.3 as int, start_offset as int)
                    && end_offset == (if o + 4 * screen.spec_width() < buffer@.len() {
                    o + 4 * screen.spec_width()
                } else {
                    buffer@.len() as int
                }) && width == screen.spec_width() && height == screen.spec_height())
            }
        }),
{
    let max_offset = buffer.size() as u64;
    let mut m = tm.marks[mark_idx];
    let m_offset = m.offset;
    if m.offset == max_offset {
        return NextLineStep::Done(None);
    }
    let (ok, offsets, action) = move_on_screen_mark_to_next_line(&mut m, screen);
    tm.marks.set(mark_idx, m);
    match action {
        Some(a) => {
            tm.pre_compose_action.push(a);
        },
        None => {},
    }
    if ok {
        return NextLineStep::Done(offsets);
    }
    let screen_width = screen.width();
    let screen_height = screen.height();
    let mut tmp = Mark::new(tm.marks[mark_idx].offset);
    tmp.move_to_start_of_line(buffer, &tm.text_codec);
    let reach = m_offset + 4 * screen_width as u64;
    let end_offset = if reach < max_offset {
        reach
    } else {
        max_offset
    };
    NextLineStep::NeedLines { start_offset: tmp.offset, end_offset, width: screen_width, height: screen_height }
}

/// The index of the first line of `lines`, from index `i` on, whose
/// offsets `[start, end)` hold `m`; -1 when none does.
pub open spec fn line_index_of(lines: Seq<(u64, u64)>, m: u64, i: int) -> int
    decreases lines.len() - i,
{
    if i < 0 || i >= lines.len() {
        -1
    } else if lines[i].0 <= m < lines[i].1 {
        i
    } else {
        line_index_of(lines, m, i + 1)
    }
}

/// How many code points there are from `s` to the first of `e` and `m`.
pub open spec fn column_steps<C: TextCodec>(codec: &C, buf: Seq<u8>, s: int, e: int, m: int) -> nat
    decreases e - s,
{
    if s >= e || s == m {
        0
    } else {
        let n = forward_offset(codec, buf, s);
        if n <= s {
            0
        } else if n >= e {
            1
        } else {
            1 + column_steps(codec, buf, n, e, m)
        }
    }
}

/// Where `k` moves forward over a code point take the offset `s`.
pub open spec fn forward_steps<C: TextCodec>(codec: &C, buf: Seq<u8>, s: int, k: nat) -> int
    decreases k,
{
    if k == 0 {
        s
    } else {
        forward_offset(codec, buf, forward_steps(codec, buf, s, (k - 1) as nat))
    }
}

/// Where the mark at `m` goes in the next line of `lines`: as many code
/// points from its start as the mark is from the start of its own line,
/// but not past its end. `None` when no line holds the mark, or when it is
/// on the last one.
pub open spec fn next_line_in_lines<C: TextCodec>(codec: &C, buf: Seq<u8>, lines: Seq<(u64, u64)>, m: u64) -> Option<
    u64,
> {
    let i = line_index_of(lines, m, 0);
    if i < 0 || i == lines.len() - 1 {
        None
    } else {
        let x = column_steps(codec, buf, lines[i].0 as int, lines[i].1 as int, m as int);
        let t = forward_steps(codec, buf, lines[i + 1].0 as int, x);
        Some(
            if t < lines[i + 1].1 {
                t as u64
            } else {
                lines[i + 1].1
            },
        )
    }
}

/// The lines lie in the document, each starting before it ends.
pub open spec fn lines_within(lines: Seq<(u64, u64)>, len: nat) -> bool {
    forall|k: int| 0 <= k < lines.len() ==> #[trigger] lines[k].0 <= lines[k].1 <= len
}

/// Moves the mark `mark_idx`, that the screen does not show, to the next
/// of the lines `lines` laid out for it (see `next_line_in_lines`);
/// returns the offsets it went from and to.
pub fn move_mark_to_next_line_in_lines<C: TextCodec>(
    tm: &mut TextModeContext<C>,
    buffer: &Buffer,
    mark_idx: usize,
    lines: &Vec<(u64, u64)>,
) -> (r: Option<(u64, u64)>)
    requires
        mark_idx < old(tm).marks@.len(),
        lines_within(lines@, buffer@.len()),
    ensures
        final(tm).same_but_marks(*old(tm)),
        final(tm).mark_index == old(tm).mark_index,
        final(tm).prev_action == old(tm).prev_action,
        final(tm).pre_compose_action == old(tm).pre_compose_action,
        ({
            let m = old(tm).marks@[mark_idx as int].offset;
            match next_line_in_lines(&old(tm).text_codec, buffer@, lines@, m) {
                None => r is None && final(tm).marks == old(tm).marks,
                Some(n) => r == Some((m, n)) && final(tm).marks@ == old(tm).marks@.update(
                    mark_idx as int,
                    Mark { offset: n },
                ),
            }
        }),
{
    let m_offset = tm.marks[mark_idx].offset;
    let n = lines.len();
    let mut i: usize = 0;
    let mut found = false;
    while i < n && !found
        invariant
            n == lines@.len(),
            0 <= i <= n,
            line_index_of(lines@, m_offset, 0) == line_index_of(lines@, m_offset, i as int),
            found ==> i < n && lines@[i as int].0 <= m_offset < lines@[i as int].1,
        decreases n - i + if found {
            0int
        } else {
            1int
        },
    {
        if lines[i].0 <= m_offset && m_offset < lines[i].1 {
            found = true;
        } else {
            i = i + 1;
        }
    }
    if !found || i == n - 1 {
        return None;
    }
    let line_end = lines[i].1;
    let mut s = Mark::new(lines[i].0);
    let mut count: u64 = 0;
    assert(lines@[i as int].0 <= lines@[i as int].1 <= buffer@.len());
    while s.offset < line_end && s.offset != m_offset
        invariant
            n == lines@.len(),
            i + 1 < n,
            s.offset <= buffer@.len(),
            line_end <= buffer@.len(),
            count + column_steps(&tm.text_codec, buffer@, s.offset as int, line_end as int, m_offset as int)
                == column_steps(&tm.text_codec, buffer@, lines@[i as int].0 as int, line_end as int, m_offset as int),
            count <= s.offset,
        decreases buffer@.len() - s.offset,
    {
        s.move_forward(buffer, &tm.text_codec);
        count = count + 1;
    }
    let next_start = lines[i + 1].0;
    let next_end = lines[i + 1].1;
    assert(lines@[i + 1].0 <= lines@[i + 1].1 <= buffer@.len());
    let mut t = Mark::new(next_start);
    let mut k: u64 = 0;
    while k < count
        invariant
            k <= count,
            t.offset <= buffer@.len(),
            t.offset == forward_steps(&tm.text_codec, buffer@, next_start as int, k as nat),
        decreases count - k,
    {
        t.move_forward(buffer, &tm.text_codec);
        k = k + 1;
    }
    let new_offset = if t.offset < next_end {
        t.offset
    } else {
        next_end
    };
    tm.marks.set(mark_idx, Mark { offset: new_offset });
    Some((m_offset, new_offset))
}

/// From column `x` of line `y`, leftwards, the first cell that is no
/// metadata (or the first column).
pub open spec fn non_meta_left(s: Screen, x: int, y: int) -> int
    decreases x,
{
    if x > 0 && s.cell_xy(x, y).cpi.metadata {
        non_meta_left(s, x - 1, y)
    } else {
        x
    }
}

/// The column a mark at column `x` goes to on the line `ny` above it: the
/// same column, or the last used one when the line is shorter, then
/// leftwards over metadata cells.
pub open spec fn prev_line_column(s: Screen, x: int, ny: int) -> int {
    let n = s.line@[s.row(ny)].nb_cells as int;
    non_meta_left(s, if x < n - 1 { x } else { n - 1 }, ny)
}

/// Where moving a mark at `offset` to the previous screen line takes it,
/// and whether it moved: a mark the screen does not show, or on its first
/// line, stays.
pub open spec fn prev_line_move(s: Screen, offset: u64) -> (u64, bool) {
    if !s.offset_in_range(offset) {
        (offset, false)
    } else {
        let y = offset_line(s, offset);
        let x = offset_column(s, offset, y);
        if y == 0 {
            (offset, false)
        } else {
            (s.cell_xy(prev_line_column(s, x, y - 1), y - 1).cpi.offset->0, true)
        }
    }
}

/// The line above a mark the screen shows is used, and the cell it lands
/// on records an offset.
pub open spec fn prev_line_move_ok(s: Screen, offset: u64) -> bool {
    s.offset_in_range(offset) ==> {
        let y = offset_line(s, offset);
        let x = offset_column(s, offset, y);
        y > 0 ==> s.line_is_used(y - 1) && s.line@[s.row(y - 1)].nb_cells > 0 && s.cell_xy(
            prev_line_column(s, x, y - 1),
            y - 1,
        ).cpi.offset is Some
    }
}

/// Moves the mark `midx` to the previous line of `screen` (see
/// `prev_line_move`); returns its offset and whether it moved.
pub fn move_on_screen_mark_to_previous_line(marks: &mut Vec<Mark>, screen: &Screen, midx: usize) -> (r: (u64, bool))
    requires
        midx < old(marks)@.len(),
        screen.wf(),
        screen.covers_its_range(),
        prev_line_move_ok(*screen, old(marks)@[midx as int].offset),
    ensures
        r == prev_line_move(*screen, old(marks)@[midx as int].offset),
        final(marks)@ == old(marks)@.update(midx as int, Mark { offset: r.0 }),
{
    let offset = marks[midx].offset;
    if !screen.contains_offset(offset) {
        proof {
            assert(marks@.update(midx as int, Mark { offset }) =~= marks@);
        }
        return (offset, false);
    }
    let (_, x, y) = screen.find_cpi_by_offset(offset);
    proof {
        lemma_offset_line_unique(*screen, offset, y as int);
        lemma_offset_column_unique(*screen, offset, y as int, x as int);
    }
    if y == 0 {
        proof {
            assert(marks@.update(midx as int, Mark { offset }) =~= marks@);
        }
        return (offset, false);
    }
    let new_y = y - 1;
    let n = match screen.get_used_line(new_y) {
        Some(l) => l.nb_cells,
        None => 0,
    };
    let mut new_x = if x < n - 1 {
        x
    } else {
        n - 1
    };
    let ghost x0 = new_x;
    let mut stop = false;
    while new_x > 0 && !stop
        invariant
            screen.wf(),
            new_y < screen.spec_height(),
            x0 < screen.spec_width(),
            new_x <= x0,
            non_meta_left(*screen, new_x as int, new_y as int) == non_meta_left(*screen, x0 as int, new_y as int),
            stop ==> !screen.cell_xy(new_x as int, new_y as int).cpi.metadata,
        decreases new_x + if stop {
            0int
        } else {
            1int
        },
    {
        let cpi = screen.get_cpinfo(new_x, new_y).unwrap();
        if !cpi.metadata {
            stop = true;
        } else {
            new_x = new_x - 1;
        }
    }
    let cpi = screen.get_cpinfo(new_x, new_y).unwrap();
    let new_offset = cpi.offset.unwrap();
    marks.set(midx, Mark { offset: new_offset });
    (new_offset, true)
}

/// How far back the lines for a previous-line move are laid out: a
/// screen of `w` by `h` cells of four bytes each.
pub open spec fn rewind_start(m: u64, w: int, h: int) -> u64 {
    let rewind = w * h * 4;
    if m >= rewind {
        (m - rewind) as u64
    } else {
        0
    }
}

/// Moves the mark `midx` to the previous line when the screen shows both
/// (see `prev_line_move`); returns `None` then, or when the mark is at the
/// start of the document. Otherwise returns what lines are needed: from a
/// screen's worth of bytes before the mark to the end of the screen, laid
/// out on a screen of its width and height.
pub fn move_mark_to_previous_line(marks: &mut Vec<Mark>, screen: &Screen, midx: usize) -> (r: Option<
    (u64, u64, usize, usize),
>)
    requires
        midx < old(marks)@.len(),
        screen.wf(),
        screen.covers_its_range(),
        prev_line_move_ok(*screen, old(marks)@[midx as int].offset),
        screen.spec_width() * screen.spec_height() * 4 <= usize::MAX,
        screen.last_offset is Some || old(marks)@[midx as int].offset == rewind_start(
            old(marks)@[midx as int].offset,
            screen.spec_width(),
            screen.spec_height(),
        ) || prev_line_move(*screen, old(marks)@[midx as int].offset).1,
    ensures
        ({
            let o = old(marks)@[midx as int].offset;
            let t = prev_line_move(*screen, o);
            let start = rewind_start(o, screen.spec_width(), screen.spec_height());
            &&& final(marks)@ == old(marks)@.update(midx as int, Mark { offset: t.0 })
            &&& r == if t.1 || start == o {
                None
            } else {
                Some((start, screen.last_offset->0, screen.spec_width() as usize, screen.spec_height() as usize))
            }
        }),
{
    let (m_offset, moved) = move_on_screen_mark_to_previous_line(marks, screen, midx);
    if moved {
        return None;
    }
    let (width, height) = screen.dimension();
    let rewind = (width * height * 4) as u64;
    let start_offset = if m_offset >= rewind {
        m_offset - rewind
    } else {
        0
    };
    if start_offset == m_offset {
        return None;
    }
    let end_offset = screen.last_offset.unwrap();
    Some((start_offset, end_offset, width, height))
}

/// The index of the first line of `lines`, from index `i` on, whose
/// offsets `[start, end]` (both ends included) hold `m`; -1 when none
/// does.
pub open spec fn line_index_incl(lines: Seq<(u64, u64)>, m: u64, i: int) -> int
    decreases lines.len() - i,
{
    if i < 0 || i >= lines.len() {
        -1
    } else if lines[i].0 <= m <= lines[i].1 {
        i
    } else {
        line_index_incl(lines, m, i + 1)
    }
}

/// Moves the mark `midx`, that the screen does not show on a line below
/// its first, to the start of the line before its own among `lines` (to
/// the start of the last line when none holds it); the view then starts
/// there. A mark on the first of the lines stays.
pub fn move_mark_to_previous_line_in_lines(
    marks: &mut Vec<Mark>,
    midx: usize,
    lines: &Vec<(u64, u64)>,
    start_offset: &mut u64,
)
    requires
        midx < old(marks)@.len(),
        lines@.len() > 0,
    ensures
        ({
            let m = old(marks)@[midx as int].offset;
            let i = line_index_incl(lines@, m, 0);
            if i == 0 {
                final(marks)@ == old(marks)@ && *final(start_offset) == *old(start_offset)
            } else {
                let idx = if i < 0 {
                    lines@.len() - 1
                } else {
                    i - 1
                };
                &&& final(marks)@ == old(marks)@.update(midx as int, Mark { offset: lines@[idx].0 })
                &&& *final(start_offset) == lines@[idx].0
            }
        }),
{
    let m_offset = marks[midx].offset;
    let n = lines.len();
    let mut i: usize = 0;
    let mut found = false;
    while i < n && !found
        invariant
            n == lines@.len(),
            0 <= i <= n,
            line_index_incl(lines@, m_offset, 0) == line_index_incl(lines@, m_offset, i as int),
            found ==> i < n && lines@[i as int].0 <= m_offset <= lines@[i as int].1,
        decreases n - i + if found {
            0int
        } else {
            1int
        },
    {
        if lines[i].0 <= m_offset && m_offset <= lines[i].1 {
            found = true;
        } else {
            i = i + 1;
        }
    }
    let index = if !found {
        n - 1
    } else if i == 0 {
        return ;
    } else {
        i - 1
    };
    let line_start_off = lines[index].0;
    *start_offset = line_start_off;
    marks.set(midx, Mark { offset: line_start_off });
}

/// Duplicates the last mark, which becomes the main one; returns its
/// index.
pub fn clone_last_mark<C: TextCodec>(tm: &mut TextModeContext<C>) -> (idx: usize)
    requires
        0 < old(tm).marks@.len() < usize::MAX,
    ensures
        final(tm).same_but_marks(*old(tm)),
        final(tm).marks@ == old(tm).marks@.push(old(tm).marks@.last()),
        idx == old(tm).marks@.len(),
        final(tm).mark_index == idx,
        final(tm).pre_compose_action == old(tm).pre_compose_action,
        final(tm).prev_action == old(tm).prev_action,
{
    let midx = tm.marks.len() - 1;
    let offset = tm.marks[midx].offset;
    tm.marks.push(Mark { offset });
    let n = tm.marks.len();
    tm.mark_index = n - 1;
    n - 1
}

/// Once the cloned last mark was moved to the next line (`offsets`, as
/// `move_mark_to_next_line` gives them): when it could not move, the marks
/// are checked; when it stayed, the clone is dropped and the view centered
/// on the main mark; otherwise the view follows it, and the marks changed.
pub fn end_clone_and_move_mark_to_next_line<C: TextCodec>(
    tm: &mut TextModeContext<C>,
    screen: &Screen,
    offsets: Option<(u64, u64)>,
)
    requires
        old(tm).marks@.len() >= 2,
        old(tm).mark_revision < usize::MAX,
        screen.wf(),
        screen.covers_its_range(),
    ensures
        final(tm).select_point == old(tm).select_point,
        final(tm).copy_buffer == old(tm).copy_buffer,
        final(tm).prev_action == old(tm).prev_action,
        final(tm).text_codec == old(tm).text_codec,
        final(tm).post_compose_action == old(tm).post_compose_action,
        match offsets {
            None => {
                &&& final(tm).marks@ == super::editing::dedup_marks_spec(old(tm).marks@)
                &&& final(tm).mark_index == final(tm).marks@.len() - 1
                &&& final(tm).pre_compose_action == old(tm).pre_compose_action
                &&& final(tm).mark_revision == old(tm).mark_revision
            },
            Some((a, b)) => if a == b {
                &&& final(tm).marks@ == old(tm).marks@.drop_last()
                &&& final(tm).mark_index == old(tm).marks@.len() - 2
                &&& final(tm).pre_compose_action@ == old(tm).pre_compose_action@.push(
                    PostInputAction::CenterAroundMainMark,
                )
                &&& final(tm).mark_revision == old(tm).mark_revision
            } else {
                &&& final(tm).marks == old(tm).marks
                &&& final(tm).mark_index == old(tm).mark_index
                &&& final(tm).mark_revision == old(tm).mark_revision + 1
                &&& final(tm).pre_compose_action@ == if screen.offset_in_range(a) && !screen.offset_in_range(b) {
                    old(tm).pre_compose_action@.push(PostInputAction::ScrollDown { n: 1 })
                } else {
                    push_if(
                        old(tm).pre_compose_action@,
                        !screen.offset_in_range(b),
                        PostInputAction::CenterAroundMainMark,
                    )
                }
            },
        },
{
    match offsets {
        None => {
            super::editing::dedup_marks(&mut tm.marks);
            proof {
                super::editing::lemma_dedup_nonempty(old(tm).marks@);
            }
            tm.mark_index = tm.marks.len() - 1;
        },
        Some((a, b)) => {
            if a == b {
                tm.marks.pop();
                tm.mark_index = tm.marks.len() - 1;
                tm.pre_compose_action.push(PostInputAction::CenterAroundMainMark);
                return ;
            }
            let was_on_screen = screen.contains_offset(a);
            let is_on_screen = screen.contains_offset(b);
            if was_on_screen && !is_on_screen {
                tm.pre_compose_action.push(PostInputAction::ScrollDown { n: 1 });
            } else if !is_on_screen {
                tm.pre_compose_action.push(PostInputAction::CenterAroundMainMark);
            }
            tm.mark_revision = tm.mark_revision + 1;
        },
    }
}

/// Once a copy `moved` of the marks had its first mark moved to the
/// previous line: unless it stayed at `prev_off`, the marks become the
/// copy with a mark added back at `prev_off`, after the moved one which is
/// the main mark; the view follows it, and the marks changed.
pub fn end_clone_and_move_mark_to_previous_line<C: TextCodec>(
    tm: &mut TextModeContext<C>,
    screen: &Screen,
    moved: Vec<Mark>,
    prev_off: u64,
)
    requires
        moved@.len() > 0,
        old(tm).mark_revision < usize::MAX,
        screen.wf(),
        screen.covers_its_range(),
    ensures
        final(tm).select_point == old(tm).select_point,
        final(tm).copy_buffer == old(tm).copy_buffer,
        final(tm).prev_action == old(tm).prev_action,
        final(tm).text_codec == old(tm).text_codec,
        final(tm).post_compose_action == old(tm).post_compose_action,
        moved@[0].offset == prev_off ==> *final(tm) == *old(tm),
        moved@[0].offset != prev_off ==> {
            &&& final(tm).marks@ == seq![moved@[0]] + moved@.update(0, Mark { offset: prev_off })
            &&& final(tm).mark_index == 0
            &&& final(tm).mark_revision == old(tm).mark_revision + 1
            &&& final(tm).pre_compose_action@ == if screen.offset_in_range(prev_off) && !screen.offset_in_range(
                moved@[0].offset,
            ) {
                old(tm).pre_compose_action@.push(PostInputAction::ScrollUp { n: 1 })
            } else {
                push_if(
                    old(tm).pre_compose_action@,
                    !screen.offset_in_range(moved@[0].offset),
                    PostInputAction::CenterAroundMainMark,
                )
            }
        },
{
    if moved[0].offset == prev_off {
        return ;
    }
    let first = moved[0];
    tm.marks = moved;
    tm.mark_index = 0;
    tm.marks.set(0, Mark { offset: prev_off });
    tm.marks.insert(0, first);
    let was_on_screen = screen.contains_offset(prev_off);
    let is_on_screen = screen.contains_offset(first.offset);
    if was_on_screen && !is_on_screen {
        tm.pre_compose_action.push(PostInputAction::ScrollUp { n: 1 });
    } else if !is_on_screen {
        tm.pre_compose_action.push(PostInputAction::CenterAroundMainMark);
    }
    tm.mark_revision = tm.mark_revision + 1;
}

/// Puts back the marks once each was moved to the previous line: a single
/// mark that moved becomes the main mark; the read cache is refreshed and
/// the marks are checked.
pub fn end_marks_to_previous_line<C: TextCodec>(tm: &mut TextModeContext<C>, marks: Vec<Mark>)
    requires
        old(tm).marks@.len() >= 1,
        marks@.len() == old(tm).marks@.len(),
    ensures
        final(tm).same_but_marks(*old(tm)),
        final(tm).marks@ == marks@,
        final(tm).mark_index == if marks@.len() == 1 && marks@[0].offset != old(tm).marks@[0].offset {
            0
        } else {
            old(tm).mark_index
        },
        final(tm).pre_compose_action@ == old(tm).pre_compose_action@.push(PostInputAction::UpdateReadCache).push(
            PostInputAction::CheckMarks,
        ),
        final(tm).prev_action == TextModeAction::MarksMove,
{
    let single_moved = marks.len() == 1 && marks[0].offset != tm.marks[0].offset;
    tm.marks = marks;
    if single_moved {
        tm.mark_index = 0;
    }
    tm.pre_compose_action.push(PostInputAction::UpdateReadCache);
    tm.pre_compose_action.push(PostInputAction::CheckMarks);
    tm.prev_action = TextModeAction::MarksMove;
}

} // verus!
