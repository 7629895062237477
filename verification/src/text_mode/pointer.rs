//! The pointer in a text view: a click puts the main mark under it, a
//! drag with the first button held moves the selection point.

use vstd::prelude::*;

use super::movement::push_if;
use super::text_mode::{PostInputAction, TextModeAction, TextModeContext};
use crate::codec::TextCodec;
use crate::mark::Mark;
use crate::screen::screen::Screen;

verus! {

/// The offset of the cell under the pointer at column `x` of line `y`, or
/// of the nearest cell on its left that records one.
pub open spec fn offset_left_of(s: Screen, x: int, y: int) -> Option<u64>
    decreases x + 1,
{
    if x < 0 {
        None
    } else if 0 <= y < s.spec_height() && x < s.spec_width() && s.cell_xy(x, y).cpi.offset is Some {
        s.cell_xy(x, y).cpi.offset
    } else {
        offset_left_of(s, x - 1, y)
    }
}

/// Finds the offset under the pointer (see `offset_left_of`).
fn find_offset_left_of(screen: &Screen, x: usize, y: usize) -> (r: Option<u64>)
    requires
        screen.wf(),
    ensures
        r == offset_left_of(*screen, x as int, y as int),
{
    let mut i: usize = x;
    loop
        invariant
            i <= x,
            screen.wf(),
            offset_left_of(*screen, x as int, y as int) == offset_left_of(*screen, i as int, y as int),
        decreases i,
    {
        match screen.get_cpinfo(i, y) {
            Some(cpi) => {
                if cpi.offset.is_some() {
                    return cpi.offset;
                }
            },
            None => {},
        }
        if i == 0 {
            assert(offset_left_of(*screen, -1, y as int) is None);
            return None;
        }
        i = i - 1;
    }
}

/// A button pressed at (`x`, `y`): it is recorded as held; with the
/// first button, the selection is dropped and a single main mark goes to
/// the offset under the pointer (see `offset_left_of`). Returns whether
/// the marks moved, for the caller to record them in the document's
/// history.
pub fn button_press<C: TextCodec>(tm: &mut TextModeContext<C>, screen: &Screen, button: u32, x: usize, y: usize) -> (save_marks:
    bool)
    requires
        screen.wf(),
        button == 0 && offset_left_of(*screen, x as int, y as int) is Some ==> old(tm).mark_index < old(
            tm,
        ).marks@.len(),
    ensures
        final(tm).text_codec == old(tm).text_codec,
        final(tm).char_map == old(tm).char_map,
        final(tm).color_map == old(tm).color_map,
        final(tm).copy_buffer == old(tm).copy_buffer,
        final(tm).pre_compose_action == old(tm).pre_compose_action,
        final(tm).post_compose_action == old(tm).post_compose_action,
        final(tm).button_state@ == if button < 8 {
            old(tm).button_state@.update(button as int, 1u32)
        } else {
            old(tm).button_state@
        },
        button != 0 ==> !save_marks && final(tm).marks == old(tm).marks && final(tm).mark_index == old(
            tm,
        ).mark_index && final(tm).select_point == old(tm).select_point && final(tm).prev_action == old(
            tm,
        ).prev_action,
        button == 0 ==> {
            &&& final(tm).select_point@.len() == 0
            &&& match offset_left_of(*screen, x as int, y as int) {
                None => !save_marks && final(tm).marks == old(tm).marks && final(tm).mark_index == old(
                    tm,
                ).mark_index && final(tm).prev_action == old(tm).prev_action,
                Some(o) => save_marks == (o != old(tm).marks@[old(tm).mark_index as int].offset)
                    && final(tm).marks@ == seq![Mark { offset: o }] && final(tm).mark_index == 0
                    && final(tm).prev_action == TextModeAction::Ignore,
            }
        },
{
    if button < 8 {
        tm.button_state[button as usize] = 1;
    }
    if button != 0 {
        return false;
    }
    tm.select_point.clear();
    let new_offset = find_offset_left_of(screen, x, y);
    match new_offset {
        Some(o) => {
            let save_marks = o != tm.marks[tm.mark_index].offset;
            tm.mark_index = 0;
            tm.marks.clear();
            tm.marks.push(Mark { offset: o });
            tm.prev_action = TextModeAction::Ignore;
            save_marks
        },
        None => false,
    }
}

/// A button released: it is recorded as no longer held.
pub fn button_release<C: TextCodec>(tm: &mut TextModeContext<C>, button: u32)
    ensures
        final(tm).text_codec == old(tm).text_codec,
        final(tm).char_map == old(tm).char_map,
        final(tm).color_map == old(tm).color_map,
        final(tm).copy_buffer == old(tm).copy_buffer,
        final(tm).marks == old(tm).marks,
        final(tm).mark_index == old(tm).mark_index,
        final(tm).select_point == old(tm).select_point,
        final(tm).pre_compose_action == old(tm).pre_compose_action,
        final(tm).post_compose_action == old(tm).post_compose_action,
        final(tm).prev_action == old(tm).prev_action,
        final(tm).button_state@ == if button < 8 {
            old(tm).button_state@.update(button as int, 0u32)
        } else {
            old(tm).button_state@
        },
{
    if button < 8 {
        tm.button_state[button as usize] = 0;
    }
}

/// The pointer moved to (`x`, `y`): while the first button is held, the
/// selection point goes to the offset under the pointer, and the view
/// scrolls a line when the pointer is on its last line, or on one of its
/// first two lines.
pub fn pointer_motion<C: TextCodec>(tm: &mut TextModeContext<C>, screen: &Screen, x: usize, y: usize)
    requires
        screen.wf(),
    ensures
        final(tm).same_settings(*old(tm)),
        final(tm).marks == old(tm).marks,
        final(tm).mark_index == old(tm).mark_index,
        final(tm).copy_buffer == old(tm).copy_buffer,
        final(tm).prev_action == old(tm).prev_action,
        final(tm).button_state == old(tm).button_state,
        match offset_left_of(*screen, x as int, y as int) {
            Some(o) if old(tm).button_state[0] == 1 => {
                let h = screen.spec_height();
                let last = if h >= 1 {
                    h - 1
                } else {
                    0
                };
                &&& final(tm).select_point@ == seq![Mark { offset: o }]
                &&& final(tm).pre_compose_action@ == if y >= last {
                    old(tm).pre_compose_action@.push(PostInputAction::ScrollDown { n: 1 })
                } else {
                    push_if(old(tm).pre_compose_action@, y <= 1, PostInputAction::ScrollUp { n: 1 })
                }
            },
            _ => final(tm).select_point == old(tm).select_point && final(tm).pre_compose_action
                == old(tm).pre_compose_action,
        },
{
    match find_offset_left_of(screen, x, y) {
        Some(offset) => {
            if tm.button_state[0] == 1 {
                tm.select_point.clear();
                tm.select_point.push(Mark { offset });
                let h = screen.height();
                let last = if h >= 1 {
                    h - 1
                } else {
                    0
                };
                if y >= last {
                    tm.pre_compose_action.push(PostInputAction::ScrollDown { n: 1 });
                } else if y <= 1 {
                    tm.pre_compose_action.push(PostInputAction::ScrollUp { n: 1 });
                }
            }
        },
        None => {},
    }
}

} // verus!
