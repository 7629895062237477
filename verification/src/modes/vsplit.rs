//! The vertical split bar between two views: pressing the first button on
//! it selects it, releasing the button lets it go, and moving the pointer
//! while it is selected resizes the view on its left.
//!
//! The sizes of the views are layout operations kept by the parent view;
//! changing them is left to the caller, which gets here what to do.

use vstd::prelude::*;

verus! {

/// What the pointer did on the bar.
#[derive(Debug, Clone, Copy, PartialEq, Eq, Structural)]
pub enum SplitEvent {
    Press { button: u32 },
    Release { button: u32 },
    Motion,
    Other,
}

/// What becomes of the view the pointer's focus is locked on.
#[derive(Debug, Clone, Copy, PartialEq, Eq, Structural)]
pub enum FocusLock {
    Keep,
    LockOnBar,
    Unlock,
}

/// What the caller does to the view on the left of the bar: nothing, or
/// make it `diff` columns narrower or wider, the pointer's horizontal
/// position becoming `global_x`.
#[derive(Debug, Clone, Copy, PartialEq, Eq, Structural)]
pub enum SplitAction {
    Nothing,
    Decrease { diff: usize, global_x: isize },
    Increase { diff: usize, global_x: isize },
}

/// Whether the bar is selected once the event `ev` came, and what becomes
/// of the focus lock.
pub open spec fn split_selection(selected: bool, ev: SplitEvent) -> (bool, FocusLock) {
    match ev {
        SplitEvent::Press { button } => if button == 0 {
            (true, FocusLock::LockOnBar)
        } else {
            (selected, FocusLock::Keep)
        },
        SplitEvent::Release { button } => if button == 0 {
            (false, FocusLock::Unlock)
        } else {
            (selected, FocusLock::Keep)
        },
        _ => (selected, FocusLock::Keep),
    }
}

/// The event goes on to a resize: a press of another button or a release
/// of another button while the bar is selected, or a motion while it is.
pub open spec fn split_resizes(selected: bool, ev: SplitEvent) -> bool {
    match ev {
        SplitEvent::Press { button } => button != 0 && selected,
        SplitEvent::Release { button } => button != 0 && selected,
        SplitEvent::Motion => selected,
        SplitEvent::Other => false,
    }
}

/// The resize the pointer's move by `diff_x` columns asks for, for a view
/// `cur` columns wide in a parent `max` columns wide, with the pointer at
/// `global_x`: a move left narrows the view, unless the pointer would
/// leave the screen; a move right widens it, unless it would be wider than
/// the parent.
pub open spec fn split_resize(diff_x: isize, global_x: Option<isize>, cur: usize, max: usize) -> SplitAction {
    if diff_x < 0 {
        let diff = -diff_x;
        let gx = global_x->0;
        if (if cur >= (diff_x as usize) {
            cur - (diff_x as usize)
        } else {
            0
        }) > max {
            SplitAction::Nothing
        } else if gx <= diff {
            SplitAction::Nothing
        } else {
            SplitAction::Decrease { diff: diff as usize, global_x: (gx - diff) as isize }
        }
    } else if diff_x > 0 {
        if cur + (diff_x as usize) > max {
            SplitAction::Nothing
        } else {
            SplitAction::Increase { diff: diff_x as usize, global_x: (global_x->0 + diff_x) as isize }
        }
    } else {
        SplitAction::Nothing
    }
}

/// What the bar does with the event `ev`: the new selection, the focus
/// lock, and the resize, when the bar has a parent view (see
/// `split_selection`, `split_resizes` and `split_resize`).
pub fn vsplit_step(
    selected: bool,
    ev: SplitEvent,
    has_parent: bool,
    diff_x: isize,
    global_x: Option<isize>,
    cur: usize,
    max: usize,
) -> (r: (bool, FocusLock, SplitAction))
    requires
        split_resizes(selected, ev) && has_parent && diff_x != 0 ==> {
            &&& global_x is Some
            &&& diff_x != isize::MIN
            &&& diff_x > 0 ==> cur + diff_x <= usize::MAX && global_x->0 + diff_x <= isize::MAX
        },
    ensures
        (r.0, r.1) == split_selection(selected, ev),
        r.2 == if split_resizes(selected, ev) && has_parent {
            split_resize(diff_x, global_x, cur, max)
        } else {
            SplitAction::Nothing
        },
{
    let (sel, lock) = match ev {
        SplitEvent::Press { button } => if button == 0 {
            return (true, FocusLock::LockOnBar, SplitAction::Nothing);
        } else {
            (selected, FocusLock::Keep)
        },
        SplitEvent::Release { button } => if button == 0 {
            (false, FocusLock::Unlock)
        } else {
            (selected, FocusLock::Keep)
        },
        SplitEvent::Motion => (selected, FocusLock::Keep),
        SplitEvent::Other => {
            return (selected, FocusLock::Keep, SplitAction::Nothing);
        },
    };
    if !sel || !has_parent {
        return (sel, lock, SplitAction::Nothing);
    }
    let action = if diff_x < 0 {
        if cur.saturating_sub(diff_x as usize) > max {
            SplitAction::Nothing
        } else {
            let diff = -diff_x;
            let gx = global_x.unwrap();
            if gx <= diff {
                SplitAction::Nothing
            } else {
                SplitAction::Decrease { diff: diff as usize, global_x: gx - diff }
            }
        }
    } else if diff_x > 0 {
        if cur + diff_x as usize > max {
            SplitAction::Nothing
        } else {
            SplitAction::Increase { diff: diff_x as usize, global_x: global_x.unwrap() + diff_x }
        }
    } else {
        SplitAction::Nothing
    };
    (sel, lock, action)
}

} // verus!
