use unlimited_core::modes::vsplit::{vsplit_step, FocusLock, SplitAction, SplitEvent};
use unlimited_core::view::compose::place_children;

#[test]
fn children_are_placed_side_by_side_and_drawn_by_priority() {
    let r = place_children(&vec![10, 20, 5], false, 0, 24, &vec![0, 2, 0]);
    assert_eq!(r, vec![(1, 10, 0, 20, 24), (0, 0, 0, 10, 24), (2, 30, 0, 5, 24)]);
    let r = place_children(&vec![3, 4], true, 80, 0, &vec![1, 1]);
    assert_eq!(r, vec![(0, 0, 0, 80, 3), (1, 0, 3, 80, 4)]);
    assert!(place_children(&vec![], true, 80, 24, &vec![]).is_empty());
}

#[test]
fn the_split_bar_is_taken_moved_and_let_go() {
    let r = vsplit_step(false, SplitEvent::Press { button: 0 }, true, 5, Some(10), 20, 80);
    assert_eq!(r, (true, FocusLock::LockOnBar, SplitAction::Nothing));
    let r = vsplit_step(true, SplitEvent::Motion, true, 5, Some(10), 20, 80);
    assert_eq!(r, (true, FocusLock::Keep, SplitAction::Increase { diff: 5, global_x: 15 }));
    let r = vsplit_step(true, SplitEvent::Motion, true, -3, Some(10), 20, 80);
    assert_eq!(r, (true, FocusLock::Keep, SplitAction::Decrease { diff: 3, global_x: 7 }));
    let r = vsplit_step(true, SplitEvent::Motion, true, -10, Some(10), 20, 80);
    assert_eq!(r.2, SplitAction::Nothing);
    let r = vsplit_step(true, SplitEvent::Motion, true, 70, Some(10), 20, 80);
    assert_eq!(r.2, SplitAction::Nothing);
    let r = vsplit_step(false, SplitEvent::Motion, true, 5, Some(10), 20, 80);
    assert_eq!(r, (false, FocusLock::Keep, SplitAction::Nothing));
    let r = vsplit_step(true, SplitEvent::Release { button: 0 }, true, 5, Some(10), 20, 80);
    assert_eq!(r, (false, FocusLock::Unlock, SplitAction::Nothing));
    let r = vsplit_step(true, SplitEvent::Other, true, 5, Some(10), 20, 80);
    assert_eq!(r, (true, FocusLock::Keep, SplitAction::Nothing));
}
