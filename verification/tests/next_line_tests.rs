use unlimited_core::codec::Utf8Codec;
use unlimited_core::codepointinfo::{CodepointInfo, TextStyle};
use unlimited_core::mark::Mark;
use unlimited_core::screen::screen::Screen;
use unlimited_core::text_mode::next_line::{
    end_marks_to_next_line, move_marks_to_next_line_pass, move_single_mark_after_scroll, next_line_passes_setup,
    next_line_scroll_start, MarksPassStep,
};
use unlimited_core::text_mode::text_mode::{PostInputAction, TextModeAction, TextModeContext};

fn cell(c: char, offset: u64) -> CodepointInfo {
    CodepointInfo {
        used: true,
        metadata: false,
        cp: c,
        displayed_cp: c,
        offset: Some(offset),
        size: 1,
        skip_render: false,
        style: TextStyle::new(),
    }
}

fn filled_screen(width: usize, height: usize, text: &str) -> Screen {
    let mut s = Screen::new(width, height);
    for (i, c) in text.chars().enumerate() {
        s.push(cell(c, i as u64));
    }
    s
}

fn marks(offsets: &[u64]) -> Vec<Mark> {
    offsets.iter().map(|o| Mark { offset: *o }).collect()
}

fn offsets(v: &[Mark]) -> Vec<u64> {
    v.iter().map(|m| m.offset).collect()
}

#[test]
fn a_single_mark_on_the_last_line_scrolls_the_view() {
    let s = filled_screen(3, 3, "abcdefg");
    assert_eq!(next_line_scroll_start(&marks(&[6]), &s), Some(3));
    assert_eq!(next_line_scroll_start(&marks(&[1]), &s), None);
    assert_eq!(next_line_scroll_start(&marks(&[6, 1]), &s), None);
    assert_eq!(next_line_scroll_start(&marks(&[40]), &s), None);
    let mut e = filled_screen(3, 3, "abcdefg");
    e.set_has_eof();
    assert_eq!(next_line_scroll_start(&marks(&[6]), &e), None);
}

#[test]
fn the_single_mark_moves_on_the_scrolled_screen() {
    let s = filled_screen(3, 3, "abcdefg");
    let mut tm = TextModeContext::new(Utf8Codec::new());
    tm.marks = marks(&[1]);
    move_single_mark_after_scroll(&mut tm, &s);
    assert_eq!(offsets(&tm.marks), vec![4]);
}

#[test]
fn passes_start_at_the_view_or_the_first_mark() {
    let s = filled_screen(3, 3, "abcdefg");
    assert_eq!(next_line_passes_setup(&s, &marks(&[1, 5]), 100), (3, 4, 0));
    let mut later = Screen::new(3, 3);
    for (i, c) in "xyz".chars().enumerate() {
        later.push(cell(c, 10 + i as u64));
    }
    assert_eq!(next_line_passes_setup(&later, &marks(&[4]), 100), (3, 4, 4));
    assert_eq!(next_line_passes_setup(&later, &marks(&[11]), 100), (3, 4, 10));
}

#[test]
fn a_pass_moves_the_marks_before_the_last_line() {
    let s = filled_screen(3, 3, "abcdefg");
    let mut m = marks(&[1, 4, 6]);
    let r = move_marks_to_next_line_pass(&mut m, 0, &s);
    assert_eq!(offsets(&m), vec![4, 6, 6]);
    assert_eq!(r, MarksPassStep::Next { start_offset: 6, index: 2 });
    let r = move_marks_to_next_line_pass(&mut m, 2, &s);
    assert_eq!(offsets(&m), vec![4, 6, 6]);
    assert_eq!(r, MarksPassStep::Done);
}

#[test]
fn a_pass_that_does_not_show_the_mark_goes_on() {
    let s = filled_screen(3, 3, "abcdefg");
    let mut m = marks(&[40]);
    assert_eq!(move_marks_to_next_line_pass(&mut m, 0, &s), MarksPassStep::Next { start_offset: 6, index: 0 });
    assert_eq!(offsets(&m), vec![40]);
    let mut e = filled_screen(3, 3, "abcdefg");
    e.set_has_eof();
    assert_eq!(move_marks_to_next_line_pass(&mut m, 0, &e), MarksPassStep::Done);
    let empty = Screen::new(3, 3);
    assert_eq!(move_marks_to_next_line_pass(&mut m, 0, &empty), MarksPassStep::Stop);
}

#[test]
fn the_moved_marks_come_back_with_their_checks() {
    let s = filled_screen(3, 3, "abcdefg");
    let mut tm = TextModeContext::new(Utf8Codec::new());
    let before = tm.pre_compose_action.len();
    end_marks_to_next_line(&mut tm, marks(&[4]), &s);
    assert_eq!(offsets(&tm.marks), vec![4]);
    assert_eq!(tm.pre_compose_action.len(), before + 1);
    assert!(matches!(tm.pre_compose_action.last(), Some(PostInputAction::CheckMarks)));
    assert_eq!(tm.prev_action, TextModeAction::MarksMove);
    end_marks_to_next_line(&mut tm, marks(&[40]), &s);
    let n = tm.pre_compose_action.len();
    assert!(matches!(tm.pre_compose_action[n - 2], PostInputAction::ScrollDown { n: 1 }));
    assert!(matches!(tm.pre_compose_action[n - 1], PostInputAction::CheckMarks));
}
