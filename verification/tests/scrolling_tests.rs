use unlimited_core::codepointinfo::{CodepointInfo, TextStyle};
use unlimited_core::screen::screen::Screen;
use unlimited_core::text_mode::scrolling::{
    lines_screen_dimension, move_offset_to_previous_line_index, next_lines_pass, previous_line_index_start,
    scroll_down_view_off_screen, scroll_view_down, ViewStart,
};

fn cell(c: char, offset: u64) -> CodepointInfo {
    CodepointInfo {
        used: true,
        metadata: false,
        cp: c,
        displayed_cp: c,
        offset: Some(offset),
        size: 1,
        skip_render: false,
        style: TextStyle::new(),
    }
}

fn filled_screen(width: usize, height: usize, text: &str) -> Screen {
    let mut s = Screen::new(width, height);
    for (i, c) in text.chars().enumerate() {
        s.push(cell(c, i as u64));
    }
    s
}

#[test]
fn scrolling_down_on_screen_starts_at_a_later_line() {
    let s = filled_screen(3, 3, "abcdefg");
    assert_eq!(scroll_view_down(&s, 0, 100, 1), ViewStart::StartAt { offset: 3 });
    assert_eq!(scroll_view_down(&s, 0, 100, 2), ViewStart::StartAt { offset: 6 });
    assert_eq!(scroll_view_down(&s, 0, 100, 0), ViewStart::Keep);
    assert_eq!(scroll_view_down(&s, 6, 100, 1), ViewStart::Keep);
}

#[test]
fn scrolling_past_the_screen_asks_for_lines() {
    let s = filled_screen(3, 3, "abcdefg");
    assert_eq!(
        scroll_view_down(&s, 0, 100, 3),
        ViewStart::NeedLines { start_offset: 0, end_offset: 36, width: 3, height: 35 }
    );
    assert_eq!(
        scroll_view_down(&s, 0, 20, 4),
        ViewStart::NeedLines { start_offset: 0, end_offset: 20, width: 3, height: 35 }
    );
}

#[test]
fn a_screen_at_the_end_of_the_document_does_not_scroll() {
    let mut s = filled_screen(3, 3, "abcdefg");
    s.set_has_eof();
    assert_eq!(scroll_view_down(&s, 0, 100, 1), ViewStart::Keep);
}

#[test]
fn scrolling_down_over_laid_out_lines() {
    let lines = vec![(0, 2), (3, 5), (6, 8)];
    assert_eq!(scroll_down_view_off_screen(&lines, 4, 1), 6);
    assert_eq!(scroll_down_view_off_screen(&lines, 0, 1), 3);
    assert_eq!(scroll_down_view_off_screen(&lines, 4, 5), 6);
    assert_eq!(scroll_down_view_off_screen(&lines, 100, 1), 0);
    assert_eq!(scroll_down_view_off_screen(&lines, 1, usize::MAX), 6);
}

#[test]
fn moving_an_offset_back_by_lines() {
    assert_eq!(
        move_offset_to_previous_line_index(10, 3, 3),
        ViewStart::NeedLines { start_offset: 0, end_offset: 10, width: 3, height: 3 }
    );
    assert_eq!(move_offset_to_previous_line_index(2, 3, 3), ViewStart::StartAt { offset: 0 });
    assert_eq!(
        move_offset_to_previous_line_index(100, 3, 3),
        ViewStart::NeedLines { start_offset: 64, end_offset: 100, width: 3, height: 3 }
    );
    let lines = vec![(0, 2), (3, 5), (6, 8)];
    assert_eq!(previous_line_index_start(&lines, 0), 6);
    assert_eq!(previous_line_index_start(&lines, 1), 3);
    assert_eq!(previous_line_index_start(&lines, 5), 0);
}

#[test]
fn passes_that_lay_out_lines() {
    assert_eq!(lines_screen_dimension(0, 2), (1, 4));
    assert_eq!(lines_screen_dimension(80, 24), (80, 24));
    let s = filled_screen(3, 3, "abcdefg");
    assert_eq!(next_lines_pass(&s, 100), Some(7));
    assert_eq!(next_lines_pass(&s, 5), None);
    let empty = Screen::new(3, 3);
    assert_eq!(next_lines_pass(&empty, 5), None);
}
