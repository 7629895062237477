use unlimited_core::buffer::Buffer;
use unlimited_core::codec::Utf8Codec;
use unlimited_core::mark::Mark;
use unlimited_core::modes::find_mode::{
    display_find_string, find_controller_add_char, find_controller_del_char, find_controller_next,
    find_controller_prev, FindModeContext,
};
use unlimited_core::modes::goto_line_mode::{
    find_nth_byte_offset, get_byte_count, goto_line_controller_add_char, goto_line_controller_del_char,
    goto_line_target_after_char, goto_line_target_after_del,
    goto_line_controller_stop, goto_line_set_target_line, parse_u64_or_zero, GotoLineModeContext,
};
use unlimited_core::codepointinfo::CodepointInfo;
use unlimited_core::modes::line_number::{
    LineNumberMode,
    linenum_subscribe,
    line_number_margin_width,
    decimal_chars, line_number_label, linenum_button_press, linenum_button_release, num_digit,
    LineNumberModeContext,
};
use unlimited_core::screen::screen::Screen;
use unlimited_core::view::Id;
use unlimited_core::modes::open_doc::{
    completion_popup_rect, fill_completion_buffer, open_doc_controller_add_char, open_doc_controller_apply_current_completion,
    open_doc_controller_del_char, open_doc_controller_discard_prompt_suffix, open_doc_controller_select_next_completion,
    open_doc_controller_select_prev_completion, open_doc_display_prompt, open_doc_do_completion, open_doc_load_path,
    split_prompt,
    DirEntry, OpenDocModeContext,
};
use unlimited_core::text_mode::editing::{
    run_text_mode_actions, run_text_mode_actions_vec, Stage, StagePosition,
    cancel_selection, copy_maybe_remove_selection, copy_selection, cut_selection, cut_to_end_of_line,
    dedup_marks, end_text_mode_actions, insert_codepoint_array, paste, remove_codepoint,
    remove_previous_codepoint, remove_until_end_of_word, run_text_mode_action, scroll_down,
    scroll_to_next_screen, scroll_up, set_selection_points_at_marks,
};
use unlimited_core::text_mode::movement::{
    cancel_marks, end_marks_to_previous_line, clone_last_mark, end_clone_and_move_mark_to_next_line, end_clone_and_move_mark_to_previous_line,
    move_mark_to_end_of_file, move_mark_to_next_line_in_lines, move_mark_to_previous_line,
    move_mark_to_previous_line_in_lines, move_mark_to_screen_end, move_mark_to_screen_start, move_mark_to_start_of_file, move_marks_backward,
    move_marks_forward, move_marks_to_end_of_line, move_marks_to_start_of_line, move_to_token_end,
    move_to_token_start,
};
use unlimited_core::text_mode::pointer::{button_press, button_release, pointer_motion};
use unlimited_core::text_mode::text_mode::{CopyData, PostInputAction, TextModeAction, TextModeContext};

fn content(b: &Buffer) -> Vec<u8> {
    let mut out = vec![];
    b.read(0, b.size(), &mut out);
    out
}

fn ctx(offsets: &[u64]) -> TextModeContext<Utf8Codec> {
    let mut tm = TextModeContext::new(Utf8Codec::new());
    tm.marks = offsets.iter().map(|o| Mark { offset: *o }).collect();
    tm.mark_index = 0;
    tm
}

fn offsets(v: &[Mark]) -> Vec<u64> {
    v.iter().map(|m| m.offset).collect()
}

fn blank_screen() -> Screen {
    Screen::new(10, 4)
}

#[test]
fn buffer_remove_takes_bytes_out() {
    let mut b = Buffer::from_bytes(b"hello world");
    assert_eq!(b.remove(5, 6), 6);
    assert_eq!(content(&b), b"hello");
    assert_eq!(b.remove(3, 10), 2);
    assert_eq!(content(&b), b"hel");
    assert_eq!(b.remove(7, 1), 0);
    assert_eq!(content(&b), b"hel");
}

#[test]
fn insert_then_remove_gives_the_buffer_back() {
    let mut b = Buffer::from_bytes(b"abcdef");
    b.insert(2, 3, b"XYZ");
    assert_eq!(content(&b), b"abXYZcdef");
    b.remove(2, 3);
    assert_eq!(content(&b), b"abcdef");
}

#[test]
fn dedup_drops_repeated_neighbours() {
    let mut v: Vec<Mark> = [1u64, 1, 2, 2, 2, 3, 1].iter().map(|o| Mark { offset: *o }).collect();
    dedup_marks(&mut v);
    assert_eq!(offsets(&v), vec![1, 2, 3, 1]);
    dedup_marks(&mut v);
    assert_eq!(offsets(&v), vec![1, 2, 3, 1]);
}

#[test]
fn mark_actions_run_here_and_layout_actions_come_back() {
    let screen = blank_screen();
    let mut tm = ctx(&[4, 4, 9]);
    tm.mark_index = 2;
    let r = run_text_mode_action(&mut tm, &screen, PostInputAction::CheckMarks);
    assert!(r.is_none());
    assert_eq!(offsets(&tm.marks), vec![4, 9]);
    assert_eq!(tm.mark_index, 1);
    let r = run_text_mode_action(&mut tm, &screen, PostInputAction::ResetMarks);
    assert!(r.is_none());
    assert_eq!(offsets(&tm.marks), vec![9]);
    assert_eq!(tm.mark_index, 0);
    let r = run_text_mode_action(&mut tm, &screen, PostInputAction::ScrollUp { n: 2 });
    assert!(matches!(r, Some(PostInputAction::ScrollUp { n: 2 })));
    let r = run_text_mode_action(&mut tm, &screen, PostInputAction::CenterAroundMainMarkIfOffScreen);
    assert!(matches!(r, Some(PostInputAction::CenterAroundMainMark)));
    tm.select_point = vec![Mark { offset: 1 }];
    let r = run_text_mode_action(&mut tm, &screen, PostInputAction::CancelSelection);
    assert!(r.is_none());
    assert!(tm.select_point.is_empty());
    tm.marks = vec![Mark { offset: 1 }, Mark { offset: 2 }];
    tm.mark_index = 0;
    end_text_mode_actions(&mut tm);
    assert_eq!(tm.mark_index, 1);
}

#[test]
fn queued_scrolls_and_selection_points() {
    let mut tm = ctx(&[3, 7]);
    scroll_up(&mut tm);
    scroll_down(&mut tm);
    scroll_to_next_screen(&mut tm, 25);
    scroll_to_next_screen(&mut tm, 1);
    assert!(matches!(tm.pre_compose_action[0], PostInputAction::ScrollUp { n: 3 }));
    assert!(matches!(tm.pre_compose_action[1], PostInputAction::ScrollDown { n: 3 }));
    assert!(matches!(tm.pre_compose_action[2], PostInputAction::ScrollDown { n: 24 }));
    assert!(matches!(tm.pre_compose_action[3], PostInputAction::ScrollDown { n: 1 }));
    set_selection_points_at_marks(&mut tm);
    assert_eq!(offsets(&tm.select_point), vec![3, 7]);
    assert!(matches!(tm.pre_compose_action[4], PostInputAction::SaveMarks { .. }));
    cancel_selection(&mut tm);
    assert!(tm.select_point.is_empty());
}

#[test]
fn cutting_a_selection_copies_and_removes_it() {
    let mut b = Buffer::from_bytes(b"hello world");
    let mut tm = ctx(&[5]);
    tm.select_point = vec![Mark { offset: 2 }];
    let n = copy_maybe_remove_selection(&mut tm, &mut b, true, true);
    assert_eq!(n, 6);
    assert_eq!(content(&b), b"he world");
    assert_eq!(offsets(&tm.marks), vec![2]);
    assert!(tm.select_point.is_empty());
    assert_eq!(tm.copy_buffer.len(), 1);
    match &tm.copy_buffer[0] {
        CopyData::Buffer(v) => assert_eq!(v, b"llo"),
        _ => panic!("a copy holds its bytes"),
    }
}

#[test]
fn copying_a_selection_leaves_the_document() {
    let mut b = Buffer::from_bytes(b"abcdef");
    let mut tm = ctx(&[1, 4]);
    tm.select_point = vec![Mark { offset: 3 }, Mark { offset: 6 }];
    copy_selection(&mut tm, &mut b);
    assert_eq!(content(&b), b"abcdef");
    assert_eq!(offsets(&tm.marks), vec![1, 4]);
    match (&tm.copy_buffer[0], &tm.copy_buffer[1]) {
        (CopyData::Buffer(a), CopyData::Buffer(c)) => {
            assert_eq!(a, b"bc");
            assert_eq!(c, b"ef");
        }
        _ => panic!("copies hold their bytes"),
    }
    let mut tm2 = ctx(&[1, 4]);
    tm2.select_point = vec![Mark { offset: 3 }, Mark { offset: 6 }];
    cut_selection(&mut tm2, &mut b);
    assert_eq!(content(&b), b"ad");
}

#[test]
fn a_selection_without_its_points_is_left() {
    let mut b = Buffer::from_bytes(b"abc");
    let mut tm = ctx(&[1, 2]);
    tm.select_point = vec![Mark { offset: 0 }];
    assert_eq!(copy_maybe_remove_selection(&mut tm, &mut b, true, true), 0);
    assert_eq!(content(&b), b"abc");
}

#[test]
fn typing_inserts_at_every_mark() {
    let mut b = Buffer::from_bytes(b"ab\ncd");
    let mut tm = ctx(&[0, 3]);
    tm.prev_action = TextModeAction::Ignore;
    let screen = blank_screen();
    let mut start: u64 = 1;
    insert_codepoint_array(&mut tm, &mut b, &screen, &mut start, &vec!['x', 'é']);
    assert_eq!(content(&b), "xéab\nxécd".as_bytes());
    assert_eq!(offsets(&tm.marks), vec![3, 9]);
    assert_eq!(start, 4);
    assert_eq!(tm.prev_action, TextModeAction::DocumentModification);
    assert!(matches!(tm.pre_compose_action[0], PostInputAction::CenterAroundMainMark));
    assert!(matches!(tm.pre_compose_action[1], PostInputAction::CancelSelection));
}

#[test]
fn typing_over_a_selection_replaces_it() {
    let mut b = Buffer::from_bytes(b"hello");
    let mut tm = ctx(&[4]);
    tm.select_point = vec![Mark { offset: 1 }];
    let screen = blank_screen();
    let mut start: u64 = 0;
    insert_codepoint_array(&mut tm, &mut b, &screen, &mut start, &vec!['a']);
    assert_eq!(content(&b), b"hao");
    assert_eq!(offsets(&tm.marks), vec![2]);
}

#[test]
fn delete_removes_the_code_point_at_each_mark() {
    let mut b = Buffer::from_bytes("héllo wörld".as_bytes());
    let mut tm = ctx(&[1, 8]);
    let mut start: u64 = 0;
    remove_codepoint(&mut tm, &mut b, &mut start);
    assert_eq!(content(&b), b"hllo wrld");
    assert_eq!(offsets(&tm.marks), vec![1, 6]);
    assert!(matches!(tm.pre_compose_action[0], PostInputAction::CheckMarks));
}

#[test]
fn delete_moves_the_view_start_back() {
    let mut b = Buffer::from_bytes(b"abcdef");
    let mut tm = ctx(&[0]);
    let mut start: u64 = 3;
    remove_codepoint(&mut tm, &mut b, &mut start);
    assert_eq!(content(&b), b"bcdef");
    assert_eq!(start, 2);
}

#[test]
fn backspace_removes_the_code_point_before_each_mark() {
    let mut b = Buffer::from_bytes("héllo".as_bytes());
    let mut tm = ctx(&[0, 3]);
    remove_previous_codepoint(&mut tm, &mut b, 2);
    assert_eq!(content(&b), b"hllo");
    assert_eq!(offsets(&tm.marks), vec![0, 1]);
    assert_eq!(tm.prev_action, TextModeAction::DocumentModification);
    assert!(matches!(tm.pre_compose_action[0], PostInputAction::ScrollUp { n: 1 }));
    assert!(matches!(tm.pre_compose_action[1], PostInputAction::CheckMarks));
}

#[test]
fn removing_until_the_end_of_the_word() {
    let mut b = Buffer::from_bytes(b"foo  bar baz");
    let mut tm = ctx(&[3]);
    remove_until_end_of_word(&mut tm, &mut b);
    assert_eq!(content(&b), b"foo baz");
    assert_eq!(offsets(&tm.marks), vec![3]);
}

#[test]
fn cut_to_end_of_line_then_paste_gives_the_line_back() {
    let mut b = Buffer::from_bytes(b"abc\ndef");
    let mut tm = ctx(&[1]);
    cut_to_end_of_line(&mut tm, &mut b);
    assert_eq!(content(&b), b"a\ndef");
    assert_eq!(offsets(&tm.marks), vec![1]);
    match &tm.copy_buffer[0] {
        CopyData::Buffer(v) => assert_eq!(v, b"bc"),
        _ => panic!("a cut holds its bytes"),
    }
    paste(&mut tm, &mut b);
    assert_eq!(content(&b), b"abc\ndef");
    assert_eq!(offsets(&tm.marks), vec![3]);
}

#[test]
fn cut_at_the_end_of_a_line_joins_the_lines() {
    let mut b = Buffer::from_bytes(b"ab\ncd");
    let mut tm = ctx(&[2]);
    cut_to_end_of_line(&mut tm, &mut b);
    assert_eq!(content(&b), b"abcd");
}

#[test]
fn cut_with_several_marks_moves_the_later_ones() {
    let mut b = Buffer::from_bytes(b"ab\ncd\nef");
    let mut tm = ctx(&[1, 4]);
    cut_to_end_of_line(&mut tm, &mut b);
    assert_eq!(content(&b), b"a\nc\nef");
    assert_eq!(offsets(&tm.marks), vec![1, 3]);
}

#[test]
fn marks_move_forward_and_backward_by_code_point() {
    let b = Buffer::from_bytes("aéb".as_bytes());
    let mut tm = ctx(&[1, 3]);
    move_marks_forward(&mut tm, &b, 10, false);
    assert_eq!(offsets(&tm.marks), vec![3, 4]);
    assert_eq!(tm.mark_index, 1);
    assert_eq!(tm.prev_action, TextModeAction::MarksMove);
    move_marks_backward(&mut tm, &b, 0);
    assert_eq!(offsets(&tm.marks), vec![1, 3]);
}

#[test]
fn marks_go_to_the_ends_of_their_lines() {
    let b = Buffer::from_bytes(b"abc\ndef");
    let screen = blank_screen();
    let mut tm = ctx(&[1, 5]);
    move_marks_to_end_of_line(&mut tm, &b, &screen);
    assert_eq!(offsets(&tm.marks), vec![3, 7]);
    move_marks_to_start_of_line(&mut tm, &b, &screen);
    assert_eq!(offsets(&tm.marks), vec![0, 4]);
}

#[test]
fn marks_go_over_tokens() {
    let b = Buffer::from_bytes(b"foo bar");
    let screen = blank_screen();
    let mut tm = ctx(&[1]);
    move_to_token_end(&mut tm, &b, &screen);
    assert_eq!(offsets(&tm.marks), vec![3]);
    move_to_token_end(&mut tm, &b, &screen);
    assert_eq!(offsets(&tm.marks), vec![7]);
    move_to_token_start(&mut tm, &b, &screen);
    assert_eq!(offsets(&tm.marks), vec![4]);
}

#[test]
fn single_mark_commands() {
    let b = Buffer::from_bytes(b"0123456789");
    let mut tm = ctx(&[2, 5]);
    tm.mark_index = 1;
    cancel_marks(&mut tm);
    assert_eq!(offsets(&tm.marks), vec![5]);
    let mut start: u64 = 3;
    move_mark_to_end_of_file(&mut tm, &b, &mut start, 9);
    assert_eq!(offsets(&tm.marks), vec![10]);
    assert_eq!(start, 10);
    assert!(matches!(tm.pre_compose_action.last(), Some(PostInputAction::ScrollUp { n: 4 })));
    move_mark_to_start_of_file(&mut tm, &mut start);
    assert_eq!(offsets(&tm.marks), vec![0]);
    assert_eq!(start, 0);
    tm.marks = vec![Mark { offset: 1 }, Mark { offset: 5 }, Mark { offset: 9 }];
    move_mark_to_screen_end(&mut tm, 3, 7);
    assert_eq!(offsets(&tm.marks), vec![7, 5, 7]);
    tm.marks = vec![Mark { offset: 1 }, Mark { offset: 5 }, Mark { offset: 9 }];
    move_mark_to_screen_start(&mut tm, 3, 7);
    assert_eq!(offsets(&tm.marks), vec![3, 5, 3]);
}

#[test]
fn a_mark_goes_to_the_same_column_of_the_next_line() {
    let b = Buffer::from_bytes(b"abc\ndefg");
    let mut tm = ctx(&[2]);
    let r = move_mark_to_next_line_in_lines(&mut tm, &b, 0, &vec![(0, 4), (4, 8)]);
    assert_eq!(r, Some((2, 6)));
    assert_eq!(offsets(&tm.marks), vec![6]);
    let r = move_mark_to_next_line_in_lines(&mut tm, &b, 0, &vec![(0, 4), (4, 8)]);
    assert_eq!(r, None);
    let mut tm = ctx(&[3]);
    let r = move_mark_to_next_line_in_lines(&mut tm, &b, 0, &vec![(0, 4), (4, 6)]);
    assert_eq!(r, Some((3, 6)));
}

#[test]
fn counting_and_finding_end_of_lines() {
    let b = Buffer::from_bytes(b"a\nb\n\nc");
    assert_eq!(get_byte_count(&b, b'\n'), 3);
    assert_eq!(find_nth_byte_offset(&b, b'\n', 1), Some(1));
    assert_eq!(find_nth_byte_offset(&b, b'\n', 3), Some(4));
    assert_eq!(find_nth_byte_offset(&b, b'\n', 4), None);
}

#[test]
fn line_numbers_are_read_as_u64() {
    let s = |t: &str| -> Vec<char> { t.chars().collect() };
    assert_eq!(parse_u64_or_zero(&s("42")), 42);
    assert_eq!(parse_u64_or_zero(&s("+7")), 7);
    assert_eq!(parse_u64_or_zero(&s("")), 0);
    assert_eq!(parse_u64_or_zero(&s("+")), 0);
    assert_eq!(parse_u64_or_zero(&s("12a")), 0);
    assert_eq!(parse_u64_or_zero(&s("18446744073709551615")), u64::MAX);
    assert_eq!(parse_u64_or_zero(&s("18446744073709551616")), 0);
}

#[test]
fn goto_line_takes_digits_and_names_a_line() {
    let text = Buffer::from_bytes(b"a\nb\nc");
    let mut doc = Buffer::new();
    let mut gtm = GotoLineModeContext::new();
    assert_eq!(goto_line_target_after_char(&mut gtm, &text, &mut doc, '0'), None);
    assert_eq!(goto_line_target_after_char(&mut gtm, &text, &mut doc, 'x'), None);
    assert_eq!(goto_line_target_after_char(&mut gtm, &text, &mut doc, '2'), Some(2));
    assert_eq!(content(&doc), b"Goto: 2");
    assert!(!gtm.eof);
    assert_eq!(goto_line_target_after_char(&mut gtm, &text, &mut doc, '5'), Some(3));
    assert!(gtm.eof);
    assert_eq!(goto_line_target_after_char(&mut gtm, &text, &mut doc, '1'), None);
    assert_eq!(content(&doc), b"Goto: 25");
    assert_eq!(goto_line_target_after_del(&mut gtm, &text, &mut doc), Some(2));
    assert_eq!(content(&doc), b"Goto: 2");
    goto_line_controller_stop(&mut gtm, &mut doc);
    assert!(gtm.goto_line_str.is_empty());
    assert_eq!(content(&doc), b"Goto: ");
}

#[test]
fn goto_line_puts_the_mark_at_the_start_of_the_line() {
    let text = Buffer::from_bytes(b"a\nbb\nc");
    let screen = blank_screen();
    let mut tm = ctx(&[0, 4]);
    let mut start: u64 = 0;
    let a = goto_line_set_target_line(&mut tm, &text, &screen, &mut start, 3);
    assert!(matches!(a, PostInputAction::CenterAroundMainMark));
    assert_eq!(offsets(&tm.marks), vec![5]);
    assert_eq!(start, 5);
    goto_line_set_target_line(&mut tm, &text, &screen, &mut start, 9);
    assert_eq!(offsets(&tm.marks), vec![6]);
    goto_line_set_target_line(&mut tm, &text, &screen, &mut start, 1);
    assert_eq!(offsets(&tm.marks), vec![0]);
}

#[test]
fn find_goes_from_match_to_match() {
    let text = Buffer::from_bytes(b"one two one");
    let screen = blank_screen();
    let mut doc = Buffer::new();
    let mut fm = FindModeContext::new();
    let mut tm = ctx(&[0]);
    let c = find_controller_add_char(&mut fm, &mut tm, &text, &screen, &mut doc, &vec!['o', 'n', 'e']);
    assert_eq!(c, Some(0));
    assert_eq!(fm.match_start, Some(0));
    assert_eq!(fm.match_end, Some(3));
    assert_eq!(offsets(&tm.marks), vec![3]);
    assert_eq!(offsets(&tm.select_point), vec![0]);
    assert_eq!(content(&doc), b"Find: one");
    find_controller_next(&mut fm, &mut tm, &text, &screen, &mut doc);
    assert_eq!(fm.match_start, Some(8));
    assert_eq!(offsets(&tm.marks), vec![11]);
    find_controller_prev(&mut fm, &mut tm, &text, &screen, &mut doc);
    assert_eq!(fm.match_start, Some(0));
    assert_eq!(offsets(&tm.marks), vec![3]);
    find_controller_del_char(&mut fm, &mut tm, &text, &screen, &mut doc);
    assert_eq!(content(&doc), b"Find: on");
    assert_eq!(fm.match_start, Some(0));
    assert_eq!(offsets(&tm.marks), vec![2]);
    fm.reset();
    assert!(fm.find_str.is_empty());
    display_find_string(&fm, &mut doc);
    assert_eq!(content(&doc), b"Find: ");
}

#[test]
fn line_numbers_and_their_labels() {
    assert_eq!(num_digit(0), 1);
    assert_eq!(num_digit(9), 1);
    assert_eq!(num_digit(10), 2);
    assert_eq!(num_digit(999_999), 6);
    assert_eq!(num_digit(u64::MAX), 20);
    assert_eq!(decimal_chars(1234).iter().collect::<String>(), "1234");
    assert_eq!(decimal_chars(0).iter().collect::<String>(), "0");
    let label = |m: usize, mark: u64, cur: u64| {
        let (s, pad) = line_number_label(m, mark, cur);
        (s.iter().collect::<String>(), pad)
    };
    assert_eq!(label(0, 10, 7), ("7".to_string(), true));
    assert_eq!(label(1, 10, 7), ("3".to_string(), true));
    assert_eq!(label(1, 10, 12), ("2".to_string(), true));
    assert_eq!(label(1, 10, 10), ("0".to_string(), false));
    assert_eq!(label(2, 10, 10), ("10".to_string(), false));
}

#[test]
fn clicks_in_the_line_number_margin() {
    let mut ctx = LineNumberModeContext {
        linenum_view_id: Id(2),
        text_view_id: Id(1),
        display_mode: 3,
        start_line: None,
        start_col: None,
    };
    assert!(linenum_button_press(&mut ctx, 1));
    assert_eq!(ctx.display_mode, 0);
    assert!(!linenum_button_press(&mut ctx, 0));
    assert_eq!(ctx.display_mode, 0);
    let mut screen = Screen::new(3, 3);
    for (i, c) in "abcdefg".chars().enumerate() {
        let mut cpi = CodepointInfo::new();
        cpi.cp = c;
        cpi.displayed_cp = c;
        cpi.offset = Some(i as u64);
        cpi.size = 1;
        cpi.used = true;
        screen.push(cpi);
    }
    let mut tm = ctx_of(&[0, 5]);
    assert!(!linenum_button_release(&mut tm, &screen, 1, 1));
    assert_eq!(offsets(&tm.marks), vec![0, 5]);
    assert!(linenum_button_release(&mut tm, &screen, 0, 1));
    assert_eq!(offsets(&tm.marks), vec![3]);
}

fn ctx_of(o: &[u64]) -> TextModeContext<Utf8Codec> {
    ctx(o)
}

fn text_screen(width: usize, height: usize, text: &str) -> Screen {
    let mut screen = Screen::new(width, height);
    for (i, c) in text.chars().enumerate() {
        let mut cpi = CodepointInfo::new();
        cpi.cp = c;
        cpi.displayed_cp = c;
        cpi.offset = Some(i as u64);
        cpi.size = 1;
        cpi.used = true;
        screen.push(cpi);
    }
    screen
}

#[test]
fn a_click_puts_the_main_mark_under_the_pointer() {
    let screen = text_screen(4, 3, "abcdefg");
    let mut tm = ctx(&[0, 6]);
    tm.select_point = vec![Mark { offset: 1 }];
    assert!(button_press(&mut tm, &screen, 0, 2, 1));
    assert_eq!(offsets(&tm.marks), vec![6]);
    assert_eq!(tm.mark_index, 0);
    assert!(tm.select_point.is_empty());
    assert_eq!(tm.button_state[0], 1);
    assert_eq!(tm.prev_action, TextModeAction::Ignore);
    assert!(!button_press(&mut tm, &screen, 0, 3, 1));
    assert_eq!(offsets(&tm.marks), vec![6]);
    assert!(!button_press(&mut tm, &screen, 2, 0, 0));
    assert_eq!(tm.button_state[2], 1);
    button_release(&mut tm, 2);
    assert_eq!(tm.button_state[2], 0);
}

#[test]
fn dragging_moves_the_selection_point() {
    let screen = text_screen(4, 3, "abcdefgh");
    let mut tm = ctx(&[0]);
    pointer_motion(&mut tm, &screen, 1, 1);
    assert!(tm.select_point.is_empty());
    tm.button_state[0] = 1;
    pointer_motion(&mut tm, &screen, 1, 1);
    assert_eq!(offsets(&tm.select_point), vec![5]);
    assert!(matches!(tm.pre_compose_action.last(), Some(PostInputAction::ScrollUp { n: 1 })));
    pointer_motion(&mut tm, &screen, 3, 2);
    assert_eq!(offsets(&tm.select_point), vec![5]);
}

#[test]
fn a_mark_goes_to_the_previous_screen_line() {
    let screen = text_screen(4, 3, "abcdefg");
    let mut marks = vec![Mark { offset: 5 }];
    let r = move_mark_to_previous_line(&mut marks, &screen, 0);
    assert_eq!(r, None);
    assert_eq!(offsets(&marks), vec![1]);
    let r = move_mark_to_previous_line(&mut marks, &screen, 0);
    assert_eq!(r, Some((0, 6, 4, 3)));
    assert_eq!(offsets(&marks), vec![1]);
    let mut start: u64 = 7;
    move_mark_to_previous_line_in_lines(&mut marks, 0, &vec![(0, 4), (5, 9)], &mut start);
    assert_eq!(offsets(&marks), vec![1]);
    assert_eq!(start, 7);
    let mut marks = vec![Mark { offset: 7 }];
    move_mark_to_previous_line_in_lines(&mut marks, 0, &vec![(0, 4), (5, 9)], &mut start);
    assert_eq!(offsets(&marks), vec![0]);
    assert_eq!(start, 0);
}

#[test]
fn cloning_a_mark_to_the_next_line() {
    let screen = text_screen(4, 3, "abcdefg");
    let mut tm = ctx(&[1]);
    let idx = clone_last_mark(&mut tm);
    assert_eq!(idx, 1);
    assert_eq!(offsets(&tm.marks), vec![1, 1]);
    assert_eq!(tm.mark_index, 1);
    tm.marks[1].offset = 5;
    end_clone_and_move_mark_to_next_line(&mut tm, &screen, Some((1, 5)));
    assert_eq!(offsets(&tm.marks), vec![1, 5]);
    assert_eq!(tm.mark_revision, 1);
    let idx = clone_last_mark(&mut tm);
    assert_eq!(idx, 2);
    end_clone_and_move_mark_to_next_line(&mut tm, &screen, Some((5, 5)));
    assert_eq!(offsets(&tm.marks), vec![1, 5]);
    assert_eq!(tm.mark_index, 1);
    assert!(matches!(tm.pre_compose_action.last(), Some(PostInputAction::CenterAroundMainMark)));
    clone_last_mark(&mut tm);
    end_clone_and_move_mark_to_next_line(&mut tm, &screen, None);
    assert_eq!(offsets(&tm.marks), vec![1, 5]);
    assert_eq!(tm.mark_index, 1);
}

#[test]
fn cloning_a_mark_to_the_previous_line() {
    let screen = text_screen(4, 3, "abcdefg");
    let mut tm = ctx(&[5, 6]);
    end_clone_and_move_mark_to_previous_line(&mut tm, &screen, vec![Mark { offset: 1 }, Mark { offset: 6 }], 5);
    assert_eq!(offsets(&tm.marks), vec![1, 5, 6]);
    assert_eq!(tm.mark_index, 0);
    assert_eq!(tm.mark_revision, 1);
    let before = offsets(&tm.marks);
    end_clone_and_move_mark_to_previous_line(&mut tm, &screen, vec![Mark { offset: 1 }], 1);
    assert_eq!(offsets(&tm.marks), before);
}

#[test]
fn text_mode_actions_around_the_stages() {
    let mut tm = ctx(&[4]);
    let mut start: u64 = 50;
    tm.mark_revision = 3;
    let a = run_text_mode_actions(&mut tm, Stage::Input, StagePosition::Pre, &mut start, 40, 7, 7);
    assert!(a.is_empty());
    assert_eq!(tm.prev_buffer_log_revision, 7);
    assert_eq!(tm.prev_mark_revision, 3);
    tm.prev_action = TextModeAction::MarksMove;
    let a = run_text_mode_actions(&mut tm, Stage::Input, StagePosition::Post, &mut start, 40, 8, 8);
    assert!(a.is_empty());
    assert_eq!(start, 40);
    let n = tm.pre_compose_action.len();
    assert!(matches!(tm.pre_compose_action[n - 2], PostInputAction::DeduplicateAndSaveMarks { .. }));
    assert!(matches!(tm.pre_compose_action[n - 1], PostInputAction::CheckMarks));
    let a = run_text_mode_actions(&mut tm, Stage::Compositing, StagePosition::Pre, &mut start, 40, 8, 8);
    assert_eq!(a.len(), n + 1);
    assert!(tm.pre_compose_action.is_empty());
}

fn entry(path: &str, is_dir: bool) -> DirEntry {
    let name: String = path.rsplit('/').next().unwrap().to_string();
    DirEntry { path: path.chars().collect(), name: name.chars().collect(), is_dir }
}

fn text(v: &[char]) -> String {
    v.iter().collect()
}

#[test]
fn open_doc_completes_the_path_typed() {
    let mut odm = OpenDocModeContext::new();
    let mut doc = Buffer::new();
    open_doc_display_prompt(&mut odm, &mut doc, &"/home".chars().collect(), '/');
    assert_eq!(text(&odm.prompt), "/home/");
    assert_eq!(content(&doc), b"Open: /home/");
    assert!(!open_doc_controller_add_char(&mut odm, 'b'));
    let entries = vec![entry("/home/bob", true), entry("/home/alice", true), entry("/home/bill.txt", false)];
    let (prefix, suffix) = split_prompt(&odm.prompt, '/');
    assert_eq!(text(&prefix), "/home/");
    assert_eq!(text(&suffix), "b");
    assert!(open_doc_do_completion(&mut odm, Some(&entries), false, '/'));
    let list: Vec<String> = odm.completion_list.iter().map(|c| text(c)).collect();
    assert_eq!(list, vec!["/home/bill.txt\n".to_string(), "/home/bob/\n".to_string()]);
    assert_eq!(open_doc_controller_select_next_completion(&mut odm), Some(15));
    assert_eq!(odm.completion_index, 1);
    assert_eq!(open_doc_controller_select_next_completion(&mut odm), Some(0));
    assert_eq!(open_doc_controller_select_prev_completion(&mut odm), Some(15));
    let mut view = Buffer::new();
    fill_completion_buffer(&odm, &mut view);
    assert_eq!(content(&view), b"/home/bill.txt\n/home/bob/\n");
    assert!(open_doc_controller_apply_current_completion(&mut odm));
    assert_eq!(text(&odm.prompt), "/home/bob/");
    assert!(odm.completion_list.is_empty());
    open_doc_controller_discard_prompt_suffix(&mut odm, '/');
    assert_eq!(text(&odm.prompt), "/home/");
    open_doc_controller_discard_prompt_suffix(&mut odm, '/');
    assert_eq!(text(&odm.prompt), "/");
    assert!(!open_doc_controller_del_char(&mut odm));
    assert_eq!(text(&odm.prompt), "/");
}

#[test]
fn open_doc_auto_completes_a_single_match_and_reports_unreadable_directories() {
    let mut odm = OpenDocModeContext::new();
    odm.prompt = "/tmp/fo".chars().collect();
    let entries = vec![entry("/tmp/foo", false), entry("/tmp/bar", false)];
    assert!(open_doc_do_completion(&mut odm, Some(&entries), true, '/'));
    assert_eq!(text(&odm.prompt), "/tmp/foo");
    assert!(!open_doc_do_completion(&mut odm, None, false, '/'));
    assert_eq!(text(odm.error_msg.as_ref().unwrap()), "cannot read '/tmp/foo'\n");
    assert_eq!(open_doc_controller_select_next_completion(&mut odm), None);
}

#[test]
fn the_document_opened_comes_from_the_prompt_or_the_completion() {
    let mut odm = OpenDocModeContext::new();
    odm.prompt = "/tmp/new.txt".chars().collect();
    assert_eq!(open_doc_load_path(&odm).iter().collect::<String>(), "/tmp/new.txt");
    odm.completion_list = vec!["/tmp/a.txt\n".chars().collect(), "/tmp/dir/\n".chars().collect()];
    odm.completion_index = 1;
    assert_eq!(open_doc_load_path(&odm).iter().collect::<String>(), "/tmp/dir/");
}

#[test]
fn the_completion_pop_up_stands_above_the_status_view() {
    assert_eq!(completion_popup_rect(0, 23, 80, 1, 24), (0, 0, 80, 23));
    assert_eq!(completion_popup_rect(2, 30, 40, 2, 24), (2, 8, 40, 22));
    assert_eq!(completion_popup_rect(0, 5, 10, 30, 24), (0, 5, 10, 0));
}

#[test]
fn the_margin_fits_the_largest_label() {
    let b = Buffer::from_bytes(b"a\nb\n");
    assert_eq!(line_number_margin_width(&b, true, 0), 1);
    assert_eq!(line_number_margin_width(&b, false, 0), 2);
    assert_eq!(line_number_margin_width(&b, true, 3), 2);
    let big = Buffer::from_bytes(&[b'\n'; 99]);
    assert_eq!(line_number_margin_width(&big, true, 0), 3);
    assert_eq!(line_number_margin_width(&big, false, 1), 4);
}

#[test]
fn the_margin_follows_another_view() {
    let mut ctx = LineNumberMode::new().alloc_ctx();
    assert_eq!(ctx.display_mode, 0);
    assert!(!linenum_subscribe(&mut ctx, Id(3), Id(3)));
    assert!(!linenum_subscribe(&mut ctx, Id(0), Id(3)));
    assert!(!linenum_subscribe(&mut ctx, Id(3), Id(0)));
    assert!(linenum_subscribe(&mut ctx, Id(3), Id(4)));
    assert_eq!(ctx.text_view_id, Id(3));
    assert_eq!(ctx.linenum_view_id, Id(4));
}

#[test]
fn marks_moved_up_come_back_with_their_checks() {
    let mut tm = ctx(&[7]);
    tm.mark_index = 0;
    let before = tm.pre_compose_action.len();
    end_marks_to_previous_line(&mut tm, vec![Mark { offset: 3 }]);
    assert_eq!(offsets(&tm.marks), vec![3]);
    assert_eq!(tm.mark_index, 0);
    assert_eq!(tm.pre_compose_action.len(), before + 2);
    assert!(matches!(tm.pre_compose_action[before], PostInputAction::UpdateReadCache));
    assert!(matches!(tm.pre_compose_action[before + 1], PostInputAction::CheckMarks));
    assert_eq!(tm.prev_action, TextModeAction::MarksMove);
    let mut tm = ctx(&[2, 9]);
    tm.mark_index = 1;
    end_marks_to_previous_line(&mut tm, vec![Mark { offset: 0 }, Mark { offset: 5 }]);
    assert_eq!(offsets(&tm.marks), vec![0, 5]);
    assert_eq!(tm.mark_index, 1);
}

#[test]
fn goto_line_keys_move_the_main_mark() {
    let text = Buffer::from_bytes(b"a\nbb\nc");
    let screen = blank_screen();
    let mut tm = ctx(&[1, 4]);
    tm.mark_index = 1;
    let mut start: u64 = 0;
    let mut doc = Buffer::new();
    let mut gtm = GotoLineModeContext::new();
    let r = goto_line_controller_add_char(&mut gtm, &mut tm, &text, &screen, &mut start, &mut doc, '2');
    assert!(matches!(r, Some(PostInputAction::CenterAroundMainMark)));
    assert_eq!(offsets(&tm.marks), vec![2]);
    assert_eq!(tm.mark_index, 0);
    assert_eq!(content(&doc), b"Goto: 2");
    let r = goto_line_controller_add_char(&mut gtm, &mut tm, &text, &screen, &mut start, &mut doc, 'x');
    assert!(r.is_none());
    assert_eq!(offsets(&tm.marks), vec![2]);
    let r = goto_line_controller_add_char(&mut gtm, &mut tm, &text, &screen, &mut start, &mut doc, '9');
    assert!(r.is_some());
    assert_eq!(offsets(&tm.marks), vec![5]);
    let r = goto_line_controller_del_char(&mut gtm, &mut tm, &text, &screen, &mut start, &mut doc);
    assert!(r.is_some());
    assert_eq!(offsets(&tm.marks), vec![2]);
    assert_eq!(content(&doc), b"Goto: 2");
}

#[test]
fn queued_actions_run_in_order_until_one_needs_the_layout() {
    let screen = blank_screen();
    let mut tm = ctx(&[3, 3, 5]);
    tm.mark_index = 0;
    let actions = vec![PostInputAction::CheckMarks];
    assert!(matches!(run_text_mode_actions_vec(&mut tm, &screen, &actions, 0), (1, None)));
    assert_eq!(offsets(&tm.marks), vec![3, 5]);
    assert_eq!(tm.mark_index, 1);

    let mut tm = ctx(&[2, 7, 9]);
    tm.mark_index = 1;
    let actions = vec![
        PostInputAction::ResetMarks,
        PostInputAction::ScrollDown { n: 2 },
        PostInputAction::CancelSelection,
    ];
    let r = run_text_mode_actions_vec(&mut tm, &screen, &actions, 0);
    assert!(matches!(r, (2, Some(PostInputAction::ScrollDown { n: 2 }))));
    assert_eq!(offsets(&tm.marks), vec![7]);
    assert_eq!(tm.mark_index, 0);
    tm.select_point = vec![Mark { offset: 1 }];
    let r = run_text_mode_actions_vec(&mut tm, &screen, &actions, 2);
    assert!(matches!(r, (3, None)));
    assert!(tm.select_point.is_empty());
    assert_eq!(tm.mark_index, 0);
}

#[test]
fn a_list_of_mark_actions_runs_in_one_call() {
    let screen = blank_screen();
    let mut tm = ctx(&[4, 4, 8]);
    tm.mark_index = 2;
    tm.select_point = vec![Mark { offset: 1 }];
    let actions = vec![PostInputAction::ResetMarks, PostInputAction::CheckMarks, PostInputAction::CancelSelection];
    assert!(matches!(run_text_mode_actions_vec(&mut tm, &screen, &actions, 0), (3, None)));
    assert_eq!(offsets(&tm.marks), vec![8]);
    assert_eq!(tm.mark_index, 0);
    assert!(tm.select_point.is_empty());
}
