use unlimited_core::buffer::Buffer;
use unlimited_core::codec::{u32_to_char, SyncDirection, TextCodec, Utf8Codec};
use unlimited_core::codepointinfo::{CodepointInfo, TextStyle};
use unlimited_core::config::parse_config_var;
use unlimited_core::mark::{read_char_backward, read_char_forward, Mark};
use unlimited_core::screen::line::Line;
use unlimited_core::screen::screen::Screen;
use unlimited_core::sort_tuple_pair;
use unlimited_core::text_mode::movement::move_on_screen_mark_to_next_line;
use unlimited_core::text_mode::ruler::{draw_ruler, TextRuler};
use unlimited_core::text_mode::text_mode::PostInputAction;
use unlimited_core::view::layout::LayoutEnv;
use unlimited_core::view::Id;

fn cell(c: char, offset: u64) -> CodepointInfo {
    CodepointInfo {
        used: true,
        metadata: false,
        cp: c,
        displayed_cp: c,
        offset: Some(offset),
        size: 1,
        skip_render: false,
        style: TextStyle::new(),
    }
}

fn filled_screen(width: usize, height: usize, text: &str) -> Screen {
    let mut s = Screen::new(width, height);
    for (i, c) in text.chars().enumerate() {
        s.push(cell(c, i as u64));
    }
    s
}

#[test]
fn sort_tuple_pair_orders() {
    assert_eq!(sort_tuple_pair((3u64, 1u64)), (1, 3));
    assert_eq!(sort_tuple_pair((1u64, 3u64)), (1, 3));
    assert_eq!(sort_tuple_pair((2u64, 2u64)), (2, 2));
}

#[test]
fn utf8_codec_decodes_and_encodes() {
    let codec = Utf8Codec::new();
    let data = [0x61u8, 0xe2, 0x82, 0xac, 0xff];
    assert_eq!(codec.decode(SyncDirection::Forward, &data, 0), ('a', 0, 1));
    assert_eq!(codec.decode(SyncDirection::Forward, &data, 1), ('€', 1, 3));
    assert_eq!(codec.decode(SyncDirection::Forward, &data, 4), ('\u{fffd}', 4, 1));
    assert_eq!(codec.decode(SyncDirection::Backward, &data, 4), ('€', 1, 3));
    let mut out = [0u8; 4];
    assert_eq!(codec.encode(0x20ac, &mut out), 3);
    assert_eq!(&out[0..3], &[0xe2, 0x82, 0xac]);
    assert_eq!(codec.encode('a' as u32, &mut out), 1);
    assert_eq!(out[0], 0x61);
    assert_eq!(u32_to_char(0x41), 'A');
    assert_eq!(u32_to_char(0xd800), '\u{fffd}');
}

#[test]
fn encode_then_decode_gives_the_code_point_back() {
    let codec = Utf8Codec::new();
    for cp in [0x24u32, 0xa2, 0x20ac, 0x10348, 0x7f, 0x800, 0xffff, 0x10ffff] {
        let mut out = [0u8; 4];
        let n = codec.encode(cp, &mut out);
        let (c, _, size) = codec.decode(SyncDirection::Forward, &out[0..n], 0);
        assert_eq!(c as u32, cp);
        assert_eq!(size, n);
    }
}

#[test]
fn buffer_insert_read_find() {
    let mut b = Buffer::new();
    assert_eq!(b.insert(0, 5, b"hello"), 5);
    assert_eq!(b.insert(5, 6, b" world"), 6);
    assert_eq!(b.insert(0, 1, b">"), 1);
    assert_eq!(b.size(), 12);
    let mut out = vec![];
    assert_eq!(b.read(1, 5, &mut out), 5);
    assert_eq!(out, b"hello".to_vec());
    assert_eq!(b.read(20, 5, &mut out), 0);
    assert_eq!(b.find(b"o", 0, None), Some(5));
    assert_eq!(b.find(b"o", 6, None), Some(8));
    assert_eq!(b.find(b"z", 0, None), None);
    assert_eq!(b.find_reverse(b"o", 12, None), Some(8));
}

#[test]
fn read_chars_around_an_offset() {
    let codec = Utf8Codec::new();
    let b = Buffer::from_bytes("a€b".as_bytes());
    assert_eq!(read_char_forward(&b, 1, &codec).0, '€');
    assert_eq!(read_char_forward(&b, 1, &codec).2, 3);
    assert_eq!(read_char_backward(&b, 4, &codec).0, '€');
}

#[test]
fn marks_move_over_lines_and_tokens() {
    let codec = Utf8Codec::new();
    let b = Buffer::from_bytes(b"one two\nthree");
    let mut m = Mark::new(5);
    m.move_to_start_of_line(&b, &codec);
    assert_eq!(m.offset, 0);
    m.move_to_end_of_line(&b, &codec);
    assert_eq!(m.offset, 7);
    m.move_forward(&b, &codec);
    assert_eq!(m.offset, 8);
    m.move_to_end_of_line(&b, &codec);
    assert_eq!(m.offset, 13);
    assert!(m.at_end_of_buffer(&b));
    let mut t = Mark::new(0);
    t.move_to_token_end(&b, &codec);
    assert_eq!(t.offset, 3);
    t.move_to_token_end(&b, &codec);
    assert_eq!(t.offset, 7);
    t.move_to_token_start(&b, &codec);
    assert_eq!(t.offset, 4);
}

#[test]
fn line_push_until_full() {
    let mut l = Line::new(3);
    assert!(l.push(cell('a', 0)).0);
    assert!(l.push(cell('b', 1)).0);
    assert_eq!(l.available(), 1);
    assert!(l.push(cell('c', 2)).0);
    assert!(!l.push(cell('d', 3)).0);
    assert!(l.read_only);
    assert_eq!(l.get_used_cpi(2).unwrap().cp, 'c');
    assert!(l.get_used_cpi(3).is_none());
    let h1 = l.hash();
    assert_eq!(l.hash(), h1);
    l.clear();
    assert_eq!(l.nb_cells, 0);
    assert!(!l.read_only);
}

#[test]
fn screen_push_then_find_by_offset() {
    let s = filled_screen(3, 3, "abcdefg");
    assert_eq!(s.push_count(), 7);
    assert_eq!(s.first_offset, Some(0));
    assert_eq!(s.last_offset, Some(6));
    let (c, x, y) = s.find_cpi_by_offset(4);
    assert_eq!(c.unwrap().cp, 'e');
    assert_eq!((x, y), (1, 1));
    assert!(s.contains_offset(6));
    assert!(!s.contains_offset(7));
    assert_eq!(s.find_cpi_by_offset(9).0, None);
    assert_eq!(s.char_width('a'), 1);
    assert_eq!(s.char_width('\u{1}'), 1);
    assert_eq!(s.char_width('日'), 2);
}

#[test]
fn screen_refuses_cells_once_full() {
    let mut s = filled_screen(2, 2, "abcd");
    assert_eq!(s.push(cell('e', 4)), (false, 2));
    assert_eq!(s.push_count(), 4);
    assert_eq!(s.get_cpinfo(1, 1).unwrap().cp, 'd');
}

#[test]
fn mark_moves_to_the_next_screen_line() {
    let s = filled_screen(3, 3, "abcdefg");
    let mut m = Mark::new(1);
    let r = move_on_screen_mark_to_next_line(&mut m, &s);
    assert_eq!(r.0, true);
    assert_eq!(r.1, Some((1, 4)));
    assert!(r.2.is_none());
    assert_eq!(m.offset, 4);
    // the next line is shorter: the mark goes to its last cell
    let mut m = Mark::new(5);
    let r = move_on_screen_mark_to_next_line(&mut m, &s);
    assert_eq!(r.1, Some((5, 6)));
    assert_eq!(m.offset, 6);
    // the last line asks to scroll
    let mut m = Mark::new(6);
    let r = move_on_screen_mark_to_next_line(&mut m, &s);
    assert!(!r.0);
    assert!(matches!(r.2, Some(PostInputAction::ScrollDown { n: 1 })));
    assert_eq!(m.offset, 6);
    // an offset the screen does not show
    let mut m = Mark::new(40);
    assert_eq!(move_on_screen_mark_to_next_line(&mut m, &s).0, false);
    assert_eq!(m.offset, 40);
}

#[test]
fn mark_stays_when_the_next_line_is_empty() {
    let s = filled_screen(3, 3, "abc");
    let mut m = Mark::new(1);
    let r = move_on_screen_mark_to_next_line(&mut m, &s);
    assert_eq!(r.0, true);
    assert_eq!(r.1, Some((1, 1)));
    assert!(r.2.is_none());
    assert_eq!(m.offset, 1);
}

#[test]
fn ruler_columns_from_the_configuration() {
    let mut r = TextRuler::new();
    r.setup(Some("  3,1 "));
    let mut env = LayoutEnv {
        graphic_display: true,
        quit: false,
        base_offset: 0,
        max_offset: 0,
        screen: Screen::new(4, 2),
        active_view_id: Id(0),
        current_view_id: Id(0),
    };
    r.finish(&mut env);
    assert_eq!(env.screen.line[0].cells[2].cpi.style.bg_color, (40, 44, 52));
    assert_eq!(env.screen.line[1].cells[0].cpi.style.bg_color, (40, 44, 52));
    assert_eq!(env.screen.line[1].cells[1].cpi.style.bg_color, TextStyle::default_bg_color());
    // a field with a blank inside is not a number: column 0, ignored
    let mut r2 = TextRuler::new();
    r2.setup(Some("2, 4"));
    let mut s = Screen::new(4, 1);
    draw_ruler(&mut s, &vec![2, 0, 9]);
    assert_eq!(s.line[0].cells[1].cpi.style.bg_color, (40, 44, 52));
    assert_eq!(s.line[0].cells[0].cpi.style.bg_color, TextStyle::default_bg_color());
}

#[test]
fn config_variables_split_on_their_equal_sign() {
    assert_eq!(parse_config_var("a=b"), Some(("a".to_string(), "b".to_string())));
    assert_eq!(parse_config_var("text-mode:ruler=80,120"), Some(("text-mode:ruler".to_string(), "80,120".to_string())));
    assert_eq!(parse_config_var("=x"), Some(("".to_string(), "x".to_string())));
    assert_eq!(parse_config_var("a=b=c"), None);
    assert_eq!(parse_config_var("novalue"), None);
}


#[test]
fn screen_apply_visits_used_cells_until_told_to_stop() {
    let mut s = filled_screen(3, 2, "abcd");
    let mut seen = vec![];
    unlimited_core::screen::screen::screen_apply(&mut s, |c, l, cpi| {
        seen.push((c, l));
        cpi.displayed_cp = 'x';
        seen.len() < 3
    });
    assert_eq!(seen, vec![(0, 0), (1, 0), (2, 0)]);
    assert_eq!(s.line[0].cells[2].cpi.displayed_cp, 'x');
    assert_eq!(s.line[1].cells[0].cpi.displayed_cp, 'd');
    let mut n = 0;
    unlimited_core::screen::screen::screen_apply_all(&mut s, |_, _, _| {
        n += 1;
        true
    });
    assert_eq!(n, 6);
}
