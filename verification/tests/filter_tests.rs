use unlimited_core::buffer::Buffer;
use unlimited_core::codec::Utf8Codec;
use unlimited_core::codepointinfo::{CodepointInfo, TextStyle};
use unlimited_core::screen::screen::Screen;
use unlimited_core::text_mode::char_map::{transform_io_data, CharMapFilter};
use unlimited_core::text_mode::data_fetch::RawDataFilter;
use unlimited_core::text_mode::highlight_selection::HighlightSelectionFilter;
use unlimited_core::text_mode::screen_filler::ScreenFilter;
use unlimited_core::text_mode::show_trailing_spaces::ShowTrailingSpaces;
use unlimited_core::text_mode::tab_expansion::TabFilter;
use unlimited_core::text_mode::text_mode::{build_text_mode_char_map, build_text_mode_color_map, TextModeContext};
use unlimited_core::text_mode::text_mode_codec::{filter_utf8_bytearray, TextCodecFilter, Utf8Filter, Utf8FilterCtx};
use unlimited_core::text_mode::highlight_selection_overlay::{refresh_screen_selections, HighlightSelectionOverlay};
use unlimited_core::text_mode::draw_mark::{refresh_screen_marks, DrawMarks};
use unlimited_core::text_mode::unicode_to_text::UnicodeToTextFilter;
use unlimited_core::text_mode::word_wrap::WordWrapFilter;
use unlimited_core::mark::Mark;
use unlimited_core::view::layout::{FilterData, FilterIo, LayoutEnv, Unicode};
use unlimited_core::view::Id;
use std::collections::HashMap;

fn text_io(offset: u64, c: char) -> FilterIo {
    FilterIo {
        metadata: false,
        style: TextStyle::new(),
        offset: Some(offset),
        size: 1,
        data: FilterData::TextInfo { real_cp: c as u32, displayed_cp: c as u32 },
    }
}

fn text_of(s: &str) -> Vec<FilterIo> {
    s.chars().enumerate().map(|(i, c)| text_io(i as u64, c)).collect()
}

fn displayed(v: &[FilterIo]) -> String {
    v.iter()
        .filter_map(|io| match io.data {
            FilterData::TextInfo { displayed_cp, .. } => char::from_u32(displayed_cp),
            _ => None,
        })
        .collect()
}

fn env(width: usize, height: usize) -> LayoutEnv {
    LayoutEnv {
        graphic_display: true,
        quit: false,
        base_offset: 0,
        max_offset: 1000,
        screen: Screen::new(width, height),
        active_view_id: Id(1),
        current_view_id: Id(1),
    }
}

fn eos(offset: u64) -> FilterIo {
    FilterIo { metadata: true, style: TextStyle::new(), offset: Some(offset), size: 0, data: FilterData::EndOfStream }
}

#[test]
fn replace_displayed_codepoint_keeps_the_real_one() {
    let io = text_io(3, '\t');
    let r = FilterIo::replace_displayed_codepoint(&io, ' ');
    assert_eq!(r.data, FilterData::TextInfo { real_cp: '\t' as u32, displayed_cp: ' ' as u32 });
    assert_eq!(r.offset, Some(3));
    let e = eos(4);
    assert_eq!(FilterIo::replace_displayed_codepoint(&e, ' '), e);
    let d = io.duplicate();
    assert_eq!(d, io);
    io.check_invariants();
}

#[test]
fn tab_expands_to_the_next_tab_stop() {
    let mut f = TabFilter::new();
    let input = text_of("ab\tc\n\td");
    let mut out = vec![];
    f.run(&input, &mut out);
    assert_eq!(displayed(&out), "ab      c\n        d");
    // the first blank stands for the tabulation byte, the others are metadata
    assert_eq!(out[2].size, 1);
    assert!(!out[2].metadata);
    assert_eq!(out[3].size, 0);
    assert!(out[3].metadata);
    assert_eq!(out[3].style.color, (128, 75, 165));
    assert_eq!(out[3].offset, Some(2));
}

#[test]
fn tab_setup_uses_magenta_on_a_text_display() {
    let mut f = TabFilter::new();
    let mut e = env(10, 2);
    e.graphic_display = false;
    f.setup(&e);
    let mut out = vec![];
    f.run(&text_of("\t"), &mut out);
    assert_eq!(out.len(), 8);
    assert_eq!(out[1].style.color, (128, 0, 128));
}

#[test]
fn unicode_arrays_become_text_at_their_offsets() {
    let mut f = UnicodeToTextFilter::new();
    let mut e = env(10, 2);
    e.base_offset = 10;
    f.setup(&e);
    let input = vec![
        FilterIo {
            metadata: false,
            style: TextStyle::new(),
            offset: None,
            size: 0,
            data: FilterData::UnicodeArray { vec: vec![Unicode { size: 1, cp: 'a' as u32 }, Unicode { size: 3, cp: 0x20ac }, Unicode { size: 1, cp: 'b' as u32 }] },
        },
        eos(15),
    ];
    let mut out = vec![];
    f.run(&input, &mut out);
    assert_eq!(out.len(), 4);
    assert_eq!(out[0].offset, Some(10));
    assert_eq!(out[1].offset, Some(11));
    assert_eq!(out[1].size, 3);
    assert_eq!(out[2].offset, Some(14));
    assert_eq!(displayed(&out), "a€b");
    assert_eq!(out[3].data, FilterData::EndOfStream);
}

#[test]
fn trailing_spaces_are_painted() {
    let mut f = ShowTrailingSpaces::new();
    let mut out = vec![];
    f.run(&text_of("a b  \nc "), &mut out);
    // the last blank is still held back
    assert_eq!(displayed(&out), "a b  \nc");
    assert_eq!(out[1].style.bg_color, TextStyle::default_bg_color());
    assert_eq!(out[3].style.bg_color, (255, 0, 0));
    assert_eq!(out[4].style.bg_color, (255, 0, 0));
    f.run(&[eos(8)], &mut out);
    assert_eq!(out[out.len() - 2].style.bg_color, (255, 0, 0));
    assert_eq!(out.last().unwrap().data, FilterData::EndOfStream);
}

#[test]
fn colorize_and_flush_trailing_spaces() {
    let mut f = ShowTrailingSpaces::new();
    let mut out = vec![];
    f.run(&text_of("  "), &mut out);
    assert!(out.is_empty());
    f.colorize_accum();
    f.flush_io(&mut out, text_io(2, 'x'));
    assert_eq!(displayed(&out), "  x");
    assert_eq!(out[0].style.bg_color, (255, 0, 0));
    assert_eq!(out[2].style.bg_color, TextStyle::default_bg_color());
}

#[test]
fn byte_codec_maps_each_byte() {
    let mut f = TextCodecFilter::new();
    let input = vec![FilterIo {
        metadata: false,
        style: TextStyle::new(),
        offset: Some(5),
        size: 2,
        data: FilterData::ByteArray { vec: vec![0x41, 0xe9] },
    }];
    let mut out = vec![];
    f.run(&input, &mut out);
    assert_eq!(out.len(), 1);
    assert_eq!(out[0].offset, Some(5));
    assert_eq!(out[0].data, FilterData::UnicodeArray { vec: vec![Unicode { size: 1, cp: 0x41 }, Unicode { size: 1, cp: 0xe9 }] });
}

#[test]
fn control_characters_are_escaped() {
    let chars = build_text_mode_char_map();
    let colors = build_text_mode_color_map();
    assert_eq!(chars.get(&1).unwrap(), "\\x01");
    assert_eq!(chars.get(&0x1b).unwrap(), "\\x1b");
    assert_eq!(chars.get(&0x7f).unwrap(), "\\x7f");
    assert_eq!(chars.get(&0x0a).unwrap(), " ");
    assert!(chars.get(&0x09).is_none());
    assert!(chars.get(&0x1f).is_none());
    assert_eq!(colors.get(&0x7f), Some(&(0, 255, 255)));
    assert_eq!(colors.get(&0x0d), Some(&(0, 170, 255)));
    assert_eq!(colors.get(&0x09), Some(&(242, 71, 132)));
    assert_eq!(colors.get(&0x01), Some(&(0, 128, 0)));
    assert_eq!(colors.get(&0x20), None);

    let v = transform_io_data(Some(&chars), Some(&colors), '\u{1}', '\u{1}', Some(7), 1, false, (1, 2, 3), (4, 5, 6), false);
    assert_eq!(displayed(&v), "\\x01");
    assert_eq!(v[0].size, 1);
    assert!(!v[0].metadata);
    assert_eq!(v[1].size, 0);
    assert!(v[1].metadata);
    assert_eq!(v[0].style.color, (0, 128, 0));
    assert_eq!(v[0].style.bg_color, (4, 5, 6));
    assert_eq!(v[3].offset, Some(7));

    // displayed differently: kept as it is
    let v = transform_io_data(Some(&chars), None, '\u{1}', 'x', Some(7), 1, true, (1, 2, 3), (4, 5, 6), false);
    assert_eq!(v.len(), 1);
    assert_eq!(displayed(&v), "x");
    assert_eq!(v[0].style.color, (1, 2, 3));
    assert!(v[0].style.is_selected);
}

#[test]
fn char_map_filter_rewrites_invisible_characters() {
    let ctx = TextModeContext::new(Utf8Codec::new());
    let mut f = CharMapFilter::new();
    f.setup(&ctx);
    let mut out = vec![];
    f.run(&text_of("a\u{0}\tb"), &mut out);
    assert_eq!(displayed(&out), "a\\x00\tb");
    let mut plain = vec![];
    CharMapFilter::new().run(&text_of("a\u{0}b"), &mut plain);
    assert_eq!(displayed(&plain), "a\u{0}b");
}

#[test]
fn screen_filler_puts_text_and_eof() {
    let mut f = ScreenFilter::new();
    let mut e = env(4, 2);
    f.setup();
    let mut input = text_of("ab\ncd");
    input.push(eos(5));
    f.run(&mut e, &input);
    assert!(!e.quit);
    assert!(e.screen.has_eof());
    // cells follow each other: a line feed does not end a screen line
    assert_eq!(e.screen.get_cpinfo(0, 0).unwrap().cp, 'a');
    assert_eq!(e.screen.get_cpinfo(2, 0).unwrap().cp, '\n');
    assert_eq!(e.screen.get_cpinfo(3, 0).unwrap().cp, 'c');
    assert_eq!(e.screen.get_cpinfo(0, 1).unwrap().cp, 'd');
    assert_eq!(e.screen.get_cpinfo(1, 1).unwrap().cp, '$');
    assert_eq!(e.screen.get_cpinfo(1, 1).unwrap().offset, Some(5));
    assert_eq!(e.screen.push_count(), 6);
    f.finish(&mut e);
    assert_eq!(e.screen.doc_max_offset, 1000);
}

#[test]
fn screen_filler_stops_on_a_full_screen() {
    let mut f = ScreenFilter::new();
    f.display_eof = false;
    let mut e = env(2, 1);
    f.run(&mut e, &text_of("abc"));
    assert!(e.quit);
    assert_eq!(e.screen.push_count(), 2);
    let mut e2 = env(3, 1);
    let limit = FilterIo { metadata: true, style: TextStyle::new(), offset: Some(1), size: 0, data: FilterData::CustomLimitReached };
    f.setup();
    f.run(&mut e2, &vec![text_io(0, 'x'), limit, text_io(1, 'y')]);
    assert!(e2.quit);
    assert_eq!(e2.screen.push_count(), 1);
    let mut e3 = env(3, 1);
    f.setup();
    f.run(&mut e3, &vec![eos(0)]);
    assert_eq!(e3.screen.get_cpinfo(0, 0).unwrap().cp, ' ');
}

#[test]
fn raw_data_reads_the_view_range() {
    let doc = Buffer::from_bytes(b"hello world");
    let mut f = RawDataFilter::new();
    let mut e = env(4, 2);
    e.base_offset = 2;
    e.max_offset = 100;
    f.setup(&e, false);
    let mut out = vec![];
    f.run(&mut e, Some(&doc), &mut out);
    assert_eq!(out.len(), 1);
    assert_eq!(out[0].offset, Some(2));
    assert_eq!(out[0].size, 4);
    assert_eq!(out[0].data, FilterData::ByteArray { vec: b"llo ".to_vec() });
    assert!(!e.quit);
    // the next read asks for one screen line more
    f.run(&mut e, Some(&doc), &mut out);
    assert_eq!(out.len(), 3);
    assert_eq!(out[1].data, FilterData::ByteArray { vec: b"world".to_vec() });
    assert_eq!(out[2].data, FilterData::EndOfStream);
    assert_eq!(out[2].offset, Some(11));
    assert!(e.quit);
}

#[test]
fn raw_data_stops_at_the_view_end() {
    let doc = Buffer::from_bytes(b"abcdefgh");
    let mut f = RawDataFilter::new();
    let mut e = env(10, 1);
    e.max_offset = 3;
    f.setup(&e, false);
    let mut out = vec![];
    f.run(&mut e, Some(&doc), &mut out);
    assert_eq!(out[0].data, FilterData::ByteArray { vec: b"abc".to_vec() });
    assert_eq!(out[1].data, FilterData::CustomLimitReached);
    assert!(e.quit);
    let mut none = vec![];
    f.run(&mut e, None, &mut none);
    assert!(none.is_empty());
}

#[test]
fn word_wrap_cuts_after_the_last_blank() {
    let e = env(10, 5);
    let mut f = WordWrapFilter::new();
    f.reset(&e, false);
    let mut out = vec![];
    f.run(&e, &text_of("hello world again\n"), &mut out);
    // "hello world" is 11 columns wide: the line is cut after "hello ",
    // then "world again" after "world "; the wrap markers show `\` and a
    // blank
    assert_eq!(displayed(&out), "hello \\ world \\ again\n");
    assert_eq!(out[6].data, FilterData::TextInfo { real_cp: '\\' as u32, displayed_cp: '\\' as u32 });
    assert!(out[6].metadata);
    assert_eq!(out[6].style.color, (255, 255, 0));
    assert_eq!(out[7].data, FilterData::TextInfo { real_cp: '\n' as u32, displayed_cp: ' ' as u32 });
}

#[test]
fn word_wrap_cuts_a_long_word() {
    let e = env(4, 5);
    let mut f = WordWrapFilter::new();
    f.reset(&e, false);
    let mut out = vec![];
    let mut input = text_of("abcdefgh");
    input.push(eos(8));
    f.run(&e, &input, &mut out);
    assert_eq!(displayed(&out), "abcdefgh");
    assert_eq!(out.last().unwrap().data, FilterData::EndOfStream);
    // a narrow screen is not wrapped
    let narrow = env(2, 5);
    let mut g = WordWrapFilter::new();
    g.reset(&narrow, false);
    let mut copy = vec![text_io(9, 'z')];
    g.run(&narrow, &text_of("a b c"), &mut copy);
    assert_eq!(displayed(&copy), "a b c");
}

#[test]
fn selection_is_highlighted() {
    let mut ctx = TextModeContext::new(Utf8Codec::new());
    ctx.marks[0] = Mark { offset: 4 };
    ctx.select_point.push(Mark { offset: 1 });
    let e = env(10, 2);
    let mut f = HighlightSelectionFilter::new();
    f.setup(&e, &ctx);
    let mut out = vec![];
    f.run(&e, &ctx, &text_of("abcdef"), &mut out);
    assert!(!out[0].style.is_selected);
    assert!(out[1].style.is_selected);
    assert!(out[3].style.is_selected);
    assert!(!out[4].style.is_selected);
    assert_eq!(out[1].style.bg_color, TextStyle::default_selected_bg_color());
    // no selection point: copied unchanged
    ctx.select_point.clear();
    let mut copy = vec![];
    f.run(&e, &ctx, &text_of("abc"), &mut copy);
    assert!(copy.iter().all(|io| !io.style.is_selected));
}

fn bytes_io(offset: u64, bytes: Vec<u8>) -> FilterIo {
    FilterIo {
        metadata: false,
        style: TextStyle::new(),
        offset: Some(offset),
        size: bytes.len(),
        data: FilterData::ByteArray { vec: bytes },
    }
}

#[test]
fn utf8_filter_joins_a_sequence_split_over_two_arrays() {
    let mut f = Utf8Filter::new();
    f.setup();
    let input = vec![bytes_io(0, vec![0x61, 0xe2, 0x82]), bytes_io(3, vec![0xac])];
    let mut out = vec![];
    f.run(&input, &mut out);
    assert_eq!(out.len(), 2);
    assert_eq!(out[0].data, FilterData::UnicodeArray { vec: vec![Unicode { size: 1, cp: 0x61 }] });
    assert_eq!(out[1].data, FilterData::UnicodeArray { vec: vec![Unicode { size: 3, cp: 0x20ac }] });
    assert_eq!(out[0].offset, None);
}

#[test]
fn utf8_filter_replaces_each_invalid_byte() {
    let mut f = Utf8Filter::new();
    let input = vec![bytes_io(0, vec![0xe0, 0x80, 0x41])];
    let mut out = vec![];
    f.run(&input, &mut out);
    assert_eq!(out.len(), 1);
    assert_eq!(
        out[0].data,
        FilterData::UnicodeArray {
            vec: vec![Unicode { size: 1, cp: 0xfffd }, Unicode { size: 1, cp: 0xfffd }, Unicode { size: 1, cp: 0x41 }]
        }
    );
}

#[test]
fn utf8_filter_lets_the_end_of_stream_through() {
    let mut f = Utf8Filter::new();
    let input = vec![bytes_io(0, vec![0xc3, 0xa9]), eos(2)];
    let mut out = vec![];
    f.run(&input, &mut out);
    assert_eq!(out.len(), 2);
    assert_eq!(out[0].data, FilterData::UnicodeArray { vec: vec![Unicode { size: 2, cp: 0xe9 }] });
    assert_eq!(out[1].data, FilterData::EndOfStream);
    assert_eq!(out[1].offset, Some(2));
}

#[test]
fn utf8_bytearray_decodes_a_four_byte_sequence() {
    let mut ctx = Utf8FilterCtx::new();
    let mut out = vec![];
    filter_utf8_bytearray(&mut ctx, &vec![0xf0, 0x9f, 0x98, 0x80, 0x7a], &mut out);
    assert_eq!(out.len(), 1);
    assert_eq!(
        out[0].data,
        FilterData::UnicodeArray { vec: vec![Unicode { size: 4, cp: 0x1f600 }, Unicode { size: 1, cp: 0x7a }] }
    );
}

fn screen_of(width: usize, height: usize, text: &str) -> Screen {
    let mut s = Screen::new(width, height);
    for (i, c) in text.chars().enumerate() {
        let mut cpi = CodepointInfo::new();
        cpi.cp = c;
        cpi.displayed_cp = c;
        cpi.offset = Some(i as u64);
        cpi.size = 1;
        cpi.used = true;
        s.push(cpi);
    }
    s
}

#[test]
fn selections_paint_the_cells_of_their_ranges() {
    let mut s = screen_of(10, 2, "abcdef");
    refresh_screen_selections(&mut s, &vec![(1, 2), (4, 4)]);
    let sel = TextStyle::default_selected_bg_color();
    let plain = TextStyle::default_bg_color();
    let bgs: Vec<(u8, u8, u8)> = (0..6).map(|x| s.at_xy(x, 0).unwrap().style.bg_color).collect();
    assert_eq!(bgs, vec![plain, sel, sel, plain, sel, plain]);
}

#[test]
fn selection_overlay_uses_the_mark_and_its_selection_point() {
    let mut e = env(10, 2);
    e.screen = screen_of(10, 2, "abcdef");
    let mut tm = TextModeContext::new(Utf8Codec::new());
    tm.marks = vec![Mark { offset: 4 }];
    tm.select_point = vec![Mark { offset: 2 }];
    let mut o = HighlightSelectionOverlay::new();
    o.finish(&mut e, &tm);
    let sel = TextStyle::default_selected_bg_color();
    let plain = TextStyle::default_bg_color();
    let bgs: Vec<(u8, u8, u8)> = (0..6).map(|x| e.screen.at_xy(x, 0).unwrap().style.bg_color).collect();
    assert_eq!(bgs, vec![plain, plain, sel, sel, sel, plain]);
}

#[test]
fn marks_are_drawn_in_inverse_video_on_a_lighter_line() {
    let mut s = screen_of(4, 3, "abcdefg");
    refresh_screen_marks(&mut s, &vec![Mark { offset: 5 }], true);
    assert!(s.at_xy(1, 1).unwrap().style.is_inverse);
    assert!(!s.at_xy(0, 1).unwrap().style.is_inverse);
    assert!(!s.at_xy(1, 0).unwrap().style.is_inverse);
    assert_eq!(s.at_xy(0, 1).unwrap().style.bg_color, TextStyle::default_mark_line_bg_color());
    assert_eq!(s.at_xy(0, 0).unwrap().style.bg_color, TextStyle::default_bg_color());
    refresh_screen_marks(&mut s, &vec![Mark { offset: 5 }], false);
    assert!(!s.at_xy(1, 1).unwrap().style.is_inverse);
}

#[test]
fn draw_marks_uses_the_marks_of_the_view() {
    let mut e = env(4, 3);
    e.screen = screen_of(4, 3, "abcdefg");
    let mut tm = TextModeContext::new(Utf8Codec::new());
    tm.marks = vec![Mark { offset: 2 }];
    let mut d = DrawMarks::new();
    d.finish(&mut e, &tm);
    assert!(e.screen.at_xy(2, 0).unwrap().style.is_inverse);
    assert!(!e.screen.at_xy(0, 0).unwrap().style.is_inverse);
}

#[test]
fn a_new_text_mode_context_has_one_mark_at_the_start() {
    let tm = TextModeContext::new(Utf8Codec::new());
    assert_eq!(tm.marks.len(), 1);
    assert_eq!(tm.marks[0].offset, 0);
    assert_eq!(tm.mark_index, 0);
    assert!(tm.select_point.is_empty());
    let chars = tm.char_map.as_ref().unwrap();
    assert_eq!(chars.get(&0x0a).unwrap(), " ");
    assert_eq!(chars.get(&0x1b).unwrap(), "\\x1b");
    assert_eq!(tm.color_map.as_ref().unwrap().get(&0x7f), Some(&(0, 255, 255)));
}
