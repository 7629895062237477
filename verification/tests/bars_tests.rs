use unlimited_core::codepointinfo::{CodepointInfo, TextStyle};
use unlimited_core::modes::bars::{
    paint_used_cells, tab_labels, BasicEditorTitle, DirModeCompose, EmptyLineModeCompose, StatusLineModeCompose,
    StatusModeCompose,
};
use unlimited_core::modes::help::{help_popup_geometry, PopupGeometry};
use unlimited_core::screen::screen::Screen;
use unlimited_core::view::layout::LayoutEnv;
use unlimited_core::view::Id;

fn env(width: usize, height: usize) -> LayoutEnv {
    LayoutEnv {
        graphic_display: true,
        quit: false,
        base_offset: 0,
        max_offset: 0,
        screen: Screen::new(width, height),
        active_view_id: Id(1),
        current_view_id: Id(1),
    }
}

fn text_cell(c: char, offset: u64) -> CodepointInfo {
    let mut cpi = CodepointInfo::new();
    cpi.cp = c;
    cpi.displayed_cp = c;
    cpi.offset = Some(offset);
    cpi.size = 1;
    cpi
}

fn chars(s: &str) -> Vec<char> {
    s.chars().collect()
}

#[test]
fn paint_used_cells_colors_only_used_cells() {
    let mut scr = Screen::new(4, 2);
    scr.push(text_cell('a', 0));
    scr.push(text_cell('b', 1));
    paint_used_cells(&mut scr, (1, 2, 3), (4, 5, 6));
    let a = scr.get_cpinfo(0, 0).unwrap();
    assert_eq!(a.style.color, (1, 2, 3));
    assert_eq!(a.style.bg_color, (4, 5, 6));
    assert_eq!(a.displayed_cp, 'a');
    let b = scr.get_cpinfo(1, 0).unwrap();
    assert_eq!(b.style.color, (1, 2, 3));
    let unused = &scr.line[0].cells[2];
    assert_ne!(unused.cpi.style.color, (1, 2, 3));
    let second = &scr.line[1].cells[0];
    assert_eq!(second.cpi.style.bg_color, TextStyle::new().bg_color);
}

#[test]
fn empty_line_and_dir_bars_use_the_title_colors() {
    let mut e = env(3, 1);
    e.screen.push(text_cell('x', 0));
    let mut f = EmptyLineModeCompose::new();
    f.finish(&mut e);
    assert_eq!(e.screen.line[0].cells[0].cpi.style.color, TextStyle::title_color());
    assert_eq!(e.screen.line[0].cells[0].cpi.style.bg_color, TextStyle::title_bg_color());

    let mut e = env(3, 1);
    e.screen.push(text_cell('y', 0));
    let mut d = DirModeCompose::new();
    d.finish(&mut e);
    assert_eq!(e.screen.line[0].cells[0].cpi.style.bg_color, (0, 119, 184));
}

#[test]
fn status_bar_is_left_alone_with_one_cell() {
    let mut e = env(5, 1);
    e.screen.push(text_cell('x', 0));
    let before = e.screen.line[0].cells[0].cpi.style;
    let mut f = StatusModeCompose::new();
    f.finish(&mut e);
    assert_eq!(e.screen.line[0].cells[0].cpi.style, before);

    e.screen.push(text_cell('y', 1));
    f.finish(&mut e);
    assert_eq!(e.screen.line[0].cells[0].cpi.style.color, (0, 0, 0));
    assert_eq!(e.screen.line[0].cells[1].cpi.style.bg_color, (113, 114, 123));
}

#[test]
fn status_line_shows_the_document_name() {
    let e = env(40, 1);
    let mut s = StatusLineModeCompose::new();
    let name = chars("notes.txt");
    s.setup(&e, Some(&name));
    assert_eq!(s.width, 40);
    assert_eq!(s.height, 1);
    assert_eq!(s.content.iter().collect::<String>(), "[notes.txt]");
    s.setup(&e, None);
    assert!(s.content.is_empty());
}

#[test]
fn editor_title_text() {
    let e = env(80, 1);
    let mut t = BasicEditorTitle::new();
    t.setup(&e, &chars("0.1"), &chars("a.txt"), true, false, 12, Some(3));
    assert_eq!(
        t.title.iter().collect::<String>(),
        "unlimitED 0.1  a.txt*  12 bytes (F1 for help) (focus vid: Id(3))"
    );
    assert_eq!(t.width, 80);

    t.setup(&e, &chars("0.1"), &chars("b"), false, true, 0, None);
    assert_eq!(t.title.iter().collect::<String>(), "unlimitED 0.1  b  (sync) 0 bytes (F1 for help)");
}

#[test]
fn editor_title_without_room_has_no_margin() {
    let e = env(16, 1);
    let mut t = BasicEditorTitle::new();
    t.setup(&e, &chars("0.1"), &chars("long-name"), false, false, 7, None);
    assert_eq!(t.title.iter().collect::<String>(), "unlimitED 0.1 long-name   7 bytes (F1 for help)");
}

#[test]
fn tab_labels_put_a_bar_before_all_but_the_first() {
    let names = vec![Some(chars("a")), Some(chars("b"))];
    let labels = tab_labels(&names);
    let labels: Vec<String> = labels.iter().map(|l| l.iter().collect()).collect();
    assert_eq!(labels, vec!["a ⨯".to_string(), "|b ⨯".to_string()]);
    // a view without a document gets no tab, but counts as a view
    let names = vec![None, Some(chars("c")), None, Some(chars("d"))];
    let labels: Vec<String> = tab_labels(&names).iter().map(|l| l.iter().collect()).collect();
    assert_eq!(labels, vec!["|c ⨯".to_string(), "|d ⨯".to_string()]);
}

#[test]
fn the_help_pop_up_fits_its_text() {
    let g = help_popup_geometry(80, &b"ab\r\ncdef\ng".to_vec());
    assert_eq!(g, PopupGeometry { x: 38, y: 3, width: 5, height: 3, corner_x: 3, corner_y: 2 });
    let g = help_popup_geometry(80, &b"x\n".to_vec());
    assert_eq!((g.width, g.height, g.corner_x, g.corner_y), (2, 1, 0, 0));
    let g = help_popup_geometry(2, &b"long line\n\n".to_vec());
    assert_eq!((g.x, g.width, g.height), (0, 10, 2));
}
