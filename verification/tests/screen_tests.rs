use unlimited_core::screen;

#[test]
fn mod_test_screen() {
    let mut scr = screen::Screen::new(640, 480);
    assert_eq!(640, scr.width());
    assert_eq!(480, scr.height());
    assert_eq!(scr.height(), scr.line.len());
    assert_eq!(scr.width(), scr.line[0].cells.len());

    scr.resize(800, 600);
    assert_eq!(800, scr.width());
    assert_eq!(600, scr.height());
    assert_eq!(scr.height(), scr.line.len());
    assert_eq!(scr.width(), scr.line[0].cells.len());

    scr.resize(1024, 768);
    assert_eq!(1024, scr.width());
    assert_eq!(768, scr.height());
    assert_eq!(scr.height(), scr.line.len());
    assert_eq!(scr.width(), scr.line[0].cells.len());

    scr.resize(640, 480);
    assert_eq!(640, scr.width());
    assert_eq!(480, scr.height());
    assert_eq!(scr.height(), scr.line.len());
    assert_eq!(scr.width(), scr.line[0].cells.len());
}

#[test]
fn screen_test_screen() {
    let mut scr = screen::screen::Screen::new(640, 480);
    assert_eq!(640, scr.width());
    assert_eq!(480, scr.height());
    assert_eq!(scr.height(), scr.line.len());
    assert_eq!(scr.width(), scr.line[0].cells.len());

    scr.resize(800, 600);
    assert_eq!(800, scr.width());
    assert_eq!(600, scr.height());
    assert_eq!(scr.height(), scr.line.len());
    assert_eq!(scr.width(), scr.line[0].cells.len());

    scr.resize(1024, 768);
    assert_eq!(1024, scr.width());
    assert_eq!(768, scr.height());
    assert_eq!(scr.height(), scr.line.len());
    assert_eq!(scr.width(), scr.line[0].cells.len());

    scr.resize(640, 480);
    assert_eq!(640, scr.width());
    assert_eq!(480, scr.height());
    assert_eq!(scr.height(), scr.line.len());
    assert_eq!(scr.width(), scr.line[0].cells.len());
}

#[test]
fn a_view_screen_follows_the_editor_size() {
    let mut scr = screen::Screen::new(10, 5);
    screen::check_view_dimension(&mut scr, 10, 5);
    assert_eq!((scr.width(), scr.height()), (10, 5));
    screen::check_view_dimension(&mut scr, 20, 8);
    assert_eq!((scr.width(), scr.height()), (20, 8));
    assert_eq!(scr.line.len(), 8);
}

#[test]
fn a_resized_screen_holds_its_new_size() {
    let mut scr = screen::screen::Screen::new(4, 2);
    scr.resize(10, 3);
    assert_eq!(scr.push_capacity(), 30);
    let mut old = screen::Screen::new(4, 2);
    old.resize(5, 5);
    assert_eq!(old.push_capacity, 25);
}
