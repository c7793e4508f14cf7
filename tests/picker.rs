use repeat::db::{Clip, ClipContents, Database, Source};
use repeat::layout::{layout, Style};
use repeat::picker::{Key, Picker, PickerAction};
use repeat::screen::{centered_origin, pick_crtc, Crtc, Rect};

fn clip(s: &str) -> Clip {
    Clip::new(Source::Primary, ClipContents::Text(s.to_owned()))
}

fn listed(p: &Picker) -> Vec<String> {
    p.searches().iter().map(|c| c.contents.text().clone()).collect()
}

fn filled() -> Database {
    let mut db = Database::new();
    for s in ["alpha", "beta", "gamma"] {
        db.add_clip(clip(s));
    }
    db
}

#[test]
fn opens_with_newest_first() {
    let db = filled();
    let p = Picker::new(&db);
    assert_eq!(listed(&p), vec!["gamma", "beta", "alpha"]);
    assert_eq!(p.current_choice(), 0);
}

#[test]
fn newest_hundred_only() {
    let mut db = Database::new();
    for i in 0..100 {
        db.add_clip(clip(&format!("n{} z", i)));
    }
    let p = Picker::new(&db);
    assert_eq!(p.searches().len(), 100);
    assert_eq!(p.searches()[0], clip("n99 z"));
}

#[test]
fn commit_selects_highlighted_entry() {
    let mut db = filled();
    let mut p = Picker::new(&db);
    assert_eq!(p.key_press(Key::Down, &mut db), PickerAction::Redraw);
    assert_eq!(p.key_press(Key::Down, &mut db), PickerAction::Redraw);
    assert_eq!(p.key_press(Key::Down, &mut db), PickerAction::Redraw);
    assert_eq!(p.current_choice(), 2);
    assert_eq!(p.key_press(Key::Up, &mut db), PickerAction::Redraw);
    assert_eq!(p.current_choice(), 1);
    assert_eq!(p.key_press(Key::Return, &mut db), PickerAction::Commit { paste: true });
    assert_eq!(db.selection().unwrap(), clip("beta"));
}

#[test]
fn commit_with_control_does_not_paste() {
    let mut db = filled();
    let mut p = Picker::new(&db);
    assert_eq!(p.key_press(Key::Control, &mut db), PickerAction::Nothing);
    assert_eq!(p.keysym_column(), 2);
    assert_eq!(p.key_press(Key::Char('j'), &mut db), PickerAction::Redraw);
    assert_eq!(p.current_choice(), 1);
    assert_eq!(p.key_press(Key::Char('k'), &mut db), PickerAction::Redraw);
    assert_eq!(p.current_choice(), 0);
    assert_eq!(p.key_press(Key::Return, &mut db), PickerAction::Commit { paste: false });
    assert_eq!(db.selection().unwrap(), clip("gamma"));
    p.key_release(Key::Control);
    assert_eq!(p.keysym_column(), 0);
}

#[test]
fn typing_searches_and_editing_resets() {
    let mut db = filled();
    let mut p = Picker::new(&db);
    p.key_press(Key::Down, &mut db);
    for c in "bet".chars() {
        assert_eq!(p.key_press(Key::Char(c), &mut db), PickerAction::Redraw);
    }
    assert_eq!(p.input(), "bet");
    assert_eq!(p.current_choice(), 0);
    assert_eq!(listed(&p), vec!["beta"]);
    p.key_press(Key::BackSpace, &mut db);
    assert_eq!(p.input(), "be");
    p.key_press(Key::Control, &mut db);
    p.key_press(Key::Char('u'), &mut db);
    assert_eq!(p.input(), "");
    assert_eq!(listed(&p), vec!["gamma", "beta", "alpha"]);
    p.key_press(Key::Char('x'), &mut db);
    assert_eq!(p.input(), "");
}

#[test]
fn escape_and_empty_return_close() {
    let mut db = Database::new();
    let mut p = Picker::new(&db);
    assert_eq!(p.key_press(Key::Return, &mut db), PickerAction::Close);
    assert!(db.selection().is_none());
    assert_eq!(p.key_press(Key::Escape, &mut db), PickerAction::Close);
    assert_eq!(p.key_press(Key::Down, &mut db), PickerAction::Redraw);
    assert_eq!(p.current_choice(), 0);
    p.key_press(Key::Shift, &mut db);
    assert_eq!(p.keysym_column(), 1);
}

#[test]
fn crtc_holding_the_point_is_picked() {
    let left = Rect { x: 0, y: 0, width: 1920, height: 1080 };
    let right = Rect { x: 1920, y: 0, width: 1280, height: 1024 };
    let off = Crtc { area: Rect { x: 0, y: 0, width: 0, height: 0 }, active: false };
    let crtcs = vec![off, Crtc { area: left, active: true }, Crtc { area: right, active: true }];
    assert_eq!(pick_crtc(&crtcs, 2000, 10), Some(right));
    assert_eq!(pick_crtc(&crtcs, 10, 10), Some(left));
    assert_eq!(pick_crtc(&crtcs, 5000, 5000), Some(left));
    assert_eq!(pick_crtc(&vec![off], 0, 0), None);
}

#[test]
fn picker_is_centered() {
    let area = Rect { x: 1920, y: 0, width: 1280, height: 1024 };
    assert_eq!(centered_origin(area, 800, 600), (1920 + 640 - 400, 512 - 300));
}

#[test]
fn layout_numbers_lines_and_footer() {
    let entries = vec![
        vec!["one".to_owned()],
        (1..=7).map(|i| format!("l{}", i)).collect::<Vec<String>>(),
        Vec::new(),
        vec!["last".to_owned()],
    ];
    let items = layout(&"in".to_owned(), &entries, 1, 10);
    let got: Vec<(usize, u16, String, Style)> =
        items.into_iter().map(|t| (t.row, t.column, t.text, t.style)).collect();
    let mut want = vec![
        (0, 0, "in".to_owned(), Style::Input),
        (1, 0, "0".to_owned(), Style::Normal),
        (1, 20, "one".to_owned(), Style::Normal),
        (2, 0, "1".to_owned(), Style::Highlight),
    ];
    for k in 0..5 {
        want.push((2 + k, 20, format!("l{}", k + 1), Style::Highlight));
    }
    want.push((7, 0, " ... + 2 rows".to_owned(), Style::Highlight));
    want.push((8, 0, "3".to_owned(), Style::Normal));
    want.push((8, 20, "last".to_owned(), Style::Normal));
    assert_eq!(got, want);
}

#[test]
fn layout_stops_after_the_last_row() {
    let entries: Vec<Vec<String>> = (0..5).map(|i| vec![format!("e{}", i)]).collect();
    let items = layout(&String::new(), &entries, 0, 3);
    // the input, then clips 0 and 1 on rows 1 and 2, each a number and a line;
    // clip 2 would start on row 3, past the canvas
    assert_eq!(items.len(), 5);
    assert_eq!(items[4].text, "e1");
}

#[test]
fn redraw_splits_clips_into_lines() {
    let mut db = Database::new();
    db.add_clip(clip("first line\nsecond line"));
    let p = Picker::new(&db);
    let texts: Vec<String> = p.redraw(20).into_iter().map(|t| t.text).collect();
    assert_eq!(texts, vec!["", "0", "first line", "second line"]);
}

#[test]
fn redraw_line_endings() {
    let mut db = Database::new();
    db.add_clip(clip("x\r\ny\n\nz\r"));
    let p = Picker::new(&db);
    let texts: Vec<String> = p.redraw(20).into_iter().map(|t| t.text).collect();
    assert_eq!(texts, vec!["", "0", "x", "y", "", "z\r"]);
}
