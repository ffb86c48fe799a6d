use dirview::color::{extension, Color, ColorPair, ColorTable, FileKind, Style, BLACK, BLUE, CYAN, GREEN};
use dirview::entry::{size_string, sort_by_name, ChildMeta, DirChild, Entry, Target};
use dirview::text::{decimal_string, human_size_string};
use dirview::view::{row_text, DirectoryView, Key, Row};

fn on_black(c: Color) -> ColorPair {
    ColorPair {
        regular: Style::Colors { front: c, back: Color::Dark(BLACK) },
        highlight: Style::Colors { front: Color::Dark(BLACK), back: c },
    }
}

fn child(name: &str, kind: FileKind, mode: u32, target: Target) -> DirChild {
    DirChild {
        path: format!("/top/{}", name),
        name: Some(name.to_string()),
        meta: Some(ChildMeta { kind, mode, target }),
    }
}

fn scenario_children() -> Vec<DirChild> {
    vec![
        child("b.txt", FileKind::File, 0o644, Target::File(10)),
        child("a", FileKind::Dir, 0o755, Target::Dir(Some(2))),
        child("c.txt", FileKind::File, 0o755, Target::File(10)),
    ]
}

fn sorted_names(v: &Vec<Entry>) -> Vec<String> {
    v.iter().map(|e| e.name.clone()).collect()
}

fn names(v: &DirectoryView) -> Vec<String> {
    let mut r = Vec::new();
    for i in 0..v.total_list_size() {
        r.push(v.entry(i).name.clone());
    }
    r
}

fn load(children: Vec<DirChild>) -> DirectoryView {
    match DirectoryView::try_from("/top".to_string(), Some(children), &ColorTable::empty()) {
        Ok(v) => v,
        Err(_) => panic!("the listing was refused"),
    }
}

fn numbered(n: usize) -> DirectoryView {
    let mut cs = Vec::new();
    for i in 0..n {
        cs.push(child(&format!("f{:03}", i), FileKind::File, 0o644, Target::File(i as u64)));
    }
    load(cs)
}

#[test]
fn decimal_notation() {
    assert_eq!(decimal_string(0), "0");
    assert_eq!(decimal_string(7), "7");
    assert_eq!(decimal_string(1234), "1234");
    assert_eq!(decimal_string(u64::MAX), "18446744073709551615");
}

#[test]
fn byte_counts_in_binary_units() {
    assert_eq!(human_size_string(0), "0 B");
    assert_eq!(human_size_string(10), "10 B");
    assert_eq!(human_size_string(1023), "1023 B");
    assert_eq!(human_size_string(1024), "1 KiB");
    assert_eq!(human_size_string(4096), "4 KiB");
    assert_eq!(human_size_string(1536), "2 KiB");
    assert_eq!(human_size_string(2560), "2 KiB");
    assert_eq!(human_size_string(1700), "2 KiB");
    assert_eq!(human_size_string(1048575), "1024 KiB");
    assert_eq!(human_size_string(1048576), "1 MiB");
    assert_eq!(human_size_string(5 * 1024 * 1024 * 1024), "5 GiB");
    assert_eq!(human_size_string(u64::MAX), "16 EiB");
}

#[test]
fn size_column_text() {
    assert_eq!(size_string(FileKind::Dir, Target::Dir(Some(2))), "2");
    assert_eq!(size_string(FileKind::Dir, Target::Dir(None)), "?");
    assert_eq!(size_string(FileKind::File, Target::File(10)), "10 B");
    assert_eq!(size_string(FileKind::Other, Target::Other), "Error");
    assert_eq!(size_string(FileKind::Symlink, Target::File(2048)), "-> 2 KiB");
    assert_eq!(size_string(FileKind::Symlink, Target::Dir(Some(5))), "-> 5");
}

#[test]
fn broken_link_size() {
    assert_eq!(size_string(FileKind::Symlink, Target::Missing), "-> Broken Link");
    let v = load(vec![child("link", FileKind::Symlink, 0o777, Target::Missing)]);
    assert_eq!(v.files()[0].size, "-> Broken Link");
    assert_eq!(v.files()[0].color, on_black(Color::Dark(CYAN)));
}

#[test]
fn extensions_of_names() {
    assert_eq!(extension("a.txt"), Some("txt"));
    assert_eq!(extension("a.tar.gz"), Some("gz"));
    assert_eq!(extension("a."), Some(""));
    assert_eq!(extension(".bashrc"), None);
    assert_eq!(extension("Makefile"), None);
    assert_eq!(extension(""), None);
}

#[test]
fn colours_by_type_permission_and_extension() {
    let mut t = ColorTable::empty();
    t.add("rs".to_string(), "red".to_string());
    t.add("md".to_string(), "light green".to_string());
    t.add("png".to_string(), "#123456".to_string());
    t.add("zz".to_string(), "no such colour".to_string());
    t.add("rs".to_string(), "blue".to_string());
    assert_eq!(ColorPair::new(FileKind::Dir, 0o755, "src.rs", &t), on_black(Color::Dark(BLUE)));
    assert_eq!(ColorPair::new(FileKind::File, 0o755, "run.rs", &t), on_black(Color::Dark(GREEN)));
    assert_eq!(ColorPair::new(FileKind::File, 0o100, "run.zz", &t), on_black(Color::Dark(GREEN)));
    assert_eq!(ColorPair::new(FileKind::File, 0o640, "x", &t), ColorPair::default());
    assert_eq!(ColorPair::new(FileKind::File, 0o644, "lib.rs", &t), on_black(Color::Dark(1)));
    assert_eq!(ColorPair::new(FileKind::File, 0o644, "a.md", &t), on_black(Color::Light(GREEN)));
    assert_eq!(ColorPair::new(FileKind::File, 0o644, "a.png", &t), on_black(Color::Rgb(0x12, 0x34, 0x56)));
    assert_eq!(ColorPair::new(FileKind::File, 0o644, "a.zz", &t), ColorPair::default());
    assert_eq!(ColorPair::new(FileKind::File, 0o644, "a.txt", &t), ColorPair::default());
    assert_eq!(ColorPair::new(FileKind::File, 0o644, "README", &t), ColorPair::default());
    assert_eq!(ColorPair::new(FileKind::Symlink, 0o777, "l.rs", &t), on_black(Color::Dark(CYAN)));
    assert_eq!(ColorPair::new(FileKind::Other, 0o644, "dev", &t), ColorPair::default());
}

#[test]
fn colour_table_first_pair_wins() {
    let mut t = ColorTable::empty();
    t.add("rs".to_string(), "red".to_string());
    t.add("rs".to_string(), "blue".to_string());
    assert_eq!(t.get("rs").map(|s| s.as_str()), Some("red"));
    assert_eq!(t.get("r"), None);
}

#[test]
fn scenario_three_children() {
    let mut v = load(scenario_children());
    assert_eq!(names(&v), vec!["a", "b.txt", "c.txt"]);
    assert_eq!(v.dirs().len(), 1);
    assert_eq!(v.files().len(), 2);
    assert_eq!(v.entry(0).size, "2");
    assert_eq!(v.entry(1).size, "10 B");
    assert_eq!(v.entry(2).size, "10 B");
    assert_eq!(v.entry(0).color, on_black(Color::Dark(BLUE)));
    assert_eq!(v.entry(1).color, ColorPair::default());
    assert_eq!(v.entry(2).color, on_black(Color::Dark(GREEN)));
    assert_eq!(v.entry(1).path, "/top/b.txt");
    assert_eq!(v.focus(), 0);
    v.move_to_end();
    assert_eq!(v.focus(), 2);
    let rows = v.rows(2);
    assert_eq!(rows, vec![Row { index: 1, focused: false }, Row { index: 2, focused: true }]);
    assert_eq!(v.entry(rows[0].index).name, "b.txt");
    assert_eq!(v.entry(rows[1].index).name, "c.txt");
    v.record_window(2);
    assert_eq!(v.last_window_start(), 1);
}

#[test]
fn move_up_stops_at_first_entry() {
    let mut v = load(scenario_children());
    v.change_focus_by(1);
    assert_eq!(v.focus(), 1);
    v.change_focus_by(-5);
    assert_eq!(v.focus(), 0);
    v.change_focus_by(i64::MIN);
    assert_eq!(v.focus(), 0);
}

#[test]
fn moves_down_saturate_at_last_entry() {
    let mut v = numbered(7);
    for _ in 0..6 {
        v.change_focus_by(1);
    }
    assert_eq!(v.focus(), 6);
    for _ in 0..5 {
        v.change_focus_by(1);
        assert_eq!(v.focus(), 6);
    }
    v.change_focus_by(i64::MAX);
    assert_eq!(v.focus(), 6);
    v.change_focus_by(-3);
    assert_eq!(v.focus(), 3);
    v.change_focus_by(0);
    assert_eq!(v.focus(), 3);
}

#[test]
fn moves_keep_focus_in_bounds() {
    let mut v = numbered(5);
    let deltas: [i64; 8] = [3, -10, 7, 2, -1, 100, -4, 1];
    for d in deltas.iter() {
        v.change_focus_by(*d);
        assert!(v.focus() < v.total_list_size());
    }
    assert_eq!(v.focus(), 1);
}

#[test]
fn empty_listing_ignores_moves() {
    let mut v = load(Vec::new());
    assert_eq!(v.total_list_size(), 0);
    v.change_focus_by(3);
    v.change_focus_by(-3);
    v.move_to_end();
    v.move_to_start();
    assert_eq!(v.focus(), 0);
    assert!(v.on_event(Key::End));
    assert_eq!(v.focus(), 0);
    assert_eq!(v.rows(4), Vec::new());
    assert_eq!(v.required_size(), (1, 1));
}

#[test]
fn directories_come_before_files() {
    let v = load(vec![
        child("A.txt", FileKind::File, 0o644, Target::File(1)),
        child("zeta", FileKind::Dir, 0o755, Target::Dir(Some(0))),
        child("Beta", FileKind::Dir, 0o755, Target::Dir(Some(1))),
        child("alpha", FileKind::Dir, 0o755, Target::Dir(Some(3))),
        child("0", FileKind::File, 0o644, Target::File(1)),
        child("link", FileKind::Symlink, 0o777, Target::Dir(Some(4))),
    ]);
    assert_eq!(names(&v), vec!["Beta", "alpha", "zeta", "0", "A.txt", "link"]);
    assert_eq!(sorted_names(v.dirs()), vec!["Beta", "alpha", "zeta"]);
    assert_eq!(v.entry(5).size, "-> 4");
}

#[test]
fn unreadable_children_are_left_out() {
    let v = load(vec![
        DirChild { path: "/top/bad".to_string(), name: None, meta: Some(ChildMeta { kind: FileKind::File, mode: 0, target: Target::File(1) }) },
        DirChild { path: "/top/gone".to_string(), name: Some("gone".to_string()), meta: None },
        child("ok", FileKind::File, 0o644, Target::File(3)),
    ]);
    assert_eq!(names(&v), vec!["ok"]);
}

#[test]
fn unlistable_directory_is_an_error() {
    match DirectoryView::try_from("/nope".to_string(), None, &ColorTable::empty()) {
        Err(e) => assert_eq!(e.path, "/nope"),
        Ok(_) => panic!("an unlistable directory gave a listing"),
    }
}

#[test]
fn reload_with_children_in_another_order() {
    let v1 = load(scenario_children());
    let mut other = scenario_children();
    other.reverse();
    let v2 = load(other);
    assert_eq!(names(&v1), names(&v2));
    for i in 0..v1.total_list_size() {
        assert_eq!(v1.entry(i).size, v2.entry(i).size);
        assert_eq!(v1.entry(i).color, v2.entry(i).color);
        assert_eq!(v1.entry(i).path, v2.entry(i).path);
    }
}

#[test]
fn window_follows_focus() {
    let mut v = numbered(10);
    assert_eq!(v.window_start(3), 0);
    v.change_focus_by(5);
    assert_eq!(v.window_start(3), 3);
    v.record_window(3);
    v.change_focus_by(-1);
    assert_eq!(v.window_start(3), 3);
    v.change_focus_by(-2);
    assert_eq!(v.window_start(3), 2);
    v.record_window(3);
    v.move_to_end();
    let start = v.window_start(4);
    assert_eq!(start, 6);
    assert!(start <= v.focus() && v.focus() <= start + 3);
    assert_eq!(v.window_start(1), 9);
    v.record_window(4);
    let rows = v.rows(4);
    assert_eq!(rows.len(), 4);
    assert_eq!(rows[3], Row { index: 9, focused: true });
}

#[test]
fn rows_stop_at_last_entry() {
    let v = numbered(3);
    let rows = v.rows(5);
    assert_eq!(rows, vec![
        Row { index: 0, focused: true },
        Row { index: 1, focused: false },
        Row { index: 2, focused: false },
    ]);
}

#[test]
fn focus_moves_to_path() {
    let mut v = load(scenario_children());
    v.focus_path("/top/c.txt");
    assert_eq!(v.focus(), 2);
    v.focus_path("/top/a");
    assert_eq!(v.focus(), 0);
    v.focus_path("/top/b.txt");
    assert_eq!(v.focus(), 1);
    v.focus_path("/elsewhere");
    assert_eq!(v.focus(), 1);
}

#[test]
fn keys_move_focus() {
    let mut v = numbered(25);
    assert!(v.on_event(Key::Down));
    assert_eq!(v.focus(), 1);
    assert!(v.on_event(Key::Char('j')));
    assert_eq!(v.focus(), 2);
    assert!(v.on_event(Key::PageDown));
    assert_eq!(v.focus(), 12);
    assert!(v.on_event(Key::PageDown));
    assert!(v.on_event(Key::PageDown));
    assert_eq!(v.focus(), 24);
    assert!(v.on_event(Key::Up));
    assert_eq!(v.focus(), 23);
    assert!(v.on_event(Key::Char('k')));
    assert_eq!(v.focus(), 22);
    assert!(v.on_event(Key::PageUp));
    assert_eq!(v.focus(), 12);
    assert!(v.on_event(Key::Home));
    assert_eq!(v.focus(), 0);
    assert!(v.on_event(Key::End));
    assert_eq!(v.focus(), 24);
    assert!(!v.on_event(Key::Char('x')));
    assert!(!v.on_event(Key::Other));
    assert_eq!(v.focus(), 24);
}

#[test]
fn required_size_is_longest_name_and_count() {
    let v = load(scenario_children());
    assert_eq!(v.required_size(), (5, 3));
    let w = load(vec![child("\u{e9}t\u{e9}", FileKind::File, 0o644, Target::File(1))]);
    assert_eq!(w.required_size(), (3, 1));
}

#[test]
fn row_text_aligns_size_right() {
    assert_eq!(row_text("a", "2", 6), "a    2");
    assert_eq!(row_text("b.txt", "10 B", 12), "b.txt   10 B");
    assert_eq!(row_text("long_name", "10 B", 5), "long_name 10 B");
    assert_eq!(row_text("ab", "cd", 5), "ab cd");
}

#[test]
fn sort_keeps_every_entry() {
    let mk = |n: &str| Entry { path: n.to_string(), name: n.to_string(), size: String::new(), color: ColorPair::default() };
    let v = sort_by_name(vec![mk("b"), mk("B"), mk("a"), mk("ab"), mk(""), mk("a")]);
    assert_eq!(sorted_names(&v), vec!["", "B", "a", "a", "ab", "b"]);
}

#[test]
fn new_view_is_empty() {
    let v = DirectoryView::new("/x".to_string());
    assert_eq!(v.path(), "/x");
    assert_eq!(v.total_list_size(), 0);
    assert_eq!(v.last_window_start(), 0);
}

#[test]
fn non_ascii_colour_text_names_no_colour() {
    let mut t = ColorTable::empty();
    t.add("a".to_string(), "\u{e9}1".to_string());
    t.add("b".to_string(), "#\u{e9}\u{e9}\u{e9}".to_string());
    t.add("c".to_string(), "\u{e9}\u{e9}\u{e9}".to_string());
    t.add("d".to_string(), "light gr\u{e9}en".to_string());
    assert_eq!(ColorPair::new(FileKind::File, 0o644, "x.a", &t), ColorPair::default());
    assert_eq!(ColorPair::new(FileKind::File, 0o644, "x.b", &t), ColorPair::default());
    assert_eq!(ColorPair::new(FileKind::File, 0o644, "x.c", &t), ColorPair::default());
    assert_eq!(ColorPair::new(FileKind::File, 0o644, "x.d", &t), ColorPair::default());
    let v = DirectoryView::try_from("/top".to_string(), Some(vec![child("y.a", FileKind::File, 0o644, Target::File(1))]), &t);
    match v {
        Ok(v) => assert_eq!(v.entry(0).color, ColorPair::default()),
        Err(_) => panic!("the listing was refused"),
    }
}

#[test]
fn ascii_low_resolution_colour() {
    let mut t = ColorTable::empty();
    t.add("g".to_string(), "050".to_string());
    assert_eq!(ColorPair::new(FileKind::File, 0o644, "x.g", &t), on_black(Color::RgbLowRes(0, 5, 0)));
}
