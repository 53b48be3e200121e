use d_link::app::App;
use d_link::config::Config;
use d_link::device::{
    arrival_event, departure_event, screenshot_format, Battery, DeviceEvent, DeviceId, DeviceInfo,
    DirSizeWalk, PixelFormat,
};
use d_link::files::{sort_files, EntryType, FileInfo};
use d_link::input::{pasted_paths, Intent, Key, MouseInput, MouseIntent, MouseKind};
use d_link::paths::{child_path, extension, up_path};
use d_link::text::{contains_chars, ends_with_chars, same_text, trim};
use d_link::view::{battery_meter, progress_bar, script_kind, FooterHint, ScriptKind};

fn file(name: &str, size: u64) -> FileInfo {
    FileInfo::new(name.to_string(), size, EntryType::File)
}

fn dir(name: &str) -> FileInfo {
    FileInfo::new(name.to_string(), 0, EntryType::Directory)
}

fn chars(s: &str) -> Vec<char> {
    s.chars().collect()
}

fn connected(files: Vec<FileInfo>) -> App {
    let mut app = App::new(Config::with_fallbacks(None, None));
    app.connect_finished(Ok(DeviceInfo {
        name: "calc".to_string(),
        version: "1".to_string(),
        battery: Battery::Low,
        free_storage: 0,
        total_storage: 0,
    }));
    app.refresh_file_list();
    app.load_file_list(Ok(files));
    app
}

#[test]
fn config_fallbacks() {
    let c = Config::with_fallbacks(None, None);
    assert_eq!(c.download_directory, ".");
    assert_eq!(c.editor, "nano");
    assert!(c.auto_refresh);
    let c = Config::with_fallbacks(Some("/home/u/Downloads".to_string()), Some("vim".to_string()));
    assert_eq!(c.download_directory, "/home/u/Downloads");
    assert_eq!(c.editor, "vim");
}

#[test]
fn trim_removes_unicode_white_space() {
    assert_eq!(trim("  a b \n"), "a b");
    assert_eq!(trim("\u{3000}x\u{85}"), "x");
    assert_eq!(trim("   "), "");
    assert_eq!(trim(""), "");
}

#[test]
fn filter_folds_case_beyond_ascii() {
    let mut app = connected(vec![file("ÀRBOL.py", 1), file("όδος", 1), file("x", 1)]);
    app.input_line = "àr".to_string();
    app.apply_filter();
    assert_eq!(app.filtered_indices.len(), 1);
    assert_eq!(app.all_files[app.filtered_indices[0]].name(), "ÀRBOL.py");
    app.input_line = "ΌΔΟΣ".to_string();
    app.apply_filter();
    assert_eq!(app.filtered_indices.len(), 1);
    assert_eq!(app.all_files[app.filtered_indices[0]].name(), "όδος");
}

#[test]
fn infix_and_suffix_tests() {
    assert!(contains_chars(&chars("hello"), &chars("ell")));
    assert!(contains_chars(&chars("hello"), &chars("")));
    assert!(!contains_chars(&chars("he"), &chars("hello")));
    assert!(ends_with_chars(&chars("a.tns"), &chars(".tns")));
    assert!(!ends_with_chars(&chars("a.tnsx"), &chars(".tns")));
    assert!(same_text("abc", "abc"));
    assert!(!same_text("abc", "abd"));
}

#[test]
fn child_paths() {
    assert_eq!(child_path("/", "a"), "/a");
    assert_eq!(child_path("/a", "b"), "/a/b");
}

#[test]
fn up_paths() {
    assert_eq!(up_path("/"), None);
    assert_eq!(up_path(""), None);
    assert_eq!(up_path("/a"), Some("/".to_string()));
    assert_eq!(up_path("/a/b"), Some("/a".to_string()));
    assert_eq!(up_path("a"), Some("/".to_string()));
}

#[test]
fn up_paths_skip_trailing_and_empty_parts() {
    assert_eq!(up_path("/a/"), Some("/".to_string()));
    assert_eq!(up_path("/a//b"), Some("/a".to_string()));
    assert_eq!(up_path("/a/b//"), Some("/a".to_string()));
    assert_eq!(up_path("/a/."), Some("/".to_string()));
    assert_eq!(up_path("/a/./b"), Some("/a".to_string()));
    assert_eq!(up_path("/a/.."), Some("/a".to_string()));
    assert_eq!(up_path("/."), None);
    assert_eq!(up_path("//"), None);
    assert_eq!(up_path("./a"), Some(".".to_string()));
    assert_eq!(up_path("."), Some("/".to_string()));
    assert_eq!(up_path("a/b/"), Some("a".to_string()));
}

#[test]
fn going_up_after_entering_returns() {
    for dir in ["/", "/a", "/a/b", "/a//b", "/..", "/a/.b"] {
        for name in ["x", "..", ".x", "x y"] {
            assert_eq!(up_path(&child_path(dir, name)), Some(dir.to_string()));
        }
    }
}

#[test]
fn extensions() {
    assert_eq!(extension("main.py"), Some("py".to_string()));
    assert_eq!(extension("a.b.lua"), Some("lua".to_string()));
    assert_eq!(extension(".bashrc"), None);
    assert_eq!(extension("noext"), None);
    assert_eq!(extension("trail."), Some(String::new()));
    assert_eq!(extension(".."), None);
}

#[test]
fn extensions_come_from_the_last_component() {
    assert_eq!(extension("dir/x.tns"), Some("tns".to_string()));
    assert_eq!(extension("x.tns/"), Some("tns".to_string()));
    assert_eq!(extension("x.tns/."), Some("tns".to_string()));
    assert_eq!(extension("a.b/c"), None);
    assert_eq!(extension("."), None);
    assert_eq!(extension("a/.."), None);
    assert_eq!(extension("/"), None);
    assert_eq!(extension(""), None);
}

#[test]
fn sort_orders_by_code_point() {
    let sorted = sort_files(vec![file("b", 1), file("B", 1), dir("z"), file("a", 1), dir("Z")]);
    let names: Vec<&str> = sorted.iter().map(|f| f.name()).collect();
    assert_eq!(names, vec!["Z", "z", "B", "a", "b"]);
}

#[test]
fn sort_puts_dot_entries_first() {
    let sorted = sort_files(vec![dir("-x"), dir(".."), dir("+"), dir("."), dir(".a")]);
    let names: Vec<&str> = sorted.iter().map(|f| f.name()).collect();
    assert_eq!(names, vec![".", "..", "+", "-x", ".a"]);
}

#[test]
fn sort_keeps_names_that_compare_equal_in_order() {
    let sorted = sort_files(vec![file("b", 1), file("a/", 2), file("a", 3), file("a/.", 4)]);
    let sizes: Vec<u64> = sorted.iter().map(|f| f.size()).collect();
    assert_eq!(sizes, vec![2, 3, 4, 1]);
}

#[test]
fn arrival_and_departure_events() {
    match arrival_event(3, 9) {
        DeviceEvent::Connected(m) => {
            assert_eq!(m.id, DeviceId { bus: 3, address: 9 });
            assert_eq!(m.name, "TI-Nspire");
        }
        _ => panic!("expected an arrival"),
    }
    assert!(matches!(departure_event(), DeviceEvent::Disconnected));
}

#[test]
fn screenshot_formats() {
    assert_eq!(screenshot_format(16), PixelFormat::Rgb8);
    assert_eq!(screenshot_format(8), PixelFormat::L8);
}

#[test]
fn dir_size_walk_adds_files_below_root() {
    let mut w = DirSizeWalk::new("/".to_string());
    assert_eq!(w.next_path(), Some("/".to_string()));
    assert!(w.record_listing("/", Some(vec![dir("a"), file("x", 10), dir("b")])));
    assert_eq!(w.bytes(), 10);
    assert_eq!(w.next_path(), Some("/a".to_string()));
    assert!(w.record_listing("/a", Some(vec![file("y", 5), dir("c")])));
    assert_eq!(w.next_path(), Some("/a/c".to_string()));
    assert!(w.record_listing("/a/c", None));
    assert_eq!(w.next_path(), Some("/b".to_string()));
    assert!(w.record_listing("/b", Some(vec![file("z", 1)])));
    assert_eq!(w.next_path(), None);
    assert!(w.is_done());
    assert_eq!(w.bytes(), 16);
}

#[test]
fn dir_size_walk_refuses_overflow() {
    let mut w = DirSizeWalk::new("/".to_string());
    w.next_path();
    assert!(w.record_listing("/", Some(vec![file("a", u64::MAX)])));
    assert!(!w.record_listing("/", Some(vec![file("b", 1)])));
    assert_eq!(w.bytes(), u64::MAX);
}

#[test]
fn key_bindings() {
    let mut app = connected(vec![file("a", 1)]);
    assert_eq!(app.key_intent(Key::Char('q')), Intent::Quit);
    assert_eq!(app.key_intent(Key::Char('j')), Intent::Next);
    assert_eq!(app.key_intent(Key::Left), Intent::GoUp);
    assert_eq!(app.key_intent(Key::Char('a')), Intent::SelectDocuments);
    assert_eq!(app.key_intent(Key::Char('x')), Intent::Ignore);
    app.show_confirm_delete = true;
    assert_eq!(app.key_intent(Key::Enter), Intent::ConfirmDelete);
    assert_eq!(app.key_intent(Key::Esc), Intent::CancelDelete);
    app.show_help = true;
    assert_eq!(app.key_intent(Key::Char('q')), Intent::ToggleHelp);
    app.error_message = Some("e".to_string());
    assert_eq!(app.key_intent(Key::Char(' ')), Intent::ClearError);
    assert_eq!(app.key_intent(Key::Char('q')), Intent::Ignore);
    let mut app = connected(vec![]);
    app.enter_mkdir();
    assert_eq!(app.key_intent(Key::Enter), Intent::SubmitMkdir);
    assert_eq!(app.key_intent(Key::Esc), Intent::EndTyping);
    assert_eq!(app.key_intent(Key::Char('q')), Intent::Type);
}

#[test]
fn mouse_bindings() {
    let mut app = connected(vec![file("a", 1), file("b", 1), file("c", 1)]);
    let at = |kind, column, row| MouseInput { kind, column, row };
    assert_eq!(app.mouse_intent(at(MouseKind::Moved, 40, 7)), MouseIntent::Highlight(1));
    assert_eq!(app.mouse_intent(at(MouseKind::Moved, 40, 9)), MouseIntent::Ignore);
    assert_eq!(app.mouse_intent(at(MouseKind::Moved, 20, 7)), MouseIntent::Ignore);
    assert_eq!(app.mouse_intent(at(MouseKind::LeftDown, 31, 0)), MouseIntent::EnterSelected);
    assert_eq!(app.mouse_intent(at(MouseKind::LeftDown, 30, 0)), MouseIntent::Ignore);
    assert_eq!(app.mouse_intent(at(MouseKind::ScrollDown, 0, 0)), MouseIntent::Next);
    app.show_help = true;
    assert_eq!(app.mouse_intent(at(MouseKind::OtherDown, 0, 0)), MouseIntent::ToggleHelp);
    assert_eq!(app.mouse_intent(at(MouseKind::ScrollDown, 0, 0)), MouseIntent::Ignore);
}

#[test]
fn pasted_text_gives_trimmed_paths() {
    assert_eq!(pasted_paths(" /a/b.py \r\n\n  \n/c.tns\n"), vec!["/a/b.py", "/c.tns"]);
    assert!(pasted_paths("").is_empty());
    assert_eq!(pasted_paths("x"), vec!["x"]);
}

#[test]
fn footer_hints() {
    let mut app = connected(vec![dir("d"), file("g.TNS", 1), file("s.luax", 1), file("t.txt", 1)]);
    assert_eq!(app.footer_hint(), FooterHint::Open);
    app.next();
    assert_eq!(app.footer_hint(), FooterHint::Pull);
    app.next();
    assert_eq!(app.footer_hint(), FooterHint::Pull);
    app.next();
    assert_eq!(app.footer_hint(), FooterHint::Select);
    app.input_line = "none".to_string();
    app.apply_filter();
    assert_eq!(app.footer_hint(), FooterHint::Nothing);
}

#[test]
fn delete_count_speaks_of_marks() {
    let mut app = connected(vec![file("a", 1), file("b", 1)]);
    assert_eq!(app.delete_count(), 1);
    app.selected_indices.insert(0);
    app.selected_indices.insert(1);
    assert_eq!(app.delete_count(), 2);
}

#[test]
fn script_kinds_go_by_suffix() {
    assert_eq!(script_kind("a.tns"), ScriptKind::Document);
    assert_eq!(script_kind("a.TNS"), ScriptKind::Plain);
    assert_eq!(script_kind("a.py"), ScriptKind::Python);
    assert_eq!(script_kind("a.lua"), ScriptKind::Lua);
    assert_eq!(script_kind("a.cpp"), ScriptKind::Native);
    assert_eq!(script_kind("a.h"), ScriptKind::Native);
    assert_eq!(script_kind("a.txt"), ScriptKind::Plain);
}

#[test]
fn bars_and_meters() {
    assert_eq!(progress_bar(0), "----------");
    assert_eq!(progress_bar(45), "####------");
    assert_eq!(progress_bar(100), "##########");
    assert_eq!(battery_meter(Battery::Low), "[#---------]");
    assert_eq!(battery_meter(Battery::Powered), "[CONNECTED ]");
    assert_eq!(battery_meter(Battery::Unknown(7)), "[##########]");
}

#[test]
fn documented_key_bindings() {
    let app = connected(vec![file("a", 1)]);
    let expect = [
        (Key::Up, Intent::Previous),
        (Key::Down, Intent::Next),
        (Key::Char('k'), Intent::Previous),
        (Key::Char('j'), Intent::Next),
        (Key::Enter, Intent::EnterSelected),
        (Key::Right, Intent::EnterSelected),
        (Key::Char('l'), Intent::EnterSelected),
        (Key::Backspace, Intent::GoUp),
        (Key::Char('h'), Intent::GoUp),
        (Key::Char('/'), Intent::EnterSearch),
        (Key::Char('e'), Intent::Edit),
        (Key::Char('d'), Intent::Download),
        (Key::Char('n'), Intent::EnterMkdir),
        (Key::Char('r'), Intent::EnterRename),
        (Key::Delete, Intent::TriggerDeleteConfirm),
        (Key::Char('i'), Intent::ToggleDetails),
        (Key::Char('a'), Intent::SelectDocuments),
        (Key::Char('c'), Intent::ClearSelection),
        (Key::Char('s'), Intent::Screenshot),
        (Key::Char(' '), Intent::ToggleSelection),
        (Key::Char('?'), Intent::ToggleHelp),
        (Key::Char('q'), Intent::Quit),
        (Key::Esc, Intent::Quit),
    ];
    for (key, intent) in expect {
        assert_eq!(app.key_intent(key), intent, "{:?}", key);
    }
}
