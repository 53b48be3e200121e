use d_link::app::{App, InputMode, RenameStep, TableState, Tick};
use d_link::config::Config;
use d_link::device::{Battery, DeviceEvent, DeviceId, DeviceInfo, DeviceMetadata};
use d_link::files::{EntryType, FileInfo};

fn config() -> Config {
    Config::with_fallbacks(Some("/tmp/dl".to_string()), Some("vim".to_string()))
}

fn info() -> DeviceInfo {
    DeviceInfo {
        name: "Nspire CX".to_string(),
        version: "5.2.0.771".to_string(),
        battery: Battery::Normal,
        free_storage: 10,
        total_storage: 100,
    }
}

fn file(name: &str, size: u64) -> FileInfo {
    FileInfo::new(name.to_string(), size, EntryType::File)
}

fn dir(name: &str) -> FileInfo {
    FileInfo::new(name.to_string(), 0, EntryType::Directory)
}

fn names(app: &App) -> Vec<String> {
    app.all_files.iter().map(|f| f.name().to_string()).collect()
}

fn connected_app(files: Vec<FileInfo>) -> App {
    let mut app = App::new(config());
    assert!(app.connect_finished(Ok(info())));
    let path = app.refresh_file_list();
    assert_eq!(path, Some("/".to_string()));
    app.load_file_list(Ok(files));
    app
}

#[test]
fn test_app_initialization() {
    let app = App::new(config());
    assert_eq!(app.current_path, "/");
    assert!(app.all_files.is_empty());
    assert!(!app.should_quit);
}

#[test]
fn test_apply_filter() {
    let mut app = App::new(config());
    app.input_line = "test".to_string();
    app.apply_filter();
    assert_eq!(app.input_line, "test");
}

#[test]
fn new_app_starts_at_root_with_first_row_selected() {
    let app = App::new(config());
    assert_eq!(app.table_state, TableState { selected: Some(0), offset: 0 });
    assert!(app.input_mode == InputMode::Normal);
    assert!(app.connected_device.is_none());
    assert_eq!(app.current_view_id, 0);
    assert!(app.logs.is_empty());
}

#[test]
fn log_keeps_the_five_newest_messages() {
    let mut app = App::new(config());
    for i in 0..7 {
        app.log(&format!("m{}", i));
    }
    assert_eq!(app.logs, vec!["m2", "m3", "m4", "m5", "m6"]);
}

#[test]
fn set_error_logs_and_shows() {
    let mut app = App::new(config());
    app.set_error("boom".to_string());
    assert_eq!(app.error_message, Some("boom".to_string()));
    assert_eq!(app.logs, vec!["ERROR: boom"]);
}

#[test]
fn refresh_without_device_empties_the_view() {
    let mut app = App::new(config());
    assert_eq!(app.refresh_file_list(), None);
    assert!(app.all_files.is_empty());
    assert_eq!(app.current_view_id, 0);
}

#[test]
fn listing_is_sorted_directories_first_then_by_name() {
    let app = connected_app(vec![
        file("zeta.tns", 3),
        dir("b"),
        file("Alpha.py", 1),
        dir("a"),
        file("beta", 2),
    ]);
    assert_eq!(names(&app), vec!["a", "b", "Alpha.py", "beta", "zeta.tns"]);
    assert_eq!(app.filtered_indices, vec![0, 1, 2, 3, 4]);
    assert_eq!(app.table_state.selected, Some(0));
    assert_eq!(app.current_view_id, 1);
}

#[test]
fn listing_returns_directory_names_for_size_computation() {
    let mut app = App::new(config());
    app.connect_finished(Ok(info()));
    app.refresh_file_list();
    let dirs = app.load_file_list(Ok(vec![file("x", 1), dir("docs"), dir("apps")]));
    assert_eq!(dirs, vec!["apps", "docs"]);
}

#[test]
fn failed_listing_shows_an_error_and_empties_the_view() {
    let mut app = connected_app(vec![file("a", 1)]);
    app.refresh_file_list();
    let dirs = app.load_file_list(Err("USB: Timeout".to_string()));
    assert!(dirs.is_empty());
    assert!(app.all_files.is_empty());
    assert_eq!(app.error_message, Some("Error FS: USB: Timeout".to_string()));
    assert_eq!(app.logs.last().unwrap(), "ERROR: Error FS: USB: Timeout");
    assert_eq!(app.table_state.selected, None);
}

#[test]
fn filter_ignores_case_on_both_sides() {
    let mut app = connected_app(vec![file("MyTest.TNS", 1), file("other.py", 2), file("TESTING", 3)]);
    app.input_line = "TeSt".to_string();
    app.apply_filter();
    let shown: Vec<String> = app.filtered_indices.iter().map(|&i| app.all_files[i].name().to_string()).collect();
    assert_eq!(shown, vec!["MyTest.TNS", "TESTING"]);
    assert_eq!(app.table_state.selected, Some(0));
}

#[test]
fn filter_with_no_match_clears_the_highlight() {
    let mut app = connected_app(vec![file("a", 1)]);
    app.input_line = "zzz".to_string();
    app.apply_filter();
    assert!(app.filtered_indices.is_empty());
    assert_eq!(app.table_state.selected, None);
}

#[test]
fn next_and_previous_wrap_around() {
    let mut app = connected_app(vec![file("a", 1), file("b", 1), file("c", 1)]);
    app.previous();
    assert_eq!(app.table_state.selected, Some(2));
    app.next();
    assert_eq!(app.table_state.selected, Some(0));
    app.next();
    app.next();
    assert_eq!(app.table_state.selected, Some(2));
    app.previous();
    assert_eq!(app.table_state.selected, Some(1));
}

#[test]
fn down_then_up_returns_to_the_same_row() {
    let mut app = connected_app(vec![file("a", 1), file("b", 1), file("c", 1)]);
    app.table_state.select(Some(1));
    app.next();
    app.previous();
    assert_eq!(app.table_state.selected, Some(1));
}

#[test]
fn toggling_twice_leaves_marks_unchanged() {
    let mut app = connected_app(vec![file("a", 1), file("b", 1)]);
    app.next();
    app.toggle_selection();
    assert!(app.selected_indices.contains(&1));
    app.toggle_selection();
    assert!(app.selected_indices.is_empty());
}

#[test]
fn entering_a_directory_and_going_up_returns() {
    let mut app = connected_app(vec![dir("docs"), file("a", 1)]);
    let path = app.enter_selected();
    assert_eq!(app.current_path, "/docs");
    assert_eq!(path, Some("/docs".to_string()));
    app.load_file_list(Ok(vec![dir("inner")]));
    app.enter_selected();
    assert_eq!(app.current_path, "/docs/inner");
    let up = app.go_up();
    assert_eq!(app.current_path, "/docs");
    assert_eq!(up, Some("/docs".to_string()));
    app.go_up();
    assert_eq!(app.current_path, "/");
    assert_eq!(app.go_up(), None);
}

#[test]
fn entering_a_file_does_nothing() {
    let mut app = connected_app(vec![file("a", 1)]);
    assert_eq!(app.enter_selected(), None);
    assert_eq!(app.current_path, "/");
}

#[test]
fn mkdir_takes_the_trimmed_name() {
    let mut app = connected_app(vec![]);
    app.enter_mkdir();
    assert!(app.input_mode == InputMode::Mkdir);
    app.input_line = "  notes \t".to_string();
    let r = app.submit_mkdir();
    assert_eq!(r, Some(("/notes".to_string(), "notes".to_string())));
    let list = app.finish_mkdir("notes", Ok(()));
    assert_eq!(list, Some("/".to_string()));
    assert_eq!(app.logs.last().unwrap(), "Carpeta creada: notes");
    assert!(app.input_mode == InputMode::Normal);
}

#[test]
fn mkdir_with_blank_name_is_cancelled() {
    let mut app = connected_app(vec![]);
    app.enter_mkdir();
    app.input_line = "   ".to_string();
    assert_eq!(app.submit_mkdir(), None);
    assert!(app.input_mode == InputMode::Normal);
}

#[test]
fn mkdir_failure_is_logged() {
    let mut app = connected_app(vec![]);
    app.finish_mkdir("x", Err("Nspire: exists".to_string()));
    assert_eq!(app.logs.last().unwrap(), "Error mkdir: Nspire: exists");
    assert!(app.error_message.is_none());
}

#[test]
fn rename_gives_old_and_new_paths() {
    let mut app = connected_app(vec![dir("docs")]);
    app.enter_selected();
    app.load_file_list(Ok(vec![file("old.py", 4)]));
    app.enter_rename();
    assert!(app.input_mode == InputMode::Rename);
    assert_eq!(app.input_line, "old.py");
    app.input_line = "new.py ".to_string();
    match app.submit_rename() {
        RenameStep::Rename(from, to) => {
            assert_eq!(from, "/docs/old.py");
            assert_eq!(to, "/docs/new.py");
        }
        _ => panic!("expected a rename"),
    }
    app.finish_rename(Err("denied".to_string()));
    assert_eq!(app.error_message, Some("Renombrar falló: denied".to_string()));
}

#[test]
fn rename_with_blank_name_is_cancelled() {
    let mut app = connected_app(vec![file("a", 1)]);
    app.enter_rename();
    app.input_line = String::new();
    assert!(matches!(app.submit_rename(), RenameStep::Cancelled));
    assert!(app.input_mode == InputMode::Normal);
}

#[test]
fn delete_targets_marked_entries_in_order() {
    let mut app = connected_app(vec![file("a", 1), file("b", 1), file("c", 1)]);
    app.selected_indices.insert(2);
    app.selected_indices.insert(0);
    assert_eq!(app.delete_selected_items(), Some(vec!["/a".to_string(), "/c".to_string()]));
    app.clear_selection();
    app.next();
    assert_eq!(app.delete_selected_items(), Some(vec!["/b".to_string()]));
}

#[test]
fn delete_without_device_does_nothing() {
    let app = App::new(config());
    assert_eq!(app.delete_selected_items(), None);
}

#[test]
fn deletion_outcomes_are_reported() {
    let mut app = connected_app(vec![]);
    app.record_deletion("/a", Ok(()));
    assert_eq!(app.logs.last().unwrap(), "Borrado: /a");
    app.record_deletion("/b", Err("busy".to_string()));
    assert_eq!(app.error_message, Some("Borrado falló (/b): busy".to_string()));
}

#[test]
fn download_starts_once() {
    let mut app = connected_app(vec![file("a.tns", 7), dir("d")]);
    app.next();
    let items = app.download_selected_items().unwrap();
    assert_eq!(items.len(), 1);
    assert_eq!(items[0].remote_path, "/a.tns");
    assert_eq!(items[0].size, 7);
    assert_eq!(items[0].name, "a.tns");
    assert!(app.is_transferring);
    assert!(app.download_selected_items().is_none());
    assert!(app.upload_files(vec!["x".to_string()]).is_none());
}

#[test]
fn upload_trims_paths_and_targets_current_directory() {
    let mut app = connected_app(vec![]);
    let job = app.upload_files(vec![" /home/u/a.py ".to_string(), "b".to_string()]).unwrap();
    assert_eq!(job.remote_dir, "/");
    assert_eq!(job.local_paths, vec!["/home/u/a.py", "b"]);
    assert!(app.is_transferring);
}

#[test]
fn transfer_ends_at_full_progress() {
    let mut app = connected_app(vec![]);
    app.upload_files(vec![]);
    assert!(matches!(app.on_tick(50), Tick::Idle));
    assert!(app.is_transferring);
    match app.on_tick(100) {
        Tick::TransferDone(p) => assert_eq!(p, Some("/".to_string())),
        Tick::Idle => panic!("transfer should end"),
    }
    assert!(!app.is_transferring);
}

#[test]
fn screenshot_name_carries_the_timestamp() {
    let app = connected_app(vec![]);
    assert_eq!(
        app.take_screenshot("20240101_120000"),
        Some("nspire_screenshot_20240101_120000.png".to_string())
    );
    assert_eq!(App::new(config()).take_screenshot("x"), None);
}

#[test]
fn screenshot_outcome_is_logged() {
    let mut app = connected_app(vec![]);
    app.record_screenshot("\"/tmp/s.png\"", Ok(()));
    assert_eq!(app.logs.last().unwrap(), "Captura guardada: \"/tmp/s.png\"");
    app.record_screenshot("x", Err("io".to_string()));
    assert_eq!(app.logs.last().unwrap(), "Error captura: io");
}

#[test]
fn editing_a_document_is_refused() {
    let mut app = connected_app(vec![file("Game.TNS", 5)]);
    assert!(app.edit_selected().is_none());
    assert_eq!(
        app.error_message,
        Some("No se pueden editar archivos binarios .tns directamente.".to_string())
    );
}

#[test]
fn editing_a_script_logs_advice() {
    let mut app = connected_app(vec![file("main.py", 5)]);
    let plan = app.edit_selected().unwrap();
    assert_eq!(plan.remote_path, "/main.py");
    assert_eq!(plan.extension, "py");
    assert_eq!(plan.size, 5);
    let n = app.logs.len();
    assert_eq!(app.logs[n - 2], "AVISO: MicroPython detectado. Solo módulos ti_* permitidos.");
    assert_eq!(app.logs[n - 1], "Editando: main.py");
}

#[test]
fn editing_a_file_without_extension_uses_txt() {
    let mut app = connected_app(vec![file("README", 5)]);
    let plan = app.edit_selected().unwrap();
    assert_eq!(plan.extension, "txt");
    assert_eq!(app.logs.last().unwrap(), "Editando: README");
}

#[test]
fn edit_failures_are_shown() {
    let mut app = connected_app(vec![]);
    app.edit_download_failed("gone".to_string());
    assert_eq!(app.error_message, Some("Fallo descarga para edición: gone".to_string()));
    app.finish_edit(Err("full".to_string()));
    assert_eq!(app.error_message, Some("Error al subir cambios: full".to_string()));
    app.finish_edit(Ok(()));
    assert_eq!(app.logs.last().unwrap(), "Cambios guardados en la calculadora.");
}

#[test]
fn select_all_by_ext_marks_documents() {
    let mut app = connected_app(vec![file("a.TNS", 1), file("b.py", 1), file("c.tns", 1)]);
    app.select_all_by_ext(".TNS");
    assert!(app.selected_indices.contains(&0));
    assert!(!app.selected_indices.contains(&1));
    assert!(app.selected_indices.contains(&2));
    assert_eq!(app.logs.last().unwrap(), "Seleccionados todos los .tns");
}

#[test]
fn selected_file_info_skips_directories() {
    let app = connected_app(vec![dir("d"), file("f.lua", 9)]);
    assert_eq!(app.get_selected_file_info(), None);
    let mut app = app;
    app.next();
    assert_eq!(
        app.get_selected_file_info(),
        Some(("/f.lua".to_string(), 9, "f.lua".to_string()))
    );
}

#[test]
fn toggles_follow_their_conditions() {
    let mut app = App::new(config());
    app.toggle_details();
    assert!(!app.show_details);
    app.trigger_delete_confirm();
    assert!(!app.show_confirm_delete);
    app.toggle_help();
    assert!(app.show_help);
    let mut app = connected_app(vec![file("a", 1)]);
    app.toggle_details();
    assert!(app.show_details);
    app.trigger_delete_confirm();
    assert!(app.show_confirm_delete);
}

#[test]
fn arrival_asks_to_connect_and_departure_clears() {
    let mut app = connected_app(vec![file("a", 1)]);
    app.selected_indices.insert(0);
    let meta = DeviceMetadata { id: DeviceId { bus: 1, address: 4 }, name: "TI-Nspire".to_string() };
    let a = app.handle_event(DeviceEvent::Connected(meta));
    assert_eq!(a, d_link::app::EventAction::Connect(DeviceId { bus: 1, address: 4 }));
    assert_eq!(app.logs.last().unwrap(), "USB: Detectado (TI-Nspire)");
    let before = app.current_view_id;
    let a = app.handle_event(DeviceEvent::Disconnected);
    assert_eq!(a, d_link::app::EventAction::Disconnect);
    assert!(app.connected_device.is_none());
    assert!(app.all_files.is_empty());
    assert!(app.selected_indices.is_empty());
    assert_eq!(app.current_view_id, before + 1);
    assert_eq!(app.logs.last().unwrap(), "USB: Desconectado");
}

#[test]
fn sizes_from_an_old_view_are_ignored() {
    let mut app = connected_app(vec![dir("d"), dir("d"), file("f", 1)]);
    let view = app.current_view_id;
    app.handle_event(DeviceEvent::DirSizeComputed { name: "d".to_string(), size: 42, generation_id: view });
    assert_eq!(app.all_files[0].size(), 42);
    assert_eq!(app.all_files[1].size(), 0);
    app.refresh_file_list();
    app.handle_event(DeviceEvent::DirSizeComputed { name: "d".to_string(), size: 99, generation_id: view });
    assert_eq!(app.all_files[0].size(), 42);
}

#[test]
fn failed_connection_is_logged() {
    let mut app = App::new(config());
    assert!(!app.connect_finished(Err("No encontrado".to_string())));
    assert_eq!(app.logs.last().unwrap(), "ERROR: No encontrado");
    assert!(app.connected_device.is_none());
}

#[test]
fn ndless_is_detected_in_the_root() {
    let mut app = App::new(config());
    app.detect_ndless(Ok(vec![dir("ndless"), file("x", 1)]));
    assert!(app.ndless_installed);
    app.detect_ndless(Ok(vec![dir("Ndless")]));
    assert!(!app.ndless_installed);
    app.ndless_installed = true;
    app.detect_ndless(Err("x".to_string()));
    assert!(app.ndless_installed);
}

#[test]
fn typing_a_filter_follows_the_text() {
    let mut app = connected_app(vec![file("abc", 1), file("xyz", 1)]);
    app.enter_search();
    app.set_input("Y".to_string());
    assert_eq!(app.filtered_indices, vec![1]);
    app.exit_search();
    assert!(app.input_mode == InputMode::Normal);
    assert_eq!(app.filtered_indices, vec![1]);
}

#[test]
fn going_up_at_the_root_changes_nothing() {
    let mut app = connected_app(vec![dir("docs"), file("a", 1)]);
    app.next();
    app.input_mode = InputMode::Editing;
    let id = app.current_view_id;
    assert_eq!(app.go_up(), None);
    assert_eq!(app.current_path, "/");
    assert!(app.input_mode == InputMode::Editing);
    assert_eq!(app.current_view_id, id);
    assert_eq!(app.table_state.selected, Some(1));
    assert_eq!(names(&app), vec!["docs", "a"]);
}

#[test]
fn going_up_from_a_path_with_a_trailing_slash() {
    let mut app = connected_app(vec![]);
    app.current_path = "/docs/inner/".to_string();
    assert_eq!(app.go_up(), Some("/docs".to_string()));
    assert_eq!(app.current_path, "/docs");
}

#[test]
fn entering_dot_dot_and_going_up_returns() {
    let mut app = connected_app(vec![dir("docs")]);
    app.enter_selected();
    app.load_file_list(Ok(vec![dir(".."), dir("x")]));
    assert_eq!(names(&app), vec!["..", "x"]);
    app.enter_selected();
    assert_eq!(app.current_path, "/docs/..");
    app.go_up();
    assert_eq!(app.current_path, "/docs");
}

#[test]
fn steps_that_refresh_nothing_work_at_the_view_limit() {
    let mut app = connected_app(vec![file("a", 1)]);
    app.current_view_id = usize::MAX;
    assert_eq!(app.go_up(), None);
    assert_eq!(app.enter_selected(), None);
    assert!(matches!(app.on_tick(100), Tick::Idle));
    app.is_transferring = true;
    assert!(matches!(app.on_tick(50), Tick::Idle));
    app.enter_rename();
    app.input_line = "  ".to_string();
    assert!(matches!(app.submit_rename(), RenameStep::Cancelled));
    assert_eq!(app.current_view_id, usize::MAX);
}
