use file_selector::candidates::Entry;
use file_selector::selector::FileSelectorFrame;
use file_selector::viewer::MyApp;

fn listing(dir: &str, names: &[&str]) -> Vec<Entry> {
    names
        .iter()
        .map(|n| Entry::new(format!("{}/{}", dir, n), n.to_string()))
        .collect()
}

#[test]
fn a_new_selector_is_empty() {
    let frame = FileSelectorFrame::new();
    assert_eq!(frame.path(), "");
    assert_eq!(frame.input(), "");
    assert!(!frame.picked());
    let frame = FileSelectorFrame::default();
    assert_eq!(frame.path(), "");
    assert_eq!(frame.input(), "");
    assert!(!frame.picked());
}

#[test]
fn a_picked_path_is_shown_at_once_and_reported_once() {
    let mut frame = FileSelectorFrame::new();
    frame.set_picked_path("/tmp/x/a.txt".to_string());
    assert_eq!(frame.path(), "/tmp/x/a.txt");
    assert!(frame.picked());
    assert!(!frame.key_input(false, false, false));
    assert_eq!(frame.take_picked(), Some("/tmp/x/a.txt".to_string()));
    assert!(!frame.picked());
    assert!(!frame.key_input(false, false, false));
    assert_eq!(frame.take_picked(), None);
    assert_eq!(frame.path(), "/tmp/x/a.txt");
}

#[test]
fn enter_commits_the_shown_text() {
    let mut frame = FileSelectorFrame::new();
    frame.set_text("/tmp/x/b.txt".to_string());
    assert!(!frame.key_input(false, false, true));
    assert_eq!(frame.take_picked(), None);
    assert!(!frame.key_input(true, false, false));
    assert_eq!(frame.take_picked(), Some("/tmp/x/b.txt".to_string()));
    assert_eq!(frame.take_picked(), None);
}

#[test]
fn enter_wins_over_tab() {
    let mut frame = FileSelectorFrame::new();
    frame.set_text("/tmp/x/a".to_string());
    assert!(!frame.key_input(true, true, false));
    assert_eq!(frame.input(), "");
    assert_eq!(frame.take_picked(), Some("/tmp/x/a".to_string()));
}

#[test]
fn tab_freezes_the_base_and_cycles_from_it() {
    let entries = listing("/tmp/x", &["a.txt", "ab.txt", "b.txt"]);
    let mut frame = FileSelectorFrame::new();
    frame.set_text("/tmp/x/a".to_string());
    assert!(!frame.key_input(false, false, true));

    assert!(frame.key_input(false, true, false));
    assert_eq!(frame.input(), "/tmp/x/a");
    frame.complete(false, Some(&entries));
    assert_eq!(frame.path(), "/tmp/x/a.txt");
    assert_eq!(frame.take_picked(), None);

    assert!(frame.key_input(false, true, false));
    assert_eq!(frame.input(), "/tmp/x/a");
    frame.complete(false, Some(&entries));
    assert_eq!(frame.path(), "/tmp/x/ab.txt");

    assert!(frame.key_input(false, true, true));
    assert_eq!(frame.input(), "/tmp/x/a");
    frame.complete(false, Some(&entries));
    assert_eq!(frame.path(), "/tmp/x/a.txt");
}

#[test]
fn an_edit_ends_the_cycle() {
    let entries = listing("/tmp/x", &["a.txt", "ab.txt", "b.txt"]);
    let mut frame = FileSelectorFrame::new();
    frame.set_text("/tmp/x/a".to_string());
    assert!(frame.key_input(false, true, false));
    frame.complete(false, Some(&entries));
    assert_eq!(frame.path(), "/tmp/x/a.txt");

    frame.set_text("/tmp/x/b".to_string());
    assert!(!frame.key_input(false, false, true));
    assert_eq!(frame.input(), "");

    assert!(frame.key_input(false, true, false));
    assert_eq!(frame.input(), "/tmp/x/b");
    frame.complete(false, Some(&entries));
    assert_eq!(frame.path(), "/tmp/x/b.txt");
}

#[test]
fn a_frame_without_change_keeps_the_base() {
    let mut frame = FileSelectorFrame::new();
    frame.set_text("/tmp/x/a".to_string());
    assert!(frame.key_input(false, true, false));
    assert!(!frame.key_input(false, false, false));
    assert_eq!(frame.input(), "/tmp/x/a");
}

#[test]
fn a_completion_without_listing_leaves_the_text() {
    let mut frame = FileSelectorFrame::new();
    frame.set_text("/nowhere/a".to_string());
    assert!(frame.key_input(false, true, false));
    frame.complete(false, None);
    assert_eq!(frame.path(), "/nowhere/a");
    assert_eq!(frame.input(), "/nowhere/a");
}

#[test]
fn a_pick_does_not_end_the_cycle() {
    let mut frame = FileSelectorFrame::new();
    frame.set_text("/tmp/x/a".to_string());
    assert!(frame.key_input(false, true, false));
    frame.set_picked_path("/tmp/y".to_string());
    assert_eq!(frame.input(), "/tmp/x/a");
    assert_eq!(frame.path(), "/tmp/y");
}

#[test]
fn a_new_viewer_shows_nothing() {
    let app = MyApp::new();
    assert_eq!(app.contents, "");
    assert_eq!(app.fileselector.path(), "");
    assert!(!app.fileselector.picked());
    let app = MyApp::default();
    assert_eq!(app.contents, "");
    assert!(!app.fileselector.picked());
}

#[test]
fn the_first_dropped_file_is_picked() {
    let mut app = MyApp::new();
    app.files_dropped(&vec!["/tmp/one".to_string(), "/tmp/two".to_string()]);
    assert_eq!(app.fileselector.path(), "/tmp/one");
    assert_eq!(app.fileselector.take_picked(), Some("/tmp/one".to_string()));
    app.files_dropped(&Vec::new());
    assert_eq!(app.fileselector.take_picked(), None);
    assert_eq!(app.fileselector.path(), "/tmp/one");
}

#[test]
fn a_read_replaces_the_contents_and_a_failure_keeps_them() {
    let mut app = MyApp::new();
    app.file_read(Some("first".to_string()));
    assert_eq!(app.contents, "first");
    app.file_read(None);
    assert_eq!(app.contents, "first");
    app.file_read(Some(String::new()));
    assert_eq!(app.contents, "");
}
