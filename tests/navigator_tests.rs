use treesheets_core::{Key, Sheet, TreeSheetsApp};

#[test]
fn app_creation() {
    let app = TreeSheetsApp::new();
    assert!(app.selected_path().is_empty());
    assert!(!app.is_editing());
    assert_eq!(app.sheet().title, "Sample Sheet");
}

#[test]
fn arrows_move_the_selection() {
    let mut app = TreeSheetsApp::new();
    app.handle_key(Key::ArrowDown);
    assert!(app.selected_path().is_empty());
    app.handle_key(Key::ArrowRight);
    assert_eq!(app.selected_path(), &vec![0]);
    app.handle_key(Key::ArrowUp);
    assert_eq!(app.selected_path(), &vec![0]);
    app.handle_key(Key::ArrowDown);
    assert_eq!(app.selected_path(), &vec![1]);
    app.handle_key(Key::ArrowDown);
    assert_eq!(app.selected_path(), &vec![1]);
    app.handle_key(Key::ArrowRight);
    app.handle_key(Key::ArrowRight);
    assert_eq!(app.selected_path(), &vec![1, 0, 0]);
    assert_eq!(app.get_selected_cell().unwrap().text, "Implement sheet data model");
    assert_eq!(app.get_parent_cell().unwrap().text, "TreeSheets RS");
    app.handle_key(Key::ArrowRight);
    assert_eq!(app.selected_path(), &vec![1, 0, 0]);
    app.handle_key(Key::ArrowLeft);
    app.handle_key(Key::ArrowLeft);
    app.handle_key(Key::ArrowLeft);
    app.handle_key(Key::ArrowLeft);
    assert!(app.selected_path().is_empty());
    assert_eq!(app.get_parent_cell().unwrap().text, "TreeSheets Rust Prototype");
}

#[test]
fn editing_writes_the_text_back() {
    let mut app = TreeSheetsApp::new();
    app.select(vec![0, 1]);
    app.handle_key(Key::Enter);
    assert!(app.is_editing());
    assert_eq!(app.edit_buffer(), "Notes");
    app.handle_key(Key::ArrowUp);
    assert_eq!(app.selected_path(), &vec![0, 1]);
    app.set_edit_buffer("Journal".to_string());
    app.commit_edit();
    assert!(!app.is_editing());
    assert_eq!(app.edit_buffer(), "");
    assert_eq!(app.sheet().root.children[0].children[1].text, "Journal");
}

#[test]
fn escape_drops_the_edit() {
    let mut app = TreeSheetsApp::new();
    app.handle_key(Key::Enter);
    assert_eq!(app.edit_buffer(), "TreeSheets Rust Prototype");
    app.handle_key(Key::Escape);
    assert!(!app.is_editing());
    assert_eq!(app.edit_buffer(), "");
    assert_eq!(app.sheet().root.text, "TreeSheets Rust Prototype");
}

#[test]
fn stale_selection_resolves_to_nothing() {
    let mut app = TreeSheetsApp::new();
    app.select(vec![0, 1]);
    app.replace_sheet(Sheet::sample());
    assert!(app.selected_path().is_empty());
    app.select(vec![7]);
    assert!(app.get_selected_cell().is_none());
    app.handle_key(Key::Enter);
    assert!(!app.is_editing());
    app.cancel_edit();
    assert!(!app.is_editing());
}

#[test]
fn begin_edit_reloads_the_text() {
    let mut app = TreeSheetsApp::new();
    app.select(vec![1]);
    app.begin_edit();
    assert!(app.is_editing());
    app.set_edit_buffer("draft".to_string());
    app.begin_edit();
    assert_eq!(app.edit_buffer(), "Work");
}
