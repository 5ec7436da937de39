use prive_note::state::{LoginState, NoteDatabase};

#[test]
fn hint_round_trip() {
    let mut db = NoteDatabase::from_stored(None);
    db.set_password_hint("a.txt.secured", "color".to_string());
    assert_eq!(db.get_password_hint("a.txt.secured"), Some("color".to_string()));
}

#[test]
fn hint_overwrite_keeps_latest() {
    let mut db = NoteDatabase::new();
    db.set_password_hint("a.txt.secured", "first".to_string());
    db.set_password_hint("a.txt.secured", "second".to_string());
    assert_eq!(db.get_password_hint("a.txt.secured"), Some("second".to_string()));
    assert_eq!(db.hint_entries().len(), 1);
}

#[test]
fn default_hint_for_absent_file() {
    let db = NoteDatabase::new();
    assert_eq!(db.get_password_hint("missing.secured"), None);
    assert_eq!(db.get_password_hint_with_default("missing.secured"), "No hint");
}

#[test]
fn failed_load_gives_empty_registry() {
    let db = NoteDatabase::from_stored(None);
    assert!(db.hint_entries().is_empty());
    assert_eq!(db.get_password_hint_with_default("x.secured"), "No hint");
}

#[test]
fn demo_registry_survives_save_and_reload() {
    let mut db = NoteDatabase::from_stored(None);
    db.set_password_hint("a.txt.secured", "color".to_string());
    let stored = db.hint_entries();
    let reloaded = NoteDatabase::from_stored(Some(NoteDatabase::from_hints(stored)));
    assert_eq!(reloaded.get_password_hint_with_default("a.txt.secured"), "color");
    assert_eq!(reloaded.get_password_hint_with_default("b.txt.secured"), "No hint");
}

#[test]
fn restore_lets_later_pairs_win() {
    let pairs = vec![
        ("a".to_string(), "1".to_string()),
        ("b".to_string(), "2".to_string()),
        ("a".to_string(), "3".to_string()),
    ];
    let db = NoteDatabase::from_hints(pairs);
    assert_eq!(db.get_password_hint("a"), Some("3".to_string()));
    assert_eq!(db.get_password_hint("b"), Some("2".to_string()));
    assert_eq!(db.hint_entries().len(), 2);
}

#[test]
fn remove_hint_forgets_only_that_file() {
    let mut db = NoteDatabase::new();
    db.set_password_hint("a.secured", "x".to_string());
    db.set_password_hint("b.secured", "y".to_string());
    db.remove_password_hint("a.secured");
    db.remove_password_hint("never.secured");
    assert_eq!(db.get_password_hint("a.secured"), None);
    assert_eq!(db.get_password_hint("b.secured"), Some("y".to_string()));
}

#[test]
fn session_absent_is_logged_out() {
    assert!(!LoginState::from_stored(None).logged_in);
    assert!(!LoginState::logged_out().logged_in);
}

#[test]
fn session_saved_twice_loads_logged_in() {
    let mut state = LoginState::from_stored(None);
    assert!(!state.logged_in);
    state.mark_logged_in();
    let first = state;
    state.mark_logged_in();
    assert_eq!(first, state);
    let loaded = LoginState::from_stored(Some(state));
    assert!(loaded.logged_in);
}
