use prive_note::flow::{Action, Effect, Runner};
use prive_note::notes::{
    close_plan, create_plan, delete_plan, join_path, plain_path, registry_path,
    repository_names, secured_notes, secured_path, view_plan, EditChoice,
};
use prive_note::state::NoteDatabase;

fn path_of(e: &Effect) -> String {
    match e {
        Effect::CreateFile { path }
        | Effect::WriteTitle { path, .. }
        | Effect::Encrypt { path, .. }
        | Effect::Decrypt { path, .. }
        | Effect::Edit { path }
        | Effect::RemoveFile { path }
        | Effect::Stage { path, .. } => path.clone(),
        Effect::SaveRegistry { dir } | Effect::Commit { dir } | Effect::Push { dir } => dir.clone(),
    }
}

#[test]
fn paths_are_joined_with_a_slash() {
    assert_eq!(join_path("/home/u/.prive", "demo"), "/home/u/.prive/demo");
    assert_eq!(secured_path("/r/a.txt"), "/r/a.txt.secured");
    assert_eq!(registry_path("/r"), "/r/note-db.json");
    assert_eq!(plain_path("/r", "a.txt.secured"), Some("/r/a.txt".to_string()));
    assert_eq!(plain_path("/r", "a.txt"), None);
}

#[test]
fn failed_encryption_removes_plaintext() {
    let (mut runner, first) = Runner::start(create_plan("/r", "a.txt", "pw", true));
    assert!(matches!(first, Action::Perform(Effect::SaveRegistry { .. })));
    assert!(matches!(runner.advance(true), Action::Perform(Effect::CreateFile { .. })));
    assert!(matches!(runner.advance(true), Action::Perform(Effect::WriteTitle { .. })));
    match runner.advance(true) {
        Action::Perform(Effect::Encrypt { path, password }) => {
            assert_eq!(path, "/r/a.txt");
            assert_eq!(password, "pw");
        }
        _ => panic!("expected encryption"),
    }
    match runner.advance(false) {
        Action::Perform(Effect::RemoveFile { path }) => assert_eq!(path, "/r/a.txt"),
        _ => panic!("expected removal of the plaintext"),
    }
    assert!(matches!(runner.advance(true), Action::Failed(Effect::Encrypt { .. })));
    assert!(matches!(runner.advance(true), Action::Idle));
}

#[test]
fn create_without_hint_stages_note_then_syncs() {
    let (mut runner, first) = Runner::start(create_plan("/r", "n", "pw", false));
    assert!(matches!(first, Action::Perform(Effect::CreateFile { .. })));
    assert!(matches!(runner.advance(true), Action::Perform(Effect::WriteTitle { .. })));
    assert!(matches!(runner.advance(true), Action::Perform(Effect::Encrypt { .. })));
    match runner.advance(true) {
        Action::Perform(Effect::Stage { dir, path }) => {
            assert_eq!(dir, "/r");
            assert_eq!(path, "/r/n.secured");
        }
        _ => panic!("expected staging"),
    }
    assert!(matches!(runner.advance(true), Action::Perform(Effect::Commit { .. })));
    assert!(matches!(runner.advance(true), Action::Perform(Effect::Push { .. })));
    assert!(matches!(runner.advance(true), Action::Finished));
}

#[test]
fn failed_write_removes_partial_file() {
    let (mut runner, _) = Runner::start(create_plan("/r", "n", "pw", false));
    runner.advance(true);
    match runner.advance(false) {
        Action::Perform(Effect::RemoveFile { path }) => assert_eq!(path, "/r/n"),
        _ => panic!("expected removal"),
    }
    assert!(matches!(runner.advance(false), Action::Failed(Effect::WriteTitle { .. })));
}

#[test]
fn failed_removal_skips_version_control() {
    let mut db = NoteDatabase::new();
    db.set_password_hint("a.secured", "h".to_string());
    let (mut runner, first) = Runner::start(delete_plan("/r", "a.secured", &mut db));
    assert_eq!(db.get_password_hint("a.secured"), None);
    match first {
        Action::Perform(Effect::RemoveFile { path }) => assert_eq!(path, "/r/a.secured"),
        _ => panic!("expected removal"),
    }
    assert!(matches!(runner.advance(false), Action::Failed(Effect::RemoveFile { .. })));
    for _ in 0..3 {
        assert!(matches!(runner.advance(true), Action::Idle));
    }
}

#[test]
fn delete_persists_registry_then_syncs() {
    let mut db = NoteDatabase::new();
    let (mut runner, _) = Runner::start(delete_plan("/r", "a.secured", &mut db));
    assert!(matches!(runner.advance(true), Action::Perform(Effect::SaveRegistry { .. })));
    let staged: Vec<String> = (0..2)
        .map(|_| match runner.advance(true) {
            Action::Perform(e @ Effect::Stage { .. }) => path_of(&e),
            _ => panic!("expected staging"),
        })
        .collect();
    assert_eq!(staged, vec!["/r/a.secured".to_string(), "/r/note-db.json".to_string()]);
    assert!(matches!(runner.advance(true), Action::Perform(Effect::Commit { .. })));
    assert!(matches!(runner.advance(false), Action::Failed(Effect::Commit { .. })));
}

#[test]
fn save_encrypts_before_removing_plaintext() {
    for choice in [EditChoice::SaveRemote, EditChoice::SaveLocal] {
        let (mut runner, first) = Runner::start(close_plan("/r", "/r/a.txt", "pw", choice));
        match first {
            Action::Perform(Effect::Encrypt { path, .. }) => assert_eq!(path, "/r/a.txt"),
            _ => panic!("expected encryption"),
        }
        match runner.advance(true) {
            Action::Perform(Effect::RemoveFile { path }) => assert_eq!(path, "/r/a.txt"),
            _ => panic!("expected removal"),
        }
        if choice == EditChoice::SaveRemote {
            match runner.advance(true) {
                Action::Perform(Effect::Stage { path, .. }) => assert_eq!(path, "/r/a.txt.secured"),
                _ => panic!("expected staging"),
            }
            assert!(matches!(runner.advance(true), Action::Perform(Effect::Commit { .. })));
            assert!(matches!(runner.advance(true), Action::Perform(Effect::Push { .. })));
        }
        assert!(matches!(runner.advance(true), Action::Finished));
    }
}

#[test]
fn failed_reencryption_keeps_plaintext() {
    let (mut runner, _) = Runner::start(close_plan("/r", "/r/a.txt", "pw", EditChoice::SaveLocal));
    assert!(matches!(runner.advance(false), Action::Failed(Effect::Encrypt { .. })));
    assert!(matches!(runner.advance(true), Action::Idle));
}

#[test]
fn discard_only_removes_plaintext() {
    let (mut runner, first) = Runner::start(close_plan("/r", "/r/a.txt", "", EditChoice::Discard));
    assert!(matches!(first, Action::Perform(Effect::RemoveFile { .. })));
    assert!(matches!(runner.advance(true), Action::Finished));
}

#[test]
fn view_decrypts_then_edits() {
    assert!(view_plan("/r", "notes.txt").is_none());
    let (mut runner, first) = Runner::start(view_plan("/r", "a.txt.secured").unwrap());
    match first {
        Action::Perform(Effect::Decrypt { path, plain }) => {
            assert_eq!(path, "/r/a.txt.secured");
            assert_eq!(plain, "/r/a.txt");
        }
        _ => panic!("expected decryption"),
    }
    assert!(matches!(runner.advance(false), Action::Failed(Effect::Decrypt { .. })));
    let (mut runner, _) = Runner::start(view_plan("/r", "a.txt.secured").unwrap());
    assert!(matches!(runner.advance(true), Action::Perform(Effect::Edit { .. })));
    assert!(matches!(runner.advance(false), Action::Perform(Effect::RemoveFile { .. })));
}

#[test]
fn empty_plan_finishes_at_once() {
    let (mut runner, first) = Runner::start(Vec::new());
    assert!(matches!(first, Action::Finished));
    assert!(matches!(runner.advance(true), Action::Idle));
}

#[test]
fn listings_keep_secured_notes_and_repositories() {
    let names = vec![
        "a.txt.secured".to_string(),
        "note-db.json".to_string(),
        ".secured".to_string(),
        "b.secure".to_string(),
        "c.secured".to_string(),
    ];
    assert_eq!(
        secured_notes(&names),
        vec!["a.txt.secured".to_string(), ".secured".to_string(), "c.secured".to_string()]
    );
    assert_eq!(repository_names(&names).len(), 4);
    assert!(!repository_names(&names).contains(&"note-db.json".to_string()));
}
