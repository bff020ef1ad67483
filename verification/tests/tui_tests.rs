use tdo::ops::OpsError;
use tdo::storage::{FoundFile, Store, StoreError};
use tdo::todo::{Frontmatter, Status, Timestamp};
use tdo::tui::{
    compute_filtered, fuzzy_match, key_action, passes_search, shown_records, App, KeyAction,
    KeyCode, KeyEvent, Mode, Outcome, MAX_HEIGHT,
};

fn record(name: &str, title: &str, second: i8, done: bool, assigned: Option<&str>) -> FoundFile {
    let created = Timestamp {
        year: 2026,
        month: 2,
        day: 20,
        hour: 14,
        minute: 30,
        second,
        subsec_nanosecond: 0,
    };
    let fm = Frontmatter {
        title: title.to_string(),
        created,
        status: if done { Status::Done } else { Status::Open },
        assigned: assigned.map(|s| s.to_string()),
        assigned_at: assigned.map(|_| created),
        done_at: if done { Some(created) } else { None },
    };
    FoundFile { filename: name.to_string(), content: Some((fm, None)) }
}

fn sample_store() -> Store {
    Store::open(vec![
        record("a001-buy-milk.md", "buy milk", 1, false, None),
        record("a002-fix-bike.md", "Fix Bike", 2, false, Some("sam")),
        record("b003-call-bob.md", "call bob", 3, true, None),
        record("c004-mow.md", "mow the lawn", 4, false, None),
    ])
}

fn plain(code: KeyCode) -> KeyEvent {
    KeyEvent { code, ctrl: false }
}

fn ctrl(c: char) -> KeyEvent {
    KeyEvent { code: KeyCode::Char(c), ctrl: true }
}

fn type_text(app: &mut App, text: &str) {
    for c in text.chars() {
        assert!(matches!(app.handle_key(plain(KeyCode::Char(c))), Ok(Outcome::Continue)));
    }
}

fn shown_ids(app: &App) -> Vec<String> {
    app.filtered().iter().map(|&i| app.todos()[i].id.clone()).collect()
}

#[test]
fn fuzzy_match_basic() {
    assert!(fuzzy_match("fb", "foobar"));
    assert!(fuzzy_match("FB", "foobar"));
    assert!(fuzzy_match("fb", "FooBar"));
}

#[test]
fn fuzzy_match_exact() {
    assert!(fuzzy_match("foo", "foo"));
}

#[test]
fn fuzzy_match_empty_query() {
    assert!(fuzzy_match("", "anything"));
}

#[test]
fn fuzzy_match_no_match() {
    assert!(!fuzzy_match("xyz", "foobar"));
    assert!(!fuzzy_match("ba", "abc"));
}

#[test]
fn fuzzy_match_edge_cases() {
    assert!(fuzzy_match("", ""));
    assert!(!fuzzy_match("a", ""));
    assert!(fuzzy_match("aa", "aba"));
    assert!(!fuzzy_match("aa", "ab"));
    assert!(fuzzy_match("\u{e9}t", "\u{c9}t\u{e9}"));
    assert!(!fuzzy_match("foobar", "fooba"));
}

#[test]
fn search_passes_title_or_id_prefix() {
    let store = sample_store();
    let all = store.list_all();
    assert!(passes_search("A0", &all[0]));
    assert!(passes_search("bmk", &all[0]));
    assert!(!passes_search("001", &all[0]));
    assert!(passes_search("", &all[0]));
    assert_eq!(compute_filtered(&all.to_vec(), "a0"), vec![0, 1]);
    assert_eq!(compute_filtered(&all.to_vec(), "b"), vec![0, 1, 2]);
    assert_eq!(compute_filtered(&all.to_vec(), "zz"), Vec::<usize>::new());
}

#[test]
fn shown_records_puts_the_assigned_last() {
    let store = sample_store();
    let open: Vec<String> = shown_records(&store, false).iter().map(|t| t.id.clone()).collect();
    assert_eq!(open, vec!["a001", "c004", "a002"]);
    let all: Vec<String> = shown_records(&store, true).iter().map(|t| t.id.clone()).collect();
    assert_eq!(all, vec!["a001", "b003", "c004", "a002"]);
}

#[test]
fn new_session_shows_open_records_with_the_cursor_on_the_first() {
    let app = App::new(sample_store());
    assert_eq!(shown_ids(&app), vec!["a001", "c004", "a002"]);
    assert_eq!(app.selected(), Some(0));
    assert_eq!(app.input(), "");
    assert!(!app.show_all());
    assert!(!app.has_create_line());
    assert!(!app.is_on_create_new());
    assert_eq!(app.selectable_count(), 3);
    assert_eq!(app.selected_todo().unwrap().id, "a001");
    assert!(matches!(app.mode(), Mode::Normal));
    let empty = App::new(Store::open(Vec::new()));
    assert_eq!(empty.selected(), None);
    assert!(empty.selected_todo().is_none());
    assert_eq!(empty.selectable_count(), 0);
}

#[test]
fn typing_filters_and_puts_the_cursor_on_the_first_row() {
    let mut app = App::new(sample_store());
    app.cursor_down();
    app.cursor_down();
    assert_eq!(app.selected(), Some(2));
    type_text(&mut app, "m");
    assert_eq!(app.input(), "m");
    assert_eq!(shown_ids(&app), vec!["a001", "c004"]);
    assert_eq!(app.selected(), Some(0));
    assert!(app.is_on_create_new());
    assert!(app.selected_todo().is_none());
    assert_eq!(app.selectable_count(), 3);
    type_text(&mut app, "zz");
    assert_eq!(shown_ids(&app), Vec::<String>::new());
    assert_eq!(app.selected(), Some(0));
    assert_eq!(app.selectable_count(), 1);
    for _ in 0..3 {
        assert!(matches!(app.handle_key(plain(KeyCode::Backspace)), Ok(Outcome::Continue)));
    }
    assert_eq!(app.input(), "");
    assert_eq!(shown_ids(&app), vec!["a001", "c004", "a002"]);
    assert_eq!(app.selected(), Some(0));
    assert!(matches!(app.handle_key(plain(KeyCode::Backspace)), Ok(Outcome::Continue)));
    assert_eq!(app.input(), "");
}

#[test]
fn cursor_moves_within_the_rows() {
    let mut app = App::new(sample_store());
    app.cursor_up();
    assert_eq!(app.selected(), Some(0));
    app.handle_key(plain(KeyCode::Down)).unwrap();
    app.handle_key(plain(KeyCode::Down)).unwrap();
    assert_eq!(app.selected(), Some(2));
    app.handle_key(plain(KeyCode::Down)).unwrap();
    assert_eq!(app.selected(), Some(2));
    app.handle_key(plain(KeyCode::Up)).unwrap();
    assert_eq!(app.selected(), Some(1));
    assert_eq!(app.selected_todo().unwrap().id, "c004");
    type_text(&mut app, "bike");
    assert_eq!(app.selected(), Some(0));
    app.cursor_down();
    assert_eq!(app.selected(), Some(1));
    assert_eq!(app.selected_todo().unwrap().id, "a002");
    app.cursor_down();
    assert_eq!(app.selected(), Some(1));
}

#[test]
fn enter_on_the_create_row_creates_a_record_with_the_trimmed_title() {
    let mut app = App::new(Store::open(Vec::new()));
    type_text(&mut app, "  buy milk ");
    assert!(app.is_on_create_new());
    let created = match app.handle_key(plain(KeyCode::Enter)).unwrap() {
        Outcome::Write(todo) => todo,
        other => panic!("expected Write, got {other:?}"),
    };
    assert_eq!(created.frontmatter.title, "buy milk");
    assert_eq!(created.filename, format!("{}-buy-milk.md", created.id));
    assert_eq!(created.frontmatter.status, Status::Open);
    assert_eq!(created.body, None);
    assert_eq!(app.input(), "");
    // What is handed out to be written is the record as it stands in the store.
    let stored = app.store().get(&created.id).unwrap();
    assert_eq!(stored.filename, created.filename);
    assert_eq!(stored.frontmatter.title, created.frontmatter.title);
    assert_eq!(stored.frontmatter.created, created.frontmatter.created);
    assert_eq!(stored.frontmatter.status, created.frontmatter.status);
    assert_eq!(stored.frontmatter.done_at, None);
    assert_eq!(stored.frontmatter.assigned, None);
    app.reload();
    assert_eq!(shown_ids(&app), vec![created.id.clone()]);
    assert_eq!(app.selected(), Some(0));
    assert_eq!(app.store().list_all().len(), 1);
}

#[test]
fn enter_on_a_record_asks_for_the_editor() {
    let mut app = App::new(sample_store());
    app.cursor_down();
    match app.handle_key(plain(KeyCode::Enter)).unwrap() {
        Outcome::Edit { id, filename } => {
            assert_eq!(id, "c004");
            assert_eq!(filename, "c004-mow.md");
        },
        other => panic!("expected Edit, got {other:?}"),
    }
    let mut empty = App::new(Store::open(Vec::new()));
    assert!(matches!(empty.handle_key(plain(KeyCode::Enter)), Ok(Outcome::Continue)));
}

#[test]
fn toggle_done_marks_and_reopens_and_reload_keeps_the_cursor() {
    let mut app = App::new(sample_store());
    app.cursor_down();
    let done = match app.handle_key(ctrl('d')).unwrap() {
        Outcome::Write(todo) => todo,
        other => panic!("expected Write, got {other:?}"),
    };
    assert_eq!(done.id, "c004");
    assert_eq!(done.frontmatter.status, Status::Done);
    assert!(done.frontmatter.done_at.is_some());
    app.reload();
    assert_eq!(shown_ids(&app), vec!["a001", "a002"]);
    assert_eq!(app.selected(), Some(1));
    app.handle_key(ctrl('a')).unwrap();
    assert!(app.show_all());
    assert_eq!(shown_ids(&app), vec!["a001", "b003", "c004", "a002"]);
    app.cursor_down();
    assert_eq!(app.selected_todo().unwrap().id, "c004");
    let open = match app.handle_key(ctrl('d')).unwrap() {
        Outcome::Write(todo) => todo,
        other => panic!("expected Write, got {other:?}"),
    };
    assert_eq!(open.frontmatter.status, Status::Open);
    assert_eq!(open.frontmatter.done_at, None);
    app.reload();
    assert_eq!(app.selected(), Some(2));
    assert_eq!(app.store().list_open().len(), 3);
}

#[test]
fn toggle_done_keeps_the_time_at_which_the_task_was_done_first() {
    let mut app = App::new(Store::open(vec![record("a001.md", "x", 1, false, None)]));
    let mut stale = app.store().find_by_id("a001").unwrap();
    stale.frontmatter.done_at = Some(Timestamp {
        year: 2000,
        month: 1,
        day: 1,
        hour: 0,
        minute: 0,
        second: 0,
        subsec_nanosecond: 0,
    });
    let mut store = app.into_store();
    store.save(&stale).unwrap();
    app = App::new(store);
    match app.handle_key(ctrl('d')).unwrap() {
        Outcome::Write(todo) => {
            assert_eq!(todo.frontmatter.status, Status::Done);
            assert_eq!(todo.frontmatter.done_at.unwrap().year, 2000);
        },
        other => panic!("expected Write, got {other:?}"),
    }
}

#[test]
fn delete_asks_first_and_keeps_a_snapshot() {
    let mut app = App::new(sample_store());
    app.handle_key(ctrl('x')).unwrap();
    match app.mode() {
        Mode::ConfirmDelete { id, title } => {
            assert_eq!(id, "a001");
            assert_eq!(title, "buy milk");
        },
        Mode::Normal => panic!("expected the question"),
    }
    // Any key but y and Enter says no.
    assert!(matches!(app.handle_key(plain(KeyCode::Char('z'))), Ok(Outcome::Continue)));
    assert!(matches!(app.mode(), Mode::Normal));
    assert_eq!(app.input(), "");
    assert_eq!(app.store().list_all().len(), 4);
    for no in [KeyCode::Char('n'), KeyCode::Esc, KeyCode::Other, KeyCode::Down] {
        app.handle_key(ctrl('x')).unwrap();
        assert!(matches!(app.handle_key(plain(no)), Ok(Outcome::Continue)));
        assert!(matches!(app.mode(), Mode::Normal));
        assert_eq!(app.store().list_all().len(), 4);
        assert_eq!(app.selected(), Some(0));
    }
    for yes in [KeyCode::Char('y'), KeyCode::Enter] {
        app.handle_key(ctrl('x')).unwrap();
        let removed = match app.handle_key(plain(yes)).unwrap() {
            Outcome::Remove(todo) => todo,
            other => panic!("expected Remove, got {other:?}"),
        };
        assert!(matches!(app.mode(), Mode::Normal));
        app.reload();
        assert!(!app.store().contains_id(&removed.id));
    }
    assert_eq!(shown_ids(&app), vec!["a002"]);
    assert_eq!(app.selected(), Some(0));
}

#[test]
fn confirming_a_deletion_that_the_store_turns_down_changes_nothing() {
    // Two files carry the same id, so the id kept does not name one record.
    let mut app = App::new(Store::open(vec![
        record("a001-x.md", "x", 1, false, None),
        record("a001-y.md", "y", 2, false, None),
    ]));
    app.handle_key(ctrl('x')).unwrap();
    match app.handle_key(plain(KeyCode::Char('y'))) {
        Err(OpsError::Store(StoreError::Ambiguous { id, matches })) => {
            assert_eq!(id, "a001");
            assert_eq!(matches, vec!["a001", "a001"]);
        },
        other => panic!("expected Ambiguous, got {other:?}"),
    }
    assert!(matches!(app.mode(), Mode::ConfirmDelete { .. }));
    assert_eq!(app.store().list_all().len(), 2);
    assert!(matches!(app.handle_key(ctrl('d')), Ok(Outcome::Continue)));
}

#[test]
fn ask_delete_without_a_record_changes_nothing() {
    let mut app = App::new(Store::open(Vec::new()));
    app.handle_key(ctrl('x')).unwrap();
    assert!(matches!(app.mode(), Mode::Normal));
    assert!(matches!(app.handle_key(ctrl('d')), Ok(Outcome::Continue)));
    type_text(&mut app, "new");
    app.handle_key(ctrl('x')).unwrap();
    assert!(matches!(app.mode(), Mode::Normal));
}

#[test]
fn quit_keys_end_the_session_in_every_mode() {
    let mut app = App::new(sample_store());
    assert!(matches!(app.handle_key(ctrl('q')), Ok(Outcome::Quit)));
    assert!(matches!(app.handle_key(ctrl('c')), Ok(Outcome::Quit)));
    app.handle_key(ctrl('x')).unwrap();
    assert!(matches!(app.handle_key(ctrl('q')), Ok(Outcome::Quit)));
    assert!(matches!(app.mode(), Mode::ConfirmDelete { .. }));
    assert!(matches!(app.handle_key(ctrl('c')), Ok(Outcome::Quit)));
}

#[test]
fn escape_clears_the_input_first_and_quits_then() {
    let mut app = App::new(sample_store());
    type_text(&mut app, "milk");
    assert!(matches!(app.handle_key(plain(KeyCode::Esc)), Ok(Outcome::Continue)));
    assert_eq!(app.input(), "");
    assert_eq!(app.selected(), Some(0));
    assert_eq!(shown_ids(&app).len(), 3);
    assert!(matches!(app.handle_key(plain(KeyCode::Esc)), Ok(Outcome::Quit)));
}

#[test]
fn other_keys_do_nothing() {
    let mut app = App::new(sample_store());
    app.cursor_down();
    assert!(matches!(app.handle_key(plain(KeyCode::Other)), Ok(Outcome::Continue)));
    assert!(matches!(app.handle_key(ctrl('z')), Ok(Outcome::Continue)));
    assert!(matches!(
        app.handle_key(KeyEvent { code: KeyCode::Enter, ctrl: true }),
        Ok(Outcome::Continue)
    ));
    assert_eq!(app.selected(), Some(1));
    assert_eq!(app.input(), "");
}

#[test]
fn key_actions() {
    assert_eq!(key_action(false, ctrl('q')), KeyAction::Quit);
    assert_eq!(key_action(true, ctrl('c')), KeyAction::Quit);
    assert_eq!(key_action(false, ctrl('a')), KeyAction::ToggleShowAll);
    assert_eq!(key_action(false, ctrl('d')), KeyAction::ToggleDone);
    assert_eq!(key_action(false, ctrl('x')), KeyAction::AskDelete);
    assert_eq!(key_action(false, ctrl('s')), KeyAction::Nothing);
    assert_eq!(key_action(false, plain(KeyCode::Char('q'))), KeyAction::Type('q'));
    assert_eq!(key_action(false, plain(KeyCode::Backspace)), KeyAction::Erase);
    assert_eq!(key_action(false, plain(KeyCode::Enter)), KeyAction::Enter);
    assert_eq!(key_action(false, plain(KeyCode::Esc)), KeyAction::Escape);
    assert_eq!(key_action(false, plain(KeyCode::Down)), KeyAction::Down);
    assert_eq!(key_action(false, plain(KeyCode::Up)), KeyAction::Up);
    assert_eq!(key_action(false, plain(KeyCode::Other)), KeyAction::Nothing);
    assert_eq!(key_action(true, plain(KeyCode::Char('y'))), KeyAction::ConfirmDelete);
    assert_eq!(key_action(true, ctrl('y')), KeyAction::ConfirmDelete);
    assert_eq!(key_action(true, plain(KeyCode::Enter)), KeyAction::ConfirmDelete);
    assert_eq!(key_action(true, plain(KeyCode::Char('n'))), KeyAction::CancelDelete);
    assert_eq!(key_action(true, plain(KeyCode::Esc)), KeyAction::CancelDelete);
    assert_eq!(key_action(true, ctrl('a')), KeyAction::CancelDelete);
}

#[test]
fn reload_clamps_the_cursor() {
    let mut app = App::new(sample_store());
    app.cursor_down();
    app.cursor_down();
    assert_eq!(app.selected(), Some(2));
    let mut store = app.into_store();
    store.delete("a002").unwrap();
    store.delete("c004").unwrap();
    let mut app = App::new(store);
    assert_eq!(app.selected(), Some(0));
    app.handle_key(ctrl('x')).unwrap();
    app.handle_key(plain(KeyCode::Char('y'))).unwrap();
    app.reload();
    assert_eq!(app.selected(), None);
    assert_eq!(app.selectable_count(), 0);
    type_text(&mut app, "x");
    app.reload();
    assert_eq!(app.selected(), Some(0));
}

#[test]
fn viewport_height_follows_rows_and_terminal() {
    let app = App::new(sample_store());
    // One row for the search, three records, three for border and help.
    assert_eq!(app.viewport_height(50), 7);
    assert_eq!(app.viewport_height(8), 7);
    assert_eq!(app.viewport_height(7), 6);
    assert_eq!(app.viewport_height(1), 0);
    assert_eq!(app.viewport_height(0), 0);
    let empty = App::new(Store::open(Vec::new()));
    assert_eq!(empty.viewport_height(50), 4);
    let many: Vec<FoundFile> = (0..40)
        .map(|n| record(&format!("{:04x}.md", n), "task", (n % 60) as i8, false, None))
        .collect();
    let big = App::new(Store::open(many));
    assert_eq!(big.viewport_height(50), MAX_HEIGHT);
    assert_eq!(big.viewport_height(u16::MAX), 20);
    assert_eq!(big.viewport_height(10), 9);
    let sixteen: Vec<FoundFile> = (0..16)
        .map(|n| record(&format!("{:04x}.md", n), "task", n as i8, false, None))
        .collect();
    let mut edge = App::new(Store::open(sixteen));
    assert_eq!(edge.viewport_height(50), 20);
    type_text(&mut edge, "t");
    assert_eq!(edge.viewport_height(50), 20);
    let fifteen: Vec<FoundFile> = (0..15)
        .map(|n| record(&format!("{:04x}.md", n), "task", n as i8, false, None))
        .collect();
    assert_eq!(App::new(Store::open(fifteen)).viewport_height(50), 19);
}

#[test]
fn session_scenario_create_toggle_twice() {
    let mut app = App::new(Store::open(Vec::new()));
    type_text(&mut app, "buy milk");
    let id = match app.handle_key(plain(KeyCode::Enter)).unwrap() {
        Outcome::Write(todo) => todo.id,
        other => panic!("expected Write, got {other:?}"),
    };
    app.reload();
    assert_eq!(id.len(), 4);
    assert_eq!(app.store().list_open().len(), 1);
    assert_eq!(app.store().list_open()[0].title(), "buy milk");
    app.handle_key(ctrl('d')).unwrap();
    app.reload();
    assert!(app.store().list_open().is_empty());
    assert_eq!(app.store().list_all()[0].frontmatter.status, Status::Done);
    assert_eq!(app.selected(), None);
    app.handle_key(ctrl('a')).unwrap();
    assert_eq!(app.selected(), Some(0));
    app.handle_key(ctrl('d')).unwrap();
    app.reload();
    assert_eq!(app.store().list_open().len(), 1);
    assert_eq!(app.store().list_open()[0].frontmatter.done_at, None);
}

#[test]
fn refresh_record_takes_what_the_file_holds() {
    let mut app = App::new(sample_store());
    let (fm, _) = record("x.md", "buy oat milk", 1, false, None).content.unwrap();
    app.refresh_record("a001", fm, Some("two litres".to_string())).unwrap();
    app.reload();
    assert_eq!(app.selected_todo().unwrap().title(), "buy oat milk");
    assert_eq!(app.selected_todo().unwrap().body.as_deref(), Some("two litres"));
    assert_eq!(app.selected_todo().unwrap().filename, "a001-buy-milk.md");
    let (fm, _) = record("x.md", "t", 1, false, None).content.unwrap();
    assert!(matches!(app.refresh_record("ffff", fm, None), Err(StoreError::NotFound { .. })));
}
