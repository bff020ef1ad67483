use tdo::storage::{id_from_filename, sort_todos, FoundFile, Store, StoreError};
use tdo::todo::{Frontmatter, Status, Timestamp, Todo};

fn at(second: i8) -> Timestamp {
    Timestamp { year: 2026, month: 2, day: 20, hour: 14, minute: 30, second, subsec_nanosecond: 0 }
}

fn fields(title: &str, created: Timestamp) -> Frontmatter {
    Frontmatter {
        title: title.to_string(),
        created,
        status: Status::Open,
        assigned: None,
        assigned_at: None,
        done_at: None,
    }
}

fn file(name: &str, title: &str, second: i8) -> FoundFile {
    FoundFile { filename: name.to_string(), content: Some((fields(title, at(second)), None)) }
}

fn ids(store: &Store) -> Vec<String> {
    store.list_all().iter().map(|t| t.id.clone()).collect()
}

#[test]
fn id_from_filename_with_slug() {
    assert_eq!(id_from_filename("a3f9-fix-the-bug.md"), Some("a3f9"));
}

#[test]
fn id_from_filename_no_slug() {
    assert_eq!(id_from_filename("a3f9.md"), Some("a3f9"));
}

#[test]
fn id_from_filename_invalid() {
    assert_eq!(id_from_filename("not-a-todo.md"), None);
    assert_eq!(id_from_filename("abc.md"), None); // too short
    assert_eq!(id_from_filename("abcde.md"), None); // too long
    assert_eq!(id_from_filename("zzzz.txt"), None); // wrong extension
}

#[test]
fn id_from_filename_edge_cases() {
    assert_eq!(id_from_filename("A3F9-x.md"), Some("A3F9"));
    assert_eq!(id_from_filename("a3f9-.md"), Some("a3f9"));
    assert_eq!(id_from_filename("a3f9_x.md"), None);
    assert_eq!(id_from_filename("a3g9.md"), None);
    assert_eq!(id_from_filename(".md"), None);
    assert_eq!(id_from_filename("a3f9"), None);
    assert_eq!(id_from_filename("a3f9.md.bak"), None);
    assert_eq!(id_from_filename("a3f9-caf\u{e9}.md"), Some("a3f9"));
    assert_eq!(id_from_filename("\u{e9}12.md"), None);
}

#[test]
fn open_sorts_by_created_and_counts_undecoded_files() {
    let files = vec![
        file("0003-c.md", "c", 30),
        FoundFile { filename: "0009-broken.md".to_string(), content: None },
        file("0001-a.md", "a", 10),
        file("notes.md", "not a record", 5),
        FoundFile { filename: "readme.md".to_string(), content: None },
        file("0002-b.md", "b", 20),
    ];
    let store = Store::open(files);
    assert_eq!(ids(&store), vec!["0001", "0002", "0003"]);
    assert_eq!(store.skipped(), 1);
    assert_eq!(store.list_all()[0].filename, "0001-a.md");
}

#[test]
fn open_keeps_the_order_of_files_created_at_the_same_time() {
    let store = Store::open(vec![
        file("000b.md", "b", 10),
        file("000a.md", "a", 10),
        file("000c.md", "c", 5),
    ]);
    assert_eq!(ids(&store), vec!["000c", "000b", "000a"]);
}

#[test]
fn sort_todos_orders_by_every_field_of_the_time() {
    let todo = |id: &str, created: Timestamp| Todo {
        id: id.to_string(),
        filename: format!("{id}.md"),
        frontmatter: fields(id, created),
        body: None,
    };
    let base = at(0);
    let sorted = sort_todos(vec![
        todo("nano", Timestamp { subsec_nanosecond: 1, ..base }),
        todo("year", Timestamp { year: 2027, month: 1, day: 1, hour: 0, minute: 0, second: 0, subsec_nanosecond: 0 }),
        todo("base", base),
        todo("before", Timestamp { year: -5, ..base }),
        todo("month", Timestamp { month: 3, day: 1, ..base }),
        todo("hour", Timestamp { hour: 15, minute: 0, ..base }),
    ]);
    let order: Vec<&str> = sorted.iter().map(|t| t.id.as_str()).collect();
    assert_eq!(order, vec!["before", "base", "nano", "hour", "month", "year"]);
}

#[test]
fn find_by_id_empty_prefix_is_not_found() {
    let store = Store::open(vec![file("a3f9.md", "x", 1)]);
    assert!(matches!(store.find_by_id(""), Err(StoreError::NotFound { .. })));
}

#[test]
fn find_by_id_unique_prefix_gives_the_record() {
    let store = Store::open(vec![file("a3f9-x.md", "x", 1), file("b200-y.md", "y", 2)]);
    assert_eq!(store.find_by_id("a").unwrap().id, "a3f9");
    assert_eq!(store.find_by_id("b200").unwrap().frontmatter.title, "y");
    assert_eq!(store.find_by_id("a3f").unwrap().filename, "a3f9-x.md");
}

#[test]
fn find_by_id_without_match_is_not_found() {
    let store = Store::open(vec![file("a3f9-x.md", "x", 1)]);
    match store.find_by_id("ffff") {
        Err(StoreError::NotFound { id }) => assert_eq!(id, "ffff"),
        other => panic!("expected NotFound, got {other:?}"),
    }
    assert!(matches!(store.find_by_id("a3f90"), Err(StoreError::NotFound { .. })));
    // The prefix is compared as it stands: the case of letters counts.
    assert!(matches!(store.find_by_id("A3"), Err(StoreError::NotFound { .. })));
}

#[test]
fn find_by_id_ambiguous_lists_exactly_the_matches() {
    let store = Store::open(vec![
        file("a3f9-x.md", "x", 3),
        file("b200-y.md", "y", 2),
        file("a100-z.md", "z", 1),
    ]);
    match store.find_by_id("a") {
        Err(StoreError::Ambiguous { id, matches }) => {
            assert_eq!(id, "a");
            assert_eq!(matches, vec!["a100", "a3f9"]);
        },
        other => panic!("expected Ambiguous, got {other:?}"),
    }
    assert_eq!(store.find_by_id("a3").unwrap().id, "a3f9");
    assert_eq!(store.find_by_id("a1").unwrap().id, "a100");
}

#[test]
fn store_error_messages() {
    let store = Store::open(vec![file("a3f9.md", "x", 3), file("a100.md", "z", 1)]);
    assert_eq!(store.find_by_id("").unwrap_err().message(), "todo id must not be empty");
    assert_eq!(store.find_by_id("ffff").unwrap_err().message(), "no todo found with id 'ffff'");
    assert_eq!(store.find_by_id("a").unwrap_err().message(), "ambiguous id 'a': matches a100, a3f9");
    assert_eq!(StoreError::Stale { id: "0001".to_string() }.message(), "no todo in store with id '0001'");
    assert_eq!(StoreError::Exhausted.message(), "no free id found");
}

#[test]
fn create_gives_a_fresh_id_and_a_file_name_with_the_slug() {
    let mut store = Store::open(Vec::new());
    let id = store.create(&fields("Buy Milk!", at(1)), Some("two litres")).unwrap();
    assert_eq!(id.len(), 4);
    assert!(id.chars().all(|c| c.is_ascii_digit() || ('a'..='f').contains(&c)));
    let todo = store.get(&id).unwrap();
    assert_eq!(todo.filename, format!("{id}-buy-milk.md"));
    assert_eq!(todo.frontmatter.title, "Buy Milk!");
    assert_eq!(todo.body.as_deref(), Some("two litres"));
    assert_eq!(id_from_filename(&todo.filename), Some(id.as_str()));
}

#[test]
fn create_without_slug_leaves_the_hyphen_out() {
    let mut store = Store::open(Vec::new());
    let id = store.create(&fields("!!!", at(1)), None).unwrap();
    assert_eq!(store.get(&id).unwrap().filename, format!("{id}.md"));
    assert_eq!(store.get(&id).unwrap().body, None);
}

#[test]
fn create_with_id_puts_the_record_in_the_order_of_creation() {
    let mut store = Store::open(vec![file("0001.md", "a", 10), file("0003.md", "c", 30)]);
    store.create_with_id("0002".to_string(), &fields("b", at(20)), None);
    store.create_with_id("0004".to_string(), &fields("d", at(30)), None);
    store.create_with_id("0000".to_string(), &fields("z", at(0)), None);
    assert_eq!(ids(&store), vec!["0000", "0001", "0002", "0003", "0004"]);
    assert_eq!(store.skipped(), 0);
}

#[test]
fn five_hundred_creates_give_unique_lowercase_hex_ids() {
    let mut store = Store::open(Vec::new());
    let mut seen = std::collections::HashSet::new();
    for n in 0..500 {
        let id = store.create(&fields(&format!("task {n}"), at((n % 60) as i8)), None).unwrap();
        assert_eq!(id.chars().count(), 4);
        assert!(id.chars().all(|c| c.is_ascii_digit() || ('a'..='f').contains(&c)));
        assert!(seen.insert(id));
    }
    assert_eq!(store.list_all().len(), 500);
    let all = store.list_all();
    for pair in all.windows(2) {
        assert!(pair[0].frontmatter.created.sort_key() <= pair[1].frontmatter.created.sort_key());
    }
}

#[test]
fn save_replaces_the_record_in_place() {
    let mut store = Store::open(vec![file("0001.md", "a", 10), file("0002.md", "b", 10)]);
    let mut todo = store.find_by_id("0001").unwrap();
    todo.frontmatter.status = Status::Done;
    todo.body = Some("notes".to_string());
    store.save(&todo).unwrap();
    assert_eq!(ids(&store), vec!["0001", "0002"]);
    assert_eq!(store.list_all()[0].frontmatter.status, Status::Done);
    assert_eq!(store.list_all()[0].body.as_deref(), Some("notes"));
    assert_eq!(store.list_open().len(), 1);
}

#[test]
fn save_restores_the_order_where_the_time_of_creation_changes() {
    let mut store = Store::open(vec![file("0001.md", "a", 10), file("0002.md", "b", 20)]);
    let mut todo = store.find_by_id("0001").unwrap();
    todo.frontmatter.created = at(30);
    store.save(&todo).unwrap();
    assert_eq!(ids(&store), vec!["0002", "0001"]);
}

#[test]
fn save_of_a_record_that_is_gone_is_stale() {
    let mut store = Store::open(vec![file("0001.md", "a", 10)]);
    let todo = store.delete("0001").unwrap();
    match store.save(&todo) {
        Err(StoreError::Stale { id }) => assert_eq!(id, "0001"),
        other => panic!("expected Stale, got {other:?}"),
    }
    assert!(store.list_all().is_empty());
}

#[test]
fn delete_removes_the_one_match_only() {
    let mut store = Store::open(vec![
        file("a3f9.md", "x", 1),
        file("a100.md", "z", 2),
        file("b200.md", "y", 3),
    ]);
    assert!(matches!(store.delete("a"), Err(StoreError::Ambiguous { .. })));
    assert!(matches!(store.delete("c"), Err(StoreError::NotFound { .. })));
    assert_eq!(store.list_all().len(), 3);
    let gone = store.delete("a1").unwrap();
    assert_eq!(gone.id, "a100");
    assert_eq!(ids(&store), vec!["a3f9", "b200"]);
    assert!(!store.contains_id("a100"));
    assert!(store.contains_id("b200"));
}

#[test]
fn refresh_takes_fields_and_body_and_keeps_id_and_file_name() {
    let mut store = Store::open(vec![file("0001-a.md", "a", 10), file("0002-b.md", "b", 20)]);
    let mut fm = fields("a, edited", at(10));
    fm.status = Status::Done;
    store.refresh("0001", fm, Some("body".to_string())).unwrap();
    let todo = store.get("0001").unwrap();
    assert_eq!(todo.filename, "0001-a.md");
    assert_eq!(todo.frontmatter.title, "a, edited");
    assert_eq!(todo.frontmatter.status, Status::Done);
    assert_eq!(todo.body.as_deref(), Some("body"));
    assert!(matches!(
        store.refresh("9", fields("x", at(1)), None),
        Err(StoreError::NotFound { .. })
    ));
    store.refresh("0001", fields("late", at(40)), None).unwrap();
    assert_eq!(ids(&store), vec!["0002", "0001"]);
}

#[test]
fn list_open_leaves_out_what_is_done() {
    let mut done = file("0002.md", "b", 20);
    if let Some((fm, _)) = done.content.as_mut() {
        fm.status = Status::Done;
    }
    let store = Store::open(vec![file("0003.md", "c", 30), done, file("0001.md", "a", 10)]);
    let open: Vec<&str> = store.list_open().iter().map(|t| t.id.as_str()).collect();
    assert_eq!(open, vec!["0001", "0003"]);
    assert_eq!(store.list_all().len(), 3);
}

#[test]
fn resolve_dir_falls_back_to_dot_todo() {
    assert_eq!(Store::resolve_dir(None), ".todo");
    assert_eq!(Store::resolve_dir(Some("/tmp/x")), "/tmp/x");
}

#[test]
fn get_wants_the_whole_id() {
    let store = Store::open(vec![file("a3f9.md", "x", 1)]);
    assert!(store.get("a3").is_none());
    assert_eq!(store.get("a3f9").unwrap().id, "a3f9");
}

#[test]
fn create_succeeds_where_no_record_has_an_id_that_a_draw_gives() {
    // Ids in capitals are read from file names, but no draw gives one.
    let mut store = Store::open(vec![file("A3F9-x.md", "x", 1), file("00FF.md", "y", 2)]);
    for n in 0..50 {
        let before = store.list_all().len();
        let id = store.create(&fields(&format!("task {n}"), at(3)), None).unwrap();
        assert_eq!(store.list_all().len(), before + 1);
        assert_eq!(store.get(&id).unwrap().frontmatter.title, format!("task {n}"));
    }
    let mut empty = Store::open(Vec::new());
    assert!(empty.create(&fields("first", at(0)), None).is_ok());
}
