use todo_tracker::database::Database;
use todo_tracker::todo::{TodoItem, TodoMetadata, TodoTag};

fn make_item(id: &str, tag: TodoTag, file: &str, line: u32, message: &str) -> TodoItem {
    TodoItem {
        id: id.to_string(),
        tag,
        file: file.to_string(),
        line,
        column: 0,
        message: message.to_string(),
        metadata: TodoMetadata {
            author: None,
            date: None,
            tickets: Vec::new(),
            priority: None,
            blame: None,
        },
    }
}

#[test]
fn create_and_query() {
    let mut db = Database::open_in_memory();
    let scan_id = db.start_scan(None, 0);

    let items = vec![
        make_item("a1", TodoTag::Todo, "src/main.rs", 10, "fix this"),
        make_item("a2", TodoTag::Fixme, "src/lib.rs", 20, "broken"),
    ];
    db.upsert_todos(&items, scan_id);
    db.finish_scan(scan_id, 2, 2, 0);

    assert_eq!(db.active_count(), 2);
}

#[test]
fn resolves_missing_items() {
    let mut db = Database::open_in_memory();

    let scan1 = db.start_scan(None, 0);
    let items = vec![
        make_item("a1", TodoTag::Todo, "src/main.rs", 10, "fix this"),
        make_item("a2", TodoTag::Fixme, "src/lib.rs", 20, "broken"),
    ];
    db.upsert_todos(&items, scan1);
    db.finish_scan(scan1, 2, 2, 0);

    let scan2 = db.start_scan(None, 0);
    let items = vec![make_item("a1", TodoTag::Todo, "src/main.rs", 10, "fix this")];
    db.upsert_todos(&items, scan2);
    let resolved = db.mark_resolved(scan2);
    db.finish_scan(scan2, 1, 1, 0);

    assert_eq!(resolved, 1);
    assert_eq!(db.active_count(), 1);
}

#[test]
fn lifecycle_resolve_and_reappear() {
    let mut db = Database::open_in_memory();
    let x = make_item("x", TodoTag::Todo, "a.rs", 1, "m");
    let y = make_item("y", TodoTag::Bug, "b.rs", 2, "n");
    let s1 = db.start_scan(Some("abc"), 100);
    assert_eq!(s1, 1);
    db.upsert_todos(&vec![x.clone(), y.clone()], s1);
    assert_eq!(db.mark_resolved(s1), 0);
    let s2 = db.start_scan(None, 200);
    assert_eq!(s2, 2);
    db.upsert_todos(&vec![y.clone()], s2);
    assert_eq!(db.mark_resolved(s2), 1);
    let row = db.markers().iter().find(|m| m.id == "x").unwrap();
    assert_eq!(row.resolved_at, Some(2));
    assert_eq!(row.last_seen, 1);
    // resolving again at the same scan changes nothing
    assert_eq!(db.mark_resolved(s2), 0);
    let s3 = db.start_scan(None, 300);
    let mut moved = x.clone();
    moved.line = 7;
    db.upsert_todos(&vec![moved, y], s3);
    let row = db.markers().iter().find(|m| m.id == "x").unwrap();
    assert_eq!(row.resolved_at, None);
    assert_eq!(row.last_seen, 3);
    assert_eq!(row.first_seen, 1);
    assert_eq!(row.line, 7);
    assert_eq!(db.active_count(), 2);
    assert_eq!(db.markers().len(), 2);
}

#[test]
fn scan_records() {
    let mut db = Database::open_in_memory();
    let s = db.start_scan(Some("deadbeef"), 10);
    db.finish_scan(s, 3, 4, 20);
    db.finish_scan(99, 1, 1, 30);
    let rec = &db.scans()[0];
    assert_eq!(rec.id, 1);
    assert_eq!(rec.started_at, 10);
    assert_eq!(rec.finished_at, Some(20));
    assert_eq!(rec.commit_hash.as_deref(), Some("deadbeef"));
    assert_eq!(rec.total_files, Some(3));
    assert_eq!(rec.total_todos, Some(4));
    assert_eq!(db.scan_count(), 1);
}

#[test]
fn rebuild_from_parts() {
    let mut db = Database::open_in_memory();
    let s = db.start_scan(None, 1);
    db.upsert_todos(&vec![make_item("a", TodoTag::Todo, "f", 1, "m")], s);
    let again = Database::from_parts(db.scans().clone(), db.markers().clone()).unwrap();
    assert_eq!(again.active_count(), 1);
    let mut dup = db.markers().clone();
    dup.push(db.markers()[0].clone());
    assert!(Database::from_parts(db.scans().clone(), dup).is_none());
    let mut bad = db.scans().clone();
    bad[0].id = 5;
    assert!(Database::from_parts(bad, Vec::new()).is_none());
}
