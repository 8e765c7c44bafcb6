use todo_tracker::cache::{FileFingerprint, FileTime, ScanCache};
use todo_tracker::priority::Priority;
use todo_tracker::source::{decode_source, listed_paths};
use todo_tracker::todo::{TodoItem, TodoTag};

#[test]
fn priorities() {
    assert_eq!(Priority::parse("P0"), Some(Priority::Critical));
    assert_eq!(Priority::parse("Blocker"), Some(Priority::Critical));
    assert_eq!(Priority::parse("HIGH"), Some(Priority::High));
    assert_eq!(Priority::parse("p2"), Some(Priority::Medium));
    assert_eq!(Priority::parse("Low"), Some(Priority::Low));
    assert_eq!(Priority::parse("p4"), None);
    assert_eq!(Priority::parse(""), None);
    assert_eq!(Priority::from_lowercase("HIGH"), None);
    assert_eq!(Priority::Medium.as_str(), "medium");
}

#[test]
fn tags() {
    assert_eq!(TodoTag::parse("fixme"), Some(TodoTag::Fixme));
    assert_eq!(TodoTag::parse("Optimize"), Some(TodoTag::Optimize));
    assert_eq!(TodoTag::parse("later"), None);
    assert_eq!(TodoTag::from_uppercase("todo"), None);
    assert_eq!(TodoTag::Xxx.as_str(), "XXX");
    assert_eq!(TodoTag::Fixme.severity_rank(), 0);
    assert_eq!(TodoTag::Note.severity_rank(), 7);
}

#[test]
fn ids_are_stable_hex() {
    let a = TodoItem::generate_id("src/a.rs", &TodoTag::Todo, "msg", 0);
    let b = TodoItem::generate_id("src/a.rs", &TodoTag::Todo, "msg", 0);
    let c = TodoItem::generate_id("src/a.rs", &TodoTag::Todo, "msg", 1);
    let d = TodoItem::generate_id("src/a.rs", &TodoTag::Hack, "msg", 0);
    assert_eq!(a, b);
    assert_ne!(a, c);
    assert_ne!(a, d);
    assert_eq!(a.len(), 16);
    assert!(a.chars().all(|ch| ch.is_ascii_hexdigit()));
}

#[test]
fn fingerprints() {
    let t = FileTime { secs: 10, nanos: 5 };
    let f = FileFingerprint { path: "a".into(), mtime: t, size: 3 };
    let same = FileFingerprint { path: "a".into(), mtime: t, size: 3 };
    let touched = FileFingerprint { path: "a".into(), mtime: FileTime { secs: 10, nanos: 6 }, size: 3 };
    let grown = FileFingerprint { path: "a".into(), mtime: t, size: 4 };
    assert!(!f.is_stale(&same));
    assert!(f.is_stale(&touched));
    assert!(f.is_stale(&grown));
    let cache = ScanCache::new(".todo-cache/");
    assert_eq!(cache.cache_dir(), ".todo-cache/");
    assert!(cache.needs_rescan("x"));
}

#[test]
fn source_decoding() {
    assert_eq!(decode_source(&b"// TODO: x\n".to_vec()), "// TODO: x\n");
    assert_eq!(decode_source(&vec![b'a', 0, b'b']), "");
    assert_eq!(decode_source(&vec![b'a', 0xff]), "a\u{fffd}");
    let mut late = vec![b'a'; 9000];
    late[8500] = 0;
    assert_eq!(decode_source(&late).len(), 9000);
}

#[test]
fn tool_path_lists() {
    assert_eq!(listed_paths("a.rs\n\nb/c.rs\n"), vec!["a.rs".to_string(), "b/c.rs".to_string()]);
    assert!(listed_paths("").is_empty());
}
