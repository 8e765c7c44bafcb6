use todo_tracker::blame::{
    apply_blame, blame_targets, parse_porcelain_blame, MAX_UTC_SECS, MIN_UTC_SECS,
};
use todo_tracker::todo::{BlameInfo, TodoItem, TodoMetadata, TodoTag};

fn item(file: &str, line: u32, author: Option<&str>) -> TodoItem {
    TodoItem {
        id: "i".to_string(),
        tag: TodoTag::Todo,
        file: file.to_string(),
        line,
        column: 0,
        message: "m".to_string(),
        metadata: TodoMetadata {
            author: author.map(|a| a.to_string()),
            date: None,
            tickets: Vec::new(),
            priority: None,
            blame: None,
        },
    }
}

const PORCELAIN: &str = "0123456789abcdef0123456789abcdef01234567 1 1 2
author Ada Lovelace
author-mail <ada@example.com>
author-time 1700000000
summary first
filename a.rs
\tfn main() {
0123456789abcdef0123456789abcdef01234567 2 2
\t    // TODO: x
fedcba9876543210fedcba9876543210fedcba98 3 3 1
author Bob
author-mail <<bob@example.com>>
author-time not-a-number
\t}
";

#[test]
fn parse_empty_blame() {
    let results = parse_porcelain_blame("");
    assert!(results.is_empty());
}

#[test]
fn parse_blocks() {
    let r = parse_porcelain_blame(PORCELAIN);
    assert_eq!(r.len(), 3);
    assert_eq!(r[0].author, "Ada Lovelace");
    assert_eq!(r[0].email, "ada@example.com");
    assert_eq!(r[0].commit, "0123456789abcdef0123456789abcdef01234567");
    assert_eq!(r[0].date, 1700000000);
    assert_eq!(r[1].author, "Ada Lovelace");
    assert_eq!(r[2].author, "Bob");
    assert_eq!(r[2].email, "bob@example.com");
    assert_eq!(r[2].commit, "fedcba9876543210fedcba9876543210fedcba98");
    assert_eq!(r[2].date, 0);
}

#[test]
fn out_of_range_time_becomes_epoch() {
    let out = "author-time 9223372036854775807\n\tx\nauthor-time -12\n\ty\n";
    let r = parse_porcelain_blame(out);
    assert_eq!(r[0].date, 0);
    assert_eq!(r[1].date, -12);
}

#[test]
fn attribution_is_attached() {
    let blame = vec![
        BlameInfo { author: "A".into(), email: "a@x".into(), commit: "c1".into(), date: 5 },
        BlameInfo { author: "B".into(), email: "b@x".into(), commit: "c2".into(), date: 6 },
    ];
    let mut items = vec![
        item("f.rs", 2, None),
        item("f.rs", 1, Some("me")),
        item("f.rs", 3, None),
        item("g.rs", 1, None),
        item("f.rs", 0, None),
    ];
    apply_blame(&mut items, "f.rs", &blame);
    assert_eq!(items[0].metadata.author.as_deref(), Some("B"));
    assert_eq!(items[0].metadata.blame.as_ref().unwrap().commit, "c2");
    assert_eq!(items[1].metadata.author.as_deref(), Some("me"));
    assert_eq!(items[1].metadata.blame.as_ref().unwrap().date, 5);
    assert!(items[2].metadata.blame.is_none());
    assert!(items[3].metadata.blame.is_none());
    assert_eq!(items[4].metadata.author.as_deref(), Some("A"));
}

#[test]
fn one_query_per_file() {
    let items = vec![item("b.rs", 1, None), item("a.rs", 2, None), item("b.rs", 3, None)];
    assert_eq!(blame_targets(&items), vec!["b.rs".to_string(), "a.rs".to_string()]);
}

#[test]
fn representable_range_bounds() {
    let out = format!(
        "author-time {}\n\tx\nauthor-time {}\n\ty\nauthor-time {}\n\tz\nauthor-time {}\n\tw\n",
        MAX_UTC_SECS,
        MAX_UTC_SECS + 1,
        MIN_UTC_SECS,
        MIN_UTC_SECS - 1
    );
    let r = parse_porcelain_blame(&out);
    assert_eq!(r[0].date, MAX_UTC_SECS);
    assert_eq!(r[1].date, 0);
    assert_eq!(r[2].date, MIN_UTC_SECS);
    assert_eq!(r[3].date, 0);
}
