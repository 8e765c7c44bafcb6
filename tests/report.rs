use todo_tracker::report::{author_counts, filter_by_author, filter_by_tags, filter_stale, tag_counts};
use todo_tracker::todo::{BlameInfo, TodoItem, TodoMetadata, TodoTag};

fn item(tag: TodoTag, author: Option<&str>, date: Option<i64>) -> TodoItem {
    TodoItem {
        id: "i".to_string(),
        tag,
        file: "f.rs".to_string(),
        line: 1,
        column: 0,
        message: "m".to_string(),
        metadata: TodoMetadata {
            author: author.map(|a| a.to_string()),
            date: None,
            tickets: Vec::new(),
            priority: None,
            blame: date.map(|d| BlameInfo { author: "x".into(), email: "e".into(), commit: "c".into(), date: d }),
        },
    }
}

fn sample() -> Vec<TodoItem> {
    vec![
        item(TodoTag::Todo, Some("alice"), Some(0)),
        item(TodoTag::Fixme, Some("bob"), Some(86_400 * 10)),
        item(TodoTag::Todo, None, None),
        item(TodoTag::Bug, Some("malice"), Some(86_400 * 99)),
    ]
}

#[test]
fn by_tags() {
    let r = filter_by_tags(sample(), &vec!["todo".to_string(), "Bug".to_string()]);
    let tags: Vec<TodoTag> = r.iter().map(|i| i.tag).collect();
    assert_eq!(tags, vec![TodoTag::Todo, TodoTag::Todo, TodoTag::Bug]);
    assert_eq!(filter_by_tags(sample(), &Vec::new()).len(), 4);
}

#[test]
fn by_author() {
    let r = filter_by_author(sample(), &Some("lice".to_string()));
    let who: Vec<&str> = r.iter().map(|i| i.metadata.author.as_deref().unwrap()).collect();
    assert_eq!(who, vec!["alice", "malice"]);
    assert_eq!(filter_by_author(sample(), &None).len(), 4);
}

#[test]
fn by_age() {
    let now = 86_400 * 100;
    let r = filter_stale(sample(), Some(50), now);
    assert_eq!(r.len(), 2);
    assert_eq!(r[0].tag, TodoTag::Todo);
    assert_eq!(r[1].tag, TodoTag::Fixme);
    // exactly one day old is not older than one day
    let r = filter_stale(sample(), Some(1), 86_400 * 100);
    assert_eq!(r.len(), 2);
    let r = filter_stale(sample(), Some(0), 86_400 * 100 - 1);
    assert_eq!(r.len(), 2);
    assert_eq!(filter_stale(sample(), None, 0).len(), 4);
}

#[test]
fn counts_by_tag() {
    assert_eq!(
        tag_counts(&sample()),
        vec![(TodoTag::Bug, 1), (TodoTag::Fixme, 1), (TodoTag::Todo, 2)]
    );
    assert!(tag_counts(&Vec::new()).is_empty());
}

#[test]
fn counts_by_author() {
    let mut items = sample();
    items.push(item(TodoTag::Hack, Some("alice"), None));
    assert_eq!(
        author_counts(&items),
        vec![
            ("alice".to_string(), 2),
            ("bob".to_string(), 1),
            ("malice".to_string(), 1),
            ("unknown".to_string(), 1),
        ]
    );
    assert!(author_counts(&Vec::new()).is_empty());
}
