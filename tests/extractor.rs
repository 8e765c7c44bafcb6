use todo_tracker::comment::CommentSyntax;
use todo_tracker::extractor::{extract_todos, parse_metadata};
use todo_tracker::order::merge_batches;
use todo_tracker::priority::Priority;
use std::path::PathBuf;
use todo_tracker::todo::{TodoItem, TodoTag};

const SAMPLE: &str = "// Sample Rust file for testing TODO extraction.

fn main() {
    // TODO: implement main logic
    println!(\"hello\");

    // FIXME(JIRA-1234): null pointer when list is empty
    let items: Vec<String> = Vec::new();

    // HACK: workaround for upstream bug
    let _result = items.len() + 1;

    // NOTE: order matters here, see RFC-2119
    process(&items);

    // TODO(rerickso, P1): add error handling for network calls
    fetch_data();
}

fn process(_items: &[String]) {
    // XXX: this is O(n^2), needs optimization
}

fn fetch_data() {
    // BUG: timeout not respected when server is unreachable
    // SAFETY: pointer is valid for the lifetime of the struct
}
";

#[test]
fn extracts_simple_todo() {
    let content = "// TODO: fix this bug\n";
    let syntax = CommentSyntax::for_extension("rs");
    let items = extract_todos("test.rs", content, &syntax);
    assert_eq!(items.len(), 1);
    assert_eq!(items[0].tag, TodoTag::Todo);
    assert_eq!(items[0].message, "fix this bug");
    assert_eq!(items[0].line, 1);
}

#[test]
fn extracts_todo_with_author() {
    let content = "# TODO(rerickso): refactor this\n";
    let syntax = CommentSyntax::for_extension("py");
    let items = extract_todos("test.py", content, &syntax);
    assert_eq!(items.len(), 1);
    assert_eq!(items[0].metadata.author.as_deref(), Some("rerickso"));
}

#[test]
fn extracts_todo_with_ticket() {
    let content = "// FIXME(JIRA-1234): null pointer on empty list\n";
    let syntax = CommentSyntax::for_extension("rs");
    let items = extract_todos("test.rs", content, &syntax);
    assert_eq!(items.len(), 1);
    assert_eq!(items[0].tag, TodoTag::Fixme);
    assert!(items[0].metadata.tickets.contains(&"JIRA-1234".to_string()));
}

#[test]
fn extracts_multiple_tags() {
    let content = "// TODO: first\n// FIXME: second\n// HACK: third\n";
    let syntax = CommentSyntax::for_extension("rs");
    let items = extract_todos("test.rs", content, &syntax);
    assert_eq!(items.len(), 3);
    assert_eq!(items[0].tag, TodoTag::Todo);
    assert_eq!(items[1].tag, TodoTag::Fixme);
    assert_eq!(items[2].tag, TodoTag::Hack);
}

#[test]
fn skips_lines_without_tags() {
    let content = "fn main() {\n    println!(\"hello\");\n}\n";
    let syntax = CommentSyntax::for_extension("rs");
    let items = extract_todos("test.rs", content, &syntax);
    assert!(items.is_empty());
}

#[test]
fn extracts_priority() {
    let content = "// TODO(P0, rerickso): critical fix needed\n";
    let syntax = CommentSyntax::for_extension("rs");
    let items = extract_todos("test.rs", content, &syntax);
    assert_eq!(items.len(), 1);
    assert_eq!(items[0].metadata.priority, Some(Priority::Critical));
    assert_eq!(items[0].metadata.author.as_deref(), Some("rerickso"));
}

#[test]
fn scan_fixtures_directory() {
    let syntax = CommentSyntax::for_extension("rs");
    let batch = extract_todos("sample.rs", SAMPLE, &syntax);
    let items = merge_batches(vec![batch]);
    assert!(!items.is_empty(), "should find TODOs in fixtures");
    let mut tags: Vec<TodoTag> = Vec::new();
    for it in &items {
        if !tags.contains(&it.tag) {
            tags.push(it.tag);
        }
    }
    assert!(tags.len() > 1, "should find multiple tag types");
    for w in items.windows(2) {
        assert!(
            (PathBuf::from(&w[0].file), w[0].line) <= (PathBuf::from(&w[1].file), w[1].line),
            "items should be sorted by file then line"
        );
    }
}

#[test]
fn fixture_items_in_detail() {
    let syntax = CommentSyntax::for_extension("rs");
    let items = extract_todos("sample.rs", SAMPLE, &syntax);
    let got: Vec<(TodoTag, u32, &str)> =
        items.iter().map(|i| (i.tag, i.line, i.message.as_str())).collect();
    assert_eq!(
        got,
        vec![
            (TodoTag::Todo, 1, "extraction."),
            (TodoTag::Todo, 4, "implement main logic"),
            (TodoTag::Fixme, 7, "null pointer when list is empty"),
            (TodoTag::Hack, 10, "workaround for upstream bug"),
            (TodoTag::Note, 13, "order matters here, see RFC-2119"),
            (TodoTag::Todo, 16, "add error handling for network calls"),
            (TodoTag::Xxx, 21, "this is O(n^2), needs optimization"),
            (TodoTag::Bug, 25, "timeout not respected when server is unreachable"),
            (TodoTag::Safety, 26, "pointer is valid for the lifetime of the struct"),
        ]
    );
    assert_eq!(items[5].metadata.priority, Some(Priority::High));
    assert_eq!(items[5].metadata.author.as_deref(), Some("rerickso"));
    assert_eq!(items[4].metadata.tickets, vec!["RFC-2119".to_string()]);
    assert_eq!(items[1].column, 7);
}

#[test]
fn grammar_edge_cases() {
    let syntax = CommentSyntax::for_extension("rs");
    let one = |s: &str| -> Vec<TodoItem> { extract_todos("x.rs", s, &syntax) };
    // a closed group is metadata even when nothing follows it
    let r = one("TODO(x)");
    assert_eq!(r.len(), 1);
    assert_eq!(r[0].message, "");
    assert_eq!(r[0].metadata.author.as_deref(), Some("x"));
    // the separator is consumed and trailing whitespace dropped: the message is empty
    assert_eq!(one("TODO:")[0].message, "");
    assert_eq!(one("TODO:   ")[0].message, "");
    assert_eq!(one("TODO ")[0].message, "");
    let r = one("TODO");
    assert_eq!(r.len(), 1);
    assert_eq!(r[0].message, "");
    assert_eq!(one("TODO: spaced out \t ")[0].message, "spaced out");
    // no word boundary: no marker
    assert!(one("xTODO: a").is_empty());
    assert!(one("TODOS: a").is_empty());
    assert!(one("todo: lowercase").is_empty());
    // the leftmost marker wins
    let r = one("// NOTE: see TODO: later");
    assert_eq!(r[0].tag, TodoTag::Note);
    assert_eq!(r[0].message, "see TODO: later");
    // other separators and a bracketed reference
    assert_eq!(one("HACK > gt")[0].message, "gt");
    assert_eq!(one("BUG - dash")[0].message, "dash");
    let r = one("OPTIMIZE[GH-12]: speed");
    assert_eq!(r[0].message, "speed");
    assert_eq!(r[0].metadata.tickets, vec!["GH-12".to_string()]);
    // carriage returns before newlines are dropped
    let r = one("a\r\n// TODO: x\r\n");
    assert_eq!(r[0].line, 2);
    assert_eq!(r[0].message, "x");
}

#[test]
fn column_is_a_byte_offset() {
    let syntax = CommentSyntax::for_extension("rs");
    let r = extract_todos("x.rs", "\u{e9} // TODO: x", &syntax);
    assert_eq!(r[0].column, 6);
}

#[test]
fn metadata_rules() {
    let m = parse_metadata("@alice, bob", "", "msg");
    assert_eq!(m.author.as_deref(), Some("alice"));
    let m = parse_metadata("bob, @@carol", "", "msg");
    assert_eq!(m.author.as_deref(), Some("carol"));
    let m = parse_metadata("low, HIGH", "", "msg");
    assert_eq!(m.priority, Some(Priority::High));
    let m = parse_metadata("urgent", "", "msg");
    assert_eq!(m.priority, Some(Priority::Critical));
    let m = parse_metadata("", "", "ABCDEFGHIJK-12 and AB-1, A-1");
    assert_eq!(m.tickets, vec!["BCDEFGHIJK-12".to_string(), "AB-1".to_string()]);
    let m = parse_metadata("JIRA-1", "GH-2", "see OPS-3");
    assert_eq!(m.tickets, vec!["JIRA-1".to_string(), "GH-2".to_string(), "OPS-3".to_string()]);
    assert_eq!(m.author, None);
    let m = parse_metadata("", "", "");
    assert!(m.tickets.is_empty());
    assert_eq!(m.priority, None);
    assert_eq!(m.author, None);
}

#[test]
fn duplicate_markers_get_distinct_ids() {
    let syntax = CommentSyntax::for_extension("rs");
    let r = extract_todos("d.rs", "// TODO: same\n// TODO: same\n// FIXME: same\n", &syntax);
    assert_eq!(r.len(), 3);
    assert_ne!(r[0].id, r[1].id);
    assert_eq!(r[0].id, TodoItem::generate_id("d.rs", &TodoTag::Todo, "same", 0));
    assert_eq!(r[1].id, TodoItem::generate_id("d.rs", &TodoTag::Todo, "same", 1));
    assert_eq!(r[2].id, TodoItem::generate_id("d.rs", &TodoTag::Fixme, "same", 0));
    assert_eq!(r[0].id.len(), 16);
}

#[test]
fn ids_survive_inserted_lines() {
    let syntax = CommentSyntax::for_extension("rs");
    let before = extract_todos("m.rs", "// TODO: keep me\nfn f() {}\n", &syntax);
    let after = extract_todos("m.rs", "use a;\n\nuse b;\n// TODO: keep me\nfn f() {}\n", &syntax);
    assert_eq!(before.len(), 1);
    assert_eq!(after.len(), 1);
    assert_eq!(before[0].line, 1);
    assert_eq!(after[0].line, 4);
    assert_eq!(before[0].id, after[0].id);
}

#[test]
fn scanning_twice_is_identical() {
    let syntax = CommentSyntax::for_extension("rs");
    let a = || extract_todos("b.rs", "// TODO: one\n// FIXME: two\n", &syntax);
    let b = || extract_todos("a.rs", "x\n// HACK: three\n", &syntax);
    let first = merge_batches(vec![a(), b()]);
    let second = merge_batches(vec![b(), a()]);
    let key = |v: &Vec<TodoItem>| -> Vec<(String, String, u32)> {
        v.iter().map(|i| (i.id.clone(), i.file.clone(), i.line)).collect()
    };
    assert_eq!(key(&first), key(&second));
    assert_eq!(first[0].file, "a.rs");
    assert_eq!(first[1].line, 1);
    assert_eq!(first[2].line, 2);
}

#[test]
fn merge_orders_by_file_then_line() {
    let syntax = CommentSyntax::for_extension("rs");
    let z = extract_todos("z/b.rs", "\n\n// TODO: late\n", &syntax);
    let y = extract_todos("z-a.rs", "// TODO: early\n", &syntax);
    let m = merge_batches(vec![z, y]);
    // paths compare component by component: `z` comes before `z-a.rs`
    assert_eq!(m[0].file, "z/b.rs");
    assert_eq!(m[1].file, "z-a.rs");
    let dot = extract_todos("a.b", "// TODO: dot\n", &syntax);
    let dir = extract_todos("a/b", "// TODO: dir\n", &syntax);
    let m = merge_batches(vec![dot, dir]);
    assert_eq!(m[0].file, "a/b");
    assert_eq!(m[1].file, "a.b");
    assert!(merge_batches(Vec::new()).is_empty());
}

#[test]
fn unicode_word_and_digit_classes() {
    let syntax = CommentSyntax::for_extension("rs");
    // a letter outside ASCII is a word character, so there is no boundary before the tag
    assert!(extract_todos("u.rs", "\u{e9}TODO: x", &syntax).is_empty());
    assert_eq!(extract_todos("u.rs", "\u{2014}TODO: x", &syntax).len(), 1);
    // digits outside ASCII count in ticket references
    let m = parse_metadata("", "", "see AB-\u{663}\u{664} now");
    assert_eq!(m.tickets, vec!["AB-\u{663}\u{664}".to_string()]);
    let m = parse_metadata("", "", "see AB-\u{b2}");
    assert!(m.tickets.is_empty());
}
