use todo_tracker::comment::CommentSyntax;

#[test]
fn rust_syntax() {
    let syntax = CommentSyntax::for_extension("rs");
    assert_eq!(syntax.line_comment, vec!["//",]);
    assert_eq!(syntax.block_comment, vec![("/*", "*/")]);
}

#[test]
fn python_syntax() {
    let syntax = CommentSyntax::for_extension("py");
    assert_eq!(syntax.line_comment, vec!["#"]);
    assert!(syntax.block_comment.is_empty());
}

#[test]
fn unknown_extension_uses_fallback() {
    let syntax = CommentSyntax::for_extension("obscurelang");
    assert!(!syntax.line_comment.is_empty());
}

#[test]
fn fallback_delimiters() {
    let syntax = CommentSyntax::for_extension("obscurelang");
    assert_eq!(syntax.line_comment, vec!["//", "#", "--"]);
    assert_eq!(syntax.block_comment, vec![("/*", "*/")]);
}

#[test]
fn other_families() {
    assert_eq!(CommentSyntax::for_extension("html").line_comment.len(), 0);
    assert_eq!(CommentSyntax::for_extension("html").block_comment, vec![("<!--", "-->")]);
    assert_eq!(CommentSyntax::for_extension("hs").block_comment, vec![("{-", "-}")]);
    assert_eq!(CommentSyntax::for_extension("lua").block_comment, vec![("--[[", "]]")]);
    assert_eq!(CommentSyntax::for_extension("bat").line_comment, vec!["REM", "::"]);
    assert_eq!(CommentSyntax::for_extension("vim").line_comment, vec!["\""]);
    assert_eq!(CommentSyntax::for_extension("Makefile").line_comment, vec!["#"]);
    assert_eq!(CommentSyntax::for_extension("ps1").block_comment, vec![("<#", "#>")]);
    // extensions are case-sensitive
    assert_eq!(CommentSyntax::for_extension("RS").line_comment, vec!["//", "#", "--"]);
}

#[test]
fn line_comment_prefixes() {
    let syntax = CommentSyntax::for_extension("rs");
    assert!(syntax.is_line_comment("// hello"));
    assert!(!syntax.is_line_comment("# hello"));
    assert!(!syntax.is_line_comment(""));
    let batch = CommentSyntax::for_extension("cmd");
    assert!(batch.is_line_comment(":: note"));
}
