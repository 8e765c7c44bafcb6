use todo_tracker::config::Config;
use todo_tracker::walker::{glob_match, should_scan};

#[test]
fn glob_match_extension() {
    assert!(glob_match("*.min.js", "dist/bundle.min.js"));
    assert!(!glob_match("*.min.js", "src/app.js"));
}

#[test]
fn glob_match_double_star() {
    assert!(glob_match("vendor/**", "/repo/vendor/lib/foo.rs"));
    assert!(!glob_match("vendor/**", "/repo/src/main.rs"));
}

#[test]
fn glob_match_other_forms() {
    assert!(glob_match("**", "anything"));
    // the part after `**` is matched literally as a suffix
    assert!(!glob_match("**/*.rs", "src/main.rs"));
    assert!(glob_match("**/main.rs", "src/main.rs"));
    assert!(glob_match("src/**/main.rs", "/x/src/a/main.rs"));
    assert!(!glob_match("src/**/main.rs", "/x/lib/a/main.rs"));
    assert!(glob_match("generated", "a/generated/b.rs"));
    assert!(!glob_match("generated", "a/gen/b.rs"));
    // two double stars fall back to a substring match of the whole pattern
    assert!(!glob_match("a/**/b/**", "a/x/b/y"));
    assert!(glob_match("a/**/b/**", "a/**/b/**"));
}

#[test]
fn scan_selection() {
    let mut config = Config::default();
    assert!(!should_scan("/repo/vendor/x.rs", &config));
    assert!(!should_scan("web/app.min.js", &config));
    assert!(should_scan("/repo/src/main.rs", &config));
    config.includes = Some(vec!["*.py".to_string()]);
    assert!(!should_scan("/repo/src/main.rs", &config));
    assert!(should_scan("/repo/src/main.py", &config));
    config.includes = Some(Vec::new());
    assert!(should_scan("/repo/src/main.rs", &config));
}
