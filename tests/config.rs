use todo_tracker::cli::{Cli, Format};
use todo_tracker::config::{ColorMode, Config, OutputFormat};

#[test]
fn defaults() {
    let c = Config::default();
    assert_eq!(c.tags, vec!["TODO", "FIXME", "HACK", "XXX", "BUG"]);
    assert_eq!(c.exclude, vec!["vendor/**", "node_modules/**", "*.generated.*", "*.pb.go", "*.min.js"]);
    assert_eq!(c.stale_days, 90);
    assert_eq!(c.includes, None);
    assert_eq!(c.ticket_pattern, "[A-Z]{2,10}-\\d+");
    assert_eq!(c.output.format, OutputFormat::Table);
    assert_eq!(c.output.color, ColorMode::Auto);
    assert!(c.output.relative_paths);
    assert_eq!(c.storage.db_path, ".todo-cache/todos.db");
    assert_eq!(c.storage.cache_path, ".todo-cache/");
    assert!(!c.ci.fail_on_fixme);
    assert_eq!(c.repo_root, None);
}

#[test]
fn layering() {
    let mut user = Config::default();
    user.tags = vec!["TODO".into()];
    user.custom_tags = vec!["REVIEW".into()];
    user.stale_days = 30;
    let mut project = Config::default();
    project.custom_tags = vec!["AUDIT".into()];
    project.includes = Some(vec!["src".into()]);
    project.stale_days = 90;
    let c = Config::load("/repo", Some(user), Some(project));
    assert_eq!(c.repo_root.as_deref(), Some("/repo"));
    assert_eq!(c.tags, vec!["TODO"]);
    assert_eq!(c.custom_tags, vec!["REVIEW", "AUDIT"]);
    assert_eq!(c.stale_days, 30);
    assert_eq!(c.includes, Some(vec!["src".to_string()]));
    assert_eq!(c.exclude, Config::default().exclude);
    let plain = Config::load("/r", None, None);
    assert_eq!(plain.tags, Config::default().tags);
}

#[test]
fn command_line_overrides() {
    let mut cli = Cli {
        command: None,
        paths: Vec::new(),
        format: Some(Format::Csv),
        no_color: true,
        color: false,
        porcelain: false,
        quiet: false,
    };
    let mut c = Config::default();
    cli.apply_to(&mut c);
    assert_eq!(c.output.format, OutputFormat::Csv);
    assert_eq!(c.output.color, ColorMode::Never);
    cli.porcelain = true;
    cli.color = true;
    cli.apply_to(&mut c);
    assert_eq!(c.output.format, OutputFormat::Json);
    assert_eq!(c.output.color, ColorMode::Always);
    assert_eq!(OutputFormat::from(Format::Sarif), OutputFormat::Sarif);
}
