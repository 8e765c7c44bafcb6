//! The resolved configuration that a scan consumes, and its layering.
use vstd::prelude::*;

use crate::text::same_text;

verus! {

/// Top-level configuration, with defaults for all fields.
#[derive(Debug, Clone)]
pub struct Config {
    /// Tags to scan for.
    pub tags: Vec<String>,
    /// Additional custom tags beyond the built-in set.
    pub custom_tags: Vec<String>,
    /// Path patterns to exclude (in addition to ignore files).
    pub exclude: Vec<String>,
    /// If set, only paths matching one of these patterns are scanned.
    pub includes: Option<Vec<String>>,
    /// Days before a marker is considered stale.
    pub stale_days: u32,
    /// Pattern describing ticket references.
    pub ticket_pattern: String,
    /// Output configuration.
    pub output: OutputConfig,
    /// Storage configuration.
    pub storage: StorageConfig,
    /// CI policy configuration.
    pub ci: CiConfig,
    /// Repository root, set at run time rather than read from a file.
    pub repo_root: Option<String>,
}

/// Output formatting configuration.
#[derive(Debug, Clone, Copy, PartialEq, Eq, Structural)]
pub struct OutputConfig {
    /// Default output format.
    pub format: OutputFormat,
    /// Color mode.
    pub color: ColorMode,
    /// Lines of context around each marker.
    pub context_lines: u32,
    /// Include attribution (slower).
    pub show_blame: bool,
    /// Use paths relative to the repository root.
    pub relative_paths: bool,
}

/// Available output formats.
#[derive(Debug, Clone, Copy, PartialEq, Eq, Structural)]
pub enum OutputFormat {
    /// Table format.
    Table,
    /// JSON format.
    Json,
    /// CSV format.
    Csv,
    /// Markdown format.
    Markdown,
    /// SARIF format.
    Sarif,
    /// Count only.
    Count,
}

/// Color output mode.
#[derive(Debug, Clone, Copy, PartialEq, Eq, Structural)]
pub enum ColorMode {
    /// Auto-detect terminal support.
    Auto,
    /// Always output colors.
    Always,
    /// Never output colors.
    Never,
}

/// Storage configuration.
#[derive(Debug, Clone)]
pub struct StorageConfig {
    /// Path to the lifecycle database.
    pub db_path: String,
    /// Path to the cache directory.
    pub cache_path: String,
}

/// CI policy configuration.
#[derive(Debug, Clone, Copy, PartialEq, Eq, Structural)]
pub struct CiConfig {
    /// Fail if any stale markers exist.
    pub fail_on_stale: bool,
    /// Fail if any FIXMEs exist.
    pub fail_on_fixme: bool,
    /// Maximum total markers allowed (0 = no limit).
    pub max_todos: u32,
    /// Maximum stale markers allowed (0 = no limit).
    pub max_stale: u32,
}

/// A configuration with its texts seen as character sequences.
pub struct ConfigView {
    pub tags: Seq<Seq<char>>,
    pub custom_tags: Seq<Seq<char>>,
    pub exclude: Seq<Seq<char>>,
    pub includes: Option<Seq<Seq<char>>>,
    pub stale_days: u32,
    pub ticket_pattern: Seq<char>,
    pub output: OutputConfig,
    pub db_path: Seq<char>,
    pub cache_path: Seq<char>,
    pub ci: CiConfig,
    pub repo_root: Option<Seq<char>>,
}

pub open spec fn texts(v: Vec<String>) -> Seq<Seq<char>> {
    v@.map_values(|s: String| s@)
}

pub open spec fn opt_texts(o: Option<Vec<String>>) -> Option<Seq<Seq<char>>> {
    match o {
        Some(v) => Some(texts(v)),
        None => None,
    }
}

pub open spec fn opt_text(o: Option<String>) -> Option<Seq<char>> {
    match o {
        Some(s) => Some(s@),
        None => None,
    }
}

pub open spec fn config_view(c: Config) -> ConfigView {
    ConfigView {
        tags: texts(c.tags),
        custom_tags: texts(c.custom_tags),
        exclude: texts(c.exclude),
        includes: opt_texts(c.includes),
        stale_days: c.stale_days,
        ticket_pattern: c.ticket_pattern@,
        output: c.output,
        db_path: c.storage.db_path@,
        cache_path: c.storage.cache_path@,
        ci: c.ci,
        repo_root: opt_text(c.repo_root),
    }
}

pub open spec fn default_tags() -> Seq<Seq<char>> {
    seq!["TODO"@, "FIXME"@, "HACK"@, "XXX"@, "BUG"@]
}

pub open spec fn default_excludes() -> Seq<Seq<char>> {
    seq!["vendor/**"@, "node_modules/**"@, "*.generated.*"@, "*.pb.go"@, "*.min.js"@]
}

pub open spec fn default_output() -> OutputConfig {
    OutputConfig {
        format: OutputFormat::Table,
        color: ColorMode::Auto,
        context_lines: 0,
        show_blame: false,
        relative_paths: true,
    }
}

pub open spec fn default_ci() -> CiConfig {
    CiConfig { fail_on_stale: false, fail_on_fixme: false, max_todos: 0, max_stale: 0 }
}

/// The built-in configuration.
pub open spec fn default_view() -> ConfigView {
    ConfigView {
        tags: default_tags(),
        custom_tags: seq![],
        exclude: default_excludes(),
        includes: None,
        stale_days: 90,
        ticket_pattern: "[A-Z]{2,10}-\\d+"@,
        output: default_output(),
        db_path: ".todo-cache/todos.db"@,
        cache_path: ".todo-cache/"@,
        ci: default_ci(),
        repo_root: None,
    }
}

/// `b` layered over `a`: tags, excludes and stale days are taken from `b` where they
/// differ from the built-in values, custom tags accumulate, and `b`'s inclusion list
/// replaces `a`'s when it is set. Everything else stays as in `a`.
pub open spec fn merge_view(a: ConfigView, b: ConfigView) -> ConfigView {
    ConfigView {
        tags: if b.tags != default_tags() { b.tags } else { a.tags },
        custom_tags: a.custom_tags + b.custom_tags,
        exclude: if b.exclude != default_excludes() { b.exclude } else { a.exclude },
        includes: if b.includes is Some { b.includes } else { a.includes },
        stale_days: if b.stale_days != 90 { b.stale_days } else { a.stale_days },
        ..a
    }
}

fn owned_list(items: &Vec<&'static str>) -> (r: Vec<String>)
    ensures
        texts(r) == items@.map_values(|s: &'static str| s@),
{
    let mut out: Vec<String> = Vec::new();
    let mut i: usize = 0;
    while i < items.len()
        invariant
            0 <= i <= items@.len(),
            out@.len() == i,
            forall|j: int| 0 <= j < i ==> #[trigger] out@[j]@ == items@[j]@,
        decreases items@.len() - i,
    {
        out.push(items[i].to_owned());
        i = i + 1;
    }
    assert(texts(out) =~= items@.map_values(|s: &'static str| s@));
    out
}

/// Whether two lists hold the same texts.
pub fn same_texts(a: &Vec<String>, b: &Vec<String>) -> (r: bool)
    ensures
        r == (texts(*a) == texts(*b)),
{
    if a.len() != b.len() {
        assert(texts(*a).len() != texts(*b).len());
        return false;
    }
    let mut i: usize = 0;
    while i < a.len()
        invariant
            a@.len() == b@.len(),
            0 <= i <= a@.len(),
            forall|j: int| 0 <= j < i ==> #[trigger] a@[j]@ == b@[j]@,
        decreases a@.len() - i,
    {
        if !same_text(a[i].as_str(), b[i].as_str()) {
            assert(texts(*a)[i as int] != texts(*b)[i as int]);
            return false;
        }
        i = i + 1;
    }
    assert(texts(*a) =~= texts(*b));
    true
}

fn default_tag_list() -> (r: Vec<String>)
    ensures
        texts(r) == default_tags(),
{
    let v = vec!["TODO", "FIXME", "HACK", "XXX", "BUG"];
    let r = owned_list(&v);
    assert(v@.map_values(|s: &'static str| s@) =~= default_tags());
    r
}

fn default_exclude_list() -> (r: Vec<String>)
    ensures
        texts(r) == default_excludes(),
{
    let v = vec!["vendor/**", "node_modules/**", "*.generated.*", "*.pb.go", "*.min.js"];
    let r = owned_list(&v);
    assert(v@.map_values(|s: &'static str| s@) =~= default_excludes());
    r
}

impl Default for OutputConfig {
    fn default() -> (r: Self)
        ensures
            r == default_output(),
    {
        OutputConfig {
            format: OutputFormat::Table,
            color: ColorMode::Auto,
            context_lines: 0,
            show_blame: false,
            relative_paths: true,
        }
    }
}

impl Default for StorageConfig {
    fn default() -> (r: Self)
        ensures
            r.db_path@ == ".todo-cache/todos.db"@,
            r.cache_path@ == ".todo-cache/"@,
    {
        StorageConfig {
            db_path: ".todo-cache/todos.db".to_owned(),
            cache_path: ".todo-cache/".to_owned(),
        }
    }
}

impl Default for CiConfig {
    fn default() -> (r: Self)
        ensures
            r == default_ci(),
    {
        CiConfig { fail_on_stale: false, fail_on_fixme: false, max_todos: 0, max_stale: 0 }
    }
}

impl Default for Config {
    fn default() -> (r: Self)
        ensures
            config_view(r) == default_view(),
    {
        let r = Config {
            tags: default_tag_list(),
            custom_tags: Vec::new(),
            exclude: default_exclude_list(),
            includes: None,
            stale_days: 90,
            ticket_pattern: "[A-Z]{2,10}-\\d+".to_owned(),
            output: OutputConfig::default(),
            storage: StorageConfig::default(),
            ci: CiConfig::default(),
            repo_root: None,
        };
        assert(texts(r.custom_tags) =~= Seq::<Seq<char>>::empty());
        r
    }
}

impl Config {
    /// Layers `other` over this configuration (see `merge_view`).
    pub fn merge(&mut self, other: Config)
        ensures
            config_view(*final(self)) == merge_view(config_view(*old(self)), config_view(other)),
    {
        let mut other = other;
        let tags = default_tag_list();
        if !same_texts(&other.tags, &tags) {
            self.tags = other.tags;
        }
        let ghost c0 = texts(self.custom_tags);
        let ghost c1 = texts(other.custom_tags);
        let mut extra = other.custom_tags;
        let ghost e0 = extra@;
        self.custom_tags.append(&mut extra);
        assert(texts(self.custom_tags) =~= c0 + c1);
        let excludes = default_exclude_list();
        if !same_texts(&other.exclude, &excludes) {
            self.exclude = other.exclude;
        }
        if other.includes.is_some() {
            self.includes = other.includes;
        }
        if other.stale_days != 90 {
            self.stale_days = other.stale_days;
        }
    }

    /// Resolves the configuration for a repository root with layered precedence:
    /// built-in defaults, then the user-level file's values, then the project-level
    /// file's values (each given when the file exists).
    pub fn load(repo_root: &str, user: Option<Config>, project: Option<Config>) -> (r: Config)
        ensures
            config_view(r) == ({
                let base = ConfigView { repo_root: Some(repo_root@), ..default_view() };
                let mid = match user {
                    Some(u) => merge_view(base, config_view(u)),
                    None => base,
                };
                match project {
                    Some(p) => merge_view(mid, config_view(p)),
                    None => mid,
                }
            }),
    {
        let mut config = Config::default();
        config.repo_root = Some(repo_root.to_owned());
        if let Some(u) = user {
            config.merge(u);
        }
        if let Some(p) = project {
            config.merge(p);
        }
        config
    }
}

} // verus!
