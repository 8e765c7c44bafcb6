//! The command line as plain values, and how its flags override the configuration.
use vstd::prelude::*;

use crate::config::{config_view, ColorMode, Config, OutputFormat};

verus! {

/// Top-level command line: global flags and an optional subcommand.
#[derive(Debug, Clone)]
pub struct Cli {
    /// Subcommand to execute (listing when absent).
    pub command: Option<Command>,
    /// Paths to scan.
    pub paths: Vec<String>,
    /// Output format.
    pub format: Option<Format>,
    /// Disable color output.
    pub no_color: bool,
    /// Force color output.
    pub color: bool,
    /// Machine-readable output.
    pub porcelain: bool,
    /// Print only the number of items.
    pub quiet: bool,
}

/// Subcommands.
#[derive(Debug, Clone)]
pub enum Command {
    /// List markers.
    List {
        severity: Vec<String>,
        author: Option<String>,
        file: Option<String>,
        lang: Option<String>,
        stale: Option<u32>,
        since: Option<String>,
        diff: Option<String>,
        branch: bool,
        mine: bool,
    },
    /// Summary statistics.
    Stats { compare: Option<String>, diff: Option<String> },
    /// Attribution of markers.
    Blame { stale: Option<u32>, author: Option<String> },
    /// CI policy checks.
    Check { staged: bool, diff: Option<String> },
    /// Write a configuration file.
    Init { force: bool },
}

/// Output formats selectable on the command line.
#[derive(Debug, Clone, Copy, PartialEq, Eq, Structural)]
pub enum Format {
    Table,
    Json,
    Csv,
    Markdown,
    Sarif,
    Count,
}

pub open spec fn output_format_of(f: Format) -> OutputFormat {
    match f {
        Format::Table => OutputFormat::Table,
        Format::Json => OutputFormat::Json,
        Format::Csv => OutputFormat::Csv,
        Format::Markdown => OutputFormat::Markdown,
        Format::Sarif => OutputFormat::Sarif,
        Format::Count => OutputFormat::Count,
    }
}

impl From<Format> for OutputFormat {
    fn from(f: Format) -> (r: OutputFormat) {
        match f {
            Format::Table => OutputFormat::Table,
            Format::Json => OutputFormat::Json,
            Format::Csv => OutputFormat::Csv,
            Format::Markdown => OutputFormat::Markdown,
            Format::Sarif => OutputFormat::Sarif,
            Format::Count => OutputFormat::Count,
        }
    }
}

impl vstd::std_specs::convert::FromSpecImpl<Format> for OutputFormat {
    open spec fn obeys_from_spec() -> bool {
        true
    }

    open spec fn from_spec(f: Format) -> OutputFormat {
        output_format_of(f)
    }
}

impl Cli {
    /// Applies the global flags to a configuration: `--porcelain` selects JSON over any
    /// `--format`, `--color` wins over `--no-color`; everything else is kept.
    pub fn apply_to(&self, config: &mut Config)
        ensures
            final(config).output.format == if self.porcelain {
                OutputFormat::Json
            } else if self.format is Some {
                output_format_of(self.format->0)
            } else {
                old(config).output.format
            },
            final(config).output.color == if self.color {
                ColorMode::Always
            } else if self.no_color {
                ColorMode::Never
            } else {
                old(config).output.color
            },
            final(config).output.context_lines == old(config).output.context_lines,
            final(config).output.show_blame == old(config).output.show_blame,
            final(config).output.relative_paths == old(config).output.relative_paths,
            config_view(*final(config)).tags == config_view(*old(config)).tags,
            config_view(*final(config)).exclude == config_view(*old(config)).exclude,
            config_view(*final(config)).includes == config_view(*old(config)).includes,
            config_view(*final(config)).ci == config_view(*old(config)).ci,
    {
        if let Some(f) = self.format {
            config.output.format = OutputFormat::from(f);
        }
        if self.porcelain {
            config.output.format = OutputFormat::Json;
        }
        if self.no_color {
            config.output.color = ColorMode::Never;
        }
        if self.color {
            config.output.color = ColorMode::Always;
        }
    }
}

} // verus!
