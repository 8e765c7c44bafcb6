//! Priority levels that a marker's metadata may carry.
use vstd::prelude::*;

use crate::text::{lowercase_of, same_text, to_lower};

verus! {

/// Priority level for a marker.
#[derive(Debug, Clone, Copy, PartialEq, Eq, Structural, PartialOrd, Ord, Hash)]
pub enum Priority {
    /// Highest: keywords `p0`, `critical`, `urgent`, `blocker`.
    Critical,
    /// Keywords `p1`, `high`.
    High,
    /// Keywords `p2`, `medium`.
    Medium,
    /// Lowest: keywords `p3`, `low`.
    Low,
}

/// The priority that a lowercase keyword names, if any.
pub open spec fn priority_word(w: Seq<char>) -> Option<Priority> {
    if w == "p0"@ || w == "critical"@ || w == "urgent"@ || w == "blocker"@ {
        Some(Priority::Critical)
    } else if w == "p1"@ || w == "high"@ {
        Some(Priority::High)
    } else if w == "p2"@ || w == "medium"@ {
        Some(Priority::Medium)
    } else if w == "p3"@ || w == "low"@ {
        Some(Priority::Low)
    } else {
        None
    }
}

/// The lowercase name of a priority.
pub open spec fn priority_name(p: Priority) -> Seq<char> {
    match p {
        Priority::Critical => "critical"@,
        Priority::High => "high"@,
        Priority::Medium => "medium"@,
        Priority::Low => "low"@,
    }
}

impl Priority {
    /// Reads a keyword that is already lowercase: `p0`/`critical`/`urgent`/`blocker`,
    /// `p1`/`high`, `p2`/`medium`, `p3`/`low`.
    pub fn from_lowercase(w: &str) -> (r: Option<Priority>)
        ensures
            r == priority_word(w@),
    {
        if same_text(w, "p0") || same_text(w, "critical") || same_text(w, "urgent") || same_text(
            w,
            "blocker",
        ) {
            Some(Priority::Critical)
        } else if same_text(w, "p1") || same_text(w, "high") {
            Some(Priority::High)
        } else if same_text(w, "p2") || same_text(w, "medium") {
            Some(Priority::Medium)
        } else if same_text(w, "p3") || same_text(w, "low") {
            Some(Priority::Low)
        } else {
            None
        }
    }

    /// Parses a priority keyword, ignoring case.
    pub fn parse(s: &str) -> (r: Option<Priority>)
        ensures
            r == priority_word(lowercase_of(s@)),
    {
        let lower = to_lower(s);
        Self::from_lowercase(lower.as_str())
    }

    /// The priority as a lowercase word.
    pub fn as_str(&self) -> (r: &'static str)
        ensures
            r@ == priority_name(*self),
    {
        match self {
            Priority::Critical => "critical",
            Priority::High => "high",
            Priority::Medium => "medium",
            Priority::Low => "low",
        }
    }
}

} // verus!
