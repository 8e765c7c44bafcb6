//! Marker items, their tags and metadata.
use vstd::prelude::*;

use crate::priority::Priority;
use crate::text::{hex16, hex_fixed, is_lower_hex, lemma_hex_fixed, same_text, to_upper, uppercase_of};

verus! {

/// The tag of a marker comment.
#[derive(Debug, Clone, Copy, PartialEq, Eq, Structural, Hash)]
pub enum TodoTag {
    /// Standard TODO marker.
    Todo,
    /// Fix me marker for bugs.
    Fixme,
    /// Hack marker for temporary workarounds.
    Hack,
    /// XXX marker for attention needed.
    Xxx,
    /// Bug marker for known issues.
    Bug,
    /// Note marker for informational comments.
    Note,
    /// Optimize marker for performance improvements.
    Optimize,
    /// Safety marker for unsafe code concerns.
    Safety,
}

/// The uppercase word of a tag.
pub open spec fn tag_name(t: TodoTag) -> Seq<char> {
    match t {
        TodoTag::Todo => "TODO"@,
        TodoTag::Fixme => "FIXME"@,
        TodoTag::Hack => "HACK"@,
        TodoTag::Xxx => "XXX"@,
        TodoTag::Bug => "BUG"@,
        TodoTag::Note => "NOTE"@,
        TodoTag::Optimize => "OPTIMIZE"@,
        TodoTag::Safety => "SAFETY"@,
    }
}

/// The tag that an uppercase word names, if any.
pub open spec fn tag_word(w: Seq<char>) -> Option<TodoTag> {
    if w == "TODO"@ {
        Some(TodoTag::Todo)
    } else if w == "FIXME"@ {
        Some(TodoTag::Fixme)
    } else if w == "HACK"@ {
        Some(TodoTag::Hack)
    } else if w == "XXX"@ {
        Some(TodoTag::Xxx)
    } else if w == "BUG"@ {
        Some(TodoTag::Bug)
    } else if w == "NOTE"@ {
        Some(TodoTag::Note)
    } else if w == "OPTIMIZE"@ {
        Some(TodoTag::Optimize)
    } else if w == "SAFETY"@ {
        Some(TodoTag::Safety)
    } else {
        None
    }
}

/// Severity for sorting: lower is more severe.
pub open spec fn severity(t: TodoTag) -> u8 {
    match t {
        TodoTag::Fixme => 0,
        TodoTag::Bug => 1,
        TodoTag::Safety => 2,
        TodoTag::Hack => 3,
        TodoTag::Todo => 4,
        TodoTag::Optimize => 5,
        TodoTag::Xxx => 6,
        TodoTag::Note => 7,
    }
}

impl TodoTag {
    /// Reads a tag word that is already uppercase.
    pub fn from_uppercase(w: &str) -> (r: Option<TodoTag>)
        ensures
            r == tag_word(w@),
    {
        if same_text(w, "TODO") {
            Some(TodoTag::Todo)
        } else if same_text(w, "FIXME") {
            Some(TodoTag::Fixme)
        } else if same_text(w, "HACK") {
            Some(TodoTag::Hack)
        } else if same_text(w, "XXX") {
            Some(TodoTag::Xxx)
        } else if same_text(w, "BUG") {
            Some(TodoTag::Bug)
        } else if same_text(w, "NOTE") {
            Some(TodoTag::Note)
        } else if same_text(w, "OPTIMIZE") {
            Some(TodoTag::Optimize)
        } else if same_text(w, "SAFETY") {
            Some(TodoTag::Safety)
        } else {
            None
        }
    }

    /// Parses a tag word, ignoring case; `None` for words that are not tags.
    pub fn parse(s: &str) -> (r: Option<TodoTag>)
        ensures
            r == tag_word(uppercase_of(s@)),
    {
        let upper = to_upper(s);
        Self::from_uppercase(upper.as_str())
    }

    /// The tag as an uppercase word.
    pub fn as_str(&self) -> (r: &'static str)
        ensures
            r@ == tag_name(*self),
    {
        match self {
            TodoTag::Todo => "TODO",
            TodoTag::Fixme => "FIXME",
            TodoTag::Hack => "HACK",
            TodoTag::Xxx => "XXX",
            TodoTag::Bug => "BUG",
            TodoTag::Note => "NOTE",
            TodoTag::Optimize => "OPTIMIZE",
            TodoTag::Safety => "SAFETY",
        }
    }

    /// Severity rank for sorting. Lower number = higher severity.
    pub fn severity_rank(&self) -> (r: u8)
        ensures
            r == severity(*self),
    {
        match self {
            TodoTag::Fixme => 0,
            TodoTag::Bug => 1,
            TodoTag::Safety => 2,
            TodoTag::Hack => 3,
            TodoTag::Todo => 4,
            TodoTag::Optimize => 5,
            TodoTag::Xxx => 6,
            TodoTag::Note => 7,
        }
    }
}

/// Revision-control attribution of one line.
#[derive(Debug, Clone)]
pub struct BlameInfo {
    /// Author name.
    pub author: String,
    /// Author email, without angle brackets.
    pub email: String,
    /// Commit where the line was last changed.
    pub commit: String,
    /// Commit date, in seconds since 1970-01-01 00:00 UTC.
    pub date: i64,
}

/// Metadata extracted from, or attached to, a marker.
#[derive(Debug, Clone)]
pub struct TodoMetadata {
    /// Author from the marker's parenthesized metadata, or from attribution.
    pub author: Option<String>,
    /// Date of the marker, as a day number counted from 1970-01-01.
    pub date: Option<i64>,
    /// Ticket references such as `JIRA-123`, in order of appearance.
    pub tickets: Vec<String>,
    /// Priority, if one was given.
    pub priority: Option<Priority>,
    /// Attribution of the marker's line, filled on demand.
    pub blame: Option<BlameInfo>,
}

/// One marker comment found in a file.
#[derive(Debug, Clone)]
pub struct TodoItem {
    /// Stable identifier derived from file, tag, message and occurrence index; the line
    /// number is not part of it.
    pub id: String,
    /// The tag.
    pub tag: TodoTag,
    /// Path relative to the repository root.
    pub file: String,
    /// Line number (1-indexed), for display only.
    pub line: u32,
    /// Byte offset of the tag within its line.
    pub column: u32,
    /// The text after the tag, metadata and separator.
    pub message: String,
    /// Structured metadata.
    pub metadata: TodoMetadata,
}

/// The 64-bit digest that hashing gives for a file, tag word, message and occurrence
/// index.
pub uninterp spec fn id_hash(file: Seq<char>, tag: Seq<char>, message: Seq<char>, occurrence: u32) -> u64;

/// The identifier of a marker: its digest as 16 lowercase hexadecimal digits.
pub open spec fn marker_id(file: Seq<char>, tag: Seq<char>, message: Seq<char>, occurrence: u32) -> Seq<char> {
    hex_fixed(id_hash(file, tag, message, occurrence) as nat, 16)
}

/// Relies on std's `DefaultHasher` (SipHash with fixed keys): it hashes the path, the tag
/// word, the message and the occurrence index in that order; the digest depends on these
/// values alone within one build.
#[verifier::external_body]
fn hash_id(file: &str, tag: &str, message: &str, occurrence: u32) -> (r: u64)
    ensures
        r == id_hash(file@, tag@, message@, occurrence),
{
    let mut hasher = std::collections::hash_map::DefaultHasher::new();
    std::hash::Hash::hash(std::path::Path::new(file), &mut hasher);
    std::hash::Hash::hash(tag, &mut hasher);
    std::hash::Hash::hash(message, &mut hasher);
    std::hash::Hash::hash(&occurrence, &mut hasher);
    std::hash::Hasher::finish(&hasher)
}

impl TodoItem {
    /// Stable identifier from file path, tag, message and occurrence index: 16 lowercase
    /// hexadecimal digits; the line number plays no part.
    pub fn generate_id(file: &str, tag: &TodoTag, message: &str, occurrence: u32) -> (r: String)
        ensures
            r@ == marker_id(file@, tag_name(*tag), message@, occurrence),
            r@.len() == 16,
            forall|i: int| 0 <= i < 16 ==> is_lower_hex(#[trigger] r@[i]),
    {
        let h = hash_id(file, tag.as_str(), message, occurrence);
        proof {
            lemma_hex_fixed(h as nat, 16);
        }
        hex16(h)
    }
}

} // verus!
