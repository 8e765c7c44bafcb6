//! The marker grammar: where a marker starts on a line, and what its metadata,
//! reference and message are.
//!
//! A marker is a tag word (`TODO`, `FIXME`, `HACK`, `XXX`, `BUG`, `NOTE`, `OPTIMIZE`,
//! `SAFETY`, case-sensitive) at a word boundary, optionally followed by `(metadata)`,
//! then optionally by `[reference]`, then optional whitespace, an optional separator
//! (`:`, `>` or `-`), optional whitespace, and a message running to the end of the
//! line with trailing whitespace dropped (it is empty when nothing else follows). The
//! leftmost marker on a line is the one read; a group is taken whenever it is closed.
//! Word characters are those of the Unicode `\w` class; whitespace is Unicode
//! `White_Space`.
use vstd::prelude::*;
use vstd::arithmetic::div_mod::lemma_add_mod_noop;

use crate::text::{
    chars_of, has_at, has_at_exec, lemma_skip_space_bounds, lemma_trim_back_bounds,
    no_edge_space, skip_space, skip_space_from, slice_chars, space, trim_back, trim_back_from,
};
use crate::todo::{tag_name, TodoTag};

verus! {

/// Whether a non-ASCII character belongs to the Unicode word class `\w`.
pub uninterp spec fn unicode_word(c: char) -> bool;

/// Relies on the regex crate's `\w` (Unicode `Alphabetic`, `Join_Control`, and the
/// `Decimal_Number`, `Mark` and `Connector_Punctuation` categories): whether the
/// character alone matches it. The answer depends on the character alone.
#[verifier::external_body]
fn unicode_word_char(c: char) -> (r: bool)
    ensures
        r == unicode_word(c),
{
    match regex::Regex::new(r"^\w$") {
        Ok(re) => re.is_match(c.encode_utf8(&mut [0u8; 4])),
        Err(_) => false,
    }
}

/// A word character, as the Unicode `\w` class has it: among ASCII characters the
/// letters, digits and `_`.
pub open spec fn is_word(c: char) -> bool {
    let u = c as u32;
    if u < 128 {
        (48 <= u <= 57) || (65 <= u <= 90) || (97 <= u <= 122) || u == 95
    } else {
        unicode_word(c)
    }
}

pub fn word(c: char) -> (r: bool)
    ensures
        r == is_word(c),
{
    let u = c as u32;
    if u < 128 {
        (48 <= u && u <= 57) || (65 <= u && u <= 90) || (97 <= u && u <= 122) || u == 95
    } else {
        unicode_word_char(c)
    }
}

pub open spec fn is_separator(c: char) -> bool {
    c == ':' || c == '>' || c == '-'
}

/// The tags in the order in which the grammar tries them.
pub open spec fn all_tags() -> Seq<TodoTag> {
    seq![
        TodoTag::Todo,
        TodoTag::Fixme,
        TodoTag::Hack,
        TodoTag::Xxx,
        TodoTag::Bug,
        TodoTag::Note,
        TodoTag::Optimize,
        TodoTag::Safety,
    ]
}

/// The first tag from position `k` of `all_tags` whose word starts at `i`.
pub open spec fn tag_from(l: Seq<char>, i: int, k: int) -> Option<TodoTag>
    decreases 8 - k,
{
    if k < 0 || k >= 8 {
        None
    } else if has_at(l, i, tag_name(all_tags()[k])) {
        Some(all_tags()[k])
    } else {
        tag_from(l, i, k + 1)
    }
}

/// The tag whose word starts at `i`, if any.
pub open spec fn tag_at(l: Seq<char>, i: int) -> Option<TodoTag> {
    tag_from(l, i, 0)
}

/// Where the tag starting at `i` ends.
pub open spec fn tag_end(l: Seq<char>, i: int) -> int {
    i + tag_name(tag_at(l, i)->0).len()
}

/// A marker can start at `i`: a tag with a word boundary on either side.
pub open spec fn marker_at(l: Seq<char>, i: int) -> bool {
    &&& 0 <= i < l.len()
    &&& (i == 0 || !is_word(l[i - 1]))
    &&& tag_at(l, i) is Some
    &&& tag_end(l, i) <= l.len()
    &&& (tag_end(l, i) == l.len() || !is_word(l[tag_end(l, i)]))
}

/// The leftmost marker start at or after `i`.
pub open spec fn first_marker_from(l: Seq<char>, i: int) -> Option<int>
    decreases l.len() - i,
{
    if i < 0 || i >= l.len() {
        None
    } else if marker_at(l, i) {
        Some(i)
    } else {
        first_marker_from(l, i + 1)
    }
}

pub proof fn lemma_first_marker(l: Seq<char>, i: int)
    requires
        first_marker_from(l, i) is Some,
    ensures
        marker_at(l, first_marker_from(l, i)->0),
        i <= first_marker_from(l, i)->0,
    decreases l.len() - i,
{
    if i >= 0 && i < l.len() && !marker_at(l, i) {
        lemma_first_marker(l, i + 1);
    }
}

/// The first index at or after `i` that holds `c`.
pub open spec fn find_char(l: Seq<char>, c: char, i: int) -> Option<int>
    decreases l.len() - i,
{
    if i < 0 || i >= l.len() {
        None
    } else if l[i] == c {
        Some(i)
    } else {
        find_char(l, c, i + 1)
    }
}

pub proof fn lemma_find_char(l: Seq<char>, c: char, i: int)
    requires
        find_char(l, c, i) is Some,
    ensures
        i <= find_char(l, c, i)->0 < l.len(),
        l[find_char(l, c, i)->0] == c,
    decreases l.len() - i,
{
    if i >= 0 && i < l.len() && l[i] != c {
        lemma_find_char(l, c, i + 1);
    }
}

/// A group `open ... close` at `p`: the index of its closing character.
pub open spec fn group_close(l: Seq<char>, p: int, open: char, close: char) -> Option<int> {
    if 0 <= p < l.len() && l[p] == open {
        find_char(l, close, p + 1)
    } else {
        None
    }
}

/// Width of a character in UTF-8.
pub open spec fn utf8_width(c: char) -> int {
    let u = c as u32;
    if u < 0x80 {
        1
    } else if u < 0x800 {
        2
    } else if u < 0x10000 {
        3
    } else {
        4
    }
}

/// Length of a text in UTF-8 bytes.
pub open spec fn byte_len(s: Seq<char>) -> int
    decreases s.len(),
{
    if s.len() == 0 {
        0
    } else {
        byte_len(s.drop_last()) + utf8_width(s.last())
    }
}

/// What the grammar reads from one line.
pub struct LineMatch {
    pub tag: TodoTag,
    /// Character index of the tag.
    pub start: int,
    /// Byte offset of the tag.
    pub column: int,
    pub meta: Option<Seq<char>>,
    pub reference: Option<Seq<char>>,
    pub message: Seq<char>,
}

/// The marker on a line, if there is one.
pub open spec fn match_line(l: Seq<char>) -> Option<LineMatch> {
    match first_marker_from(l, 0) {
        None => None,
        Some(i) => {
            let n = l.len() as int;
            let p = tag_end(l, i);
            let mc = group_close(l, p, '(', ')');
            let q1 = if mc is Some { mc->0 + 1 } else { p };
            let rc = group_close(l, q1, '[', ']');
            let q2 = if rc is Some { rc->0 + 1 } else { q1 };
            let e1 = skip_space(l, q2);
            let e2 = if e1 < n && is_separator(l[e1]) { skip_space(l, e1 + 1) } else { e1 };
            let message = l.subrange(e2, trim_back(l, e2, n));
            Some(LineMatch {
                tag: tag_at(l, i)->0,
                start: i,
                column: byte_len(l.subrange(0, i)),
                meta: if mc is Some { Some(l.subrange(p + 1, mc->0)) } else { None },
                reference: if rc is Some { Some(l.subrange(q1 + 1, rc->0)) } else { None },
                message,
            })
        },
    }
}

/// A message never begins or ends with whitespace.
pub proof fn lemma_message_trimmed(l: Seq<char>)
    requires
        match_line(l) is Some,
    ensures
        no_edge_space(match_line(l)->0.message),
{
    let i = first_marker_from(l, 0)->0;
    lemma_first_marker(l, 0);
    let n = l.len() as int;
    let p = tag_end(l, i);
    let mc = group_close(l, p, '(', ')');
    if mc is Some {
        lemma_find_char(l, ')', p + 1);
    }
    let q1 = if mc is Some { mc->0 + 1 } else { p };
    let rc = group_close(l, q1, '[', ']');
    if rc is Some {
        lemma_find_char(l, ']', q1 + 1);
    }
    let q2 = if rc is Some { rc->0 + 1 } else { q1 };
    lemma_skip_space_bounds(l, q2);
    let e1 = skip_space(l, q2);
    if e1 < n && is_separator(l[e1]) {
        lemma_skip_space_bounds(l, e1 + 1);
    }
    let e2 = if e1 < n && is_separator(l[e1]) { skip_space(l, e1 + 1) } else { e1 };
    lemma_trim_back_bounds(l, e2, n);
    let m = l.subrange(e2, trim_back(l, e2, n));
    assert(m == match_line(l)->0.message);
    if m.len() > 0 {
        assert(m[0] == l[e2]);
        assert(m.last() == l[trim_back(l, e2, n) - 1]);
    }
}

pub fn tag_by_index(k: usize) -> (r: TodoTag)
    requires
        k < 8,
    ensures
        r == all_tags()[k as int],
{
    match k {
        0 => TodoTag::Todo,
        1 => TodoTag::Fixme,
        2 => TodoTag::Hack,
        3 => TodoTag::Xxx,
        4 => TodoTag::Bug,
        5 => TodoTag::Note,
        6 => TodoTag::Optimize,
        _ => TodoTag::Safety,
    }
}

/// The tag words, as characters, in the order of `all_tags`.
pub fn tag_words() -> (r: Vec<Vec<char>>)
    ensures
        r@.len() == 8,
        forall|k: int| 0 <= k < 8 ==> #[trigger] r@[k]@ == tag_name(all_tags()[k]),
{
    let mut out: Vec<Vec<char>> = Vec::new();
    let mut k: usize = 0;
    while k < 8
        invariant
            0 <= k <= 8,
            out@.len() == k,
            forall|j: int| 0 <= j < k ==> #[trigger] out@[j]@ == tag_name(all_tags()[j]),
        decreases 8 - k,
    {
        let t = tag_by_index(k);
        out.push(chars_of(t.as_str()));
        k = k + 1;
    }
    out
}

fn tag_at_exec(l: &Vec<char>, i: usize, words: &Vec<Vec<char>>) -> (r: Option<TodoTag>)
    requires
        words@.len() == 8,
        forall|k: int| 0 <= k < 8 ==> #[trigger] words@[k]@ == tag_name(all_tags()[k]),
    ensures
        r == tag_at(l@, i as int),
{
    let mut k: usize = 0;
    while k < 8
        invariant
            0 <= k <= 8,
            words@.len() == 8,
            forall|j: int| 0 <= j < 8 ==> #[trigger] words@[j]@ == tag_name(all_tags()[j]),
            tag_at(l@, i as int) == tag_from(l@, i as int, k as int),
        decreases 8 - k,
    {
        if has_at_exec(l, i, &words[k]) {
            return Some(tag_by_index(k));
        }
        k = k + 1;
    }
    None
}

fn marker_at_exec(l: &Vec<char>, i: usize, words: &Vec<Vec<char>>) -> (r: bool)
    requires
        i < l@.len(),
        words@.len() == 8,
        forall|k: int| 0 <= k < 8 ==> #[trigger] words@[k]@ == tag_name(all_tags()[k]),
    ensures
        r == marker_at(l@, i as int),
{
    match tag_at_exec(l, i, words) {
        None => false,
        Some(t) => {
            if i > 0 && word(l[i - 1]) {
                return false;
            }
            let w = t.as_str();
            let wc = chars_of(w);
            if wc.len() > l.len() - i {
                false
            } else if wc.len() == l.len() - i {
                true
            } else {
                !word(l[i + wc.len()])
            }
        },
    }
}

fn first_marker(l: &Vec<char>, words: &Vec<Vec<char>>) -> (r: Option<usize>)
    requires
        words@.len() == 8,
        forall|k: int| 0 <= k < 8 ==> #[trigger] words@[k]@ == tag_name(all_tags()[k]),
    ensures
        r is None <==> first_marker_from(l@, 0) is None,
        r is Some ==> first_marker_from(l@, 0) == Some(r->0 as int),
{
    let mut i: usize = 0;
    while i < l.len()
        invariant
            0 <= i <= l@.len(),
            words@.len() == 8,
            forall|k: int| 0 <= k < 8 ==> #[trigger] words@[k]@ == tag_name(all_tags()[k]),
            first_marker_from(l@, 0) == first_marker_from(l@, i as int),
        decreases l@.len() - i,
    {
        if marker_at_exec(l, i, words) {
            return Some(i);
        }
        i = i + 1;
    }
    None
}

fn find_char_exec(l: &Vec<char>, c: char, i: usize) -> (r: Option<usize>)
    ensures
        r is None <==> find_char(l@, c, i as int) is None,
        r is Some ==> find_char(l@, c, i as int) == Some(r->0 as int),
{
    let mut j = i;
    while j < l.len()
        invariant
            i <= j,
            find_char(l@, c, i as int) == find_char(l@, c, j as int),
        decreases l@.len() - j,
    {
        if l[j] == c {
            return Some(j);
        }
        j = j + 1;
    }
    None
}

fn group_close_exec(l: &Vec<char>, p: usize, open: char, close: char) -> (r: Option<usize>)
    ensures
        r is None <==> group_close(l@, p as int, open, close) is None,
        r is Some ==> group_close(l@, p as int, open, close) == Some(r->0 as int),
        r is Some ==> p < r->0 && r->0 < l@.len(),
{
    if p < l.len() && l[p] == open {
        match find_char_exec(l, close, p + 1) {
            Some(c) => {
                proof {
                    lemma_find_char(l@, close, p + 1);
                }
                Some(c)
            },
            None => None,
        }
    } else {
        None
    }
}

fn utf8_width_exec(c: char) -> (r: u32)
    ensures
        r == utf8_width(c),
{
    let u = c as u32;
    if u < 0x80 {
        1
    } else if u < 0x800 {
        2
    } else if u < 0x10000 {
        3
    } else {
        4
    }
}

/// Byte offset of character index `i`, modulo 2^32.
fn byte_column(l: &Vec<char>, i: usize) -> (r: u32)
    requires
        i <= l@.len(),
    ensures
        r == byte_len(l@.subrange(0, i as int)) % 0x1_0000_0000,
{
    let mut col: u32 = 0;
    let mut k: usize = 0;
    assert(l@.subrange(0, 0).len() == 0);
    while k < i
        invariant
            0 <= k <= i <= l@.len(),
            col == byte_len(l@.subrange(0, k as int)) % 0x1_0000_0000,
        decreases i - k,
    {
        let w = utf8_width_exec(l[k]);
        let sum: u64 = col as u64 + w as u64;
        proof {
            let a = byte_len(l@.subrange(0, k as int));
            assert(l@.subrange(0, k + 1).drop_last() =~= l@.subrange(0, k as int));
            assert(byte_len(l@.subrange(0, k + 1)) == a + w);
            lemma_add_mod_noop(a, w as int, 0x1_0000_0000);
            assert((w as int) % 0x1_0000_0000 == w);
        }
        if sum >= 0x1_0000_0000 {
            col = (sum - 0x1_0000_0000) as u32;
        } else {
            col = sum as u32;
        }
        k = k + 1;
    }
    col
}

/// The parts of a marker, as found on a line.
pub struct MarkerParts {
    pub tag: TodoTag,
    /// Byte offset of the tag, modulo 2^32.
    pub column: u32,
    pub meta: Option<Vec<char>>,
    pub reference: Option<Vec<char>>,
    pub message: Vec<char>,
}

pub open spec fn opt_chars(o: Option<Vec<char>>) -> Option<Seq<char>> {
    match o {
        Some(v) => Some(v@),
        None => None,
    }
}

/// The parts read by `match_line`.
pub open spec fn parts_fit(r: MarkerParts, m: LineMatch) -> bool {
    &&& r.tag == m.tag
    &&& r.column == m.column % 0x1_0000_0000
    &&& opt_chars(r.meta) == m.meta
    &&& opt_chars(r.reference) == m.reference
    &&& r.message@ == m.message
}

/// Reads the marker on a line, if there is one.
pub fn match_line_exec(l: &Vec<char>, words: &Vec<Vec<char>>) -> (r: Option<MarkerParts>)
    requires
        words@.len() == 8,
        forall|k: int| 0 <= k < 8 ==> #[trigger] words@[k]@ == tag_name(all_tags()[k]),
    ensures
        r is None <==> match_line(l@) is None,
        r is Some ==> parts_fit(r->0, match_line(l@)->0),
{
    let i = match first_marker(l, words) {
        None => {
            return None;
        },
        Some(i) => i,
    };
    proof {
        lemma_first_marker(l@, 0);
    }
    let n = l.len();
    let tag = match tag_at_exec(l, i, words) {
        Some(t) => t,
        None => {
            return None;
        },
    };
    let wc = chars_of(tag.as_str());
    let p = i + wc.len();
    let (meta, q1) = match group_close_exec(l, p, '(', ')') {
        Some(c) => (Some(slice_chars(l, p + 1, c)), c + 1),
        None => (None, p),
    };
    let (reference, q2) = match group_close_exec(l, q1, '[', ']') {
        Some(c) => (Some(slice_chars(l, q1 + 1, c)), c + 1),
        None => (None, q1),
    };
    let e1 = skip_space_from(l, q2);
    let e2 = if e1 < n && (l[e1] == ':' || l[e1] == '>' || l[e1] == '-') {
        skip_space_from(l, e1 + 1)
    } else {
        e1
    };
    let e = trim_back_from(l, e2, n);
    let message = slice_chars(l, e2, e);
    let column = byte_column(l, i);
    Some(MarkerParts { tag, column, meta, reference, message })
}

} // verus!
