//! Extraction of marker items from file contents: metadata, tickets, identity.
use vstd::prelude::*;

use crate::comment::CommentSyntax;
use crate::grammar::{
    all_tags, lemma_message_trimmed, match_line, match_line_exec, opt_chars, parts_fit, tag_words,
    LineMatch,
};
use crate::priority::{priority_word, Priority};
use crate::text::{
    chars_of, lemma_lines_concat, lines_of, lowercase_of, no_edge_space, split_lines, string_of,
    trim_chars, trimmed,
};
use crate::todo::{marker_id, tag_name, TodoItem, TodoMetadata, TodoTag};

verus! {

pub open spec fn is_upper(c: char) -> bool {
    65 <= (c as u32) <= 90
}

/// Whether a non-ASCII character belongs to the Unicode digit class `\d`.
pub uninterp spec fn unicode_decimal(c: char) -> bool;

/// Relies on the regex crate's `\d` (Unicode `Decimal_Number`): whether the character
/// alone matches it. The answer depends on the character alone.
#[verifier::external_body]
fn unicode_decimal_char(c: char) -> (r: bool)
    ensures
        r == unicode_decimal(c),
{
    match regex::Regex::new(r"^\d$") {
        Ok(re) => re.is_match(c.encode_utf8(&mut [0u8; 4])),
        Err(_) => false,
    }
}

/// A decimal digit, as the Unicode `\d` class has it: among ASCII characters `0` to `9`.
pub open spec fn is_digit(c: char) -> bool {
    let u = c as u32;
    if u < 128 {
        48 <= u <= 57
    } else {
        unicode_decimal(c)
    }
}

fn digit(c: char) -> (r: bool)
    ensures
        r == is_digit(c),
{
    let u = c as u32;
    if u < 128 {
        48 <= u && u <= 57
    } else {
        unicode_decimal_char(c)
    }
}

/// Number of uppercase letters starting at `i`, counting at most `lim`.
pub open spec fn upper_run(s: Seq<char>, i: int, lim: nat) -> nat
    decreases lim,
{
    if lim == 0 || i < 0 || i >= s.len() || !is_upper(s[i]) {
        0
    } else {
        1 + upper_run(s, i + 1, (lim - 1) as nat)
    }
}

/// First index at or after `i` that is not a digit.
pub open spec fn digit_end(s: Seq<char>, i: int) -> int
    decreases s.len() - i,
{
    if 0 <= i < s.len() && is_digit(s[i]) {
        digit_end(s, i + 1)
    } else {
        i
    }
}

/// A ticket reference `[A-Z]{2,10}-\d+` starts at `i`.
pub open spec fn ticket_at(s: Seq<char>, i: int) -> bool {
    let k = upper_run(s, i, 11);
    &&& 2 <= k <= 10
    &&& i + k + 1 < s.len()
    &&& s[i + k] == '-'
    &&& is_digit(s[i + k + 1])
}

/// End of the ticket that starts at `i` (its digits taken greedily).
pub open spec fn ticket_end(s: Seq<char>, i: int) -> int {
    digit_end(s, i + upper_run(s, i, 11) + 1)
}

/// The ticket references in `s[i..]`, leftmost first, without overlap.
pub open spec fn tickets_from(s: Seq<char>, i: int) -> Seq<Seq<char>>
    decreases s.len() - i,
{
    if i < 0 || i >= s.len() {
        seq![]
    } else if ticket_at(s, i) {
        let e = ticket_end(s, i);
        if e <= i || e > s.len() {
            seq![]
        } else {
            seq![s.subrange(i, e)] + tickets_from(s, e)
        }
    } else {
        tickets_from(s, i + 1)
    }
}

/// Some ticket reference occurs in `s`.
pub open spec fn has_ticket(s: Seq<char>) -> bool {
    exists|i: int| 0 <= i < s.len() && #[trigger] ticket_at(s, i)
}

/// Pieces of `s[start..]` between commas, scanning from `j` (`str::split(',')`).
pub open spec fn split_scan(s: Seq<char>, start: int, j: int) -> Seq<Seq<char>>
    decreases s.len() - j,
{
    if j >= s.len() {
        seq![s.subrange(start, s.len() as int)]
    } else if s[j] == ',' {
        seq![s.subrange(start, j)] + split_scan(s, j + 1, j + 1)
    } else {
        split_scan(s, start, j + 1)
    }
}

pub open spec fn split_commas(s: Seq<char>) -> Seq<Seq<char>> {
    split_scan(s, 0, 0)
}

/// `s` without its leading `@` characters.
pub open spec fn strip_ats(s: Seq<char>) -> Seq<char>
    decreases s.len(),
{
    if s.len() > 0 && s[0] == '@' {
        strip_ats(s.drop_first())
    } else {
        s
    }
}

/// One comma-separated part of the parenthesized metadata applied to
/// (priority, author): a priority keyword sets the priority; a part holding a ticket
/// is skipped; `@name` sets the author; any other nonempty part becomes the author if
/// none is set yet.
pub open spec fn meta_step(st: (Option<Priority>, Option<Seq<char>>), part: Seq<char>) -> (
    Option<Priority>,
    Option<Seq<char>>,
) {
    if priority_word(lowercase_of(part)) is Some {
        (priority_word(lowercase_of(part)), st.1)
    } else if has_ticket(part) {
        st
    } else if part.len() > 0 && part[0] == '@' {
        (st.0, Some(strip_ats(part)))
    } else if part.len() > 0 && st.1 is None {
        (st.0, Some(part))
    } else {
        st
    }
}

/// The parts applied in order.
pub open spec fn meta_fold(parts: Seq<Seq<char>>) -> (Option<Priority>, Option<Seq<char>>)
    decreases parts.len(),
{
    if parts.len() == 0 {
        (None, None)
    } else {
        meta_step(meta_fold(parts.drop_last()), parts.last())
    }
}

/// Priority and author from parenthesized metadata.
pub open spec fn meta_fields(meta: Seq<char>) -> (Option<Priority>, Option<Seq<char>>) {
    if meta.len() == 0 {
        (None, None)
    } else {
        meta_fold(split_commas(meta).map_values(|p: Seq<char>| trimmed(p)))
    }
}

pub open spec fn text_views(v: Seq<String>) -> Seq<Seq<char>> {
    v.map_values(|t: String| t@)
}

pub open spec fn opt_view(o: Option<String>) -> Option<Seq<char>> {
    match o {
        Some(s) => Some(s@),
        None => None,
    }
}

/// The text in which tickets are looked for: metadata, reference and message.
pub open spec fn ticket_source(meta: Seq<char>, bref: Seq<char>, message: Seq<char>) -> Seq<char> {
    meta + seq![' '] + bref + seq![' '] + message
}

/// Metadata read from the parenthesized part, the bracketed part and the message.
pub open spec fn metadata_fits(md: TodoMetadata, meta: Seq<char>, bref: Seq<char>, message: Seq<char>) -> bool {
    &&& text_views(md.tickets@) == tickets_from(ticket_source(meta, bref, message), 0)
    &&& md.priority == meta_fields(meta).0
    &&& opt_view(md.author) == meta_fields(meta).1
    &&& md.date is None
    &&& md.blame is None
}

proof fn lemma_upper_run(s: Seq<char>, i: int, lim: nat)
    requires
        0 <= i <= s.len(),
    ensures
        upper_run(s, i, lim) <= lim,
        i + upper_run(s, i, lim) <= s.len(),
        forall|j: int| i <= j < i + upper_run(s, i, lim) ==> is_upper(#[trigger] s[j]),
        upper_run(s, i, lim) < lim && i + upper_run(s, i, lim) < s.len() ==> !is_upper(
            s[i + upper_run(s, i, lim)],
        ),
    decreases lim,
{
    if lim > 0 && i < s.len() && is_upper(s[i]) {
        lemma_upper_run(s, i + 1, (lim - 1) as nat);
    }
}

proof fn lemma_digit_end(s: Seq<char>, i: int)
    requires
        0 <= i <= s.len(),
    ensures
        i <= digit_end(s, i) <= s.len(),
    decreases s.len() - i,
{
    if i < s.len() && is_digit(s[i]) {
        lemma_digit_end(s, i + 1);
    }
}

fn upper_run_exec(s: &Vec<char>, i: usize) -> (r: usize)
    requires
        i <= s@.len(),
    ensures
        r == upper_run(s@, i as int, 11),
{
    let mut j = i;
    while j < s.len() && j - i < 11 && 65 <= (s[j] as u32) && (s[j] as u32) <= 90
        invariant
            i <= j <= s@.len(),
            j - i <= 11,
            upper_run(s@, i as int, 11) == (j - i) + upper_run(s@, j as int, (11 - (j - i)) as nat),
        decreases s@.len() - j,
    {
        j = j + 1;
    }
    j - i
}

fn digit_end_exec(s: &Vec<char>, i: usize) -> (r: usize)
    requires
        i <= s@.len(),
    ensures
        r == digit_end(s@, i as int),
{
    let mut j = i;
    while j < s.len() && digit(s[j])
        invariant
            i <= j <= s@.len(),
            digit_end(s@, i as int) == digit_end(s@, j as int),
        decreases s@.len() - j,
    {
        j = j + 1;
    }
    j
}

/// The end of the ticket at `i`, if one starts there.
fn ticket_at_exec(s: &Vec<char>, i: usize) -> (r: Option<usize>)
    requires
        i <= s@.len(),
    ensures
        r is Some <==> ticket_at(s@, i as int),
        r is Some ==> r->0 == ticket_end(s@, i as int) && i < r->0 <= s@.len(),
{
    let k = upper_run_exec(s, i);
    proof {
        lemma_upper_run(s@, i as int, 11);
    }
    if 2 <= k && k <= 10 && k + 1 < s.len() - i && s[i + k] == '-' && digit(s[i + k + 1]) {
        proof {
            lemma_digit_end(s@, i + k + 1);
        }
        Some(digit_end_exec(s, i + k + 1))
    } else {
        None
    }
}

/// All ticket references in a text, leftmost first.
fn tickets_in(s: &Vec<char>) -> (r: Vec<String>)
    ensures
        text_views(r@) == tickets_from(s@, 0),
{
    let mut out: Vec<String> = Vec::new();
    let mut i: usize = 0;
    while i < s.len()
        invariant
            0 <= i <= s@.len(),
            tickets_from(s@, 0) == text_views(out@) + tickets_from(s@, i as int),
        decreases s@.len() - i,
    {
        match ticket_at_exec(s, i) {
            Some(e) => {
                let mut t: Vec<char> = Vec::new();
                let mut k = i;
                while k < e
                    invariant
                        i <= k <= e <= s@.len(),
                        t@ == s@.subrange(i as int, k as int),
                    decreases e - k,
                {
                    t.push(s[k]);
                    k = k + 1;
                    assert(t@ =~= s@.subrange(i as int, k as int));
                }
                let ts = string_of(t);
                proof {
                    assert(text_views(out@.push(ts)) =~= text_views(out@).push(ts@));
                    assert(text_views(out@) + tickets_from(s@, i as int) =~= text_views(out@).push(ts@) + tickets_from(s@, e as int));
                }
                out.push(ts);
                i = e;
            },
            None => {
                i = i + 1;
            },
        }
    }
    assert(text_views(out@) + tickets_from(s@, i as int) =~= text_views(out@));
    out
}

fn has_ticket_exec(s: &Vec<char>) -> (r: bool)
    ensures
        r == has_ticket(s@),
{
    let mut i: usize = 0;
    while i < s.len()
        invariant
            0 <= i <= s@.len(),
            forall|j: int| 0 <= j < i ==> !ticket_at(s@, j),
        decreases s@.len() - i,
    {
        if ticket_at_exec(s, i).is_some() {
            return true;
        }
        i = i + 1;
    }
    false
}

fn split_commas_exec(s: &Vec<char>) -> (r: Vec<Vec<char>>)
    ensures
        r@.len() == split_commas(s@).len(),
        forall|i: int| 0 <= i < r@.len() ==> #[trigger] r@[i]@ == split_commas(s@)[i],
{
    let mut out: Vec<Vec<char>> = Vec::new();
    let ghost done: Seq<Seq<char>> = seq![];
    let mut cur: Vec<char> = Vec::new();
    let mut start: usize = 0;
    let mut j: usize = 0;
    while j < s.len()
        invariant
            0 <= start <= j <= s@.len(),
            cur@ == s@.subrange(start as int, j as int),
            split_commas(s@) == done + split_scan(s@, start as int, j as int),
            out@.len() == done.len(),
            forall|i: int| 0 <= i < out@.len() ==> #[trigger] out@[i]@ == done[i],
        decreases s@.len() - j,
    {
        if s[j] == ',' {
            proof {
                assert(done + split_scan(s@, start as int, j as int) =~= done.push(cur@)
                    + split_scan(s@, j + 1, j + 1));
                done = done.push(cur@);
            }
            out.push(cur);
            cur = Vec::new();
            start = j + 1;
            assert(cur@ =~= s@.subrange(start as int, start as int));
        } else {
            cur.push(s[j]);
            assert(cur@ =~= s@.subrange(start as int, j + 1));
        }
        j = j + 1;
    }
    proof {
        assert(done + split_scan(s@, start as int, j as int) =~= done.push(cur@));
        done = done.push(cur@);
    }
    out.push(cur);
    out
}

fn strip_ats_exec(s: &Vec<char>) -> (r: Vec<char>)
    ensures
        r@ == strip_ats(s@),
{
    let mut i: usize = 0;
    assert(s@.subrange(0, s@.len() as int) =~= s@);
    while i < s.len() && s[i] == '@'
        invariant
            0 <= i <= s@.len(),
            strip_ats(s@) == strip_ats(s@.subrange(i as int, s@.len() as int)),
        decreases s@.len() - i,
    {
        assert(s@.subrange(i as int, s@.len() as int).drop_first() =~= s@.subrange(i + 1, s@.len() as int));
        i = i + 1;
    }
    let mut out: Vec<char> = Vec::new();
    let mut k = i;
    while k < s.len()
        invariant
            i <= k <= s@.len(),
            out@ == s@.subrange(i as int, k as int),
        decreases s@.len() - k,
    {
        out.push(s[k]);
        k = k + 1;
        assert(out@ =~= s@.subrange(i as int, k as int));
    }
    out
}

/// Reads metadata from the parenthesized part, the bracketed part and the message of a
/// marker (pass empty texts for absent parts).
pub fn parse_metadata(meta: &str, bracket_ref: &str, message: &str) -> (r: TodoMetadata)
    ensures
        metadata_fits(r, meta@, bracket_ref@, message@),
{
    let m = chars_of(meta);
    let b = chars_of(bracket_ref);
    let msg = chars_of(message);
    let mut combined: Vec<char> = Vec::new();
    let mut i: usize = 0;
    while i < m.len()
        invariant
            0 <= i <= m@.len(),
            combined@ == m@.subrange(0, i as int),
        decreases m@.len() - i,
    {
        combined.push(m[i]);
        i = i + 1;
        assert(combined@ =~= m@.subrange(0, i as int));
    }
    combined.push(' ');
    let ghost c1 = combined@;
    i = 0;
    while i < b.len()
        invariant
            0 <= i <= b@.len(),
            combined@ == c1 + b@.subrange(0, i as int),
        decreases b@.len() - i,
    {
        combined.push(b[i]);
        i = i + 1;
        assert(combined@ =~= c1 + b@.subrange(0, i as int));
    }
    combined.push(' ');
    let ghost c2 = combined@;
    i = 0;
    while i < msg.len()
        invariant
            0 <= i <= msg@.len(),
            combined@ == c2 + msg@.subrange(0, i as int),
        decreases msg@.len() - i,
    {
        combined.push(msg[i]);
        i = i + 1;
        assert(combined@ =~= c2 + msg@.subrange(0, i as int));
    }
    assert(combined@ =~= ticket_source(meta@, bracket_ref@, message@));
    let tickets = tickets_in(&combined);
    let mut priority: Option<Priority> = None;
    let mut author: Option<String> = None;
    if m.len() > 0 {
        let raw = split_commas_exec(&m);
        let ghost parts = split_commas(meta@).map_values(|p: Seq<char>| trimmed(p));
        let mut k: usize = 0;
        while k < raw.len()
            invariant
                0 <= k <= raw@.len(),
                raw@.len() == split_commas(meta@).len(),
                forall|j: int| 0 <= j < raw@.len() ==> #[trigger] raw@[j]@ == split_commas(meta@)[j],
                parts == split_commas(meta@).map_values(|p: Seq<char>| trimmed(p)),
                (priority, opt_view(author)) == meta_fold(parts.subrange(0, k as int)),
            decreases raw@.len() - k,
        {
            let part = trim_chars(&raw[k]);
            let ghost before = (priority, opt_view(author));
            proof {
                assert(parts.subrange(0, k + 1).drop_last() =~= parts.subrange(0, k as int));
                assert(parts.subrange(0, k + 1).last() == part@);
            }
            let part_text = string_of(part.clone());
            match Priority::parse(part_text.as_str()) {
                Some(p) => {
                    priority = Some(p);
                },
                None => {
                    if has_ticket_exec(&part) {
                    } else if part.len() > 0 && part[0] == '@' {
                        author = Some(string_of(strip_ats_exec(&part)));
                    } else if part.len() > 0 && author.is_none() {
                        author = Some(part_text);
                    }
                },
            }
            assert((priority, opt_view(author)) == meta_step(before, part@));
            k = k + 1;
        }
        assert(parts.subrange(0, k as int) =~= parts);
    }
    TodoMetadata { author, date: None, tickets, priority, blame: None }
}

/// The markers of a sequence of lines: each with the index of its line.
pub open spec fn markers_in(lines: Seq<Seq<char>>) -> Seq<(int, LineMatch)>
    decreases lines.len(),
{
    if lines.len() == 0 {
        seq![]
    } else {
        let prev = markers_in(lines.drop_last());
        match match_line(lines.last()) {
            Some(m) => prev.push((lines.len() - 1, m)),
            None => prev,
        }
    }
}

/// The markers of a file's content, in line order.
pub open spec fn file_markers(content: Seq<char>) -> Seq<(int, LineMatch)> {
    markers_in(lines_of(content))
}

/// Number of markers before position `j` with the same tag and message as marker `k`.
pub open spec fn count_same(ms: Seq<(int, LineMatch)>, k: int, j: int) -> nat
    decreases j,
{
    if j <= 0 {
        0
    } else {
        count_same(ms, k, j - 1) + if ms[j - 1].1.tag == ms[k].1.tag && ms[j - 1].1.message
            == ms[k].1.message {
            1nat
        } else {
            0nat
        }
    }
}

/// Occurrence index of marker `k`: how many earlier markers share its tag and message.
pub open spec fn occurrence(ms: Seq<(int, LineMatch)>, k: int) -> nat {
    count_same(ms, k, k)
}

pub open spec fn or_empty(o: Option<Seq<char>>) -> Seq<char> {
    match o {
        Some(s) => s,
        None => seq![],
    }
}

/// The identifier of marker `k` of a file.
pub open spec fn item_id(file: Seq<char>, ms: Seq<(int, LineMatch)>, k: int) -> Seq<char> {
    marker_id(file, tag_name(ms[k].1.tag), ms[k].1.message, (occurrence(ms, k) % 0x1_0000_0000) as u32)
}

/// `it` is the item for marker `k` of file `file`.
pub open spec fn item_fits(it: TodoItem, file: Seq<char>, ms: Seq<(int, LineMatch)>, k: int) -> bool {
    let m = ms[k].1;
    &&& it.id@ == item_id(file, ms, k)
    &&& it.tag == m.tag
    &&& it.file@ == file
    &&& it.line == (ms[k].0 + 1) % 0x1_0000_0000
    &&& it.column == m.column % 0x1_0000_0000
    &&& it.message@ == m.message
    &&& metadata_fits(it.metadata, or_empty(m.meta), or_empty(m.reference), m.message)
}

/// `items` are the items of the markers `ms` of file `file`, in order.
pub open spec fn items_fit(items: Seq<TodoItem>, file: Seq<char>, ms: Seq<(int, LineMatch)>) -> bool {
    &&& items.len() == ms.len()
    &&& forall|k: int| 0 <= k < ms.len() ==> #[trigger] item_fits(items[k], file, ms, k)
}

proof fn lemma_count_same_push(ms: Seq<(int, LineMatch)>, x: (int, LineMatch), k: int, j: int)
    requires
        0 <= j <= k < ms.len(),
    ensures
        count_same(ms.push(x), k, j) == count_same(ms, k, j),
    decreases j,
{
    if j > 0 {
        lemma_count_same_push(ms, x, k, j - 1);
    }
}

proof fn lemma_count_same_bound(ms: Seq<(int, LineMatch)>, k: int, j: int)
    requires
        0 <= j,
    ensures
        count_same(ms, k, j) <= j,
    decreases j,
{
    if j > 0 {
        lemma_count_same_bound(ms, k, j - 1);
    }
}

fn opt_string(o: &Option<Vec<char>>) -> (r: String)
    ensures
        r@ == or_empty(opt_chars(*o)),
{
    match o {
        Some(v) => string_of(v.clone()),
        None => string_of(Vec::new()),
    }
}

/// Extracts the marker items of one file, in line order. The comment syntax is looked
/// up by the caller from the file's extension; markers are recognized on every line.
pub fn extract_todos(relative_path: &str, content: &str, syntax: &CommentSyntax) -> (r: Vec<TodoItem>)
    ensures
        items_fit(r@, relative_path@, file_markers(content@)),
        forall|k: int| 0 <= k < r@.len() ==> no_edge_space(#[trigger] r@[k].message@),
{
    let chars = chars_of(content);
    let lines = split_lines(&chars);
    let words = tag_words();
    let ghost all = lines_of(content@);
    let ghost file = relative_path@;
    let mut items: Vec<TodoItem> = Vec::new();
    let mut idx: usize = 0;
    while idx < lines.len()
        invariant
            0 <= idx <= lines@.len(),
            lines@.len() == all.len(),
            all == lines_of(content@),
            file == relative_path@,
            forall|i: int| 0 <= i < lines@.len() ==> #[trigger] lines@[i]@ == all[i],
            words@.len() == 8,
            forall|k: int| 0 <= k < 8 ==> #[trigger] words@[k]@ == tag_name(all_tags()[k]),
            items_fit(items@, file, markers_in(all.subrange(0, idx as int))),
            forall|k: int| 0 <= k < items@.len() ==> no_edge_space(#[trigger] items@[k].message@),
        decreases lines@.len() - idx,
    {
        let ghost ms = markers_in(all.subrange(0, idx as int));
        proof {
            assert(all.subrange(0, idx + 1).drop_last() =~= all.subrange(0, idx as int));
            assert(all.subrange(0, idx + 1).last() == lines@[idx as int]@);
        }
        match match_line_exec(&lines[idx], &words) {
            None => {},
            Some(parts) => {
                let ghost m = match_line(lines@[idx as int]@)->0;
                let ghost ms2 = ms.push((idx as int, m));
                assert(markers_in(all.subrange(0, idx + 1)) == ms2);
                let message = string_of(parts.message.clone());
                let mut cnt: u64 = 0;
                let mut j: usize = 0;
                while j < items.len()
                    invariant
                        0 <= j <= items@.len(),
                        items@.len() == ms.len(),
                        ms2 == ms.push((idx as int, m)),
                        forall|k: int| 0 <= k < ms.len() ==> #[trigger] item_fits(items@[k], file, ms, k),
                        parts.tag == m.tag,
                        message@ == m.message,
                        cnt == count_same(ms2, ms.len() as int, j as int),
                        cnt <= j,
                        forall|k: int| 0 <= k < items@.len() ==> no_edge_space(#[trigger] items@[k].message@),
                    decreases items@.len() - j,
                {
                    assert(item_fits(items@[j as int], file, ms, j as int));
                    if items[j].tag == parts.tag && items[j].message == message {
                        cnt = cnt + 1;
                    }
                    j = j + 1;
                }
                let occ = (cnt % 0x1_0000_0000) as u32;
                let id = TodoItem::generate_id(relative_path, &parts.tag, message.as_str(), occ);
                let meta = opt_string(&parts.meta);
                let bref = opt_string(&parts.reference);
                let metadata = parse_metadata(meta.as_str(), bref.as_str(), message.as_str());
                let line = ((idx as u64 + 1) % 0x1_0000_0000) as u32;
                let item = TodoItem {
                    id,
                    tag: parts.tag,
                    file: relative_path.to_owned(),
                    line,
                    column: parts.column,
                    message,
                    metadata,
                };
                proof {
                    assert forall|k: int| 0 <= k < ms.len() implies #[trigger] item_fits(
                        items@.push(item)[k],
                        file,
                        ms2,
                        k,
                    ) by {
                        assert(item_fits(items@[k], file, ms, k));
                        lemma_count_same_push(ms, (idx as int, m), k, k);
                    }
                    assert(item_fits(items@.push(item)[ms.len() as int], file, ms2, ms.len() as int));
                    lemma_message_trimmed(lines@[idx as int]@);
                    assert forall|k: int| 0 <= k < items@.len() + 1 implies no_edge_space(
                        #[trigger] items@.push(item)[k].message@,
                    ) by {
                        if k < items@.len() {
                            assert(items@.push(item)[k] == items@[k]);
                        }
                    }
                }
                items.push(item);
            },
        }
        idx = idx + 1;
    }
    assert(all.subrange(0, idx as int) =~= all);
    items
}

/// The markers with their line indices moved down by `d`.
pub open spec fn shifted(ms: Seq<(int, LineMatch)>, d: int) -> Seq<(int, LineMatch)> {
    ms.map_values(|p: (int, LineMatch)| (p.0 + d, p.1))
}

proof fn lemma_markers_concat(a: Seq<Seq<char>>, b: Seq<Seq<char>>)
    ensures
        markers_in(a + b) == markers_in(a) + shifted(markers_in(b), a.len() as int),
    decreases b.len(),
{
    if b.len() == 0 {
        assert(a + b =~= a);
        assert(shifted(markers_in(b), a.len() as int) =~= Seq::<(int, LineMatch)>::empty());
        assert(markers_in(a) + shifted(markers_in(b), a.len() as int) =~= markers_in(a));
    } else {
        assert((a + b).drop_last() =~= a + b.drop_last());
        assert((a + b).last() == b.last());
        lemma_markers_concat(a, b.drop_last());
        let prev = markers_in(b.drop_last());
        match match_line(b.last()) {
            Some(m) => {
                assert(shifted(prev.push((b.len() - 1, m)), a.len() as int) =~= shifted(prev, a.len() as int).push(
                    (a.len() + b.len() - 1, m),
                ));
                assert(markers_in(a) + shifted(prev, a.len() as int).push((a.len() + b.len() - 1, m))
                    =~= (markers_in(a) + shifted(prev, a.len() as int)).push((a.len() + b.len() - 1, m)));
            },
            None => {},
        }
    }
}

proof fn lemma_no_markers(lines: Seq<Seq<char>>)
    requires
        forall|i: int| 0 <= i < lines.len() ==> match_line(#[trigger] lines[i]) is None,
    ensures
        markers_in(lines).len() == 0,
    decreases lines.len(),
{
    if lines.len() > 0 {
        assert(lines.last() == lines[lines.len() - 1]);
        lemma_no_markers(lines.drop_last());
    }
}

proof fn lemma_count_same_matches(m1: Seq<(int, LineMatch)>, m2: Seq<(int, LineMatch)>, k: int, j: int)
    requires
        m1.len() == m2.len(),
        0 <= k < m1.len(),
        j <= m1.len(),
        forall|i: int| 0 <= i < m1.len() ==> (#[trigger] m1[i]).1 == m2[i].1,
    ensures
        count_same(m1, k, j) == count_same(m2, k, j),
    decreases j,
{
    if j > 0 {
        lemma_count_same_matches(m1, m2, k, j - 1);
        assert(m1[j - 1].1 == m2[j - 1].1);
        assert(m1[k].1 == m2[k].1);
    }
}

/// Identity is stable under line drift: when the lines of a second text are those of a
/// first one with lines holding no marker inserted, both have the same markers with the
/// same ids; only the line numbers below the insertion move, by the number of lines
/// inserted.
pub proof fn lemma_ids_stable_under_inserted_lines(
    file: Seq<char>,
    content1: Seq<char>,
    content2: Seq<char>,
    before: Seq<Seq<char>>,
    extra: Seq<Seq<char>>,
    after: Seq<Seq<char>>,
)
    requires
        lines_of(content1) == before + after,
        lines_of(content2) == before + extra + after,
        forall|i: int| 0 <= i < extra.len() ==> match_line(#[trigger] extra[i]) is None,
    ensures
        ({
            let m1 = file_markers(content1);
            let m2 = file_markers(content2);
            &&& m1.len() == m2.len()
            &&& forall|k: int|
                0 <= k < m1.len() ==> {
                    &&& #[trigger] item_id(file, m2, k) == item_id(file, m1, k)
                    &&& m2[k].1 == m1[k].1
                    &&& m2[k].0 == if m1[k].0 < before.len() {
                        m1[k].0
                    } else {
                        m1[k].0 + extra.len()
                    }
                }
        }),
{
    let m1 = file_markers(content1);
    let m2 = file_markers(content2);
    lemma_markers_concat(before, after);
    lemma_markers_concat(before + extra, after);
    lemma_markers_concat(before, extra);
    lemma_no_markers(extra);
    let mb = markers_in(before);
    let ma = markers_in(after);
    assert(markers_in(before + extra) =~= mb);
    assert forall|k: int| 0 <= k < m1.len() implies (#[trigger] m1[k]).1 == m2[k].1 by {}
    assert forall|k: int| 0 <= k < m1.len() implies #[trigger] item_id(file, m2, k) == item_id(file, m1, k) by {
        lemma_count_same_matches(m1, m2, k, k);
    }
    assert forall|k: int| 0 <= k < m1.len() implies (#[trigger] m2[k]).0 == if m1[k].0 < before.len() {
        m1[k].0
    } else {
        m1[k].0 + extra.len()
    } by {
        if k < mb.len() {
            lemma_markers_index_bound(before, k);
        } else {
            lemma_markers_index_bound(after, k - mb.len());
        }
    }
}

proof fn lemma_markers_index_bound(lines: Seq<Seq<char>>, k: int)
    requires
        0 <= k < markers_in(lines).len(),
    ensures
        0 <= markers_in(lines)[k].0 < lines.len(),
    decreases lines.len(),
{
    let prev = markers_in(lines.drop_last());
    if k < prev.len() {
        lemma_markers_index_bound(lines.drop_last(), k);
    }
}

/// Extraction is reproducible: two extractions of the same file and content agree on
/// every item's id, tag, line, column and message, in order.
pub proof fn lemma_extraction_reproducible(
    file: Seq<char>,
    content: Seq<char>,
    r1: Seq<TodoItem>,
    r2: Seq<TodoItem>,
)
    requires
        items_fit(r1, file, file_markers(content)),
        items_fit(r2, file, file_markers(content)),
    ensures
        r1.len() == r2.len(),
        forall|k: int|
            0 <= k < r1.len() ==> {
                &&& (#[trigger] r1[k]).id@ == r2[k].id@
                &&& r1[k].tag == r2[k].tag
                &&& r1[k].line == r2[k].line
                &&& r1[k].column == r2[k].column
                &&& r1[k].message@ == r2[k].message@
            },
{
    let ms = file_markers(content);
    assert forall|k: int| 0 <= k < r1.len() implies {
        &&& (#[trigger] r1[k]).id@ == r2[k].id@
        &&& r1[k].tag == r2[k].tag
        &&& r1[k].line == r2[k].line
        &&& r1[k].column == r2[k].column
        &&& r1[k].message@ == r2[k].message@
    } by {
        assert(item_fits(r1[k], file, ms, k));
        assert(item_fits(r2[k], file, ms, k));
    }
}

/// Identity is stable under line drift, for text put in front: when `content2` is
/// whole lines without markers followed by `content1`, both have the same markers with
/// the same ids, each moved down by the number of lines put in front.
pub proof fn lemma_ids_stable_under_prefix(
    file: Seq<char>,
    content1: Seq<char>,
    content2: Seq<char>,
    prefix: Seq<char>,
)
    requires
        content2 == prefix + content1,
        prefix.len() == 0 || prefix.last() == '\n',
        forall|i: int| 0 <= i < lines_of(prefix).len() ==> match_line(#[trigger] lines_of(prefix)[i]) is None,
    ensures
        ({
            let m1 = file_markers(content1);
            let m2 = file_markers(content2);
            &&& m1.len() == m2.len()
            &&& forall|k: int|
                0 <= k < m1.len() ==> {
                    &&& #[trigger] item_id(file, m2, k) == item_id(file, m1, k)
                    &&& m2[k].1 == m1[k].1
                    &&& m2[k].0 == m1[k].0 + lines_of(prefix).len()
                }
        }),
{
    lemma_lines_concat(prefix, content1);
    let before = Seq::<Seq<char>>::empty();
    let extra = lines_of(prefix);
    let after = lines_of(content1);
    assert(lines_of(content1) =~= before + after);
    assert(lines_of(content2) =~= before + extra + after);
    lemma_ids_stable_under_inserted_lines(file, content1, content2, before, extra, after);
    let m1 = file_markers(content1);
    let m2 = file_markers(content2);
    assert forall|k: int| 0 <= k < m1.len() implies (#[trigger] m2[k]).0 == m1[k].0 + extra.len() by {
        lemma_markers_index_bound(after, k);
        assert(item_id(file, m2, k) == item_id(file, m1, k));
    }
}

} // verus!
