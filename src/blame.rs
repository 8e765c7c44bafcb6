//! Line attribution: parsing the revision-control tool's porcelain output, and
//! attaching attribution to items.
//!
//! The output is a series of blocks. A line starting with 40 hex digits begins a block
//! and names its commit (its first word); `author `, `author-mail ` and `author-time `
//! lines give the author, the email (angle brackets dropped) and the time (unparsable
//! times count as 0); a line starting with a tab is the attributed source line and
//! ends the block, yielding one entry per source line in order.
use vstd::prelude::*;

use crate::extractor::opt_view;
use crate::text::{
    chars_of, is_space, lines_of, slice_chars, space, split_lines, starts_with_exec,
    starts_with_text, string_of,
};
use crate::todo::{BlameInfo, TodoItem};

verus! {

pub open spec fn is_hex(c: char) -> bool {
    let u = c as u32;
    (48 <= u <= 57) || (65 <= u <= 70) || (97 <= u <= 102)
}

/// A line that begins a block: at least 40 characters, the first 40 hex digits.
pub open spec fn commit_line(l: Seq<char>) -> bool {
    l.len() >= 40 && forall|i: int| 0 <= i < 40 ==> is_hex(#[trigger] l[i])
}

/// First index at or after `i` holding whitespace (or the length).
pub open spec fn word_end(l: Seq<char>, i: int) -> int
    decreases l.len() - i,
{
    if i < 0 || i >= l.len() || is_space(l[i]) {
        i
    } else {
        word_end(l, i + 1)
    }
}

/// `s` without leading and trailing `<` and `>`.
pub open spec fn trim_angles(s: Seq<char>) -> Seq<char>
    decreases s.len(),
{
    if s.len() > 0 && (s[0] == '<' || s[0] == '>') {
        trim_angles(s.drop_first())
    } else if s.len() > 0 && (s.last() == '<' || s.last() == '>') {
        trim_angles(s.drop_last())
    } else {
        s
    }
}

pub open spec fn is_digit(c: char) -> bool {
    48 <= (c as u32) <= 57
}

/// Value of a run of decimal digits.
pub open spec fn digits_value(s: Seq<char>) -> int
    decreases s.len(),
{
    if s.len() == 0 {
        0
    } else {
        digits_value(s.drop_last()) * 10 + ((s.last() as u32) - 48)
    }
}

/// What `i64::from_str` accepts: an optional `+` or `-`, then one or more ASCII
/// digits, with a value in range.
pub open spec fn parsed_i64(s: Seq<char>) -> Option<i64> {
    let neg = s.len() > 0 && s[0] == '-';
    let ds = if s.len() > 0 && (s[0] == '-' || s[0] == '+') { s.drop_first() } else { s };
    let v = if neg { -digits_value(ds) } else { digits_value(ds) };
    if ds.len() == 0 || !(forall|i: int| 0 <= i < ds.len() ==> is_digit(#[trigger] ds[i])) {
        None
    } else if i64::MIN <= v <= i64::MAX {
        Some(v as i64)
    } else {
        None
    }
}

/// Relies on `i64::from_str`: an optional sign followed by ASCII digits, in range.
#[verifier::external_body]
fn parse_i64(s: &str) -> (r: Option<i64>)
    ensures
        r == parsed_i64(s@),
{
    s.parse::<i64>().ok()
}

/// Seconds since 1970-01-01 UTC of chrono's earliest time, -262143-01-01 00:00:00.
pub const MIN_UTC_SECS: i64 = -8334601228800;

/// Seconds since 1970-01-01 UTC of chrono's latest whole second, 262142-12-31 23:59:59.
pub const MAX_UTC_SECS: i64 = 8210266876799;

/// Whether chrono can represent a time given in seconds since 1970-01-01 UTC: its dates
/// run from year -262143 to year 262142.
pub open spec fn utc_representable(secs: i64) -> bool {
    MIN_UTC_SECS <= secs <= MAX_UTC_SECS
}

/// Relies on chrono's `DateTime::from_timestamp`, which returns `None` exactly for times
/// outside the range its dates cover (`NaiveDate::MIN` to `NaiveDate::MAX`).
#[verifier::external_body]
fn representable(secs: i64) -> (r: bool)
    ensures
        r == utc_representable(secs),
{
    chrono::DateTime::from_timestamp(secs, 0).is_some()
}

/// One entry: author, email, commit, time in seconds.
pub struct Entry {
    pub author: Seq<char>,
    pub email: Seq<char>,
    pub commit: Seq<char>,
    pub date: i64,
}

/// What has been read so far: current commit, author, email and raw time, and the
/// entries yielded.
pub struct Parse {
    pub commit: Seq<char>,
    pub author: Seq<char>,
    pub email: Seq<char>,
    pub time: i64,
    pub entries: Seq<Entry>,
}

pub open spec fn after_prefix(l: Seq<char>, p: Seq<char>) -> Seq<char> {
    l.subrange(p.len() as int, l.len() as int)
}

/// One output line applied to the parse state.
pub open spec fn blame_step(st: Parse, l: Seq<char>) -> Parse {
    if commit_line(l) {
        Parse { commit: l.subrange(0, word_end(l, 0)), ..st }
    } else if starts_with_text(l, "author "@) {
        Parse { author: after_prefix(l, "author "@), ..st }
    } else if starts_with_text(l, "author-mail "@) {
        Parse { email: trim_angles(after_prefix(l, "author-mail "@)), ..st }
    } else if starts_with_text(l, "author-time "@) {
        Parse {
            time: match parsed_i64(after_prefix(l, "author-time "@)) {
                Some(t) => t,
                None => 0,
            },
            ..st
        }
    } else if l.len() > 0 && l[0] == '\t' {
        Parse {
            entries: st.entries.push(
                Entry {
                    author: st.author,
                    email: st.email,
                    commit: st.commit,
                    date: if utc_representable(st.time) { st.time } else { 0 },
                },
            ),
            ..st
        }
    } else {
        st
    }
}

/// The lines applied in order, from the empty state.
pub open spec fn blame_fold(lines: Seq<Seq<char>>) -> Parse
    decreases lines.len(),
{
    if lines.len() == 0 {
        Parse { commit: seq![], author: seq![], email: seq![], time: 0, entries: seq![] }
    } else {
        blame_step(blame_fold(lines.drop_last()), lines.last())
    }
}

pub open spec fn info_view(b: BlameInfo) -> Entry {
    Entry { author: b.author@, email: b.email@, commit: b.commit@, date: b.date }
}

pub open spec fn infos(v: Seq<BlameInfo>) -> Seq<Entry> {
    v.map_values(|b: BlameInfo| info_view(b))
}

fn commit_line_exec(l: &Vec<char>) -> (r: bool)
    ensures
        r == commit_line(l@),
{
    if l.len() < 40 {
        return false;
    }
    let mut i: usize = 0;
    while i < 40
        invariant
            0 <= i <= 40,
            l@.len() >= 40,
            forall|j: int| 0 <= j < i ==> is_hex(#[trigger] l@[j]),
        decreases 40 - i,
    {
        let u = l[i] as u32;
        if !((48 <= u && u <= 57) || (65 <= u && u <= 70) || (97 <= u && u <= 102)) {
            return false;
        }
        i = i + 1;
    }
    true
}

fn word_end_exec(l: &Vec<char>) -> (r: usize)
    ensures
        r == word_end(l@, 0),
        r <= l@.len(),
{
    let mut i: usize = 0;
    while i < l.len() && !space(l[i])
        invariant
            0 <= i <= l@.len(),
            word_end(l@, 0) == word_end(l@, i as int),
        decreases l@.len() - i,
    {
        i = i + 1;
    }
    i
}

fn trim_angles_exec(s: &Vec<char>) -> (r: Vec<char>)
    ensures
        r@ == trim_angles(s@),
{
    let mut lo: usize = 0;
    let mut hi: usize = s.len();
    assert(s@.subrange(0, s@.len() as int) =~= s@);
    while lo < hi && (s[lo] == '<' || s[lo] == '>')
        invariant
            0 <= lo <= hi == s@.len(),
            trim_angles(s@) == trim_angles(s@.subrange(lo as int, hi as int)),
        decreases hi - lo,
    {
        assert(s@.subrange(lo as int, hi as int).drop_first() =~= s@.subrange(lo + 1, hi as int));
        lo = lo + 1;
    }
    while lo < hi && (s[hi - 1] == '<' || s[hi - 1] == '>')
        invariant
            0 <= lo <= hi <= s@.len(),
            lo < hi ==> s@[lo as int] != '<' && s@[lo as int] != '>',
            trim_angles(s@) == trim_angles(s@.subrange(lo as int, hi as int)),
        decreases hi - lo,
    {
        assert(s@.subrange(lo as int, hi as int).drop_last() =~= s@.subrange(lo as int, hi - 1));
        hi = hi - 1;
    }
    slice_chars(s, lo, hi)
}

fn copy_info(b: &BlameInfo) -> (r: BlameInfo)
    ensures
        info_view(r) == info_view(*b),
{
    BlameInfo {
        author: b.author.clone(),
        email: b.email.clone(),
        commit: b.commit.clone(),
        date: b.date,
    }
}

/// Parses porcelain attribution output into one entry per attributed line, in order.
/// Empty output gives no entries.
pub fn parse_porcelain_blame(output: &str) -> (r: Vec<BlameInfo>)
    ensures
        infos(r@) == blame_fold(lines_of(output@)).entries,
{
    let chars = chars_of(output);
    let lines = split_lines(&chars);
    let ghost all = lines_of(output@);
    let p_author = chars_of("author ");
    let p_mail = chars_of("author-mail ");
    let p_time = chars_of("author-time ");
    let mut commit: Vec<char> = Vec::new();
    let mut author: Vec<char> = Vec::new();
    let mut email: Vec<char> = Vec::new();
    let mut time: i64 = 0;
    let mut out: Vec<BlameInfo> = Vec::new();
    let mut k: usize = 0;
    assert(all.subrange(0, 0) =~= Seq::<Seq<char>>::empty());
    assert(infos(out@) =~= Seq::<Entry>::empty());
    assert(commit@ =~= Seq::<char>::empty());
    assert(author@ =~= Seq::<char>::empty());
    assert(email@ =~= Seq::<char>::empty());
    while k < lines.len()
        invariant
            0 <= k <= lines@.len(),
            lines@.len() == all.len(),
            all == lines_of(output@),
            forall|i: int| 0 <= i < lines@.len() ==> #[trigger] lines@[i]@ == all[i],
            p_author@ == "author "@,
            p_mail@ == "author-mail "@,
            p_time@ == "author-time "@,
            blame_fold(all.subrange(0, k as int)) == (Parse {
                commit: commit@,
                author: author@,
                email: email@,
                time,
                entries: infos(out@),
            }),
        decreases lines@.len() - k,
    {
        let l = &lines[k];
        proof {
            assert(all.subrange(0, k + 1).drop_last() =~= all.subrange(0, k as int));
            assert(all.subrange(0, k + 1).last() == l@);
        }
        if commit_line_exec(l) {
            let e = word_end_exec(l);
            commit = slice_chars(l, 0, e);
        } else if starts_with_exec(l, &p_author) {
            author = slice_chars(l, p_author.len(), l.len());
        } else if starts_with_exec(l, &p_mail) {
            email = trim_angles_exec(&slice_chars(l, p_mail.len(), l.len()));
        } else if starts_with_exec(l, &p_time) {
            let t = string_of(slice_chars(l, p_time.len(), l.len()));
            time = match parse_i64(t.as_str()) {
                Some(v) => v,
                None => 0,
            };
        } else if l.len() > 0 && l[0] == '\t' {
            let date = if representable(time) {
                time
            } else {
                0
            };
            let info = BlameInfo {
                author: string_of(author.clone()),
                email: string_of(email.clone()),
                commit: string_of(commit.clone()),
                date,
            };
            let ghost before = infos(out@);
            out.push(info);
            assert(infos(out@) =~= before.push(info_view(info)));
        }
        k = k + 1;
    }
    assert(all.subrange(0, k as int) =~= all);
    out
}

/// The item after attribution of file `file` was applied: an item of that file whose
/// line has an entry gets the entry, and its author if it had none; every other item
/// is unchanged.
pub open spec fn blamed(before: TodoItem, after: TodoItem, file: Seq<char>, entries: Seq<Entry>) -> bool {
    let k = if before.line == 0 { 0 } else { before.line - 1 };
    if before.file@ == file && k < entries.len() {
        &&& after.metadata.blame is Some
        &&& info_view(after.metadata.blame->0) == entries[k]
        &&& opt_view(after.metadata.author) == if before.metadata.author is None {
            Some(entries[k].author)
        } else {
            opt_view(before.metadata.author)
        }
        &&& after.id == before.id
        &&& after.tag == before.tag
        &&& after.file == before.file
        &&& after.line == before.line
        &&& after.column == before.column
        &&& after.message == before.message
        &&& after.metadata.tickets == before.metadata.tickets
        &&& after.metadata.priority == before.metadata.priority
        &&& after.metadata.date == before.metadata.date
    } else {
        after == before
    }
}

/// Attaches the attribution of one file to the items of that file.
pub fn apply_blame(items: &mut Vec<TodoItem>, file: &str, blame: &Vec<BlameInfo>)
    ensures
        final(items)@.len() == old(items)@.len(),
        forall|i: int|
            0 <= i < old(items)@.len() ==> blamed(
                #[trigger] old(items)@[i],
                final(items)@[i],
                file@,
                infos(blame@),
            ),
{
    let f = file.to_owned();
    let mut i: usize = 0;
    while i < items.len()
        invariant
            0 <= i <= items@.len(),
            items@.len() == old(items)@.len(),
            f@ == file@,
            forall|j: int| 0 <= j < i ==> blamed(#[trigger] old(items)@[j], items@[j], file@, infos(blame@)),
            forall|j: int| i <= j < items@.len() ==> #[trigger] items@[j] == old(items)@[j],
        decreases items@.len() - i,
    {
        let line = items[i].line;
        let k: usize = if line == 0 {
            0
        } else {
            (line - 1) as usize
        };
        if items[i].file == f && k < blame.len() {
            let info = copy_info(&blame[k]);
            let fallback = blame[k].author.clone();
            assert(infos(blame@)[k as int] == info_view(blame@[k as int]));
            if items[i].metadata.author.is_none() {
                items[i].metadata.author = Some(fallback);
            }
            items[i].metadata.blame = Some(info);
        }
        i = i + 1;
    }
}

pub open spec fn file_texts(items: Seq<TodoItem>) -> Seq<Seq<char>> {
    items.map_values(|t: TodoItem| t.file@)
}

pub open spec fn string_texts(v: Seq<String>) -> Seq<Seq<char>> {
    v.map_values(|s: String| s@)
}

/// The first item of file `f` comes before every item of file `g`.
pub open spec fn first_before(items: Seq<TodoItem>, f: Seq<char>, g: Seq<char>) -> bool {
    exists|x: int|
        0 <= x < items.len() && items[x].file@ == f && forall|k: int| 0 <= k <= x ==> items[k].file@ != g
}

/// The distinct files of the items, in order of first appearance: one attribution query
/// per file.
pub fn blame_targets(items: &Vec<TodoItem>) -> (r: Vec<String>)
    ensures
        forall|f: Seq<char>| string_texts(r@).contains(f) <==> file_texts(items@).contains(f),
        string_texts(r@).no_duplicates(),
        forall|a: int, b: int|
            0 <= a < b < r@.len() ==> first_before(items@, (#[trigger] r@[a])@, (#[trigger] r@[b])@),
{
    let mut out: Vec<String> = Vec::new();
    let mut i: usize = 0;
    assert(string_texts(out@) =~= Seq::<Seq<char>>::empty());
    while i < items.len()
        invariant
            0 <= i <= items@.len(),
            forall|f: Seq<char>|
                string_texts(out@).contains(f) <==> file_texts(items@.subrange(0, i as int)).contains(f),
            forall|a: int, b: int|
                0 <= a < b < out@.len() ==> first_before(items@, (#[trigger] out@[a])@, (#[trigger] out@[b])@),
            string_texts(out@).no_duplicates(),
        decreases items@.len() - i,
    {
        let ghost cur = file_texts(items@.subrange(0, i as int));
        let ghost nxt = file_texts(items@.subrange(0, i + 1));
        assert(nxt =~= cur.push(items@[i as int].file@));
        let mut seen = false;
        let mut j: usize = 0;
        while j < out.len()
            invariant
                0 <= j <= out@.len(),
                i < items@.len(),
                seen ==> string_texts(out@).contains(items@[i as int].file@),
                !seen ==> forall|y: int| 0 <= y < j ==> string_texts(out@)[y] != items@[i as int].file@,
            decreases out@.len() - j,
        {
            assert(string_texts(out@)[j as int] == out@[j as int]@);
            if out[j] == items[i].file {
                seen = true;
            }
            j = j + 1;
        }
        let ghost before = string_texts(out@);
        if !seen {
            let ghost o0 = out@;
            let ghost f = items@[i as int].file@;
            proof {
                assert(!before.contains(f)) by {
                    if before.contains(f) {
                        let y = choose|y: int| 0 <= y < before.len() && before[y] == f;
                        assert(string_texts(o0)[y] == o0[y]@);
                    }
                }
                assert(!cur.contains(f));
                assert forall|k: int| 0 <= k < i implies items@[k].file@ != f by {
                    assert(cur[k] == items@[k].file@);
                }
            }
            out.push(items[i].file.clone());
            assert(string_texts(out@) =~= before.push(items@[i as int].file@));
            proof {
                assert forall|a: int, b: int| 0 <= a < b < out@.len() implies first_before(
                    items@,
                    (#[trigger] out@[a])@,
                    (#[trigger] out@[b])@,
                ) by {
                    if b < o0.len() {
                        assert(out@[a] == o0[a] && out@[b] == o0[b]);
                    } else {
                        assert(out@[a] == o0[a]);
                        assert(before[a] == o0[a]@);
                        assert(before.contains(o0[a]@));
                        assert(cur.contains(o0[a]@));
                        let x = choose|x: int| 0 <= x < cur.len() && cur[x] == o0[a]@;
                        assert(items@[x].file@ == o0[a]@);
                        assert(out@[b]@ == f);
                    }
                }
            }
        }
        assert forall|f: Seq<char>| string_texts(out@).contains(f) <==> nxt.contains(f) by {
            if nxt.contains(f) {
                let x = choose|x: int| 0 <= x < nxt.len() && nxt[x] == f;
                if x < cur.len() {
                    assert(cur[x] == f);
                    assert(before.contains(f));
                    if !seen {
                        let y = choose|y: int| 0 <= y < before.len() && before[y] == f;
                        assert(string_texts(out@)[y] == f);
                    }
                } else if !seen {
                    assert(string_texts(out@)[before.len() as int] == f);
                }
            }
            if string_texts(out@).contains(f) {
                let y = choose|y: int| 0 <= y < string_texts(out@).len() && string_texts(out@)[y] == f;
                if y < before.len() {
                    assert(before[y] == f);
                    assert(before.contains(f));
                    assert(cur.contains(f));
                    let x = choose|x: int| 0 <= x < cur.len() && cur[x] == f;
                    assert(nxt[x] == f);
                } else {
                    assert(nxt[cur.len() as int] == f);
                }
            }
        }
        i = i + 1;
    }
    assert(items@.subrange(0, i as int) =~= items@);
    out
}

} // verus!
