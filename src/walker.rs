//! Which discovered files are scanned: exclude and inclusion patterns.
use vstd::prelude::*;

use crate::config::Config;
use crate::text::{
    chars_of, contains_exec, contains_text, ends_with_exec, ends_with_text, slice_chars,
};

verus! {

/// First index `i >= from` where `**` starts.
pub open spec fn find_double_star(s: Seq<char>, from: int) -> Option<int>
    decreases s.len() - from,
{
    if from < 0 || from + 1 >= s.len() {
        None
    } else if s[from] == '*' && s[from + 1] == '*' {
        Some(from)
    } else {
        find_double_star(s, from + 1)
    }
}

/// `s` without its trailing `/` characters.
pub open spec fn trim_end_slashes(s: Seq<char>) -> Seq<char>
    decreases s.len(),
{
    if s.len() > 0 && s.last() == '/' {
        trim_end_slashes(s.drop_last())
    } else {
        s
    }
}

/// `s` without its leading `/` characters.
pub open spec fn trim_start_slashes(s: Seq<char>) -> Seq<char>
    decreases s.len(),
{
    if s.len() > 0 && s[0] == '/' {
        trim_start_slashes(s.drop_first())
    } else {
        s
    }
}

/// Glob matching. A pattern with exactly one `**` matches paths that contain the part
/// before it (trailing `/` dropped) and end with the part after it (leading `/`
/// dropped); an empty part constrains nothing. Otherwise `*.ext` matches paths ending
/// in `.ext`, and any other pattern matches paths that contain it.
pub open spec fn glob_matches(pattern: Seq<char>, path: Seq<char>) -> bool {
    let star = find_double_star(pattern, 0);
    if star is Some && find_double_star(pattern, star->0 + 2) is None {
        let prefix = trim_end_slashes(pattern.subrange(0, star->0));
        let suffix = trim_start_slashes(pattern.subrange(star->0 + 2, pattern.len() as int));
        (prefix.len() == 0 || contains_text(path, prefix)) && (suffix.len() == 0
            || ends_with_text(path, suffix))
    } else if pattern.len() >= 2 && pattern[0] == '*' && pattern[1] == '.' {
        ends_with_text(path, pattern.subrange(1, pattern.len() as int))
    } else {
        contains_text(path, pattern)
    }
}

proof fn lemma_double_star_bounds(s: Seq<char>, from: int)
    requires
        find_double_star(s, from) is Some,
    ensures
        from <= find_double_star(s, from)->0,
        find_double_star(s, from)->0 + 2 <= s.len(),
    decreases s.len() - from,
{
    if !(s[from] == '*' && s[from + 1] == '*') {
        lemma_double_star_bounds(s, from + 1);
    }
}

fn find_double_star_exec(s: &Vec<char>, from: usize) -> (r: Option<usize>)
    ensures
        r is None <==> find_double_star(s@, from as int) is None,
        r is Some ==> find_double_star(s@, from as int) == Some(r->0 as int) && r->0 + 2
            <= s@.len(),
{
    let mut i = from;
    while i < s.len() && i + 1 < s.len()
        invariant
            from <= i,
            find_double_star(s@, from as int) == find_double_star(s@, i as int),
        decreases s@.len() - i,
    {
        if s[i] == '*' && s[i + 1] == '*' {
            return Some(i);
        }
        i = i + 1;
    }
    None
}

fn trim_end_slashes_exec(s: Vec<char>) -> (r: Vec<char>)
    ensures
        r@ == trim_end_slashes(s@),
    decreases s@.len(),
{
    let mut s = s;
    let ghost s0 = s@;
    if s.len() > 0 && s[s.len() - 1] == '/' {
        s.pop();
        assert(s@ =~= s0.drop_last());
        trim_end_slashes_exec(s)
    } else {
        s
    }
}

fn trim_start_slashes_exec(s: &Vec<char>) -> (r: Vec<char>)
    ensures
        r@ == trim_start_slashes(s@),
{
    let mut i: usize = 0;
    assert(s@.subrange(0, s@.len() as int) =~= s@);
    while i < s.len() && s[i] == '/'
        invariant
            0 <= i <= s@.len(),
            trim_start_slashes(s@) == trim_start_slashes(s@.subrange(i as int, s@.len() as int)),
        decreases s@.len() - i,
    {
        assert(s@.subrange(i as int, s@.len() as int).drop_first() =~= s@.subrange(i + 1, s@.len() as int));
        i = i + 1;
    }
    slice_chars(s, i, s.len())
}

/// Whether `path` matches the glob `pattern`.
pub fn glob_match(pattern: &str, path: &str) -> (r: bool)
    ensures
        r == glob_matches(pattern@, path@),
{
    let p = chars_of(pattern);
    let s = chars_of(path);
    if let Some(star) = find_double_star_exec(&p, 0) {
        if find_double_star_exec(&p, star + 2).is_none() {
            let prefix = trim_end_slashes_exec(slice_chars(&p, 0, star));
            let suffix = trim_start_slashes_exec(&slice_chars(&p, star + 2, p.len()));
            return (prefix.len() == 0 || contains_exec(&s, &prefix)) && (suffix.len() == 0
                || ends_with_exec(&s, &suffix));
        }
    }
    if p.len() >= 2 && p[0] == '*' && p[1] == '.' {
        ends_with_exec(&s, &slice_chars(&p, 1, p.len()))
    } else {
        contains_exec(&s, &p)
    }
}

/// A path is scanned when no exclude pattern matches it and, if inclusion patterns are
/// given and nonempty, at least one of them matches.
pub open spec fn scanned(path: Seq<char>, exclude: Seq<String>, includes: Option<Vec<String>>) -> bool {
    &&& forall|i: int| 0 <= i < exclude.len() ==> !glob_matches(#[trigger] exclude[i]@, path)
    &&& match includes {
        None => true,
        Some(inc) => inc@.len() == 0 || exists|i: int|
            0 <= i < inc@.len() && glob_matches(#[trigger] inc@[i]@, path),
    }
}

fn any_match(patterns: &Vec<String>, path: &str) -> (r: bool)
    ensures
        r == exists|i: int| 0 <= i < patterns@.len() && glob_matches(#[trigger] patterns@[i]@, path@),
{
    let mut i: usize = 0;
    while i < patterns.len()
        invariant
            0 <= i <= patterns@.len(),
            forall|j: int| 0 <= j < i ==> !glob_matches(#[trigger] patterns@[j]@, path@),
        decreases patterns@.len() - i,
    {
        if glob_match(patterns[i].as_str(), path) {
            return true;
        }
        i = i + 1;
    }
    false
}

/// Whether a file is scanned under the configuration's exclude and inclusion patterns.
pub fn should_scan(path: &str, config: &Config) -> (r: bool)
    ensures
        r == scanned(path@, config.exclude@, config.includes),
{
    if any_match(&config.exclude, path) {
        return false;
    }
    match &config.includes {
        Some(inc) => {
            if inc.len() > 0 {
                return any_match(inc, path);
            }
            true
        },
        None => true,
    }
}

} // verus!
