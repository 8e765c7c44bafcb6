//! Filters and summaries over scan results: by tag, by author, by age, and counts.
use vstd::prelude::*;

use crate::order::{lemma_text_le_antisymmetric, lemma_text_le_total, lemma_text_le_transitive, text_le, text_le_exec};
use crate::text::{chars_of, contains_exec, contains_text, to_upper, uppercase_of};
use crate::todo::{tag_name, TodoItem, TodoTag};

verus! {

/// The items of `items` that satisfy `keep`, in order.
pub open spec fn kept(items: Seq<TodoItem>, keep: spec_fn(TodoItem) -> bool) -> Seq<TodoItem>
    decreases items.len(),
{
    if items.len() == 0 {
        seq![]
    } else if keep(items.last()) {
        kept(items.drop_last(), keep).push(items.last())
    } else {
        kept(items.drop_last(), keep)
    }
}

/// The tag is named, ignoring case, by one of the words.
pub open spec fn tag_selected(t: TodoTag, words: Seq<String>) -> bool {
    exists|i: int| 0 <= i < words.len() && uppercase_of((#[trigger] words[i])@) == tag_name(t)
}

/// The item has an author containing `needle`.
pub open spec fn author_has(it: TodoItem, needle: Seq<char>) -> bool {
    match it.metadata.author {
        Some(a) => contains_text(a@, needle),
        None => false,
    }
}

/// Selection by tag words.
pub open spec fn by_tags(words: Seq<String>) -> spec_fn(TodoItem) -> bool {
    |it: TodoItem| tag_selected(it.tag, words)
}

/// Selection by author.
pub open spec fn by_author(needle: Seq<char>) -> spec_fn(TodoItem) -> bool {
    |it: TodoItem| author_has(it, needle)
}

/// Selection by age.
pub open spec fn by_age(days: u32, now: i64) -> spec_fn(TodoItem) -> bool {
    |it: TodoItem| older_than(it, days, now)
}

/// Whole days from `from` to `to` (seconds), truncated toward zero.
pub open spec fn whole_days(from: i64, to: i64) -> int {
    let d = to - from;
    if d >= 0 {
        d / 86400
    } else {
        -((-d) / 86400)
    }
}

/// The item's attributed date lies more than `days` whole days before `now`.
pub open spec fn older_than(it: TodoItem, days: u32, now: i64) -> bool {
    match it.metadata.blame {
        Some(b) => whole_days(b.date, now) > days,
        None => false,
    }
}

fn reversed(v: Vec<TodoItem>) -> (r: Vec<TodoItem>)
    ensures
        r@ == v@.reverse(),
{
    let ghost all = v@;
    let mut rest = v;
    let mut out: Vec<TodoItem> = Vec::new();
    while rest.len() > 0
        invariant
            all == rest@ + out@.reverse(),
        decreases rest@.len(),
    {
        let ghost r0 = rest@;
        let it = rest.pop().unwrap();
        proof {
            assert(r0 =~= rest@.push(it));
            assert(out@.push(it).reverse() =~= seq![it] + out@.reverse());
            assert(rest@ + out@.push(it).reverse() =~= r0 + out@.reverse());
        }
        out.push(it);
    }
    assert(all =~= out@.reverse());
    assert(out@ =~= out@.reverse().reverse());
    out
}

proof fn lemma_step(all: Seq<TodoItem>, p: int, keep: spec_fn(TodoItem) -> bool)
    requires
        0 <= p < all.len(),
    ensures
        kept(all.subrange(0, p + 1), keep) == if keep(all[p]) {
            kept(all.subrange(0, p), keep).push(all[p])
        } else {
            kept(all.subrange(0, p), keep)
        },
{
    assert(all.subrange(0, p + 1).drop_last() =~= all.subrange(0, p));
}

proof fn lemma_rev_last(all: Seq<TodoItem>, rev: Seq<TodoItem>, p: int)
    requires
        0 <= p < all.len(),
        rev == all.subrange(p, all.len() as int).reverse(),
    ensures
        rev.len() > 0,
        rev.last() == all[p],
        rev.drop_last() == all.subrange(p + 1, all.len() as int).reverse(),
{
    assert(rev.drop_last() =~= all.subrange(p + 1, all.len() as int).reverse());
}

/// Keeps the items whose tag is named by one of `severity` (ignoring case); keeps all
/// items when `severity` is empty.
pub fn filter_by_tags(items: Vec<TodoItem>, severity: &Vec<String>) -> (r: Vec<TodoItem>)
    ensures
        r@ == if severity@.len() == 0 {
            items@
        } else {
            kept(items@, by_tags(severity@))
        },
{
    if severity.len() == 0 {
        return items;
    }
    let mut upper: Vec<String> = Vec::new();
    let mut i: usize = 0;
    while i < severity.len()
        invariant
            0 <= i <= severity@.len(),
            upper@.len() == i,
            forall|j: int| 0 <= j < i ==> #[trigger] upper@[j]@ == uppercase_of(severity@[j]@),
        decreases severity@.len() - i,
    {
        upper.push(to_upper(severity[i].as_str()));
        i = i + 1;
    }
    let ghost keep = by_tags(severity@);
    let ghost all = items@;
    let mut rev = reversed(items);
    assert(all.subrange(0, all.len() as int) =~= all);
    let mut out: Vec<TodoItem> = Vec::new();
    while rev.len() > 0
        invariant
            rev@.len() <= all.len(),
            rev@ == all.subrange(all.len() - rev@.len(), all.len() as int).reverse(),
            out@ == kept(all.subrange(0, all.len() - rev@.len()), keep),
            keep == by_tags(severity@),
            upper@.len() == severity@.len(),
            forall|j: int| 0 <= j < upper@.len() ==> #[trigger] upper@[j]@ == uppercase_of(severity@[j]@),
        decreases rev@.len(),
    {
        let ghost p = all.len() - rev@.len();
        proof {
            lemma_rev_last(all, rev@, p);
            lemma_step(all, p, keep);
        }
        let it = rev.pop().unwrap();
        let name = it.tag.as_str().to_owned();
        let mut hit = false;
        let mut j: usize = 0;
        while j < upper.len()
            invariant
                0 <= j <= upper@.len(),
                upper@.len() == severity@.len(),
                forall|x: int| 0 <= x < upper@.len() ==> #[trigger] upper@[x]@ == uppercase_of(severity@[x]@),
                name@ == tag_name(it.tag),
                hit == exists|x: int| 0 <= x < j && uppercase_of((#[trigger] severity@[x])@) == tag_name(it.tag),
            decreases upper@.len() - j,
        {
            if upper[j] == name {
                hit = true;
            }
            j = j + 1;
        }
        assert(it == all[p]);
        assert(hit == keep(all[p]));
        if hit {
            out.push(it);
        }
    }
    out
}

/// Keeps the items whose author contains `author`; keeps all items when none is given.
pub fn filter_by_author(items: Vec<TodoItem>, author: &Option<String>) -> (r: Vec<TodoItem>)
    ensures
        r@ == match author {
            None => items@,
            Some(a) => kept(items@, by_author(a@)),
        },
{
    let needle = match author {
        None => {
            return items;
        },
        Some(a) => chars_of(a.as_str()),
    };
    let ghost keep = by_author(needle@);
    let ghost all = items@;
    let mut rev = reversed(items);
    assert(all.subrange(0, all.len() as int) =~= all);
    let mut out: Vec<TodoItem> = Vec::new();
    while rev.len() > 0
        invariant
            rev@.len() <= all.len(),
            rev@ == all.subrange(all.len() - rev@.len(), all.len() as int).reverse(),
            out@ == kept(all.subrange(0, all.len() - rev@.len()), keep),
            keep == by_author(needle@),
        decreases rev@.len(),
    {
        let ghost p = all.len() - rev@.len();
        proof {
            lemma_rev_last(all, rev@, p);
            lemma_step(all, p, keep);
        }
        let it = rev.pop().unwrap();
        let hit = match &it.metadata.author {
            Some(a) => contains_exec(&chars_of(a.as_str()), &needle),
            None => false,
        };
        assert(it == all[p]);
        assert(hit == keep(all[p]));
        if hit {
            out.push(it);
        }
    }
    assert(all.subrange(0, all.len() as int) =~= all);
    out
}

/// Keeps the items whose attributed date is more than `stale_days` whole days before
/// `now` (seconds since 1970-01-01 UTC); keeps all items when no threshold is given.
pub fn filter_stale(items: Vec<TodoItem>, stale_days: Option<u32>, now: i64) -> (r: Vec<TodoItem>)
    ensures
        r@ == match stale_days {
            None => items@,
            Some(d) => kept(items@, by_age(d, now)),
        },
{
    let days = match stale_days {
        None => {
            return items;
        },
        Some(d) => d,
    };
    let ghost keep = by_age(days, now);
    let ghost all = items@;
    let mut rev = reversed(items);
    assert(all.subrange(0, all.len() as int) =~= all);
    let mut out: Vec<TodoItem> = Vec::new();
    while rev.len() > 0
        invariant
            rev@.len() <= all.len(),
            rev@ == all.subrange(all.len() - rev@.len(), all.len() as int).reverse(),
            out@ == kept(all.subrange(0, all.len() - rev@.len()), keep),
            keep == by_age(days, now),
        decreases rev@.len(),
    {
        let ghost p = all.len() - rev@.len();
        proof {
            lemma_rev_last(all, rev@, p);
            lemma_step(all, p, keep);
        }
        let it = rev.pop().unwrap();
        let hit = match &it.metadata.blame {
            Some(b) => {
                let d: i128 = now as i128 - b.date as i128;
                let whole: i128 = if d >= 0 {
                    d / 86400
                } else {
                    -((-d) / 86400)
                };
                whole > days as i128
            },
            None => false,
        };
        assert(it == all[p]);
        assert(hit == keep(all[p]));
        if hit {
            out.push(it);
        }
    }
    out
}

/// The tags in the order of their words.
pub open spec fn tags_by_word() -> Seq<TodoTag> {
    seq![
        TodoTag::Bug,
        TodoTag::Fixme,
        TodoTag::Hack,
        TodoTag::Note,
        TodoTag::Optimize,
        TodoTag::Safety,
        TodoTag::Todo,
        TodoTag::Xxx,
    ]
}

/// Number of items with tag `t`.
pub open spec fn tag_count(items: Seq<TodoItem>, t: TodoTag) -> nat
    decreases items.len(),
{
    if items.len() == 0 {
        0
    } else {
        tag_count(items.drop_last(), t) + if items.last().tag == t {
            1nat
        } else {
            0nat
        }
    }
}

/// (tag, count) for the tags among `tags` that occur, in that order.
pub open spec fn tag_summary(items: Seq<TodoItem>, tags: Seq<TodoTag>) -> Seq<(TodoTag, nat)>
    decreases tags.len(),
{
    if tags.len() == 0 {
        seq![]
    } else if tag_count(items, tags.last()) > 0 {
        tag_summary(items, tags.drop_last()).push((tags.last(), tag_count(items, tags.last())))
    } else {
        tag_summary(items, tags.drop_last())
    }
}

fn tag_by_word_index(k: usize) -> (r: TodoTag)
    requires
        k < 8,
    ensures
        r == tags_by_word()[k as int],
{
    match k {
        0 => TodoTag::Bug,
        1 => TodoTag::Fixme,
        2 => TodoTag::Hack,
        3 => TodoTag::Note,
        4 => TodoTag::Optimize,
        5 => TodoTag::Safety,
        6 => TodoTag::Todo,
        _ => TodoTag::Xxx,
    }
}

/// Count of items per tag, for the tags that occur, ordered by tag word.
pub fn tag_counts(items: &Vec<TodoItem>) -> (r: Vec<(TodoTag, usize)>)
    ensures
        r@.len() == tag_summary(items@, tags_by_word()).len(),
        forall|i: int| 0 <= i < r@.len() ==> (#[trigger] r@[i]).0 == tag_summary(items@, tags_by_word())[i].0
            && r@[i].1 == tag_summary(items@, tags_by_word())[i].1,
{
    let mut out: Vec<(TodoTag, usize)> = Vec::new();
    let mut k: usize = 0;
    while k < 8
        invariant
            0 <= k <= 8,
            out@.len() == tag_summary(items@, tags_by_word().subrange(0, k as int)).len(),
            forall|i: int| 0 <= i < out@.len() ==> (#[trigger] out@[i]).0 == tag_summary(items@, tags_by_word().subrange(0, k as int))[i].0
                && out@[i].1 == tag_summary(items@, tags_by_word().subrange(0, k as int))[i].1,
        decreases 8 - k,
    {
        let t = tag_by_word_index(k);
        let mut n: usize = 0;
        let mut j: usize = 0;
        while j < items.len()
            invariant
                0 <= j <= items@.len(),
                n == tag_count(items@.subrange(0, j as int), t),
                n <= j,
            decreases items@.len() - j,
        {
            proof {
                assert(items@.subrange(0, j + 1).drop_last() =~= items@.subrange(0, j as int));
            }
            if items[j].tag == t {
                n = n + 1;
            }
            j = j + 1;
        }
        assert(items@.subrange(0, j as int) =~= items@);
        proof {
            assert(tags_by_word().subrange(0, k + 1).drop_last() =~= tags_by_word().subrange(0, k as int));
        }
        if n > 0 {
            out.push((t, n));
        }
        k = k + 1;
    }
    assert(tags_by_word().subrange(0, 8) =~= tags_by_word());
    out
}

/// The author an item is counted under: its author, or `unknown`.
pub open spec fn author_key(it: TodoItem) -> Seq<char> {
    match it.metadata.author {
        Some(a) => a@,
        None => "unknown"@,
    }
}

/// Number of items counted under author `a`.
pub open spec fn author_count(items: Seq<TodoItem>, a: Seq<char>) -> nat
    decreases items.len(),
{
    if items.len() == 0 {
        0
    } else {
        author_count(items.drop_last(), a) + if author_key(items.last()) == a {
            1nat
        } else {
            0nat
        }
    }
}

proof fn lemma_author_count_witness(items: Seq<TodoItem>, a: Seq<char>)
    requires
        author_count(items, a) > 0,
    ensures
        exists|k: int| 0 <= k < items.len() && author_key(#[trigger] items[k]) == a,
    decreases items.len(),
{
    if author_key(items.last()) != a {
        lemma_author_count_witness(items.drop_last(), a);
        let k = choose|k: int| 0 <= k < items.drop_last().len() && author_key(#[trigger] items.drop_last()[k]) == a;
        assert(items[k] == items.drop_last()[k]);
    } else {
        assert(items[items.len() - 1] == items.last());
    }
}

/// Some entry is named `a`.
pub open spec fn listed(r: Seq<(String, usize)>, a: Seq<char>) -> bool {
    exists|i: int| 0 <= i < r.len() && r[i].0@ == a
}

/// Count of items per author (`unknown` when none is known), ordered by author name.
pub fn author_counts(items: &Vec<TodoItem>) -> (r: Vec<(String, usize)>)
    ensures
        forall|i: int, j: int|
            0 <= i < j < r@.len() ==> text_le((#[trigger] r@[i]).0@, (#[trigger] r@[j]).0@) && r@[i].0@
                != r@[j].0@,
        forall|i: int|
            0 <= i < r@.len() ==> (#[trigger] r@[i]).1 == author_count(items@, r@[i].0@) && r@[i].1 > 0,
        forall|k: int| 0 <= k < items@.len() ==> listed(r@, author_key(#[trigger] items@[k])),
{
    let mut out: Vec<(String, usize)> = Vec::new();
    let mut k: usize = 0;
    while k < items.len()
        invariant
            0 <= k <= items@.len(),
            forall|i: int, j: int|
                0 <= i < j < out@.len() ==> text_le((#[trigger] out@[i]).0@, (#[trigger] out@[j]).0@)
                    && out@[i].0@ != out@[j].0@,
            forall|i: int|
                0 <= i < out@.len() ==> (#[trigger] out@[i]).1 == author_count(items@.subrange(0, k as int), out@[i].0@)
                    && out@[i].1 > 0 && out@[i].1 <= k,
            forall|x: int| 0 <= x < k ==> listed(out@, author_key(#[trigger] items@[x])),
        decreases items@.len() - k,
    {
        let ghost pre = items@.subrange(0, k as int);
        let ghost post = items@.subrange(0, k + 1);
        let key: String = match &items[k].metadata.author {
            Some(a) => a.clone(),
            None => "unknown".to_owned(),
        };
        let ghost x = key@;
        assert(x == author_key(items@[k as int]));
        assert(post.drop_last() =~= pre);
        assert(post.last() == items@[k as int]);
        assert forall|a: Seq<char>| #[trigger] author_count(post, a) == author_count(pre, a) + if a == x { 1nat } else { 0nat } by {}
        let kc = chars_of(key.as_str());
        let mut j: usize = 0;
        while j < out.len() && !(out[j].0 == key) && text_le_exec(&chars_of(out[j].0.as_str()), &kc)
            invariant
                0 <= j <= out@.len(),
                kc@ == x,
                key@ == x,
                forall|y: int| 0 <= y < j ==> text_le((#[trigger] out@[y]).0@, x) && out@[y].0@ != x,
            decreases out@.len() - j,
        {
            j = j + 1;
        }
        let ghost o0 = out@;
        if j < out.len() && out[j].0 == key {
            let name = out[j].0.clone();
            let c = out[j].1;
            out.set(j, (name, c + 1));
            proof {
                assert forall|i: int| 0 <= i < out@.len() implies (#[trigger] out@[i]).1 == author_count(post, out@[i].0@)
                    && out@[i].1 > 0 && out@[i].1 <= k + 1 by {
                    if i != j {
                        assert(out@[i] == o0[i]);
                        if i < j {
                            assert(o0[i].0@ != o0[j as int].0@);
                        } else {
                            assert(o0[j as int].0@ != o0[i].0@);
                        }
                    }
                }
                assert forall|i: int, y: int| 0 <= i < y < out@.len() implies text_le((#[trigger] out@[i]).0@, (#[trigger] out@[y]).0@)
                    && out@[i].0@ != out@[y].0@ by {
                    assert(o0[i].0@ == out@[i].0@ && o0[y].0@ == out@[y].0@);
                }
                assert forall|z: int| 0 <= z < k + 1 implies listed(out@, author_key(#[trigger] items@[z])) by {
                    if z < k {
                        let i0 = choose|i: int| 0 <= i < o0.len() && o0[i].0@ == author_key(items@[z]);
                        assert(out@[i0].0@ == o0[i0].0@);
                    } else {
                        assert(out@[j as int].0@ == x);
                    }
                }
            }
        } else {
            proof {
                if author_count(pre, x) > 0 {
                    lemma_author_count_witness(pre, x);
                    let z = choose|z: int| 0 <= z < pre.len() && author_key(#[trigger] pre[z]) == x;
                    assert(pre[z] == items@[z]);
                    assert(listed(o0, author_key(items@[z])));
                    let i0 = choose|i: int| 0 <= i < o0.len() && o0[i].0@ == author_key(items@[z]);
                    if i0 < j {
                    } else if i0 == j {
                    } else {
                        lemma_text_le_total(o0[j as int].0@, x);
                        assert(text_le(o0[j as int].0@, o0[i0].0@));
                        lemma_text_le_antisymmetric(o0[j as int].0@, x);
                    }
                }
                if j < o0.len() {
                    lemma_text_le_total(o0[j as int].0@, x);
                }
            }
            out.insert(j, (key, 1));
            proof {
                assert(out@ == o0.insert(j as int, (key, 1usize)));
                assert forall|i: int, y: int| 0 <= i < y < out@.len() implies text_le((#[trigger] out@[i]).0@, (#[trigger] out@[y]).0@)
                    && out@[i].0@ != out@[y].0@ by {
                    if y < j {
                        assert(out@[i] == o0[i] && out@[y] == o0[y]);
                    } else if y == j {
                        assert(out@[i] == o0[i]);
                    } else if i == j {
                        assert(out@[y] == o0[y - 1]);
                        assert(text_le(x, o0[j as int].0@) && x != o0[j as int].0@);
                        if y - 1 > j {
                            lemma_text_le_transitive(x, o0[j as int].0@, o0[y - 1].0@);
                            if x == o0[y - 1].0@ {
                                lemma_text_le_antisymmetric(x, o0[j as int].0@);
                            }
                        }
                    } else if i < j {
                        assert(out@[i] == o0[i] && out@[y] == o0[y - 1]);
                    } else {
                        assert(out@[i] == o0[i - 1] && out@[y] == o0[y - 1]);
                    }
                }
                assert forall|i: int| 0 <= i < out@.len() implies (#[trigger] out@[i]).1 == author_count(post, out@[i].0@)
                    && out@[i].1 > 0 && out@[i].1 <= k + 1 by {
                    if i < j {
                        assert(out@[i] == o0[i]);
                    } else if i > j {
                        assert(out@[i] == o0[i - 1]);
                    }
                }
                assert forall|z: int| 0 <= z < k + 1 implies listed(out@, author_key(#[trigger] items@[z])) by {
                    if z < k {
                        let i0 = choose|i: int| 0 <= i < o0.len() && o0[i].0@ == author_key(items@[z]);
                        if i0 < j {
                            assert(out@[i0] == o0[i0]);
                        } else {
                            assert(out@[i0 + 1] == o0[i0]);
                        }
                    } else {
                        assert(out@[j as int].0@ == x);
                    }
                }
            }
        }
        k = k + 1;
    }
    assert(items@.subrange(0, k as int) =~= items@);
    out
}

} // verus!
