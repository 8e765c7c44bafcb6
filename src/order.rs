//! The order of scan output: by file path (component by component), then by line.
use vstd::prelude::*;
use vstd::seq_lib::{group_to_multiset_ensures, lemma_multiset_commutative};
use vstd::utf8::char_u32_cast;

use crate::text::chars_of;
use crate::todo::TodoItem;

verus! {

broadcast use group_to_multiset_ensures;

/// Rank of a character: its code plus one, except that `/` ranks below every other
/// character when `slash_low` holds.
pub open spec fn rank(c: char, slash_low: bool) -> int {
    if slash_low && c == '/' {
        0
    } else {
        c as u32 + 1
    }
}

/// Lexicographic order of texts by character rank.
pub open spec fn ranked_le(a: Seq<char>, b: Seq<char>, slash_low: bool) -> bool
    decreases a.len(),
{
    if a.len() == 0 {
        true
    } else if b.len() == 0 {
        false
    } else if a[0] != b[0] {
        rank(a[0], slash_low) < rank(b[0], slash_low)
    } else {
        ranked_le(a.drop_first(), b.drop_first(), slash_low)
    }
}

/// Lexicographic order of texts by character code (the order of `String`).
pub open spec fn text_le(a: Seq<char>, b: Seq<char>) -> bool {
    ranked_le(a, b, false)
}

/// Order of paths component by component (the order of `Path` for paths without
/// empty or `.` components): as texts, but with `/` before every other character.
pub open spec fn path_le(a: Seq<char>, b: Seq<char>) -> bool {
    ranked_le(a, b, true)
}

/// Items ordered by file path, then by line.
pub open spec fn key_le(x: TodoItem, y: TodoItem) -> bool {
    if x.file@ == y.file@ {
        x.line <= y.line
    } else {
        path_le(x.file@, y.file@)
    }
}

/// Every item is ordered before every later one.
pub open spec fn sorted_items(s: Seq<TodoItem>) -> bool {
    forall|i: int, j: int| 0 <= i < j < s.len() ==> key_le(#[trigger] s[i], #[trigger] s[j])
}

proof fn lemma_rank_injective(a: char, b: char, slash_low: bool)
    ensures
        rank(a, slash_low) == rank(b, slash_low) ==> a == b,
{
    char_u32_cast(a, a as u32);
    char_u32_cast(b, b as u32);
}

pub proof fn lemma_ranked_le_total(a: Seq<char>, b: Seq<char>, slash_low: bool)
    ensures
        ranked_le(a, b, slash_low) || ranked_le(b, a, slash_low),
    decreases a.len(),
{
    if a.len() > 0 && b.len() > 0 {
        lemma_rank_injective(a[0], b[0], slash_low);
        if a[0] == b[0] {
            lemma_ranked_le_total(a.drop_first(), b.drop_first(), slash_low);
        }
    }
}

pub proof fn lemma_ranked_le_antisymmetric(a: Seq<char>, b: Seq<char>, slash_low: bool)
    requires
        ranked_le(a, b, slash_low),
        ranked_le(b, a, slash_low),
    ensures
        a == b,
    decreases a.len(),
{
    if a.len() > 0 && b.len() > 0 {
        if a[0] == b[0] {
            lemma_ranked_le_antisymmetric(a.drop_first(), b.drop_first(), slash_low);
            assert(a =~= seq![a[0]] + a.drop_first());
            assert(b =~= seq![b[0]] + b.drop_first());
        }
    } else {
        assert(a =~= b);
    }
}

pub proof fn lemma_ranked_le_transitive(a: Seq<char>, b: Seq<char>, c: Seq<char>, slash_low: bool)
    requires
        ranked_le(a, b, slash_low),
        ranked_le(b, c, slash_low),
    ensures
        ranked_le(a, c, slash_low),
    decreases a.len(),
{
    if a.len() > 0 && b.len() > 0 && c.len() > 0 {
        lemma_rank_injective(a[0], c[0], slash_low);
        if a[0] == b[0] && b[0] == c[0] {
            lemma_ranked_le_transitive(a.drop_first(), b.drop_first(), c.drop_first(), slash_low);
        }
    }
}

pub proof fn lemma_text_le_total(a: Seq<char>, b: Seq<char>)
    ensures
        text_le(a, b) || text_le(b, a),
{
    lemma_ranked_le_total(a, b, false);
}

pub proof fn lemma_text_le_antisymmetric(a: Seq<char>, b: Seq<char>)
    requires
        text_le(a, b),
        text_le(b, a),
    ensures
        a == b,
{
    lemma_ranked_le_antisymmetric(a, b, false);
}

pub proof fn lemma_text_le_transitive(a: Seq<char>, b: Seq<char>, c: Seq<char>)
    requires
        text_le(a, b),
        text_le(b, c),
    ensures
        text_le(a, c),
{
    lemma_ranked_le_transitive(a, b, c, false);
}

pub proof fn lemma_key_le_total(x: TodoItem, y: TodoItem)
    ensures
        key_le(x, y) || key_le(y, x),
{
    lemma_ranked_le_total(x.file@, y.file@, true);
}

pub proof fn lemma_key_le_transitive(x: TodoItem, y: TodoItem, z: TodoItem)
    requires
        key_le(x, y),
        key_le(y, z),
    ensures
        key_le(x, z),
{
    if x.file@ != y.file@ && y.file@ != z.file@ {
        lemma_ranked_le_transitive(x.file@, y.file@, z.file@, true);
        if x.file@ == z.file@ {
            lemma_ranked_le_antisymmetric(x.file@, y.file@, true);
        }
    } else if x.file@ != y.file@ || y.file@ != z.file@ {
        if x.file@ == z.file@ {
            lemma_ranked_le_antisymmetric(x.file@, y.file@, true);
        }
    }
}

fn rank_exec(c: char, slash_low: bool) -> (r: u64)
    ensures
        r == rank(c, slash_low),
{
    if slash_low && c == '/' {
        0
    } else {
        c as u32 as u64 + 1
    }
}

fn ranked_le_exec(a: &Vec<char>, b: &Vec<char>, slash_low: bool) -> (r: bool)
    ensures
        r == ranked_le(a@, b@, slash_low),
{
    let mut i: usize = 0;
    assert(a@.subrange(0, a@.len() as int) =~= a@);
    assert(b@.subrange(0, b@.len() as int) =~= b@);
    loop
        invariant
            0 <= i <= a@.len(),
            i <= b@.len(),
            ranked_le(a@, b@, slash_low) == ranked_le(
                a@.subrange(i as int, a@.len() as int),
                b@.subrange(i as int, b@.len() as int),
                slash_low,
            ),
        decreases a@.len() - i,
    {
        if i == a.len() {
            return true;
        }
        if i == b.len() {
            return false;
        }
        if a[i] != b[i] {
            return rank_exec(a[i], slash_low) < rank_exec(b[i], slash_low);
        }
        assert(a@.subrange(i as int, a@.len() as int).drop_first() =~= a@.subrange(i + 1, a@.len() as int));
        assert(b@.subrange(i as int, b@.len() as int).drop_first() =~= b@.subrange(i + 1, b@.len() as int));
        i = i + 1;
    }
}

/// Whether `a` is ordered before or equal to `b` as texts.
pub fn text_le_exec(a: &Vec<char>, b: &Vec<char>) -> (r: bool)
    ensures
        r == text_le(a@, b@),
{
    ranked_le_exec(a, b, false)
}

/// Whether path `a` is ordered before or equal to path `b`, component by component.
pub fn path_le_exec(a: &Vec<char>, b: &Vec<char>) -> (r: bool)
    ensures
        r == path_le(a@, b@),
{
    ranked_le_exec(a, b, true)
}

/// Whether `x` is ordered before `y` (by file path, then line).
pub fn item_le(x: &TodoItem, y: &TodoItem) -> (r: bool)
    ensures
        r == key_le(*x, *y),
{
    if x.file == y.file {
        x.line <= y.line
    } else {
        path_le_exec(&chars_of(x.file.as_str()), &chars_of(y.file.as_str()))
    }
}

fn merge(a: Vec<TodoItem>, b: Vec<TodoItem>) -> (r: Vec<TodoItem>)
    requires
        sorted_items(a@),
        sorted_items(b@),
    ensures
        sorted_items(r@),
        r@.to_multiset() == a@.to_multiset().add(b@.to_multiset()),
{
    let ghost total = a@.to_multiset().add(b@.to_multiset());
    let mut a = a;
    let mut b = b;
    let mut rev: Vec<TodoItem> = Vec::new();
    while a.len() > 0 || b.len() > 0
        invariant
            sorted_items(a@),
            sorted_items(b@),
            forall|i: int, j: int| 0 <= i < j < rev@.len() ==> key_le(#[trigger] rev@[j], #[trigger] rev@[i]),
            forall|i: int, k: int| 0 <= i < rev@.len() && 0 <= k < a@.len() ==> key_le(#[trigger] a@[k], #[trigger] rev@[i]),
            forall|i: int, k: int| 0 <= i < rev@.len() && 0 <= k < b@.len() ==> key_le(#[trigger] b@[k], #[trigger] rev@[i]),
            rev@.to_multiset().add(a@.to_multiset()).add(b@.to_multiset()) == total,
        decreases a@.len() + b@.len(),
    {
        let take_b = if a.len() == 0 {
            true
        } else if b.len() == 0 {
            false
        } else {
            item_le(&a[a.len() - 1], &b[b.len() - 1])
        };
        let ghost a0 = a@;
        let ghost b0 = b@;
        let ghost r0 = rev@;
        if take_b {
            let x = b.pop().unwrap();
            proof {
                assert(b0 =~= b@.push(x));
                if a0.len() > 0 {
                    assert forall|k: int| 0 <= k < a0.len() implies key_le(#[trigger] a0[k], x) by {
                        if k < a0.len() - 1 {
                            lemma_key_le_transitive(a0[k], a0.last(), x);
                        }
                    }
                }
            }
            rev.push(x);
        } else {
            let x = a.pop().unwrap();
            proof {
                assert(a0 =~= a@.push(x));
                lemma_key_le_total(a0.last(), b0.last());
                assert forall|k: int| 0 <= k < b0.len() implies key_le(#[trigger] b0[k], x) by {
                    if k < b0.len() - 1 {
                        lemma_key_le_transitive(b0[k], b0.last(), x);
                    }
                }
            }
            rev.push(x);
        }
        proof {
            assert(rev@ =~= r0.push(rev@.last()));
        }
    }
    let mut out: Vec<TodoItem> = Vec::new();
    while rev.len() > 0
        invariant
            sorted_items(out@),
            forall|i: int, j: int| 0 <= i < j < rev@.len() ==> key_le(#[trigger] rev@[j], #[trigger] rev@[i]),
            forall|i: int, k: int| 0 <= i < out@.len() && 0 <= k < rev@.len() ==> key_le(#[trigger] out@[i], #[trigger] rev@[k]),
            out@.to_multiset().add(rev@.to_multiset()) == total,
        decreases rev@.len(),
    {
        let ghost r0 = rev@;
        let ghost o0 = out@;
        let x = rev.pop().unwrap();
        proof {
            assert(r0 =~= rev@.push(x));
        }
        out.push(x);
        proof {
            assert(out@ =~= o0.push(x));
        }
    }
    out
}

/// The items ordered by file path, then line.
pub fn sort_items(v: Vec<TodoItem>) -> (r: Vec<TodoItem>)
    ensures
        sorted_items(r@),
        r@.to_multiset() == v@.to_multiset(),
    decreases v@.len(),
{
    if v.len() <= 1 {
        return v;
    }
    let ghost all = v@;
    let mut left = v;
    let mid = left.len() / 2;
    let right = left.split_off(mid);
    proof {
        assert(all =~= left@ + right@);
        lemma_multiset_commutative(left@, right@);
    }
    let ls = sort_items(left);
    let rs = sort_items(right);
    merge(ls, rs)
}

/// All items of the batches, batch after batch.
pub open spec fn flat(batches: Seq<Vec<TodoItem>>) -> Seq<TodoItem> {
    batches.map_values(|b: Vec<TodoItem>| b@).flatten()
}

/// `r` is the merge of `batches`: all of their items, ordered by file path, then line.
pub open spec fn merged(batches: Seq<Vec<TodoItem>>, r: Seq<TodoItem>) -> bool {
    &&& sorted_items(r)
    &&& r.to_multiset() == flat(batches).to_multiset()
}

/// Merges per-file batches of items into one list ordered by file path, then line,
/// whatever the order in which the batches were produced.
pub fn merge_batches(batches: Vec<Vec<TodoItem>>) -> (r: Vec<TodoItem>)
    ensures
        merged(batches@, r@),
{
    let ghost bs = batches@;
    let mut all: Vec<TodoItem> = Vec::new();
    let mut rest = batches;
    let mut i: usize = 0;
    let n = rest.len();
    while i < n
        invariant
            0 <= i <= n,
            n == bs.len(),
            rest@.len() == n,
            forall|k: int| i <= k < n ==> #[trigger] rest@[k] == bs[k],
            all@ == bs.subrange(0, i as int).map_values(|b: Vec<TodoItem>| b@).flatten(),
        decreases n - i,
    {
        let mut b: Vec<TodoItem> = Vec::new();
        rest.set_and_swap(i, &mut b);
        let ghost bv = b@;
        proof {
            assert(bs.subrange(0, i + 1).map_values(|b: Vec<TodoItem>| b@) =~= bs.subrange(0, i as int).map_values(|b: Vec<TodoItem>| b@).push(bv));
            bs.subrange(0, i as int).map_values(|b: Vec<TodoItem>| b@).lemma_flatten_push(bv);
        }
        all.append(&mut b);
        i = i + 1;
    }
    assert(bs.subrange(0, n as int) =~= bs);
    sort_items(all)
}

/// Two items stand at the same file and line.
pub open spec fn same_place(x: TodoItem, y: TodoItem) -> bool {
    x.file@ == y.file@ && x.line == y.line
}

/// No two items stand at the same file and line.
pub open spec fn distinct_places(s: Seq<TodoItem>) -> bool {
    forall|i: int, j: int| 0 <= i < j < s.len() ==> !same_place(#[trigger] s[i], #[trigger] s[j])
}

proof fn lemma_index_of(s: Seq<TodoItem>, x: TodoItem) -> (i: int)
    requires
        s.to_multiset().count(x) > 0,
    ensures
        0 <= i < s.len(),
        s[i] == x,
{
    assert(s.contains(x));
    choose|i: int| 0 <= i < s.len() && s[i] == x
}

proof fn lemma_twice_counts_two(t: Seq<TodoItem>, i: int, j: int)
    requires
        0 <= i < j < t.len(),
        t[i] == t[j],
    ensures
        t.to_multiset().count(t[i]) >= 2,
{
    let x = t[i];
    let u = t.remove(i);
    assert(u[j - 1] == x);
    assert(u.contains(x));
    assert(u.to_multiset() =~= t.to_multiset().remove(x));
    assert(u.to_multiset().count(x) > 0);
    assert(t.contains(x));
    assert(t.to_multiset().count(x) > 0);
}

proof fn lemma_distinct_places_perm(s: Seq<TodoItem>, t: Seq<TodoItem>)
    requires
        s.to_multiset() == t.to_multiset(),
        distinct_places(s),
    ensures
        distinct_places(t),
{
    assert forall|i: int, j: int| 0 <= i < j < t.len() implies !same_place(#[trigger] t[i], #[trigger] t[j]) by {
        if same_place(t[i], t[j]) {
            assert(t.contains(t[i]));
            assert(t.contains(t[j]));
            let a = lemma_index_of(s, t[i]);
            if t[i] != t[j] {
                let b = lemma_index_of(s, t[j]);
                if a < b {
                    assert(same_place(s[a], s[b]));
                } else {
                    assert(same_place(s[b], s[a]));
                }
            } else {
                lemma_twice_counts_two(t, i, j);
                let x = t[i];
                let u = s.remove(a);
                assert(u.to_multiset() =~= s.to_multiset().remove(x));
                let b0 = lemma_index_of(u, x);
                let b = if b0 < a { b0 } else { b0 + 1 };
                assert(s[b] == x);
                if a < b {
                    assert(same_place(s[a], s[b]));
                } else {
                    assert(same_place(s[b], s[a]));
                }
            }
        }
    }
}

proof fn lemma_sorted_unique(r1: Seq<TodoItem>, r2: Seq<TodoItem>)
    requires
        sorted_items(r1),
        sorted_items(r2),
        r1.to_multiset() == r2.to_multiset(),
        distinct_places(r1),
    ensures
        r1 == r2,
    decreases r1.len(),
{
    assert(r1.len() == r1.to_multiset().len());
    assert(r2.len() == r2.to_multiset().len());
    if r1.len() == 0 {
        assert(r1 =~= r2);
    } else {
        let x = r1[0];
        let y = r2[0];
        assert(r1.contains(x));
        assert(r2.contains(y));
        let j = lemma_index_of(r2, x);
        let i = lemma_index_of(r1, y);
        if i > 0 {
            assert(key_le(r1[0], r1[i]));
        }
        if j > 0 {
            assert(key_le(r2[0], r2[j]));
        }
        assert(key_le(x, y));
        assert(key_le(y, x));
        if x.file@ != y.file@ {
            lemma_ranked_le_antisymmetric(x.file@, y.file@, true);
        }
        assert(same_place(x, y));
        if i > 0 {
            assert(same_place(r1[0], r1[i]));
        }
        assert(x == y);
        let t1 = r1.drop_first();
        let t2 = r2.drop_first();
        assert(r1.remove(0) =~= t1);
        assert(r2.remove(0) =~= t2);
        assert(t1.to_multiset() =~= r1.to_multiset().remove(x));
        assert(t2.to_multiset() =~= r2.to_multiset().remove(y));
        assert(sorted_items(t1)) by {
            assert forall|a: int, b: int| 0 <= a < b < t1.len() implies key_le(#[trigger] t1[a], #[trigger] t1[b]) by {
                assert(t1[a] == r1[a + 1] && t1[b] == r1[b + 1]);
            }
        }
        assert(sorted_items(t2)) by {
            assert forall|a: int, b: int| 0 <= a < b < t2.len() implies key_le(#[trigger] t2[a], #[trigger] t2[b]) by {
                assert(t2[a] == r2[a + 1] && t2[b] == r2[b + 1]);
            }
        }
        assert(distinct_places(t1)) by {
            assert forall|a: int, b: int| 0 <= a < b < t1.len() implies !same_place(#[trigger] t1[a], #[trigger] t1[b]) by {
                assert(t1[a] == r1[a + 1] && t1[b] == r1[b + 1]);
            }
        }
        lemma_sorted_unique(t1, t2);
        assert(r1 =~= seq![x] + t1);
        assert(r2 =~= seq![y] + t2);
    }
}

/// Scanning is deterministic: merges of batches that hold the same items, no two of
/// which stand at the same file and line, are the identical list, whatever the order in
/// which the batches were produced.
pub proof fn lemma_merge_deterministic(
    b1: Seq<Vec<TodoItem>>,
    b2: Seq<Vec<TodoItem>>,
    r1: Seq<TodoItem>,
    r2: Seq<TodoItem>,
)
    requires
        merged(b1, r1),
        merged(b2, r2),
        flat(b1).to_multiset() == flat(b2).to_multiset(),
        distinct_places(flat(b1)),
    ensures
        r1 == r2,
{
    lemma_distinct_places_perm(flat(b1), r1);
    lemma_sorted_unique(r1, r2);
}

} // verus!
