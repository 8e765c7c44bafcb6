//! Character-level helpers shared by the parsers: views of strings as character
//! sequences, whitespace, trimming, line splitting and searching.
use vstd::prelude::*;
use vstd::std_specs::iter::IteratorSpec;

verus! {

broadcast use vstd::string::group_string_axioms;

/// Unicode `White_Space`: the characters that `char::is_whitespace` accepts.
pub open spec fn is_space(c: char) -> bool {
    let u = c as u32;
    (9 <= u <= 13) || u == 32 || u == 0x85 || u == 0xa0 || u == 0x1680 || (0x2000 <= u
        <= 0x200a) || u == 0x2028 || u == 0x2029 || u == 0x202f || u == 0x205f || u == 0x3000
}

pub fn space(c: char) -> (r: bool)
    ensures
        r == is_space(c),
{
    let u = c as u32;
    (9 <= u && u <= 13) || u == 32 || u == 0x85 || u == 0xa0 || u == 0x1680 || (0x2000 <= u && u
        <= 0x200a) || u == 0x2028 || u == 0x2029 || u == 0x202f || u == 0x205f || u == 0x3000
}

/// First index at or after `i` whose character is not whitespace (or the length).
pub open spec fn skip_space(s: Seq<char>, i: int) -> int
    decreases s.len() - i,
{
    if i < 0 || i >= s.len() || !is_space(s[i]) {
        i
    } else {
        skip_space(s, i + 1)
    }
}

/// Smallest end `e` with `lo <= e <= hi` such that `s[e..hi]` is all whitespace.
pub open spec fn trim_back(s: Seq<char>, lo: int, hi: int) -> int
    decreases hi - lo,
{
    if hi > lo && is_space(s[hi - 1]) {
        trim_back(s, lo, hi - 1)
    } else {
        hi
    }
}

/// `s` without leading and trailing whitespace (`str::trim`).
pub open spec fn trimmed(s: Seq<char>) -> Seq<char> {
    let a = skip_space(s, 0);
    s.subrange(a, trim_back(s, a, s.len() as int))
}

pub proof fn lemma_skip_space_bounds(s: Seq<char>, i: int)
    requires
        0 <= i <= s.len(),
    ensures
        i <= skip_space(s, i) <= s.len(),
        skip_space(s, i) < s.len() ==> !is_space(s[skip_space(s, i)]),
    decreases s.len() - i,
{
    if i < s.len() && is_space(s[i]) {
        lemma_skip_space_bounds(s, i + 1);
    }
}

pub proof fn lemma_trim_back_bounds(s: Seq<char>, lo: int, hi: int)
    requires
        0 <= lo <= hi <= s.len(),
    ensures
        lo <= trim_back(s, lo, hi) <= hi,
        trim_back(s, lo, hi) > lo ==> !is_space(s[trim_back(s, lo, hi) - 1]),
    decreases hi - lo,
{
    if hi > lo && is_space(s[hi - 1]) {
        lemma_trim_back_bounds(s, lo, hi - 1);
    }
}

/// Neither the first nor the last character is whitespace.
pub open spec fn no_edge_space(s: Seq<char>) -> bool {
    s.len() == 0 || (!is_space(s[0]) && !is_space(s.last()))
}

/// `skip_space(s, i)`, computed.
pub fn skip_space_from(s: &Vec<char>, i: usize) -> (r: usize)
    requires
        i <= s@.len(),
    ensures
        r == skip_space(s@, i as int),
        i <= r <= s@.len(),
{
    let mut j = i;
    while j < s.len() && space(s[j])
        invariant
            i <= j <= s@.len(),
            skip_space(s@, i as int) == skip_space(s@, j as int),
        decreases s@.len() - j,
    {
        j = j + 1;
    }
    j
}

/// `trim_back(s, lo, hi)`, computed.
pub fn trim_back_from(s: &Vec<char>, lo: usize, hi: usize) -> (r: usize)
    requires
        lo <= hi <= s@.len(),
    ensures
        r == trim_back(s@, lo as int, hi as int),
        lo <= r <= hi,
{
    let mut e = hi;
    while e > lo && space(s[e - 1])
        invariant
            lo <= e <= hi <= s@.len(),
            trim_back(s@, lo as int, hi as int) == trim_back(s@, lo as int, e as int),
        decreases e - lo,
    {
        e = e - 1;
    }
    e
}

/// `trimmed(s)`, computed.
pub fn trim_chars(s: &Vec<char>) -> (r: Vec<char>)
    ensures
        r@ == trimmed(s@),
{
    let a = skip_space_from(s, 0);
    let b = trim_back_from(s, a, s.len());
    let mut out: Vec<char> = Vec::new();
    let mut i = a;
    while i < b
        invariant
            a <= i <= b <= s@.len(),
            out@ == s@.subrange(a as int, i as int),
        decreases b - i,
    {
        out.push(s[i]);
        i = i + 1;
        assert(out@ =~= s@.subrange(a as int, i as int));
    }
    out
}

/// What `str::to_lowercase` makes of a text.
pub uninterp spec fn lowercase_of(s: Seq<char>) -> Seq<char>;

/// What `str::to_uppercase` makes of a text.
pub uninterp spec fn uppercase_of(s: Seq<char>) -> Seq<char>;

/// Relies on `str::to_lowercase`: the result depends on the characters alone, and an
/// empty text stays empty.
#[verifier::external_body]
pub(crate) fn to_lower(s: &str) -> (r: String)
    ensures
        r@ == lowercase_of(s@),
        s@.len() == 0 ==> r@.len() == 0,
{
    s.to_lowercase()
}

/// Relies on `str::to_uppercase`: the result depends on the characters alone, and an
/// empty text stays empty.
#[verifier::external_body]
pub(crate) fn to_upper(s: &str) -> (r: String)
    ensures
        r@ == uppercase_of(s@),
        s@.len() == 0 ==> r@.len() == 0,
{
    s.to_uppercase()
}

/// The characters of `s`, in order.
pub fn chars_of(s: &str) -> (r: Vec<char>)
    ensures
        r@ == s@,
{
    let mut it = s.chars();
    let mut out: Vec<char> = Vec::new();
    loop
        invariant
            it.remaining() == s@.subrange(out@.len() as int, s@.len() as int),
            out@ == s@.subrange(0, out@.len() as int),
            out@.len() <= s@.len(),
        ensures
            out@ == s@,
        decreases s@.len() - out@.len(),
    {
        match it.next() {
            Some(c) => {
                out.push(c);
            },
            None => {
                assert(out@ =~= s@);
                break;
            },
        }
    }
    out
}

/// Relies on `String`'s `FromIterator<char>`: the string holds the given characters in order.
#[verifier::external_body]
pub(crate) fn string_of(cs: Vec<char>) -> (r: String)
    ensures
        r@ == cs@,
{
    cs.into_iter().collect()
}

/// A copy of `s[lo..hi]`.
pub fn slice_chars(s: &Vec<char>, lo: usize, hi: usize) -> (r: Vec<char>)
    requires
        lo <= hi <= s@.len(),
    ensures
        r@ == s@.subrange(lo as int, hi as int),
{
    let mut out: Vec<char> = Vec::new();
    let mut i = lo;
    while i < hi
        invariant
            lo <= i <= hi <= s@.len(),
            out@ == s@.subrange(lo as int, i as int),
        decreases hi - i,
    {
        out.push(s[i]);
        i = i + 1;
        assert(out@ =~= s@.subrange(lo as int, i as int));
    }
    out
}

/// Whether two strings hold the same characters.
pub fn same_text(a: &str, b: &str) -> (r: bool)
    ensures
        r == (a@ == b@),
{
    let x = a.to_owned();
    let y = b.to_owned();
    x == y
}

/// Whether `s[at..]` begins with `p`.
pub open spec fn has_at(s: Seq<char>, at: int, p: Seq<char>) -> bool {
    0 <= at && at + p.len() <= s.len() && s.subrange(at, at + p.len()) == p
}

/// Whether `p` occurs somewhere in `s` (`str::contains`).
pub open spec fn contains_text(s: Seq<char>, p: Seq<char>) -> bool {
    exists|i: int| 0 <= i <= s.len() - p.len() && #[trigger] has_at(s, i, p)
}

/// Whether `s` ends with `p` (`str::ends_with`).
pub open spec fn ends_with_text(s: Seq<char>, p: Seq<char>) -> bool {
    p.len() <= s.len() && has_at(s, s.len() - p.len(), p)
}

/// Whether `s` begins with `p` (`str::starts_with`).
pub open spec fn starts_with_text(s: Seq<char>, p: Seq<char>) -> bool {
    has_at(s, 0, p)
}

pub fn has_at_exec(s: &Vec<char>, at: usize, p: &Vec<char>) -> (r: bool)
    ensures
        r == has_at(s@, at as int, p@),
{
    if p.len() > s.len() || at > s.len() - p.len() {
        return false;
    }
    let n = s.len();
    let mut k: usize = 0;
    while k < p.len()
        invariant
            n == s@.len(),
            at + p@.len() <= s@.len(),
            0 <= k <= p@.len(),
            forall|j: int| 0 <= j < k ==> s@[at + j] == p@[j],
        decreases p@.len() - k,
    {
        if s[at + k] != p[k] {
            assert(s@.subrange(at as int, at + p@.len())[k as int] != p@[k as int]);
            return false;
        }
        k = k + 1;
    }
    assert(s@.subrange(at as int, at + p@.len()) =~= p@);
    true
}

pub fn contains_exec(s: &Vec<char>, p: &Vec<char>) -> (r: bool)
    ensures
        r == contains_text(s@, p@),
{
    if p.len() > s.len() {
        return false;
    }
    let last = s.len() - p.len();
    let mut i: usize = 0;
    while i <= last
        invariant
            last == s@.len() - p@.len(),
            0 <= i <= last + 1,
            forall|j: int| 0 <= j < i ==> !has_at(s@, j, p@),
        decreases last + 1 - i,
    {
        if has_at_exec(s, i, p) {
            return true;
        }
        if i == last {
            return false;
        }
        i = i + 1;
    }
    false
}

pub fn ends_with_exec(s: &Vec<char>, p: &Vec<char>) -> (r: bool)
    ensures
        r == ends_with_text(s@, p@),
{
    if p.len() > s.len() {
        return false;
    }
    has_at_exec(s, s.len() - p.len(), p)
}

pub fn starts_with_exec(s: &Vec<char>, p: &Vec<char>) -> (r: bool)
    ensures
        r == starts_with_text(s@, p@),
{
    has_at_exec(s, 0, p)
}

/// Drops one carriage return ending a line.
pub open spec fn strip_cr(l: Seq<char>) -> Seq<char> {
    if l.len() > 0 && l.last() == '\r' {
        l.drop_last()
    } else {
        l
    }
}

/// Lines of `s[start..]`, scanning from `j`, where `s[start..j]` holds no newline.
/// Each `'\n'` ends a line (a `'\r'` just before it is dropped); an unterminated,
/// nonempty last piece is a line too. This is `str::lines`.
pub open spec fn lines_scan(s: Seq<char>, start: int, j: int) -> Seq<Seq<char>>
    decreases s.len() - j,
{
    if j >= s.len() {
        if start < s.len() {
            seq![s.subrange(start, s.len() as int)]
        } else {
            seq![]
        }
    } else if s[j] == '\n' {
        seq![strip_cr(s.subrange(start, j))] + lines_scan(s, j + 1, j + 1)
    } else {
        lines_scan(s, start, j + 1)
    }
}

/// The lines of a text, as `str::lines` yields them.
pub open spec fn lines_of(s: Seq<char>) -> Seq<Seq<char>> {
    lines_scan(s, 0, 0)
}

proof fn lemma_lines_shift(u: Seq<char>, c: Seq<char>, a: int, b: int)
    requires
        0 <= a <= b <= c.len(),
    ensures
        lines_scan(u + c, u.len() + a, u.len() + b) == lines_scan(c, a, b),
    decreases c.len() - b,
{
    let s = u + c;
    let k = u.len() as int;
    if b >= c.len() {
        assert(s.subrange(k + a, s.len() as int) =~= c.subrange(a, c.len() as int));
    } else {
        assert(s[k + b] == c[b]);
        if c[b] == '\n' {
            assert(s.subrange(k + a, k + b) =~= c.subrange(a, b));
            lemma_lines_shift(u, c, b + 1, b + 1);
        } else {
            lemma_lines_shift(u, c, a, b + 1);
        }
    }
}

proof fn lemma_lines_prefix(u: Seq<char>, c: Seq<char>, start: int, j: int)
    requires
        u.len() > 0,
        u.last() == '\n',
        0 <= start <= j < u.len(),
    ensures
        lines_scan(u + c, start, j) == lines_scan(u, start, j) + lines_of(c),
    decreases u.len() - j,
{
    let s = u + c;
    assert(s[j] == u[j]);
    if u[j] == '\n' {
        assert(s.subrange(start, j) =~= u.subrange(start, j));
        if j + 1 < u.len() {
            lemma_lines_prefix(u, c, j + 1, j + 1);
        } else {
            lemma_lines_shift(u, c, 0, 0);
        }
        assert(seq![strip_cr(u.subrange(start, j))] + lines_scan(u, j + 1, j + 1) + lines_of(c)
            =~= seq![strip_cr(u.subrange(start, j))] + (lines_scan(u, j + 1, j + 1) + lines_of(c)));
    } else {
        assert(j + 1 < u.len());
        lemma_lines_prefix(u, c, start, j + 1);
    }
}

/// The lines of a text that follows whole lines are those lines, then its own.
pub proof fn lemma_lines_concat(u: Seq<char>, c: Seq<char>)
    requires
        u.len() == 0 || u.last() == '\n',
    ensures
        lines_of(u + c) == lines_of(u) + lines_of(c),
{
    if u.len() == 0 {
        assert(u + c =~= c);
        assert(lines_of(u) =~= Seq::<Seq<char>>::empty());
        assert(lines_of(u) + lines_of(c) =~= lines_of(c));
    } else {
        lemma_lines_prefix(u, c, 0, 0);
    }
}

/// Splits a text into its lines, each as a vector of characters.
pub fn split_lines(s: &Vec<char>) -> (r: Vec<Vec<char>>)
    ensures
        r@.len() == lines_of(s@).len(),
        forall|i: int| 0 <= i < r@.len() ==> #[trigger] r@[i]@ == lines_of(s@)[i],
{
    let mut out: Vec<Vec<char>> = Vec::new();
    let ghost done: Seq<Seq<char>> = seq![];
    let mut start: usize = 0;
    let mut j: usize = 0;
    while j < s.len()
        invariant
            0 <= start <= j <= s@.len(),
            lines_of(s@) == done + lines_scan(s@, start as int, j as int),
            out@.len() == done.len(),
            forall|i: int| 0 <= i < out@.len() ==> #[trigger] out@[i]@ == done[i],
        decreases s@.len() - j,
    {
        if s[j] == '\n' {
            let mut end = j;
            if end > start && s[end - 1] == '\r' {
                end = end - 1;
            }
            let mut line: Vec<char> = Vec::new();
            let mut k = start;
            while k < end
                invariant
                    start <= k <= end <= j < s@.len(),
                    line@ == s@.subrange(start as int, k as int),
                decreases end - k,
            {
                line.push(s[k]);
                k = k + 1;
                assert(line@ =~= s@.subrange(start as int, k as int));
            }
            proof {
                let piece = s@.subrange(start as int, j as int);
                assert(strip_cr(piece) =~= line@);
                assert(done + lines_scan(s@, start as int, j as int) =~= done.push(line@)
                    + lines_scan(s@, j + 1, j + 1));
                done = done.push(line@);
            }
            out.push(line);
            start = j + 1;
        }
        j = j + 1;
    }
    if start < s.len() {
        let mut line: Vec<char> = Vec::new();
        let mut k = start;
        while k < s.len()
            invariant
                start <= k <= s@.len(),
                line@ == s@.subrange(start as int, k as int),
            decreases s@.len() - k,
        {
            line.push(s[k]);
            k = k + 1;
            assert(line@ =~= s@.subrange(start as int, k as int));
        }
        proof {
            assert(done + lines_scan(s@, start as int, j as int) =~= done.push(line@));
            done = done.push(line@);
        }
        out.push(line);
    } else {
        assert(done + lines_scan(s@, start as int, j as int) =~= done);
    }
    out
}

/// The decimal digit for `d` below ten.
pub open spec fn digit_of(d: nat) -> char {
    if d == 0 {
        '0'
    } else if d == 1 {
        '1'
    } else if d == 2 {
        '2'
    } else if d == 3 {
        '3'
    } else if d == 4 {
        '4'
    } else if d == 5 {
        '5'
    } else if d == 6 {
        '6'
    } else if d == 7 {
        '7'
    } else if d == 8 {
        '8'
    } else {
        '9'
    }
}

fn digit_char(d: u64) -> (c: char)
    requires
        d < 10,
    ensures
        c == digit_of(d as nat),
{
    if d == 0 {
        '0'
    } else if d == 1 {
        '1'
    } else if d == 2 {
        '2'
    } else if d == 3 {
        '3'
    } else if d == 4 {
        '4'
    } else if d == 5 {
        '5'
    } else if d == 6 {
        '6'
    } else if d == 7 {
        '7'
    } else if d == 8 {
        '8'
    } else {
        '9'
    }
}

/// The decimal digits of `n`.
pub open spec fn decimal(n: nat) -> Seq<char>
    decreases n,
{
    if n < 10 {
        seq![digit_of(n)]
    } else {
        decimal(n / 10).push(digit_of(n % 10))
    }
}

/// `n` written in decimal.
pub fn decimal_text(n: u64) -> (r: String)
    ensures
        r@ == decimal(n as nat),
{
    let mut digits: Vec<char> = Vec::new();
    let mut m = n;
    // digits of m, least significant first, followed by what was already written
    let ghost done: Seq<char> = seq![];
    while m >= 10
        invariant
            decimal(n as nat) == decimal(m as nat) + done,
            digits@ == done.reverse(),
        decreases m,
    {
        let c = digit_char(m % 10);
        proof {
            assert(decimal(m as nat) == decimal((m / 10) as nat).push(c));
            assert(decimal(m as nat) + done =~= decimal((m / 10) as nat) + (seq![c] + done));
            assert((seq![c] + done).reverse() =~= done.reverse().push(c));
            done = seq![c] + done;
        }
        digits.push(c);
        m = m / 10;
    }
    let c = digit_char(m);
    proof {
        assert(decimal(m as nat) =~= seq![c]);
        assert((seq![c] + done).reverse() =~= done.reverse().push(c));
        done = seq![c] + done;
    }
    digits.push(c);
    let mut out: Vec<char> = Vec::new();
    let ghost total = digits@;
    while digits.len() > 0
        invariant
            total == done.reverse(),
            out@ + digits@.reverse() == done,
        decreases digits@.len(),
    {
        let ghost d0 = digits@;
        let x = digits.pop().unwrap();
        proof {
            assert(d0 =~= digits@.push(x));
            assert(d0.reverse() =~= seq![x] + digits@.reverse());
            assert(out@.push(x) + digits@.reverse() =~= out@ + d0.reverse());
        }
        out.push(x);
    }
    assert(out@ =~= done);
    string_of(out)
}

/// The characters of `a` followed by those of `b`.
pub fn concat_text(a: &str, b: &str) -> (r: String)
    ensures
        r@ == a@ + b@,
{
    let mut out = chars_of(a);
    let ghost a0 = out@;
    let bc = chars_of(b);
    let mut i: usize = 0;
    while i < bc.len()
        invariant
            0 <= i <= bc@.len(),
            out@ == a0 + bc@.subrange(0, i as int),
        decreases bc@.len() - i,
    {
        out.push(bc[i]);
        i = i + 1;
        assert(out@ =~= a0 + bc@.subrange(0, i as int));
    }
    assert(bc@.subrange(0, i as int) =~= bc@);
    string_of(out)
}

/// The lowercase hexadecimal digit for `d` below sixteen.
pub open spec fn hex_digit(d: nat) -> char {
    if d < 10 {
        digit_of(d)
    } else if d == 10 {
        'a'
    } else if d == 11 {
        'b'
    } else if d == 12 {
        'c'
    } else if d == 13 {
        'd'
    } else if d == 14 {
        'e'
    } else {
        'f'
    }
}

pub open spec fn is_lower_hex(c: char) -> bool {
    ('0' <= c && c <= '9') || ('a' <= c && c <= 'f')
}

/// The last `k` hexadecimal digits of `v`, most significant first, zero-padded.
pub open spec fn hex_fixed(v: nat, k: nat) -> Seq<char>
    decreases k,
{
    if k == 0 {
        seq![]
    } else {
        hex_fixed(v / 16, (k - 1) as nat).push(hex_digit(v % 16))
    }
}

pub proof fn lemma_hex_fixed(v: nat, k: nat)
    ensures
        hex_fixed(v, k).len() == k,
        forall|i: int| 0 <= i < k ==> is_lower_hex(#[trigger] hex_fixed(v, k)[i]),
    decreases k,
{
    if k > 0 {
        lemma_hex_fixed(v / 16, (k - 1) as nat);
        let d = v % 16;
        assert(is_lower_hex(hex_digit(d)));
        assert forall|i: int| 0 <= i < k implies is_lower_hex(#[trigger] hex_fixed(v, k)[i]) by {
            if i < k - 1 {
                assert(hex_fixed(v, k)[i] == hex_fixed(v / 16, (k - 1) as nat)[i]);
            }
        }
    }
}

fn hex_char(d: u64) -> (c: char)
    requires
        d < 16,
    ensures
        c == hex_digit(d as nat),
{
    if d < 10 {
        digit_char(d)
    } else if d == 10 {
        'a'
    } else if d == 11 {
        'b'
    } else if d == 12 {
        'c'
    } else if d == 13 {
        'd'
    } else if d == 14 {
        'e'
    } else {
        'f'
    }
}

/// `v` as exactly 16 lowercase hexadecimal digits.
pub fn hex16(v: u64) -> (r: String)
    ensures
        r@ == hex_fixed(v as nat, 16),
{
    let mut digits: Vec<char> = Vec::new();
    let mut m = v;
    let mut k: u64 = 0;
    let ghost done: Seq<char> = seq![];
    while k < 16
        invariant
            0 <= k <= 16,
            hex_fixed(v as nat, 16) == hex_fixed(m as nat, (16 - k) as nat) + done,
            digits@ == done.reverse(),
        decreases 16 - k,
    {
        let c = hex_char(m % 16);
        proof {
            let j = (16 - k) as nat;
            assert(hex_fixed(m as nat, j) == hex_fixed((m / 16) as nat, (j - 1) as nat).push(c));
            assert(hex_fixed(m as nat, j) + done =~= hex_fixed((m / 16) as nat, (j - 1) as nat) + (seq![c] + done));
            assert((seq![c] + done).reverse() =~= done.reverse().push(c));
            done = seq![c] + done;
        }
        digits.push(c);
        m = m / 16;
        k = k + 1;
    }
    assert(hex_fixed(m as nat, 0) + done =~= done);
    let mut out: Vec<char> = Vec::new();
    while digits.len() > 0
        invariant
            out@ + digits@.reverse() == done,
        decreases digits@.len(),
    {
        let ghost d0 = digits@;
        let x = digits.pop().unwrap();
        proof {
            assert(d0 =~= digits@.push(x));
            assert(d0.reverse() =~= seq![x] + digits@.reverse());
            assert(out@.push(x) + digits@.reverse() =~= out@ + d0.reverse());
        }
        out.push(x);
    }
    assert(out@ =~= done);
    string_of(out)
}

} // verus!
