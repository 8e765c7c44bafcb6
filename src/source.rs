//! Turning what is read from disk or from tools into text: binary detection, lossy
//! decoding, and path lists.
use vstd::prelude::*;
use vstd::utf8::{decode_utf8, valid_utf8};

use crate::text::{chars_of, lines_of, split_lines, string_of};

verus! {

/// Number of leading bytes examined for a null byte.
pub const BINARY_PROBE: usize = 8192;

/// A file is binary when a null byte occurs among its first `BINARY_PROBE` bytes.
pub open spec fn looks_binary(b: Seq<u8>) -> bool {
    exists|i: int| 0 <= i < b.len() && i < BINARY_PROBE && b[i] == 0
}

/// What `String::from_utf8_lossy` makes of some bytes.
pub uninterp spec fn lossy_text(b: Seq<u8>) -> Seq<char>;

/// Relies on `String::from_utf8_lossy`: invalid sequences become U+FFFD, and valid
/// UTF-8 decodes as itself.
#[verifier::external_body]
fn decode_lossy(b: &[u8]) -> (r: String)
    ensures
        r@ == lossy_text(b@),
        valid_utf8(b@) ==> r@ == decode_utf8(b@),
{
    String::from_utf8_lossy(b).into_owned()
}

/// The text of a file's bytes: empty for binary files, the lossy decoding otherwise.
pub fn decode_source(bytes: &Vec<u8>) -> (r: String)
    ensures
        looks_binary(bytes@) ==> r@.len() == 0,
        !looks_binary(bytes@) ==> r@ == lossy_text(bytes@),
{
    let mut i: usize = 0;
    while i < bytes.len() && i < BINARY_PROBE
        invariant
            0 <= i <= bytes@.len(),
            i <= BINARY_PROBE,
            forall|j: int| 0 <= j < i ==> bytes@[j] != 0,
        decreases bytes@.len() - i,
    {
        if bytes[i] == 0 {
            return String::new();
        }
        i = i + 1;
    }
    decode_lossy(bytes.as_slice())
}

/// The nonempty lines, in order.
pub open spec fn nonempty_lines(ls: Seq<Seq<char>>) -> Seq<Seq<char>>
    decreases ls.len(),
{
    if ls.len() == 0 {
        seq![]
    } else if ls.last().len() > 0 {
        nonempty_lines(ls.drop_last()).push(ls.last())
    } else {
        nonempty_lines(ls.drop_last())
    }
}

/// The paths a tool listed, one per nonempty line of its output.
pub fn listed_paths(output: &str) -> (r: Vec<String>)
    ensures
        r@.map_values(|s: String| s@) == nonempty_lines(lines_of(output@)),
{
    let chars = chars_of(output);
    let lines = split_lines(&chars);
    let ghost all = lines_of(output@);
    let mut out: Vec<String> = Vec::new();
    let mut k: usize = 0;
    while k < lines.len()
        invariant
            0 <= k <= lines@.len(),
            lines@.len() == all.len(),
            forall|i: int| 0 <= i < lines@.len() ==> #[trigger] lines@[i]@ == all[i],
            out@.map_values(|s: String| s@) == nonempty_lines(all.subrange(0, k as int)),
        decreases lines@.len() - k,
    {
        proof {
            assert(all.subrange(0, k + 1).drop_last() =~= all.subrange(0, k as int));
        }
        if lines[k].len() > 0 {
            let s = string_of(lines[k].clone());
            let ghost before = out@.map_values(|s: String| s@);
            out.push(s);
            assert(out@.map_values(|s: String| s@) =~= before.push(s@));
        }
        k = k + 1;
    }
    assert(all.subrange(0, k as int) =~= all);
    out
}

} // verus!
