//! Trimming of operator input lines: the publisher strips the whitespace
//! around a line before deciding whether it is a message body or the empty
//! shutdown signal.

use vstd::prelude::*;

verus! {

/// An ASCII whitespace byte: tab, newline, vertical tab, form feed,
/// carriage return or space. Multi-byte characters never contain these, so
/// trimming them from UTF-8 text is safe.
pub open spec fn is_ws(c: u8) -> bool {
    c == 9 || c == 10 || c == 11 || c == 12 || c == 13 || c == 32
}

/// The index of the first non-whitespace byte at or after `i`, or the length
/// when there is none.
pub open spec fn first_non_ws(s: Seq<u8>, i: int) -> int
    decreases s.len() - i when 0 <= i <= s.len()
{
    if i >= s.len() || !is_ws(s[i]) {
        i
    } else {
        first_non_ws(s, i + 1)
    }
}

/// The index just past the last non-whitespace byte before `j`, or `0` when
/// there is none.
pub open spec fn last_non_ws(s: Seq<u8>, j: int) -> int
    decreases j when 0 <= j <= s.len()
{
    if j <= 0 || !is_ws(s[j - 1]) {
        j
    } else {
        last_non_ws(s, j - 1)
    }
}

/// `s` without its leading and trailing whitespace.
pub open spec fn trim_spec(s: Seq<u8>) -> Seq<u8> {
    let lo = first_non_ws(s, 0);
    let hi = last_non_ws(s, s.len() as int);
    if lo < hi {
        s.subrange(lo, hi)
    } else {
        Seq::empty()
    }
}

/// Everything before the first non-whitespace byte is whitespace, and that
/// byte itself is not.
proof fn lemma_first_non_ws(s: Seq<u8>, i: int)
    requires
        0 <= i <= s.len(),
    ensures
        i <= first_non_ws(s, i) <= s.len(),
        forall|k: int| i <= k < first_non_ws(s, i) ==> is_ws(#[trigger] s[k]),
        first_non_ws(s, i) < s.len() ==> !is_ws(s[first_non_ws(s, i)]),
    decreases s.len() - i,
{
    if i < s.len() && is_ws(s[i]) {
        lemma_first_non_ws(s, i + 1);
    }
}

/// Everything from the cut point on is whitespace, and the byte just before
/// it is not.
proof fn lemma_last_non_ws(s: Seq<u8>, j: int)
    requires
        0 <= j <= s.len(),
    ensures
        0 <= last_non_ws(s, j) <= j,
        forall|k: int| last_non_ws(s, j) <= k < j ==> is_ws(#[trigger] s[k]),
        last_non_ws(s, j) > 0 ==> !is_ws(s[last_non_ws(s, j) - 1]),
    decreases j,
{
    if j > 0 && is_ws(s[j - 1]) {
        lemma_last_non_ws(s, j - 1);
    }
}

/// Law: the trimmed line is empty exactly when the line holds nothing but
/// whitespace — the publisher's shutdown signal is precisely the blank line.
pub proof fn lemma_trim_empty_iff_blank(s: Seq<u8>)
    ensures
        trim_spec(s).len() == 0 <==> (forall|k: int| 0 <= k < s.len() ==> is_ws(#[trigger] s[k])),
{
    let lo = first_non_ws(s, 0);
    let hi = last_non_ws(s, s.len() as int);
    lemma_first_non_ws(s, 0);
    lemma_last_non_ws(s, s.len() as int);
    if lo < s.len() {
        assert(!is_ws(s[lo]));
        assert(lo < hi) by {
            if hi <= lo {
                assert(is_ws(s[lo]));
            }
        }
    }
}

/// True when the byte is ASCII whitespace.
pub fn is_ws_byte(c: u8) -> (r: bool)
    ensures
        r == is_ws(c),
{
    c == 9 || c == 10 || c == 11 || c == 12 || c == 13 || c == 32
}

/// Strips leading and trailing whitespace from `s`.
pub fn trim(s: &Vec<u8>) -> (r: Vec<u8>)
    ensures
        r@ == trim_spec(s@),
{
    let mut lo: usize = 0;
    while lo < s.len() && is_ws_byte(s[lo])
        invariant
            0 <= lo <= s@.len(),
            first_non_ws(s@, 0) == first_non_ws(s@, lo as int),
        decreases s@.len() - lo,
    {
        lo += 1;
    }
    assert(first_non_ws(s@, 0) == lo);
    let mut hi: usize = s.len();
    while hi > 0 && is_ws_byte(s[hi - 1])
        invariant
            0 <= hi <= s@.len(),
            last_non_ws(s@, s@.len() as int) == last_non_ws(s@, hi as int),
        decreases hi,
    {
        hi -= 1;
    }
    assert(last_non_ws(s@, s@.len() as int) == hi);
    let mut out: Vec<u8> = Vec::new();
    if lo < hi {
        let mut idx: usize = lo;
        while idx < hi
            invariant
                lo <= idx <= hi,
                hi <= s@.len(),
                out@ == s@.subrange(lo as int, idx as int),
            decreases hi - idx,
        {
            out.push(s[idx]);
            proof {
                assert(out@ =~= s@.subrange(lo as int, idx as int + 1));
            }
            idx += 1;
        }
    } else {
        proof {
            assert(out@ =~= trim_spec(s@));
        }
    }
    out
}

} // verus!
