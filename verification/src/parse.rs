//! The incremental parsing protocol shared by every parser in the crate,
//! together with the required-next hint arithmetic (longest common prefix).

use vstd::prelude::*;

verus! {

/// Result of one successful incremental parsing call.
///
/// A parser either finishes, handing back its output value and the bytes it
/// did not consume, or it stays incomplete, handing back a fresh state value
/// and a *required-next* hint: a byte prefix that every input able to lead
/// this parser to completion must begin with.  A call may instead fail with
/// an error value, meaning the parse can never succeed on this input.
pub enum ParseResult<S, V> {
    Finished { result: V, remaining: Vec<u8> },
    Incomplete { new_state: S, required_next: Vec<u8> },
}

/// A byte that terminates a line (`\n` or `\r`).
pub open spec fn is_terminator(b: u8) -> bool {
    b == 10 || b == 13
}

/// A byte whose one-byte character is whitespace (the Unicode white-space
/// code points below `U+0100`).
pub open spec fn is_line_whitespace(b: u8) -> bool {
    b == 9 || b == 10 || b == 11 || b == 12 || b == 13 || b == 32 || b == 0x85 || b == 0xa0
}

/// Every byte of `s` is line whitespace.
pub open spec fn all_line_whitespace(s: Seq<u8>) -> bool {
    forall|i: int| 0 <= i < s.len() ==> is_line_whitespace(s[i])
}

/// Length of the longest common prefix of `a` and `b`.
pub open spec fn common_prefix_len(a: Seq<u8>, b: Seq<u8>) -> int
    decreases a.len(),
{
    if a.len() == 0 || b.len() == 0 || a[0] != b[0] {
        0
    } else {
        1 + common_prefix_len(a.drop_first(), b.drop_first())
    }
}

/// `n` is the length of the longest common prefix of `a` and `b`.
pub open spec fn is_common_prefix_len(a: Seq<u8>, b: Seq<u8>, n: int) -> bool {
    &&& 0 <= n <= a.len()
    &&& n <= b.len()
    &&& a.take(n) == b.take(n)
    &&& (n < a.len() && n < b.len() ==> a[n] != b[n])
}

/// Intersection of two required-next hints: their longest common prefix.
pub open spec fn merge_hint(a: Seq<u8>, b: Seq<u8>) -> Seq<u8> {
    a.take(common_prefix_len(a, b))
}

pub proof fn lemma_common_prefix_len_is(a: Seq<u8>, b: Seq<u8>)
    ensures
        is_common_prefix_len(a, b, common_prefix_len(a, b)),
    decreases a.len(),
{
    if a.len() == 0 || b.len() == 0 || a[0] != b[0] {
        assert(a.take(0) =~= b.take(0));
    } else {
        lemma_common_prefix_len_is(a.drop_first(), b.drop_first());
        let n = common_prefix_len(a.drop_first(), b.drop_first());
        assert(a.take(n + 1) =~= seq![a[0]] + a.drop_first().take(n));
        assert(b.take(n + 1) =~= seq![b[0]] + b.drop_first().take(n));
        if n + 1 < a.len() && n + 1 < b.len() {
            assert(a.drop_first()[n] == a[n + 1]);
            assert(b.drop_first()[n] == b[n + 1]);
        }
    }
}

pub proof fn lemma_common_prefix_len_unique(a: Seq<u8>, b: Seq<u8>, n: int)
    requires
        is_common_prefix_len(a, b, n),
    ensures
        common_prefix_len(a, b) == n,
    decreases a.len(),
{
    if n == 0 {
        if a.len() > 0 && b.len() > 0 {
            assert(a[0] != b[0]);
        }
    } else {
        assert(a.take(n)[0] == b.take(n)[0]);
        assert(a[0] == b[0]);
        assert(is_common_prefix_len(a.drop_first(), b.drop_first(), n - 1)) by {
            assert(a.drop_first().take(n - 1) =~= a.take(n).drop_first());
            assert(b.drop_first().take(n - 1) =~= b.take(n).drop_first());
        }
        lemma_common_prefix_len_unique(a.drop_first(), b.drop_first(), n - 1);
    }
}

/// The merged hint is a prefix of both arguments.
pub proof fn lemma_merge_hint_prefix(a: Seq<u8>, b: Seq<u8>)
    ensures
        merge_hint(a, b).is_prefix_of(a),
        merge_hint(a, b).is_prefix_of(b),
        merge_hint(a, b).len() <= a.len(),
        merge_hint(a, b).len() <= b.len(),
{
    lemma_common_prefix_len_is(a, b);
    let n = common_prefix_len(a, b);
    assert(a.take(n).is_prefix_of(a));
    assert(merge_hint(a, b) == b.take(n));
    assert(b.take(n).is_prefix_of(b));
}

/// Any common prefix of both arguments is a prefix of the merged hint:
/// the intersection is the tightest common prefix.
pub proof fn lemma_merge_hint_tightest(a: Seq<u8>, b: Seq<u8>, z: Seq<u8>)
    requires
        z.is_prefix_of(a),
        z.is_prefix_of(b),
    ensures
        z.is_prefix_of(merge_hint(a, b)),
{
    lemma_common_prefix_len_is(a, b);
    let n = common_prefix_len(a, b);
    if z.len() > n {
        assert(n < a.len() && n < b.len());
        assert(a[n] == z[n] && b[n] == z[n]) by {
            assert(a.take(z.len() as int)[n] == z[n]);
            assert(b.take(z.len() as int)[n] == z[n]);
        }
        assert(false);
    }
    assert(z =~= merge_hint(a, b).take(z.len() as int)) by {
        assert(forall|i: int|
            0 <= i < z.len() ==> z[i] == #[trigger] a.take(n)[i] && z[i] == a.take(
                z.len() as int,
            )[i]);
    }
}

/// Whether `b` is a line-whitespace byte (see [`is_line_whitespace`]).
pub fn line_whitespace_byte(b: u8) -> (r: bool)
    ensures
        r == is_line_whitespace(b),
{
    b == 9 || b == 10 || b == 11 || b == 12 || b == 13 || b == 32 || b == 0x85 || b == 0xa0
}

/// Whether `b` is a line terminator byte (see [`is_terminator`]).
pub fn terminator_byte(b: u8) -> (r: bool)
    ensures
        r == is_terminator(b),
{
    b == 10 || b == 13
}

/// Clips the running hint `hint` to its longest common prefix with `other`.
pub fn clip_to_common(hint: &mut Vec<u8>, other: &Vec<u8>)
    ensures
        final(hint)@ == merge_hint(old(hint)@, other@),
{
    let mut i: usize = 0;
    let stop: usize = if hint.len() < other.len() {
        hint.len()
    } else {
        other.len()
    };
    while i < stop && hint[i] == other[i]
        invariant
            0 <= i <= stop,
            stop <= hint.len(),
            stop <= other.len(),
            hint@.len() < other@.len() ==> stop == hint@.len(),
            hint@.len() >= other@.len() ==> stop == other@.len(),
            forall|k: int| 0 <= k < i ==> hint@[k] == other@[k],
        decreases stop - i,
    {
        i += 1;
    }
    proof {
        assert(hint@.take(i as int) =~= other@.take(i as int));
        lemma_common_prefix_len_unique(hint@, other@, i as int);
    }
    hint.truncate(i);
    proof {
        assert(hint@ =~= old(hint)@.take(i as int));
    }
}

} // verus!
