//! A parser that recognizes one non-blank line of text.
//!
//! The line ends at the first `\n` or `\r` byte.  A `\r\n` pair resolves at
//! the `\r`: the following `\n` is left as unconsumed remainder, and feeding
//! that lone `\n` into a fresh line parser is rejected as a blank line.

use crate::parse::{
    ParseResult, all_line_whitespace, is_line_whitespace, is_terminator, line_whitespace_byte,
    terminator_byte,
};
use vstd::prelude::*;
use vstd::slice::{slice_subrange, slice_to_vec};
use vstd::utf8::{decode_utf8, valid_utf8};

verus! {

/// Recognizes one line with at least one non-whitespace byte, terminated by
/// `\n` or `\r`.
pub struct OneLine;

/// State of a [`OneLine`] parser: the bytes accumulated so far and a sticky
/// flag that records whether only whitespace has been seen.  The flag only
/// ever moves from `true` to `false`.
#[derive(Clone, Debug)]
pub struct OneLineState {
    pub all_whitespace: bool,
    pub bytes: Vec<u8>,
}

/// What `String::from_utf8_lossy` decodes the given bytes to.  The result
/// depends on the bytes alone.
pub uninterp spec fn lossy_decode(bytes: Seq<u8>) -> Seq<char>;

/// Relies on `String::from_utf8_lossy`: the decoding is a pure function of
/// the bytes, and valid UTF-8 decodes to exactly its scalar values.
#[verifier::external_body]
fn decode_lossy(bytes: &[u8]) -> (r: String)
    ensures
        r@ == lossy_decode(bytes@),
        valid_utf8(bytes@) ==> r@ == decode_utf8(bytes@),
{
    String::from_utf8_lossy(bytes).into_owned()
}

/// The mathematical outcome of one line parsing call.
#[verifier::ext_equal]
pub enum LineOutcome {
    Rejected,
    Finished { line: Seq<char>, remaining: Seq<u8> },
    Incomplete { all_whitespace: bool, bytes: Seq<u8> },
}

/// Index of the first terminator byte of `input`, or `input.len()` when no
/// byte terminates a line.
pub open spec fn first_terminator(input: Seq<u8>) -> int
    decreases input.len(),
{
    if input.len() == 0 {
        0
    } else if is_terminator(input[0]) {
        0
    } else {
        1 + first_terminator(input.drop_first())
    }
}

pub proof fn lemma_first_terminator(input: Seq<u8>)
    ensures
        0 <= first_terminator(input) <= input.len(),
        first_terminator(input) < input.len() ==> is_terminator(input[first_terminator(input)]),
        forall|j: int| 0 <= j < first_terminator(input) ==> !is_terminator(input[j]),
    decreases input.len(),
{
    if input.len() == 0 || is_terminator(input[0]) {
    } else {
        lemma_first_terminator(input.drop_first());
        assert forall|j: int| 1 <= j < first_terminator(input) implies !is_terminator(
            input[j],
        ) by {
            assert(input.drop_first()[j - 1] == input[j]);
            assert(0 <= j - 1 < first_terminator(input.drop_first()));
            assert(!is_terminator(input.drop_first()[j - 1]));
        }
        let f = first_terminator(input.drop_first());
        if f < input.drop_first().len() {
            assert(input.drop_first()[f] == input[f + 1]);
        }
    }
}

pub proof fn lemma_first_terminator_unique(input: Seq<u8>, k: int)
    requires
        0 <= k <= input.len(),
        k < input.len() ==> is_terminator(input[k]),
        forall|j: int| 0 <= j < k ==> !is_terminator(input[j]),
    ensures
        first_terminator(input) == k,
{
    lemma_first_terminator(input);
    let f = first_terminator(input);
    if f < k {
        assert(!is_terminator(input[f]));
    }
    if k < f {
        assert(!is_terminator(input[k]));
    }
}

/// What a line parser in state `(all_ws, acc)` does on `input`: with no new
/// bytes it rejects unless content already exists; at the first terminator
/// it rejects a blank line or finishes with the accumulated text decoded;
/// with no terminator it accumulates and stays incomplete.  A line parser
/// never gives a required-next hint.
pub open spec fn line_outcome(all_ws: bool, acc: Seq<u8>, input: Seq<u8>) -> LineOutcome {
    if input.len() == 0 {
        if all_ws {
            LineOutcome::Rejected
        } else {
            LineOutcome::Incomplete { all_whitespace: all_ws, bytes: acc }
        }
    } else {
        let k = first_terminator(input);
        if k == input.len() {
            LineOutcome::Incomplete {
                all_whitespace: all_ws && all_line_whitespace(input),
                bytes: acc + input,
            }
        } else if all_ws && all_line_whitespace(input.take(k)) {
            LineOutcome::Rejected
        } else {
            LineOutcome::Finished {
                line: lossy_decode(acc + input.take(k)),
                remaining: input.skip(k + 1),
            }
        }
    }
}

impl OneLine {
    /// A fresh state: no bytes yet, only whitespace seen so far.
    pub fn create_parser_state(&self) -> (s: OneLineState)
        ensures
            s.all_whitespace == true,
            s.bytes@ == Seq::<u8>::empty(),
    {
        OneLineState { all_whitespace: true, bytes: Vec::new() }
    }

    /// One incremental step, exactly as [`line_outcome`] describes it.
    #[verifier::loop_isolation(false)]
    pub fn parse(&self, state: &OneLineState, input: &[u8]) -> (r: Result<
        ParseResult<OneLineState, String>,
        (),
    >)
        ensures
            match line_outcome(state.all_whitespace, state.bytes@, input@) {
                LineOutcome::Rejected => r is Err,
                LineOutcome::Finished { line, remaining } => (r matches Ok(
                    ParseResult::Finished { result, remaining: rem },
                ) && result@ == line && rem@ == remaining),
                LineOutcome::Incomplete { all_whitespace, bytes } => (r matches Ok(
                    ParseResult::Incomplete { new_state, required_next },
                ) && new_state.all_whitespace == all_whitespace && new_state.bytes@ == bytes
                    && required_next@ == Seq::<u8>::empty()),
            },
    {
        if input.len() == 0 {
            if state.all_whitespace {
                return Err(());
            } else {
                return Ok(
                    ParseResult::Incomplete {
                        new_state: OneLineState {
                            all_whitespace: state.all_whitespace,
                            bytes: clone_bytes(&state.bytes),
                        },
                        required_next: Vec::new(),
                    },
                );
            }
        }
        let mut all_ws = state.all_whitespace;
        let mut acc = clone_bytes(&state.bytes);
        let mut i: usize = 0;
        while i < input.len()
            invariant
                0 <= i <= input@.len(),
                forall|j: int| 0 <= j < i ==> !is_terminator(input@[j]),
                all_ws == (state.all_whitespace && all_line_whitespace(input@.take(i as int))),
                acc@ == state.bytes@ + input@.take(i as int),
            decreases input@.len() - i,
        {
            let c = input[i];
            if all_ws && !line_whitespace_byte(c) {
                all_ws = false;
                proof {
                    assert(input@.take(i as int + 1)[i as int] == c);
                    assert(!all_line_whitespace(input@.take(i as int + 1)));
                }
            }
            if terminator_byte(c) {
                proof {
                    lemma_first_terminator_unique(input@, i as int);
                    assert(is_line_whitespace(c));
                    assert(all_line_whitespace(input@.take(i as int)) ==> all_line_whitespace(
                        input@.take(i as int + 1),
                    )) by {
                        assert(forall|j: int|
                            0 <= j < i ==> input@.take(i as int + 1)[j] == #[trigger] input@.take(
                                i as int,
                            )[j]);
                        assert(input@.take(i as int + 1)[i as int] == c);
                    }
                }
                if all_ws {
                    return Err(());
                } else {
                    let text = decode_lossy(acc.as_slice());
                    let remaining = slice_to_vec(slice_subrange(input, i + 1, input.len()));
                    proof {
                        assert(remaining@ =~= input@.skip(i as int + 1));
                    }
                    return Ok(ParseResult::Finished { result: text, remaining });
                }
            }
            acc.push(c);
            proof {
                assert(acc@ =~= state.bytes@ + input@.take(i as int + 1));
                if state.all_whitespace && all_line_whitespace(input@.take(i as int))
                    && is_line_whitespace(c) {
                    assert(forall|j: int|
                        0 <= j < i ==> input@.take(i as int + 1)[j] == #[trigger] input@.take(
                            i as int,
                        )[j]);
                    assert(input@.take(i as int + 1)[i as int] == c);
                    assert(all_line_whitespace(input@.take(i as int + 1)));
                }
            }
            i += 1;
        }
        proof {
            lemma_first_terminator_unique(input@, input@.len() as int);
            assert(input@.take(input@.len() as int) =~= input@);
        }
        Ok(
            ParseResult::Incomplete {
                new_state: OneLineState { all_whitespace: all_ws, bytes: acc },
                required_next: Vec::new(),
            },
        )
    }
}

/// A copy of a byte vector (parser states are immutable snapshots; a new
/// state never aliases the old one).
fn clone_bytes(v: &Vec<u8>) -> (r: Vec<u8>)
    ensures
        r@ == v@,
{
    let mut r: Vec<u8> = Vec::new();
    let mut i: usize = 0;
    while i < v.len()
        invariant
            0 <= i <= v@.len(),
            r@ == v@.take(i as int),
        decreases v@.len() - i,
    {
        r.push(v[i]);
        proof {
            assert(r@ =~= v@.take(i as int + 1));
        }
        i += 1;
    }
    proof {
        assert(v@.take(v@.len() as int) =~= v@);
    }
    r
}

/// Chunk-size independence of the line parser: when a first chunk leaves the
/// parser incomplete, feeding a further non-empty chunk ends exactly as
/// feeding everything at once would have.
pub proof fn lemma_line_chunks(all_ws: bool, acc: Seq<u8>, a: Seq<u8>, b: Seq<u8>)
    requires
        line_outcome(all_ws, acc, a) is Incomplete,
        b.len() > 0,
    ensures
        line_outcome(all_ws, acc, a + b) =~~= line_outcome(
            (line_outcome(all_ws, acc, a))->Incomplete_all_whitespace,
            (line_outcome(all_ws, acc, a))->Incomplete_bytes,
            b,
        ),
{
    if a.len() == 0 {
        assert(a + b =~= b);
    } else {
        lemma_first_terminator(a);
        assert(first_terminator(a) == a.len());
        let ab = a + b;
        let kb = first_terminator(b);
        lemma_first_terminator(b);
        assert(first_terminator(ab) == a.len() + kb) by {
            assert(forall|j: int| 0 <= j < a.len() ==> ab[j] == a[j] && !is_terminator(ab[j]));
            assert(forall|j: int|
                a.len() <= j < a.len() + kb ==> ab[j] == b[j - a.len()] && !is_terminator(ab[j]));
            if kb < b.len() {
                assert(ab[a.len() + kb] == b[kb]);
            }
            lemma_first_terminator_unique(ab, a.len() + kb);
        }
        assert(ab.take(a.len() + kb) =~= a + b.take(kb));
        assert(all_line_whitespace(a + b.take(kb)) == (all_line_whitespace(a)
            && all_line_whitespace(b.take(kb)))) by {
            lemma_all_ws_concat(a, b.take(kb));
        }
        if a.len() + kb == ab.len() {
            assert(kb == b.len());
            assert(b.take(kb) =~= b);
            assert((acc + a) + b =~= acc + ab);
            lemma_all_ws_concat(a, b);
        } else {
            assert((acc + a) + b.take(kb) =~= acc + ab.take(a.len() + kb));
            assert(b.skip(kb + 1) =~= ab.skip(a.len() + kb + 1));
        }
    }
}

/// Whitespace of a concatenation, bytewise.
proof fn lemma_all_ws_concat(a: Seq<u8>, b: Seq<u8>)
    ensures
        all_line_whitespace(a + b) == (all_line_whitespace(a) && all_line_whitespace(b)),
{
    if all_line_whitespace(a) && all_line_whitespace(b) {
        assert forall|i: int| 0 <= i < (a + b).len() implies is_line_whitespace((a + b)[i]) by {
            if i < a.len() {
                assert((a + b)[i] == a[i]);
                assert(is_line_whitespace(a[i]));
            } else {
                assert((a + b)[i] == b[i - a.len()]);
                assert(is_line_whitespace(b[i - a.len()]));
            }
        }
    }
    if all_line_whitespace(a + b) {
        assert forall|i: int| 0 <= i < a.len() implies is_line_whitespace(a[i]) by {
            assert((a + b)[i] == a[i]);
            assert(is_line_whitespace((a + b)[i]));
        }
        assert forall|i: int| 0 <= i < b.len() implies is_line_whitespace(b[i]) by {
            assert((a + b)[a.len() + i] == b[i]);
            assert(is_line_whitespace((a + b)[a.len() + i]));
        }
    }
}

} // verus!
