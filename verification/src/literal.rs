//! A parser that recognizes one fixed byte sequence.
//!
//! The literal parser is the leaf of every grammar the registry assembles:
//! branch markers and the `Thought: ` / `Action: ` / `Final Answer: `
//! prefixes are all literals.

use crate::parse::ParseResult;
use vstd::prelude::*;
use vstd::slice::{slice_subrange, slice_to_vec};

verus! {

/// Recognizes exactly the byte sequence `literal`.
pub struct LiteralParser {
    pub literal: Vec<u8>,
}

/// State of a [`LiteralParser`]: how many bytes of the literal have matched.
#[derive(Clone, Copy, PartialEq, Eq, Structural, Debug)]
pub struct LiteralParserOffset {
    pub offset: usize,
}

/// The mathematical outcome of one literal parsing call.
#[verifier::ext_equal]
pub enum LiteralOutcome {
    Rejected,
    Finished { remaining: Seq<u8> },
    Incomplete { offset: int, required_next: Seq<u8> },
}

/// A literal state is well formed when the offset lies inside the literal.
pub open spec fn literal_wf(lit: Seq<u8>, off: int) -> bool {
    0 <= off <= lit.len()
}

/// The input agrees with the unmatched part of the literal on every byte
/// they have in common.
pub open spec fn literal_matches(lit: Seq<u8>, off: int, input: Seq<u8>) -> bool {
    forall|k: int| 0 <= k < input.len() && off + k < lit.len() ==> input[k] == lit[off + k]
}

/// What a literal parser with `off` bytes already matched does on `input`:
/// reject on the first disagreeing byte, finish when the literal is
/// exhausted, and otherwise demand exactly the unmatched literal suffix.
pub open spec fn literal_outcome(lit: Seq<u8>, off: int, input: Seq<u8>) -> LiteralOutcome {
    if !literal_matches(lit, off, input) {
        LiteralOutcome::Rejected
    } else if input.len() >= lit.len() - off {
        LiteralOutcome::Finished { remaining: input.skip(lit.len() - off) }
    } else {
        LiteralOutcome::Incomplete {
            offset: off + input.len(),
            required_next: lit.skip(off + input.len()),
        }
    }
}

impl LiteralParser {
    /// A parser for exactly the bytes of `literal`.
    pub fn new(literal: Vec<u8>) -> (r: Self)
        ensures
            r.literal@ == literal@,
    {
        LiteralParser { literal }
    }

    /// A fresh state: nothing matched yet.
    pub fn create_parser_state(&self) -> (s: LiteralParserOffset)
        ensures
            s.offset == 0,
    {
        LiteralParserOffset { offset: 0 }
    }

    /// One incremental step, exactly as [`literal_outcome`] describes it.
    #[verifier::loop_isolation(false)]
    pub fn parse(&self, state: &LiteralParserOffset, input: &[u8]) -> (r: Result<
        ParseResult<LiteralParserOffset, ()>,
        (),
    >)
        requires
            literal_wf(self.literal@, state.offset as int),
        ensures
            match literal_outcome(self.literal@, state.offset as int, input@) {
                LiteralOutcome::Rejected => r is Err,
                LiteralOutcome::Finished { remaining } => (r matches Ok(
                    ParseResult::Finished { result: _, remaining: rem },
                ) && rem@ == remaining),
                LiteralOutcome::Incomplete { offset, required_next } => (r matches Ok(
                    ParseResult::Incomplete { new_state, required_next: rn },
                ) && new_state.offset == offset && rn@ == required_next && literal_wf(
                    self.literal@,
                    new_state.offset as int,
                )),
            },
    {
        let off = state.offset;
        let rem_len = self.literal.len() - off;
        let n = if input.len() < rem_len {
            input.len()
        } else {
            rem_len
        };
        let mut i: usize = 0;
        while i < n
            invariant
                0 <= i <= n,
                n <= input@.len(),
                off + n <= self.literal@.len(),
                self.literal@.len() == self.literal.len(),
                forall|k: int| 0 <= k < i ==> input@[k] == self.literal@[off + k],
            decreases n - i,
        {
            if input[i] != self.literal[off + i] {
                proof {
                    let ghost k = i as int;
                    assert(0 <= k < input@.len() && off + k < self.literal@.len() && input@[k]
                        != self.literal@[off + k]);
                    assert(!literal_matches(self.literal@, off as int, input@));
                }
                return Err(());
            }
            i += 1;
        }
        proof {
            assert(literal_matches(self.literal@, off as int, input@));
        }
        if input.len() >= rem_len {
            let remaining = slice_to_vec(slice_subrange(input, rem_len, input.len()));
            proof {
                assert(remaining@ =~= input@.skip(self.literal@.len() - off));
            }
            Ok(ParseResult::Finished { result: (), remaining })
        } else {
            let hint = slice_to_vec(
                slice_subrange(self.literal.as_slice(), off + n, self.literal.len()),
            );
            proof {
                assert(hint@ =~= self.literal@.skip(off + input@.len()));
            }
            Ok(
                ParseResult::Incomplete {
                    new_state: LiteralParserOffset { offset: off + n },
                    required_next: hint,
                },
            )
        }
    }
}

/// A literal that finished on `a` finishes on `a` extended by `b`, with the
/// extension appended to the remainder.
pub proof fn lemma_literal_finished_extend(lit: Seq<u8>, off: int, a: Seq<u8>, b: Seq<u8>)
    requires
        literal_wf(lit, off),
        literal_outcome(lit, off, a) is Finished,
    ensures
        literal_outcome(lit, off, a + b) =~~= (LiteralOutcome::Finished {
            remaining: (literal_outcome(lit, off, a))->Finished_remaining + b,
        }),
{
    let ab = a + b;
    assert(literal_matches(lit, off, ab)) by {
        assert(forall|k: int|
            0 <= k < ab.len() && off + k < lit.len() ==> k < a.len() && ab[k] == a[k]
                && ab[k] == #[trigger] lit[off + k]);
    }
    assert(ab.skip(lit.len() - off) =~= a.skip(lit.len() - off) + b);
}

/// Chunk-size independence of the literal parser: when a first chunk leaves
/// the parser incomplete, feeding the rest afterwards ends exactly as
/// feeding everything at once would have.
pub proof fn lemma_literal_chunks(lit: Seq<u8>, off: int, a: Seq<u8>, b: Seq<u8>)
    requires
        literal_wf(lit, off),
        literal_outcome(lit, off, a) is Incomplete,
    ensures
        literal_outcome(lit, off, a + b) =~~= literal_outcome(
            lit,
            (literal_outcome(lit, off, a))->Incomplete_offset,
            b,
        ),
{
    let off2 = off + a.len();
    assert((literal_outcome(lit, off, a))->Incomplete_offset == off2);
    assert(literal_matches(lit, off, a));
    let ab = a + b;
    if literal_matches(lit, off2, b) {
        assert(literal_matches(lit, off, ab)) by {
            assert(forall|k: int|
                0 <= k < ab.len() && off + k < lit.len() ==> ab[k] == #[trigger] lit[off + k]) by {
                assert(forall|k: int|
                    0 <= k < a.len() && off + k < lit.len() ==> ab[k] == #[trigger] lit[off + k]);
                assert(forall|k: int|
                    a.len() <= k < ab.len() && off + k < lit.len() ==> ab[k] == b[k - a.len()]
                        && ab[k] == #[trigger] lit[off + k]);
            }
        }
        if b.len() >= lit.len() - off2 {
            assert(ab.skip(lit.len() - off) =~= b.skip(lit.len() - off2));
        } else {
            assert(lit.skip(off + ab.len()) =~= lit.skip(off2 + b.len()));
        }
    } else {
        let k = choose|k: int| 0 <= k < b.len() && off2 + k < lit.len() && b[k] != lit[off2 + k];
        assert(ab[a.len() + k] == b[k]);
        assert(!literal_matches(lit, off, ab));
    }
}

} // verus!
