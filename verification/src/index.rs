//! A parser that runs several sibling literal branches against the same
//! input and resolves, as early as possible, which one is matching.
//!
//! Branches are scanned in registration order; the first branch to finish
//! wins, even when a later branch would also match.  A branch that rejects
//! is dead for the rest of the parse session.  While several branches stay
//! alive, their required-next hints are folded into their longest common
//! prefix, so the merged hint never demands a byte some alive branch would
//! refuse.

use crate::literal::{LiteralOutcome, LiteralParser, LiteralParserOffset, literal_outcome,
    literal_wf};
use crate::parse::{ParseResult, clip_to_common, merge_hint};
use vstd::prelude::*;

verus! {

/// State of an [`IndexParser`]: one slot per branch, `Ok` while the branch
/// is alive, `Err` once it is dead.
#[derive(Clone, Debug)]
pub struct IndexParserState<PA, E> {
    pub states: Vec<Result<PA, E>>,
}

/// Runs its literal branches in parallel and returns the position of the
/// first one that finishes.
pub struct IndexParser {
    pub parsers: Vec<LiteralParser>,
}

/// The branch slots as mathematics: `Some(offset)` for an alive branch,
/// `None` for a dead one.
pub open spec fn states_model(states: Seq<Result<LiteralParserOffset, ()>>) -> Seq<Option<int>> {
    Seq::new(
        states.len(),
        |i: int|
            match states[i] {
                Ok(o) => Some(o.offset as int),
                Err(_) => None,
            },
    )
}

/// All alive branches of the model sit inside their literal.
pub open spec fn model_wf(parsers: Seq<LiteralParser>, m: Seq<Option<int>>) -> bool {
    &&& m.len() == parsers.len()
    &&& forall|i: int|
        0 <= i < m.len() ==> (#[trigger] m[i] matches Some(off) ==> literal_wf(
            parsers[i].literal@,
            off,
        ))
}

/// A fresh model: every branch alive at offset zero.
pub open spec fn fresh_model(n: int) -> Seq<Option<int>> {
    Seq::new(n as nat, |i: int| Some(0int))
}

/// What branch `i` does on `input`: a dead branch rejects again, an alive
/// branch behaves as its literal parser does.
pub open spec fn branch_outcome(
    parsers: Seq<LiteralParser>,
    m: Seq<Option<int>>,
    input: Seq<u8>,
    i: int,
) -> LiteralOutcome {
    match m[i] {
        Some(off) => literal_outcome(parsers[i].literal@, off, input),
        None => LiteralOutcome::Rejected,
    }
}

/// Position of the first branch at or after `i` that finishes on `input`.
pub open spec fn winner_from(
    parsers: Seq<LiteralParser>,
    m: Seq<Option<int>>,
    input: Seq<u8>,
    i: int,
) -> Option<int>
    decreases parsers.len() - i,
{
    if i < 0 || i >= parsers.len() {
        None
    } else if branch_outcome(parsers, m, input, i) is Finished {
        Some(i)
    } else {
        winner_from(parsers, m, input, i + 1)
    }
}

/// The required-next hints of the first `n` branches that stay incomplete,
/// folded in registration order into their longest common prefix.
pub open spec fn merged_hint_prefix(
    parsers: Seq<LiteralParser>,
    m: Seq<Option<int>>,
    input: Seq<u8>,
    n: int,
) -> Option<Seq<u8>>
    decreases n,
{
    if n <= 0 {
        None
    } else {
        let prev = merged_hint_prefix(parsers, m, input, n - 1);
        match branch_outcome(parsers, m, input, n - 1) {
            LiteralOutcome::Incomplete { offset: _, required_next } => match prev {
                None => Some(required_next),
                Some(h) => Some(merge_hint(h, required_next)),
            },
            _ => prev,
        }
    }
}

/// Some branch stays incomplete on `input`.
pub open spec fn any_incomplete(
    parsers: Seq<LiteralParser>,
    m: Seq<Option<int>>,
    input: Seq<u8>,
) -> bool {
    exists|i: int|
        0 <= i < parsers.len() && #[trigger] branch_outcome(parsers, m, input, i) is Incomplete
}

/// The branch slots after a call that left the parse incomplete.
pub open spec fn updated_model(
    parsers: Seq<LiteralParser>,
    m: Seq<Option<int>>,
    input: Seq<u8>,
) -> Seq<Option<int>> {
    Seq::new(
        m.len(),
        |i: int|
            match branch_outcome(parsers, m, input, i) {
                LiteralOutcome::Incomplete { offset, required_next: _ } => Some(offset),
                _ => None,
            },
    )
}

/// The mathematical outcome of one index parsing call.
#[verifier::ext_equal]
pub enum IndexOutcome {
    Rejected,
    Finished { index: int, remaining: Seq<u8> },
    Incomplete { branches: Seq<Option<int>>, required_next: Seq<u8> },
}

/// What an index parser over `parsers` in model `m` does on `input`: the
/// first finishing branch wins with its position and remainder; otherwise,
/// while some branch is still alive, the parse stays incomplete with the
/// merged hint; once every branch is dead the parse fails.
pub open spec fn index_outcome(
    parsers: Seq<LiteralParser>,
    m: Seq<Option<int>>,
    input: Seq<u8>,
) -> IndexOutcome {
    match winner_from(parsers, m, input, 0) {
        Some(w) => IndexOutcome::Finished {
            index: w,
            remaining: (branch_outcome(parsers, m, input, w))->Finished_remaining,
        },
        None => if any_incomplete(parsers, m, input) {
            IndexOutcome::Incomplete {
                branches: updated_model(parsers, m, input),
                required_next: match merged_hint_prefix(
                    parsers,
                    m,
                    input,
                    parsers.len() as int,
                ) {
                    Some(h) => h,
                    None => Seq::empty(),
                },
            }
        } else {
            IndexOutcome::Rejected
        },
    }
}

proof fn lemma_winner_skip(
    parsers: Seq<LiteralParser>,
    m: Seq<Option<int>>,
    input: Seq<u8>,
    j: int,
)
    requires
        0 <= j <= parsers.len(),
        forall|k: int| 0 <= k < j ==> !(#[trigger] branch_outcome(parsers, m, input, k) is Finished),
    ensures
        winner_from(parsers, m, input, 0) == winner_from(parsers, m, input, j),
    decreases j,
{
    if j > 0 {
        lemma_winner_skip(parsers, m, input, j - 1);
    }
}

proof fn lemma_winner_none(parsers: Seq<LiteralParser>, m: Seq<Option<int>>, input: Seq<u8>, j: int)
    requires
        winner_from(parsers, m, input, j) is None,
        0 <= j,
    ensures
        forall|k: int|
            j <= k < parsers.len() ==> !(#[trigger] branch_outcome(parsers, m, input, k)
                is Finished),
    decreases parsers.len() - j,
{
    if j < parsers.len() {
        lemma_winner_none(parsers, m, input, j + 1);
    }
}

proof fn lemma_merged_none(parsers: Seq<LiteralParser>, m: Seq<Option<int>>, input: Seq<u8>, k: int)
    ensures
        (merged_hint_prefix(parsers, m, input, k) is None) <==> (forall|j: int|
            0 <= j < k ==> !(#[trigger] branch_outcome(parsers, m, input, j) is Incomplete)),
    decreases k,
{
    if k > 0 {
        lemma_merged_none(parsers, m, input, k - 1);
    }
}

impl IndexParser {
    /// An index parser over the given branches.  Callers must not construct
    /// one with zero branches; the registry checks for emptiness first.
    pub fn new(parsers: Vec<LiteralParser>) -> (r: Self)
        ensures
            r.parsers@ == parsers@,
    {
        IndexParser { parsers }
    }

    /// The state of every branch is well formed.
    pub open spec fn state_wf(&self, s: IndexParserState<LiteralParserOffset, ()>) -> bool {
        model_wf(self.parsers@, states_model(s.states@))
    }

    /// A fresh state: every branch alive, nothing matched yet.
    pub fn create_parser_state(&self) -> (s: IndexParserState<LiteralParserOffset, ()>)
        ensures
            states_model(s.states@) == fresh_model(self.parsers@.len() as int),
            self.state_wf(s),
    {
        let mut states: Vec<Result<LiteralParserOffset, ()>> = Vec::new();
        let mut i: usize = 0;
        let n = self.parsers.len();
        while i < n
            invariant
                0 <= i <= n,
                n == self.parsers@.len(),
                states@.len() == i,
                forall|j: int|
                    0 <= j < i ==> states@[j] == Ok::<LiteralParserOffset, ()>(
                        LiteralParserOffset { offset: 0 },
                    ),
            decreases n - i,
        {
            states.push(Ok(LiteralParserOffset { offset: 0 }));
            i += 1;
        }
        proof {
            assert(states_model(states@) =~= fresh_model(self.parsers@.len() as int));
        }
        IndexParserState { states }
    }

    /// One incremental step, exactly as [`index_outcome`] describes it.
    #[verifier::loop_isolation(false)]
    pub fn parse(&self, state: &IndexParserState<LiteralParserOffset, ()>, input: &[u8]) -> (r:
        Result<ParseResult<IndexParserState<LiteralParserOffset, ()>, usize>, ()>)
        requires
            self.parsers@.len() > 0,
            self.state_wf(*state),
        ensures
            match index_outcome(self.parsers@, states_model(state.states@), input@) {
                IndexOutcome::Rejected => r is Err,
                IndexOutcome::Finished { index, remaining } => (r matches Ok(
                    ParseResult::Finished { result, remaining: rem },
                ) && result as int == index && rem@ == remaining),
                IndexOutcome::Incomplete { branches, required_next } => (r matches Ok(
                    ParseResult::Incomplete { new_state, required_next: rn },
                ) && states_model(new_state.states@) == branches && rn@ == required_next
                    && self.state_wf(new_state)),
            },
    {
        let ghost pp = self.parsers@;
        let ghost mm = states_model(state.states@);
        let ghost ii = input@;
        let n = self.parsers.len();
        let mut new_states: Vec<Result<LiteralParserOffset, ()>> = Vec::new();
        let mut hint: Vec<u8> = Vec::new();
        let mut has_incomplete = false;
        let mut i: usize = 0;
        while i < n
            invariant
                0 <= i <= n,
                state.states@.len() == n,
                new_states@.len() == i,
                forall|j: int|
                    0 <= j < i ==> !(#[trigger] branch_outcome(pp, mm, ii, j) is Finished),
                forall|j: int|
                    0 <= j < i ==> match branch_outcome(pp, mm, ii, j) {
                        LiteralOutcome::Incomplete { offset, required_next: _ } => (
                        #[trigger] new_states@[j] matches Ok(o) && o.offset == offset
                            && literal_wf(pp[j].literal@, o.offset as int)),
                        _ => new_states@[j] is Err,
                    },
                has_incomplete == (merged_hint_prefix(pp, mm, ii, i as int) is Some),
                has_incomplete ==> Some(hint@) == merged_hint_prefix(pp, mm, ii, i as int),
                i == n ==> has_incomplete,
            decreases n - i,
        {
            let entry: Result<LiteralParserOffset, ()> = state.states[i];
            match entry {
                Err(_) => {
                    proof {
                        assert(mm[i as int] is None);
                    }
                    if !has_incomplete && i == n - 1 {
                        proof {
                            lemma_winner_skip(pp, mm, ii, n as int);
                            lemma_merged_none(pp, mm, ii, i as int);
                        }
                        return Err(());
                    }
                    new_states.push(Err(()));
                },
                Ok(st) => {
                    proof {
                        assert(mm[i as int] == Some(st.offset as int));
                    }
                    match self.parsers[i].parse(&st, input) {
                        Ok(ParseResult::Finished { result: _, remaining }) => {
                            proof {
                                lemma_winner_skip(pp, mm, ii, i as int);
                            }
                            return Ok(ParseResult::Finished { result: i, remaining });
                        },
                        Ok(ParseResult::Incomplete { new_state: s2, required_next: rn }) => {
                            if has_incomplete {
                                clip_to_common(&mut hint, &rn);
                            } else {
                                hint = rn;
                                has_incomplete = true;
                            }
                            new_states.push(Ok(s2));
                        },
                        Err(_) => {
                            if !has_incomplete && i == n - 1 {
                                proof {
                                    lemma_winner_skip(pp, mm, ii, n as int);
                                    lemma_merged_none(pp, mm, ii, i as int);
                                }
                                return Err(());
                            }
                            new_states.push(Err(()));
                        },
                    }
                },
            }
            i += 1;
        }
        proof {
            lemma_winner_skip(pp, mm, ii, n as int);
            assert(states_model(new_states@) =~= updated_model(pp, mm, ii));
            lemma_merged_none(pp, mm, ii, n as int);
        }
        Ok(
            ParseResult::Incomplete {
                new_state: IndexParserState { states: new_states },
                required_next: hint,
            },
        )
    }
}

proof fn lemma_winner_in_range(
    parsers: Seq<LiteralParser>,
    m: Seq<Option<int>>,
    input: Seq<u8>,
    k: int,
)
    requires
        0 <= k,
        winner_from(parsers, m, input, k) is Some,
    ensures
        ({
            let w = (winner_from(parsers, m, input, k))->0;
            k <= w < parsers.len() && branch_outcome(parsers, m, input, w) is Finished
        }),
    decreases parsers.len() - k,
{
    if k < parsers.len() && !(branch_outcome(parsers, m, input, k) is Finished) {
        lemma_winner_in_range(parsers, m, input, k + 1);
    }
}

proof fn lemma_branch_chunks(
    parsers: Seq<LiteralParser>,
    m: Seq<Option<int>>,
    a: Seq<u8>,
    b: Seq<u8>,
    i: int,
)
    requires
        model_wf(parsers, m),
        winner_from(parsers, m, a, 0) is None,
        0 <= i < parsers.len(),
    ensures
        branch_outcome(parsers, updated_model(parsers, m, a), b, i) == branch_outcome(
            parsers,
            m,
            a + b,
            i,
        ),
{
    let m2 = updated_model(parsers, m, a);
    lemma_winner_none(parsers, m, a, 0);
    match m[i] {
        None => {
            assert(m2[i] is None);
        },
        Some(off) => {
            let lit = parsers[i].literal@;
            match literal_outcome(lit, off, a) {
                LiteralOutcome::Rejected => {
                    assert(m2[i] is None);
                    assert(!crate::literal::literal_matches(lit, off, a));
                    let k = choose|k: int|
                        0 <= k < a.len() && off + k < lit.len() && a[k] != lit[off + k];
                    assert((a + b)[k] == a[k]);
                    assert(!crate::literal::literal_matches(lit, off, a + b));
                },
                LiteralOutcome::Incomplete { offset, required_next: _ } => {
                    assert(m2[i] == Some(offset));
                    crate::literal::lemma_literal_chunks(lit, off, a, b);
                },
                LiteralOutcome::Finished { remaining: _ } => {
                    assert(!(branch_outcome(parsers, m, a, i) is Finished));
                    assert(false);
                },
            }
        },
    }
}

proof fn lemma_winner_congruent(
    parsers: Seq<LiteralParser>,
    ma: Seq<Option<int>>,
    ia: Seq<u8>,
    mb: Seq<Option<int>>,
    ib: Seq<u8>,
    k: int,
)
    requires
        0 <= k,
        forall|j: int|
            0 <= j < parsers.len() ==> #[trigger] branch_outcome(parsers, ma, ia, j)
                == branch_outcome(parsers, mb, ib, j),
    ensures
        winner_from(parsers, ma, ia, k) == winner_from(parsers, mb, ib, k),
    decreases parsers.len() - k,
{
    if k < parsers.len() {
        lemma_winner_congruent(parsers, ma, ia, mb, ib, k + 1);
    }
}

proof fn lemma_merged_congruent(
    parsers: Seq<LiteralParser>,
    ma: Seq<Option<int>>,
    ia: Seq<u8>,
    mb: Seq<Option<int>>,
    ib: Seq<u8>,
    k: int,
)
    requires
        forall|j: int|
            0 <= j < parsers.len() ==> #[trigger] branch_outcome(parsers, ma, ia, j)
                == branch_outcome(parsers, mb, ib, j),
        k <= parsers.len(),
    ensures
        merged_hint_prefix(parsers, ma, ia, k) == merged_hint_prefix(parsers, mb, ib, k),
    decreases k,
{
    if k > 0 {
        lemma_merged_congruent(parsers, ma, ia, mb, ib, k - 1);
    }
}

/// Law: chunk-size independence.  When a first chunk leaves the index
/// parser incomplete, feeding any further chunk to the updated branches
/// ends exactly as feeding both chunks at once to the original branches
/// would have: same winner and remainder, same rejection, same updated
/// branches and merged hint.
pub proof fn lemma_index_chunks(
    parsers: Seq<LiteralParser>,
    m: Seq<Option<int>>,
    a: Seq<u8>,
    b: Seq<u8>,
)
    requires
        model_wf(parsers, m),
        index_outcome(parsers, m, a) is Incomplete,
    ensures
        index_outcome(parsers, m, a + b) =~~= index_outcome(
            parsers,
            (index_outcome(parsers, m, a))->Incomplete_branches,
            b,
        ),
{
    let m2 = updated_model(parsers, m, a);
    assert((index_outcome(parsers, m, a))->Incomplete_branches == m2);
    assert forall|j: int| 0 <= j < parsers.len() implies #[trigger] branch_outcome(
        parsers,
        m,
        a + b,
        j,
    ) == branch_outcome(parsers, m2, b, j) by {
        lemma_branch_chunks(parsers, m, a, b, j);
    }
    lemma_winner_congruent(parsers, m, a + b, m2, b, 0);
    lemma_merged_congruent(parsers, m, a + b, m2, b, parsers.len() as int);
    match winner_from(parsers, m, a + b, 0) {
        Some(w) => {
            lemma_winner_in_range(parsers, m, a + b, 0);
            assert(branch_outcome(parsers, m, a + b, w) == branch_outcome(parsers, m2, b, w));
        },
        None => {
            assert(any_incomplete(parsers, m, a + b) == any_incomplete(parsers, m2, b)) by {
                if any_incomplete(parsers, m, a + b) {
                    let i = choose|i: int|
                        0 <= i < parsers.len() && #[trigger] branch_outcome(parsers, m, a + b, i)
                            is Incomplete;
                    assert(branch_outcome(parsers, m2, b, i) is Incomplete);
                }
                if any_incomplete(parsers, m2, b) {
                    let i = choose|i: int|
                        0 <= i < parsers.len() && #[trigger] branch_outcome(parsers, m2, b, i)
                            is Incomplete;
                    assert(branch_outcome(parsers, m, a + b, i) is Incomplete);
                }
            }
            if any_incomplete(parsers, m, a + b) {
                assert(updated_model(parsers, m, a + b) =~= updated_model(parsers, m2, b));
            }
        },
    }
}

/// `a` begins `b`, and `b` begins `c`: then `a` begins `c`.
proof fn lemma_prefix_trans(a: Seq<u8>, b: Seq<u8>, c: Seq<u8>)
    requires
        a.is_prefix_of(b),
        b.is_prefix_of(c),
    ensures
        a.is_prefix_of(c),
{
    assert(a =~= c.take(a.len() as int)) by {
        assert(forall|i: int|
            0 <= i < a.len() ==> a[i] == #[trigger] b.take(a.len() as int)[i] && b[i]
                == #[trigger] c.take(b.len() as int)[i]);
    }
}

/// A fresh literal branch finishes exactly on the inputs its literal begins.
proof fn lemma_fresh_finish(lit: Seq<u8>, input: Seq<u8>)
    ensures
        (literal_outcome(lit, 0, input) is Finished) <==> lit.is_prefix_of(input),
        lit.is_prefix_of(input) ==> (literal_outcome(lit, 0, input))->Finished_remaining
            == input.skip(lit.len() as int),
{
    if lit.is_prefix_of(input) {
        assert(forall|k: int|
            0 <= k < input.len() && k < lit.len() ==> input[k] == #[trigger] lit.take(
                lit.len() as int,
            )[k] && input[k] == #[trigger] input.take(lit.len() as int)[k]);
        assert(crate::literal::literal_matches(lit, 0, input));
    }
    if literal_outcome(lit, 0, input) is Finished {
        assert(lit =~= input.take(lit.len() as int));
    }
}

proof fn lemma_winner_least_from(
    parsers: Seq<LiteralParser>,
    m: Seq<Option<int>>,
    input: Seq<u8>,
    a: int,
    j: int,
)
    requires
        0 <= a <= j < parsers.len(),
        branch_outcome(parsers, m, input, j) is Finished,
    ensures
        winner_from(parsers, m, input, a) matches Some(w) && a <= w <= j && branch_outcome(
            parsers,
            m,
            input,
            w,
        ) is Finished && (forall|k: int|
            a <= k < w ==> !(#[trigger] branch_outcome(parsers, m, input, k) is Finished)),
    decreases j - a,
{
    if !(branch_outcome(parsers, m, input, a) is Finished) {
        lemma_winner_least_from(parsers, m, input, a + 1, j);
    }
}

/// Law: registration-order priority.  Feeding an input that some branch's
/// whole literal begins into a fresh index parser finishes at the earliest
/// registered branch whose literal begins the input — even when a later
/// branch would match too — and the remainder is the input after that
/// literal.
pub proof fn lemma_registration_order_priority(
    parsers: Seq<LiteralParser>,
    input: Seq<u8>,
    i: int,
)
    requires
        0 <= i < parsers.len(),
        parsers[i].literal@.is_prefix_of(input),
    ensures
        ({
            let out = index_outcome(parsers, fresh_model(parsers.len() as int), input);
            &&& out matches IndexOutcome::Finished { index: w, remaining }
            &&& 0 <= w <= i
            &&& parsers[w].literal@.is_prefix_of(input)
            &&& (forall|k: int| 0 <= k < w ==> !parsers[k].literal@.is_prefix_of(input))
            &&& remaining == input.skip(parsers[w].literal@.len() as int)
        }),
{
    let m = fresh_model(parsers.len() as int);
    lemma_fresh_finish(parsers[i].literal@, input);
    lemma_winner_least_from(parsers, m, input, 0, i);
    let w = winner_from(parsers, m, input, 0)->0;
    lemma_fresh_finish(parsers[w].literal@, input);
    assert forall|k: int| 0 <= k < w implies !parsers[k].literal@.is_prefix_of(input) by {
        assert(!(branch_outcome(parsers, m, input, k) is Finished));
        assert(m[k] == Some(0int));
        lemma_fresh_finish(parsers[k].literal@, input);
    }
}

/// Law: the merged required-next hint never overshoots.  When an index
/// parse stays incomplete, its hint is a prefix of every alive branch's own
/// hint: it is never longer than any of them and never diverges from a byte
/// an alive branch requires.
pub proof fn lemma_hint_common_prefix(
    parsers: Seq<LiteralParser>,
    m: Seq<Option<int>>,
    input: Seq<u8>,
    i: int,
)
    requires
        index_outcome(parsers, m, input) is Incomplete,
        0 <= i < parsers.len(),
        branch_outcome(parsers, m, input, i) is Incomplete,
    ensures
        (index_outcome(parsers, m, input))->Incomplete_required_next.is_prefix_of(
            (branch_outcome(parsers, m, input, i))->Incomplete_required_next,
        ),
{
    lemma_merged_none(parsers, m, input, parsers.len() as int);
    lemma_merged_prefix_of_each(parsers, m, input, parsers.len() as int, i);
}

proof fn lemma_merged_prefix_of_each(
    parsers: Seq<LiteralParser>,
    m: Seq<Option<int>>,
    input: Seq<u8>,
    k: int,
    i: int,
)
    requires
        0 <= i < k,
        branch_outcome(parsers, m, input, i) is Incomplete,
    ensures
        merged_hint_prefix(parsers, m, input, k) matches Some(h) && h.is_prefix_of(
            (branch_outcome(parsers, m, input, i))->Incomplete_required_next,
        ),
    decreases k,
{
    let hi = (branch_outcome(parsers, m, input, i))->Incomplete_required_next;
    let prev = merged_hint_prefix(parsers, m, input, k - 1);
    if i == k - 1 {
        match prev {
            None => {},
            Some(h) => {
                crate::parse::lemma_merge_hint_prefix(h, hi);
            },
        }
    } else {
        lemma_merged_prefix_of_each(parsers, m, input, k - 1, i);
        let h = prev->0;
        match branch_outcome(parsers, m, input, k - 1) {
            LiteralOutcome::Incomplete { offset: _, required_next } => {
                crate::parse::lemma_merge_hint_prefix(h, required_next);
                lemma_prefix_trans(merge_hint(h, required_next), h, hi);
            },
            _ => {},
        }
    }
}

/// Law: the merged hint is the tightest common prefix.  Any byte sequence
/// that begins every alive branch's own hint also begins the merged hint,
/// so recomputing the intersection directly from the alive branches' hints
/// gives back exactly the merged hint.
pub proof fn lemma_hint_tightest(
    parsers: Seq<LiteralParser>,
    m: Seq<Option<int>>,
    input: Seq<u8>,
    z: Seq<u8>,
)
    requires
        index_outcome(parsers, m, input) is Incomplete,
        forall|i: int|
            0 <= i < parsers.len() && #[trigger] branch_outcome(parsers, m, input, i)
                is Incomplete ==> z.is_prefix_of(
                (branch_outcome(parsers, m, input, i))->Incomplete_required_next,
            ),
    ensures
        z.is_prefix_of((index_outcome(parsers, m, input))->Incomplete_required_next),
{
    lemma_merged_none(parsers, m, input, parsers.len() as int);
    lemma_merged_tightest(parsers, m, input, parsers.len() as int, z);
}

proof fn lemma_merged_tightest(
    parsers: Seq<LiteralParser>,
    m: Seq<Option<int>>,
    input: Seq<u8>,
    k: int,
    z: Seq<u8>,
)
    requires
        0 <= k <= parsers.len(),
        forall|i: int|
            0 <= i < parsers.len() && #[trigger] branch_outcome(parsers, m, input, i)
                is Incomplete ==> z.is_prefix_of(
                (branch_outcome(parsers, m, input, i))->Incomplete_required_next,
            ),
    ensures
        merged_hint_prefix(parsers, m, input, k) matches Some(h) ==> z.is_prefix_of(h),
    decreases k,
{
    if k > 0 {
        lemma_merged_tightest(parsers, m, input, k - 1, z);
        let prev = merged_hint_prefix(parsers, m, input, k - 1);
        match branch_outcome(parsers, m, input, k - 1) {
            LiteralOutcome::Incomplete { offset: _, required_next } => {
                match prev {
                    None => {},
                    Some(h) => {
                        crate::parse::lemma_merge_hint_tightest(h, required_next, z);
                    },
                }
            },
            _ => {},
        }
    }
}

} // verus!
