//! The composite grammars for one reasoning step: a literal prefix followed
//! by a line, the action grammar (prefix, branch markers, argument line),
//! and the top-level ordered alternative of the three step shapes.
//!
//! Sequencing is strict left-to-right concatenation: a stage must fully
//! finish before the next stage consumes anything.  The ordered alternative
//! scans its branches in order and the first branch to finish wins; a
//! rejected branch is dead for the rest of the parse session.

use crate::index::{
    IndexOutcome, IndexParser, IndexParserState, fresh_model, index_outcome, states_model,
};
use crate::line::{LineOutcome, OneLine, OneLineState, line_outcome};
use crate::literal::{LiteralOutcome, LiteralParser, LiteralParserOffset, literal_outcome,
    literal_wf};
use crate::parse::{ParseResult, clip_to_common};
use vstd::prelude::*;

verus! {

/// A literal prefix followed by one non-blank line (the `Thought` and
/// `Final Answer` grammars).
pub struct PrefixedLineParser {
    pub prefix: LiteralParser,
    pub line: OneLine,
}

/// State of a [`PrefixedLineParser`]: still inside the prefix, or inside
/// the line.
pub enum PrefixedLineState {
    Prefix(LiteralParserOffset),
    Line(OneLineState),
}

/// The state as mathematics.
pub enum PrefixedLineModel {
    Prefix(int),
    Line(bool, Seq<u8>),
}

pub open spec fn prefixed_line_model(s: PrefixedLineState) -> PrefixedLineModel {
    match s {
        PrefixedLineState::Prefix(o) => PrefixedLineModel::Prefix(o.offset as int),
        PrefixedLineState::Line(ls) => PrefixedLineModel::Line(ls.all_whitespace, ls.bytes@),
    }
}

/// The mathematical outcome of one prefixed-line parsing call.
#[verifier::ext_equal]
pub enum PrefixedLineOutcome {
    Rejected,
    Finished { line: Seq<char>, remaining: Seq<u8> },
    Incomplete { state: PrefixedLineModel, required_next: Seq<u8> },
}

pub open spec fn from_line_outcome(o: LineOutcome) -> PrefixedLineOutcome {
    match o {
        LineOutcome::Rejected => PrefixedLineOutcome::Rejected,
        LineOutcome::Finished { line, remaining } => PrefixedLineOutcome::Finished {
            line,
            remaining,
        },
        LineOutcome::Incomplete { all_whitespace, bytes } => PrefixedLineOutcome::Incomplete {
            state: PrefixedLineModel::Line(all_whitespace, bytes),
            required_next: Seq::empty(),
        },
    }
}

/// What a prefixed-line parser does on `input`: the prefix must finish
/// before the line stage consumes anything; when the prefix finishes at the
/// chunk's very end, the parse stays incomplete and the line stage starts
/// with the next chunk.
pub open spec fn prefixed_line_outcome(
    prefix: Seq<u8>,
    s: PrefixedLineModel,
    input: Seq<u8>,
) -> PrefixedLineOutcome {
    match s {
        PrefixedLineModel::Prefix(off) => match literal_outcome(prefix, off, input) {
            LiteralOutcome::Rejected => PrefixedLineOutcome::Rejected,
            LiteralOutcome::Incomplete { offset, required_next } => PrefixedLineOutcome::Incomplete {
                state: PrefixedLineModel::Prefix(offset),
                required_next,
            },
            LiteralOutcome::Finished { remaining } => if remaining.len() == 0 {
                PrefixedLineOutcome::Incomplete {
                    state: PrefixedLineModel::Line(true, Seq::empty()),
                    required_next: Seq::empty(),
                }
            } else {
                from_line_outcome(line_outcome(true, Seq::empty(), remaining))
            },
        },
        PrefixedLineModel::Line(aw, acc) => from_line_outcome(line_outcome(aw, acc, input)),
    }
}

impl PrefixedLineParser {
    /// A grammar for the given literal prefix followed by one line.
    pub fn new(prefix: LiteralParser) -> (r: Self)
        ensures
            r.prefix.literal@ == prefix.literal@,
    {
        PrefixedLineParser { prefix, line: OneLine }
    }

    pub open spec fn state_wf(&self, s: PrefixedLineState) -> bool {
        match s {
            PrefixedLineState::Prefix(o) => literal_wf(self.prefix.literal@, o.offset as int),
            PrefixedLineState::Line(_) => true,
        }
    }

    /// A fresh state: at the start of the prefix.
    pub fn create_parser_state(&self) -> (s: PrefixedLineState)
        ensures
            prefixed_line_model(s) == PrefixedLineModel::Prefix(0),
            self.state_wf(s),
    {
        PrefixedLineState::Prefix(self.prefix.create_parser_state())
    }

    /// One incremental step, exactly as [`prefixed_line_outcome`] describes
    /// it.
    pub fn parse(&self, state: &PrefixedLineState, input: &[u8]) -> (r: Result<
        ParseResult<PrefixedLineState, String>,
        (),
    >)
        requires
            self.state_wf(*state),
        ensures
            match prefixed_line_outcome(self.prefix.literal@, prefixed_line_model(*state), input@) {
                PrefixedLineOutcome::Rejected => r is Err,
                PrefixedLineOutcome::Finished { line, remaining } => (r matches Ok(
                    ParseResult::Finished { result, remaining: rem },
                ) && result@ == line && rem@ == remaining),
                PrefixedLineOutcome::Incomplete { state: s2, required_next } => (r matches Ok(
                    ParseResult::Incomplete { new_state, required_next: rn },
                ) && prefixed_line_model(new_state) == s2 && rn@ == required_next && self.state_wf(
                    new_state,
                )),
            },
    {
        match state {
            PrefixedLineState::Prefix(off_state) => {
                match self.prefix.parse(off_state, input) {
                    Err(_) => Err(()),
                    Ok(ParseResult::Incomplete { new_state, required_next }) => Ok(
                        ParseResult::Incomplete {
                            new_state: PrefixedLineState::Prefix(new_state),
                            required_next,
                        },
                    ),
                    Ok(ParseResult::Finished { result: _, remaining }) => {
                        if remaining.len() == 0 {
                            Ok(
                                ParseResult::Incomplete {
                                    new_state: PrefixedLineState::Line(
                                        self.line.create_parser_state(),
                                    ),
                                    required_next: Vec::new(),
                                },
                            )
                        } else {
                            let ls = self.line.create_parser_state();
                            relay_line(self.line.parse(&ls, remaining.as_slice()))
                        }
                    },
                }
            },
            PrefixedLineState::Line(ls) => relay_line(self.line.parse(ls, input)),
        }
    }
}

/// Wraps a line-stage result into a prefixed-line result.
fn relay_line(r: Result<ParseResult<OneLineState, String>, ()>) -> (out: Result<
    ParseResult<PrefixedLineState, String>,
    (),
>)
    ensures
        match r {
            Err(_) => out is Err,
            Ok(ParseResult::Finished { result, remaining }) => (out matches Ok(
                ParseResult::Finished { result: result2, remaining: rem2 },
            ) && result2 == result && rem2 == remaining),
            Ok(ParseResult::Incomplete { new_state, required_next }) => (out matches Ok(
                ParseResult::Incomplete { new_state: s2, required_next: rn2 },
            ) && s2 == PrefixedLineState::Line(new_state) && rn2 == required_next),
        },
{
    match r {
        Err(_) => Err(()),
        Ok(ParseResult::Finished { result, remaining }) => Ok(
            ParseResult::Finished { result, remaining },
        ),
        Ok(ParseResult::Incomplete { new_state, required_next }) => Ok(
            ParseResult::Incomplete {
                new_state: PrefixedLineState::Line(new_state),
                required_next,
            },
        ),
    }
}

/// Law: chunk-size independence of the prefixed-line grammar.  When a
/// first chunk leaves the grammar incomplete, feeding a further non-empty
/// chunk to the updated state ends exactly as feeding both chunks at once
/// would have: same line and remainder, same rejection, same updated state
/// and hint.
pub proof fn lemma_prefixed_line_chunks(
    prefix: Seq<u8>,
    s: PrefixedLineModel,
    a: Seq<u8>,
    b: Seq<u8>,
)
    requires
        (s matches PrefixedLineModel::Prefix(off) ==> literal_wf(prefix, off)),
        prefixed_line_outcome(prefix, s, a) is Incomplete,
        b.len() > 0,
    ensures
        prefixed_line_outcome(prefix, s, a + b) =~~= prefixed_line_outcome(
            prefix,
            (prefixed_line_outcome(prefix, s, a))->Incomplete_state,
            b,
        ),
{
    match s {
        PrefixedLineModel::Line(aw, acc) => {
            crate::line::lemma_line_chunks(aw, acc, a, b);
        },
        PrefixedLineModel::Prefix(off) => {
            match literal_outcome(prefix, off, a) {
                LiteralOutcome::Rejected => {
                    assert(false);
                },
                LiteralOutcome::Incomplete { offset, required_next: _ } => {
                    crate::literal::lemma_literal_chunks(prefix, off, a, b);
                },
                LiteralOutcome::Finished { remaining } => {
                    crate::literal::lemma_literal_finished_extend(prefix, off, a, b);
                    if remaining.len() == 0 {
                        assert(remaining + b =~= b);
                    } else {
                        crate::line::lemma_line_chunks(true, Seq::empty(), remaining, b);
                    }
                },
            }
        },
    }
}

/// The action grammar: a literal prefix, then the branch-marker selection,
/// then the one-line argument.
pub struct ActionParser {
    pub prefix: LiteralParser,
    pub choices: IndexParser,
    pub line: OneLine,
}

/// State of an [`ActionParser`]: inside the prefix, inside the branch
/// selection, or inside the argument line of the chosen branch.
pub enum ActionParserState {
    Prefix(LiteralParserOffset),
    Choices(IndexParserState<LiteralParserOffset, ()>),
    Arg(usize, OneLineState),
}

/// The state as mathematics.
pub enum ActionModel {
    Prefix(int),
    Choices(Seq<Option<int>>),
    Arg(int, bool, Seq<u8>),
}

pub open spec fn action_model(s: ActionParserState) -> ActionModel {
    match s {
        ActionParserState::Prefix(o) => ActionModel::Prefix(o.offset as int),
        ActionParserState::Choices(st) => ActionModel::Choices(states_model(st.states@)),
        ActionParserState::Arg(w, ls) => ActionModel::Arg(w as int, ls.all_whitespace, ls.bytes@),
    }
}

/// The mathematical outcome of one action parsing call.
#[verifier::ext_equal]
pub enum ActionOutcome {
    Rejected,
    Finished { index: int, line: Seq<char>, remaining: Seq<u8> },
    Incomplete { state: ActionModel, required_next: Seq<u8> },
}

pub open spec fn action_from_line(w: int, o: LineOutcome) -> ActionOutcome {
    match o {
        LineOutcome::Rejected => ActionOutcome::Rejected,
        LineOutcome::Finished { line, remaining } => ActionOutcome::Finished {
            index: w,
            line,
            remaining,
        },
        LineOutcome::Incomplete { all_whitespace, bytes } => ActionOutcome::Incomplete {
            state: ActionModel::Arg(w, all_whitespace, bytes),
            required_next: Seq::empty(),
        },
    }
}

pub open spec fn action_from_index(
    parsers: Seq<LiteralParser>,
    m: Seq<Option<int>>,
    input: Seq<u8>,
) -> ActionOutcome {
    match index_outcome(parsers, m, input) {
        IndexOutcome::Rejected => ActionOutcome::Rejected,
        IndexOutcome::Incomplete { branches, required_next } => ActionOutcome::Incomplete {
            state: ActionModel::Choices(branches),
            required_next,
        },
        IndexOutcome::Finished { index, remaining } => if remaining.len() == 0 {
            ActionOutcome::Incomplete {
                state: ActionModel::Arg(index, true, Seq::empty()),
                required_next: Seq::empty(),
            }
        } else {
            action_from_line(index, line_outcome(true, Seq::empty(), remaining))
        },
    }
}

/// What an action parser does on `input`, stage by stage in strict
/// left-to-right order.
pub open spec fn action_outcome(
    prefix: Seq<u8>,
    parsers: Seq<LiteralParser>,
    s: ActionModel,
    input: Seq<u8>,
) -> ActionOutcome {
    match s {
        ActionModel::Prefix(off) => match literal_outcome(prefix, off, input) {
            LiteralOutcome::Rejected => ActionOutcome::Rejected,
            LiteralOutcome::Incomplete { offset, required_next } => ActionOutcome::Incomplete {
                state: ActionModel::Prefix(offset),
                required_next,
            },
            LiteralOutcome::Finished { remaining } => action_from_index(
                parsers,
                fresh_model(parsers.len() as int),
                remaining,
            ),
        },
        ActionModel::Choices(m) => action_from_index(parsers, m, input),
        ActionModel::Arg(w, aw, acc) => action_from_line(w, line_outcome(aw, acc, input)),
    }
}

impl ActionParser {
    /// At least one branch marker is registered.
    pub open spec fn wf(&self) -> bool {
        self.choices.parsers@.len() > 0
    }

    pub open spec fn state_wf(&self, s: ActionParserState) -> bool {
        match s {
            ActionParserState::Prefix(o) => literal_wf(self.prefix.literal@, o.offset as int),
            ActionParserState::Choices(st) => self.choices.state_wf(st),
            ActionParserState::Arg(_, _) => true,
        }
    }

    /// A fresh state: at the start of the prefix.
    pub fn create_parser_state(&self) -> (s: ActionParserState)
        ensures
            action_model(s) == ActionModel::Prefix(0),
            self.state_wf(s),
    {
        ActionParserState::Prefix(self.prefix.create_parser_state())
    }

    /// One incremental step, exactly as [`action_outcome`] describes it.
    pub fn parse(&self, state: &ActionParserState, input: &[u8]) -> (r: Result<
        ParseResult<ActionParserState, (usize, String)>,
        (),
    >)
        requires
            self.wf(),
            self.state_wf(*state),
        ensures
            match action_outcome(
                self.prefix.literal@,
                self.choices.parsers@,
                action_model(*state),
                input@,
            ) {
                ActionOutcome::Rejected => r is Err,
                ActionOutcome::Finished { index, line, remaining } => (r matches Ok(
                    ParseResult::Finished { result, remaining: rem },
                ) && result.0 as int == index && result.1@ == line && rem@ == remaining),
                ActionOutcome::Incomplete { state: s2, required_next } => (r matches Ok(
                    ParseResult::Incomplete { new_state, required_next: rn },
                ) && action_model(new_state) == s2 && rn@ == required_next && self.state_wf(
                    new_state,
                )),
            },
    {
        match state {
            ActionParserState::Prefix(off_state) => {
                match self.prefix.parse(off_state, input) {
                    Err(_) => Err(()),
                    Ok(ParseResult::Incomplete { new_state, required_next }) => Ok(
                        ParseResult::Incomplete {
                            new_state: ActionParserState::Prefix(new_state),
                            required_next,
                        },
                    ),
                    Ok(ParseResult::Finished { result: _, remaining }) => {
                        let cs = self.choices.create_parser_state();
                        self.parse_choices(&cs, remaining.as_slice())
                    },
                }
            },
            ActionParserState::Choices(st) => self.parse_choices(st, input),
            ActionParserState::Arg(w, ls) => relay_arg(*w, self.line.parse(ls, input)),
        }
    }

    /// The branch-selection stage and, when it finishes inside this chunk,
    /// the argument stage after it.
    fn parse_choices(
        &self,
        st: &IndexParserState<LiteralParserOffset, ()>,
        input: &[u8],
    ) -> (r: Result<ParseResult<ActionParserState, (usize, String)>, ()>)
        requires
            self.wf(),
            self.choices.state_wf(*st),
        ensures
            match action_from_index(
                self.choices.parsers@,
                states_model(st.states@),
                input@,
            ) {
                ActionOutcome::Rejected => r is Err,
                ActionOutcome::Finished { index, line, remaining } => (r matches Ok(
                    ParseResult::Finished { result, remaining: rem },
                ) && result.0 as int == index && result.1@ == line && rem@ == remaining),
                ActionOutcome::Incomplete { state: s2, required_next } => (r matches Ok(
                    ParseResult::Incomplete { new_state, required_next: rn },
                ) && action_model(new_state) == s2 && rn@ == required_next && self.state_wf(
                    new_state,
                )),
            },
    {
        match self.choices.parse(st, input) {
            Err(_) => Err(()),
            Ok(ParseResult::Incomplete { new_state, required_next }) => Ok(
                ParseResult::Incomplete {
                    new_state: ActionParserState::Choices(new_state),
                    required_next,
                },
            ),
            Ok(ParseResult::Finished { result: w, remaining }) => {
                if remaining.len() == 0 {
                    Ok(
                        ParseResult::Incomplete {
                            new_state: ActionParserState::Arg(w, self.line.create_parser_state()),
                            required_next: Vec::new(),
                        },
                    )
                } else {
                    let ls = self.line.create_parser_state();
                    relay_arg(w, self.line.parse(&ls, remaining.as_slice()))
                }
            },
        }
    }
}

/// Wraps an argument-line result of branch `w` into an action result.
fn relay_arg(w: usize, r: Result<ParseResult<OneLineState, String>, ()>) -> (out: Result<
    ParseResult<ActionParserState, (usize, String)>,
    (),
>)
    ensures
        match r {
            Err(_) => out is Err,
            Ok(ParseResult::Finished { result, remaining }) => (out matches Ok(
                ParseResult::Finished { result: result2, remaining: rem2 },
            ) && result2 == (w, result) && rem2 == remaining),
            Ok(ParseResult::Incomplete { new_state, required_next }) => (out matches Ok(
                ParseResult::Incomplete { new_state: s2, required_next: rn2 },
            ) && s2 == ActionParserState::Arg(w, new_state) && rn2 == required_next),
        },
{
    match r {
        Err(_) => Err(()),
        Ok(ParseResult::Finished { result, remaining }) => Ok(
            ParseResult::Finished { result: (w, result), remaining },
        ),
        Ok(ParseResult::Incomplete { new_state, required_next }) => Ok(
            ParseResult::Incomplete {
                new_state: ActionParserState::Arg(w, new_state),
                required_next,
            },
        ),
    }
}

/// The top-level step grammar: an ordered alternative of the Thought,
/// Action and Final-Answer grammars, attempted in that order.
pub struct StepParser {
    pub thought: PrefixedLineParser,
    pub action: ActionParser,
    pub answer: PrefixedLineParser,
}

/// State of a [`StepParser`]: one slot per alternative, `Ok` while the
/// alternative is alive, `Err` once it is dead.
pub struct StepParserState {
    pub thought: Result<PrefixedLineState, ()>,
    pub action: Result<ActionParserState, ()>,
    pub answer: Result<PrefixedLineState, ()>,
}

/// Which alternative produced the finished step.
pub enum StepOutput {
    Thought(String),
    Action(usize, String),
    FinalAnswer(String),
}

/// The state as mathematics: `None` marks a dead alternative.
pub struct StepModel {
    pub thought: Option<PrefixedLineModel>,
    pub action: Option<ActionModel>,
    pub answer: Option<PrefixedLineModel>,
}

pub open spec fn step_model(s: StepParserState) -> StepModel {
    StepModel {
        thought: match s.thought {
            Ok(m) => Some(prefixed_line_model(m)),
            Err(_) => None,
        },
        action: match s.action {
            Ok(m) => Some(action_model(m)),
            Err(_) => None,
        },
        answer: match s.answer {
            Ok(m) => Some(prefixed_line_model(m)),
            Err(_) => None,
        },
    }
}

/// The finished output as mathematics.
pub enum StepOutputModel {
    Thought(Seq<char>),
    Action(int, Seq<char>),
    FinalAnswer(Seq<char>),
}

/// The mathematical outcome of one step parsing call.
#[verifier::ext_equal]
pub enum StepOutcome {
    Rejected,
    Finished { output: StepOutputModel, remaining: Seq<u8> },
    Incomplete { state: StepModel, required_next: Seq<u8> },
}

/// Folds one alternative's hint (if it stays incomplete) into the running
/// merged hint.
pub open spec fn fold_hint(acc: Option<Seq<u8>>, h: Option<Seq<u8>>) -> Option<Seq<u8>> {
    match (acc, h) {
        (None, x) => x,
        (Some(a), None) => Some(a),
        (Some(a), Some(b)) => Some(crate::parse::merge_hint(a, b)),
    }
}

/// What the thought (or answer) alternative does: a dead slot rejects.
pub open spec fn step_branch_pl(
    prefix: Seq<u8>,
    s: Option<PrefixedLineModel>,
    input: Seq<u8>,
) -> PrefixedLineOutcome {
    match s {
        Some(m) => prefixed_line_outcome(prefix, m, input),
        None => PrefixedLineOutcome::Rejected,
    }
}

/// What the action alternative does: a dead slot rejects.
pub open spec fn step_branch_action(
    prefix: Seq<u8>,
    parsers: Seq<LiteralParser>,
    s: Option<ActionModel>,
    input: Seq<u8>,
) -> ActionOutcome {
    match s {
        Some(m) => action_outcome(prefix, parsers, m, input),
        None => ActionOutcome::Rejected,
    }
}

/// What a step parser does on `input`: the alternatives are scanned in
/// order Thought, Action, Final Answer; the first to finish wins.  If none
/// finishes and at least one stays alive, the parse stays incomplete with
/// the alternatives' hints merged in scan order; once all three are dead
/// the parse fails.
pub open spec fn step_outcome(p: StepParser, s: StepModel, input: Seq<u8>) -> StepOutcome {
    let th = step_branch_pl(p.thought.prefix.literal@, s.thought, input);
    let ac = step_branch_action(
        p.action.prefix.literal@,
        p.action.choices.parsers@,
        s.action,
        input,
    );
    let an = step_branch_pl(p.answer.prefix.literal@, s.answer, input);
    if th is Finished {
        StepOutcome::Finished {
            output: StepOutputModel::Thought(th->Finished_line),
            remaining: th->Finished_remaining,
        }
    } else if ac is Finished {
        StepOutcome::Finished {
            output: StepOutputModel::Action(ac->Finished_index, ac->Finished_line),
            remaining: ac->Finished_remaining,
        }
    } else if an is Finished {
        StepOutcome::Finished {
            output: StepOutputModel::FinalAnswer(an->Finished_line),
            remaining: an->Finished_remaining,
        }
    } else {
        let hint = fold_hint(
            fold_hint(
                fold_hint(
                    None,
                    if th is Incomplete {
                        Some(th->Incomplete_required_next)
                    } else {
                        None
                    },
                ),
                if ac is Incomplete {
                    Some(ac->Incomplete_required_next)
                } else {
                    None
                },
            ),
            if an is Incomplete {
                Some(an->Incomplete_required_next)
            } else {
                None
            },
        );
        match hint {
            None => StepOutcome::Rejected,
            Some(h) => StepOutcome::Incomplete {
                state: StepModel {
                    thought: if th is Incomplete {
                        Some(th->Incomplete_state)
                    } else {
                        None
                    },
                    action: if ac is Incomplete {
                        Some(ac->Incomplete_state)
                    } else {
                        None
                    },
                    answer: if an is Incomplete {
                        Some(an->Incomplete_state)
                    } else {
                        None
                    },
                },
                required_next: h,
            },
        }
    }
}

impl StepParser {
    pub open spec fn wf(&self) -> bool {
        self.action.wf()
    }

    pub open spec fn state_wf(&self, s: StepParserState) -> bool {
        &&& (s.thought matches Ok(m) ==> self.thought.state_wf(m))
        &&& (s.action matches Ok(m) ==> self.action.state_wf(m))
        &&& (s.answer matches Ok(m) ==> self.answer.state_wf(m))
    }

    /// A fresh state: all three alternatives alive at their start.
    pub fn create_parser_state(&self) -> (s: StepParserState)
        ensures
            step_model(s) == (StepModel {
                thought: Some(PrefixedLineModel::Prefix(0)),
                action: Some(ActionModel::Prefix(0)),
                answer: Some(PrefixedLineModel::Prefix(0)),
            }),
            self.state_wf(s),
    {
        StepParserState {
            thought: Ok(self.thought.create_parser_state()),
            action: Ok(self.action.create_parser_state()),
            answer: Ok(self.answer.create_parser_state()),
        }
    }

    /// One incremental step, exactly as [`step_outcome`] describes it.
    pub fn parse(&self, state: &StepParserState, input: &[u8]) -> (r: Result<
        ParseResult<StepParserState, StepOutput>,
        (),
    >)
        requires
            self.wf(),
            self.state_wf(*state),
        ensures
            match step_outcome(*self, step_model(*state), input@) {
                StepOutcome::Rejected => r is Err,
                StepOutcome::Finished { output, remaining } => (r matches Ok(
                    ParseResult::Finished { result, remaining: rem },
                ) && rem@ == remaining && match result {
                    StepOutput::Thought(t) => output == StepOutputModel::Thought(t@),
                    StepOutput::Action(w, t) => output == StepOutputModel::Action(w as int, t@),
                    StepOutput::FinalAnswer(t) => output == StepOutputModel::FinalAnswer(t@),
                }),
                StepOutcome::Incomplete { state: s2, required_next } => (r matches Ok(
                    ParseResult::Incomplete { new_state, required_next: rn },
                ) && step_model(new_state) == s2 && rn@ == required_next && self.state_wf(
                    new_state,
                )),
            },
    {
        let mut hint: Vec<u8> = Vec::new();
        let mut has_incomplete = false;
        let new_thought: Result<PrefixedLineState, ()> = match &state.thought {
            Ok(m) => match self.thought.parse(m, input) {
                Ok(ParseResult::Finished { result, remaining }) => {
                    return Ok(
                        ParseResult::Finished { result: StepOutput::Thought(result), remaining },
                    );
                },
                Ok(ParseResult::Incomplete { new_state, required_next }) => {
                    hint = required_next;
                    has_incomplete = true;
                    Ok(new_state)
                },
                Err(_) => Err(()),
            },
            Err(_) => Err(()),
        };
        let new_action: Result<ActionParserState, ()> = match &state.action {
            Ok(m) => match self.action.parse(m, input) {
                Ok(ParseResult::Finished { result, remaining }) => {
                    return Ok(
                        ParseResult::Finished {
                            result: StepOutput::Action(result.0, result.1),
                            remaining,
                        },
                    );
                },
                Ok(ParseResult::Incomplete { new_state, required_next }) => {
                    if has_incomplete {
                        clip_to_common(&mut hint, &required_next);
                    } else {
                        hint = required_next;
                        has_incomplete = true;
                    }
                    Ok(new_state)
                },
                Err(_) => Err(()),
            },
            Err(_) => Err(()),
        };
        let new_answer: Result<PrefixedLineState, ()> = match &state.answer {
            Ok(m) => match self.answer.parse(m, input) {
                Ok(ParseResult::Finished { result, remaining }) => {
                    return Ok(
                        ParseResult::Finished {
                            result: StepOutput::FinalAnswer(result),
                            remaining,
                        },
                    );
                },
                Ok(ParseResult::Incomplete { new_state, required_next }) => {
                    if has_incomplete {
                        clip_to_common(&mut hint, &required_next);
                    } else {
                        hint = required_next;
                        has_incomplete = true;
                    }
                    Ok(new_state)
                },
                Err(_) => Err(()),
            },
            Err(_) => Err(()),
        };
        if !has_incomplete {
            return Err(());
        }
        Ok(
            ParseResult::Incomplete {
                new_state: StepParserState {
                    thought: new_thought,
                    action: new_action,
                    answer: new_answer,
                },
                required_next: hint,
            },
        )
    }
}

} // verus!
