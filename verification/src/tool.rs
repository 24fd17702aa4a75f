//! The capability registry: an ordered collection of named tools, and the
//! assembly of the instruction prompt, the branch markers and the composite
//! reasoning-step grammar from the registry contents.
//!
//! Registration order decides both the presentation order in the prompt and
//! the branch priority inside the selection grammar (the lowest index wins
//! ties).  Tool names are assumed unique; lookup returns the first match.

use crate::index::IndexParser;
use crate::literal::LiteralParser;
use crate::step::{ActionParser, PrefixedLineParser, StepParser};
use crate::line::OneLine;
use vstd::prelude::*;
use vstd::string::{StrSliceExecFns, StringExecFns};
use vstd::utf8::encode_utf8;

verus! {

/// One capability: a name used as a grammar literal and lookup key, the
/// fixed one-line input-instruction phrase, and a free-text description
/// shown only in the prompt.  The operation that actually runs the
/// capability is a suspending call and lives with the surrounding loop, not
/// in this core.
#[derive(Clone, Debug)]
pub struct Tool {
    pub name: String,
    pub input_prompt: String,
    pub description: String,
}

impl Tool {
    /// A capability from its three text fields.
    pub fn new(name: String, input_prompt: String, description: String) -> (r: Self)
        ensures
            r.name@ == name@,
            r.input_prompt@ == input_prompt@,
            r.description@ == description@,
    {
        Tool { name, input_prompt, description }
    }

    /// The name of the tool.
    pub fn name(&self) -> (r: &String)
        ensures
            r@ == self.name@,
    {
        &self.name
    }

    /// The prompt for the input to the tool.
    pub fn input_prompt(&self) -> (r: &String)
        ensures
            r@ == self.input_prompt@,
    {
        &self.input_prompt
    }

    /// A description of the tool.
    pub fn description(&self) -> (r: &String)
        ensures
            r@ == self.description@,
    {
        &self.description
    }
}

/// The two-line branch marker of a tool: its name, a line break, then its
/// input instruction, as UTF-8 bytes.
pub open spec fn tool_marker(t: Tool) -> Seq<u8> {
    encode_utf8(t.name@) + seq![10u8] + encode_utf8(t.input_prompt@)
}

/// Position of the first tool called `name`, scanning in registration
/// order.
pub open spec fn find_tool(tools: Seq<Tool>, name: Seq<char>) -> Option<int>
    decreases tools.len(),
{
    if tools.len() == 0 {
        None
    } else if tools[0].name@ == name {
        Some(0int)
    } else {
        match find_tool(tools.drop_first(), name) {
            Some(i) => Some(i + 1),
            None => None,
        }
    }
}

proof fn lemma_find_tool(tools: Seq<Tool>, name: Seq<char>, i: int)
    requires
        0 <= i <= tools.len(),
        forall|j: int| 0 <= j < i ==> #[trigger] tools[j].name@ != name,
        i < tools.len() ==> tools[i].name@ == name,
    ensures
        find_tool(tools, name) == if i < tools.len() {
            Some(i)
        } else {
            None::<int>
        },
    decreases tools.len(),
{
    if tools.len() > 0 {
        if i == 0 {
        } else {
            assert(tools[0].name@ != name);
            assert(forall|j: int|
                0 <= j < i - 1 ==> #[trigger] tools.drop_first()[j].name@ == tools[j + 1].name@);
            if i - 1 < tools.drop_first().len() {
                assert(tools.drop_first()[i - 1].name@ == tools[i].name@);
            }
            lemma_find_tool(tools.drop_first(), name, i - 1);
        }
    }
}

/// The tool list of the `[...]` line: each name in single quotes, in
/// registration order, with nothing between entries.
pub open spec fn names_text(tools: Seq<Tool>) -> Seq<char>
    decreases tools.len(),
{
    if tools.len() == 0 {
        Seq::empty()
    } else {
        names_text(tools.drop_last()) + "'"@ + tools.last().name@ + "'"@
    }
}

/// One tool's prompt block: `# <name>`, a line break, the description.
pub open spec fn tool_block(t: Tool) -> Seq<char> {
    "# "@ + t.name@ + "\n"@ + t.description@
}

/// The tool blocks in registration order, with nothing between entries.
pub open spec fn tools_text(tools: Seq<Tool>) -> Seq<char>
    decreases tools.len(),
{
    if tools.len() == 0 {
        Seq::empty()
    } else {
        tools_text(tools.drop_last()) + tool_block(tools.last())
    }
}

/// The whole instruction prompt for the given tools and question.
pub open spec fn prompt_text(tools: Seq<Tool>, question: Seq<char>) -> Seq<char> {
    "Use the following format:\n\nQuestion: the input question you must answer\nThought: you should always think about what to do\nAction: the action to take, should be one of ["@
        + names_text(tools)
        + "]\nInput: the input to the action\nObservation: the result of the action\n... (this Thought/Action/Input/Observation can repeat N times)\nThought: I now know the final answer\nFinal Answer: the final answer to the original input question\n\nYou have access to the following tools:\n\n"@
        + tools_text(tools) + "\n\nBegin!\n\nQuestion: "@ + question + "\n"@
}

/// Where the tools section begins inside the prompt: after the intro, the
/// quoted name list and the middle boilerplate.
pub open spec fn prompt_tools_start(tools: Seq<Tool>) -> int {
    ("Use the following format:\n\nQuestion: the input question you must answer\nThought: you should always think about what to do\nAction: the action to take, should be one of ["@).len() as int
        + names_text(tools).len() as int
        + ("]\nInput: the input to the action\nObservation: the result of the action\n... (this Thought/Action/Input/Observation can repeat N times)\nThought: I now know the final answer\nFinal Answer: the final answer to the original input question\n\nYou have access to the following tools:\n\n"@).len() as int
}

/// Where tool `i`'s block begins inside the tools section.
pub open spec fn tool_block_pos(tools: Seq<Tool>, i: int) -> int {
    tools_text(tools.take(i)).len() as int
}

proof fn lemma_tools_text_step(tools: Seq<Tool>, i: int)
    requires
        0 <= i < tools.len(),
    ensures
        tools_text(tools.take(i + 1)) == tools_text(tools.take(i)) + tool_block(tools[i]),
{
    assert(tools.take(i + 1).drop_last() =~= tools.take(i));
    assert(tools.take(i + 1).last() == tools[i]);
}

proof fn lemma_tools_text_prefix(tools: Seq<Tool>, k: int)
    requires
        0 <= k <= tools.len(),
    ensures
        tools_text(tools.take(k)).is_prefix_of(tools_text(tools)),
    decreases tools.len() - k,
{
    if k == tools.len() {
        assert(tools.take(k) =~= tools);
        assert(tools_text(tools) =~= tools_text(tools).take(tools_text(tools).len() as int));
    } else {
        lemma_tools_text_step(tools, k);
        lemma_tools_text_prefix(tools, k + 1);
        let tk = tools_text(tools.take(k));
        let tk1 = tools_text(tools.take(k + 1));
        let full = tools_text(tools);
        assert(tk =~= tk1.take(tk.len() as int));
        assert(tk =~= full.take(tk.len() as int)) by {
            assert(forall|j: int|
                0 <= j < tk.len() ==> tk[j] == #[trigger] tk1.take(tk.len() as int)[j] && tk1[j]
                    == #[trigger] full.take(tk1.len() as int)[j]);
        }
    }
}

/// Law: the instruction prompt lists every registered tool, in
/// registration order.  Tool `i`'s block `# <name>\n<description>` stands
/// in the prompt at the position given below, and the block positions grow
/// strictly with `i`, so the names and descriptions appear in registration
/// order, whatever the registry size.
pub proof fn lemma_prompt_lists_every_tool(tools: Seq<Tool>, question: Seq<char>, i: int)
    requires
        0 <= i < tools.len(),
    ensures
        ({
            let p = prompt_text(tools, question);
            let start = prompt_tools_start(tools) + tool_block_pos(tools, i);
            &&& 0 <= start
            &&& start + tool_block(tools[i]).len() <= p.len()
            &&& p.subrange(start, start + tool_block(tools[i]).len() as int) == tool_block(
                tools[i],
            )
            &&& tool_block_pos(tools, i + 1) == tool_block_pos(tools, i) + tool_block(
                tools[i],
            ).len()
            &&& tool_block(tools[i]).len() > 0
        }),
{
    let p = prompt_text(tools, question);
    let block = tool_block(tools[i]);
    let tk = tools_text(tools.take(i));
    let full = tools_text(tools);
    let start = prompt_tools_start(tools) + tk.len() as int;
    reveal_strlit("# ");
    lemma_tools_text_step(tools, i);
    lemma_tools_text_prefix(tools, i + 1);
    assert(tk.len() + block.len() <= full.len());
    assert forall|k: int| 0 <= k < block.len() implies full[tk.len() + k] == block[k] by {
        let tk1 = tools_text(tools.take(i + 1));
        assert(tk1[tk.len() + k] == block[k]);
        assert(full.take(tk1.len() as int)[tk.len() + k] == full[tk.len() + k]);
    }
    assert(p.subrange(start, start + block.len() as int) =~= block) by {
        assert(forall|k: int|
            0 <= k < block.len() ==> #[trigger] p.subrange(start, start + block.len() as int)[k]
                == p[start + k]);
        assert(forall|k: int| 0 <= k < block.len() ==> #[trigger] p[start + k] == full[tk.len()
            + k]);
    }
}

/// Whether two text slices hold the same characters.
fn text_eq(a: &str, b: &str) -> (r: bool)
    ensures
        r == (a@ == b@),
{
    let av = a.as_bytes_vec();
    let bv = b.as_bytes_vec();
    if av.len() != bv.len() {
        proof {
            if a@ == b@ {
                assert(encode_utf8(a@) == encode_utf8(b@));
            }
        }
        return false;
    }
    let mut i: usize = 0;
    while i < av.len()
        invariant
            0 <= i <= av@.len(),
            av@.len() == bv@.len(),
            av@ == encode_utf8(a@),
            bv@ == encode_utf8(b@),
            forall|k: int| 0 <= k < i ==> av@[k] == bv@[k],
        decreases av@.len() - i,
    {
        if av[i] != bv[i] {
            proof {
                if a@ == b@ {
                    assert(av@[i as int] == bv@[i as int]);
                }
            }
            return false;
        }
        i += 1;
    }
    proof {
        assert(encode_utf8(a@) =~= encode_utf8(b@));
        vstd::utf8::encode_utf8_decode_utf8(a@);
        vstd::utf8::encode_utf8_decode_utf8(b@);
    }
    true
}

/// A set of tools to be used while answering a question, in registration
/// order.
#[derive(Debug)]
pub struct ToolManager {
    pub tools: Vec<Tool>,
}

impl ToolManager {
    /// Create a new empty tool manager.
    pub fn new() -> (r: Self)
        ensures
            r.tools@ == Seq::<Tool>::empty(),
    {
        ToolManager { tools: Vec::new() }
    }

    /// Add a tool to the manager, by value.
    pub fn with_tool(self, tool: Tool) -> (r: Self)
        ensures
            r.tools@ == self.tools@.push(tool),
    {
        let mut tools = self.tools;
        tools.push(tool);
        ToolManager { tools }
    }

    /// Add a tool to the manager, in place.
    pub fn add_tool(&mut self, tool: Tool)
        ensures
            final(self).tools@ == old(self).tools@.push(tool),
    {
        self.tools.push(tool);
    }

    /// Get the tools in the manager.
    pub fn get_tools(&self) -> (r: &Vec<Tool>)
        ensures
            r@ == self.tools@,
    {
        &self.tools
    }

    /// Get a tool by name: the first registered tool with that name.
    pub fn get_tool(&self, name: &str) -> (r: Option<&Tool>)
        ensures
            match find_tool(self.tools@, name@) {
                Some(i) => (r matches Some(t) && *t == self.tools@[i]),
                None => r is None,
            },
    {
        let n = self.tools.len();
        let mut i: usize = 0;
        while i < n
            invariant
                0 <= i <= n,
                n == self.tools@.len(),
                forall|j: int| 0 <= j < i ==> #[trigger] self.tools@[j].name@ != name@,
            decreases n - i,
        {
            if text_eq(self.tools[i].name.as_str(), name) {
                proof {
                    lemma_find_tool(self.tools@, name@, i as int);
                }
                return Some(&self.tools[i]);
            }
            i += 1;
        }
        proof {
            lemma_find_tool(self.tools@, name@, n as int);
        }
        None
    }

    /// Get a tool mutably by name: the first registered tool with that
    /// name.
    #[verifier::loop_isolation(false)]
    pub fn get_tool_mut(&mut self, name: &str) -> (r: Option<&mut Tool>)
        ensures
            match find_tool(old(self).tools@, name@) {
                Some(i) => r.is_some() && *r.unwrap() == old(self).tools@[i] && final(self).tools@
                    == old(self).tools@.update(i, *final(r.unwrap())),
                None => r.is_none() && final(self).tools@ == old(self).tools@,
            },
    {
        let n = self.tools.len();
        let mut i: usize = 0;
        while i < n
            invariant
                0 <= i <= n,
                n == self.tools@.len(),
                self.tools@ == old(self).tools@,
                forall|j: int| 0 <= j < i ==> #[trigger] self.tools@[j].name@ != name@,
            decreases n - i,
        {
            if text_eq(self.tools[i].name.as_str(), name) {
                proof {
                    lemma_find_tool(self.tools@, name@, i as int);
                }
                return Some(&mut self.tools[i]);
            }
            i += 1;
        }
        proof {
            lemma_find_tool(self.tools@, name@, n as int);
        }
        None
    }

    /// Get a tool by index, in registration order.
    pub fn get_tool_by_index(&self, index: usize) -> (r: Option<&Tool>)
        ensures
            index < self.tools@.len() ==> (r matches Some(t) && *t == self.tools@[index as int]),
            index >= self.tools@.len() ==> r is None,
    {
        if index < self.tools.len() {
            Some(&self.tools[index])
        } else {
            None
        }
    }

    /// The branch markers of the registered tools, in registration order,
    /// fed into an index parser: the grammar that selects which tool an
    /// `Action` names.  Absent when the registry is empty: an index parser
    /// must never be built with zero branches.
    pub fn tool_choices(&self) -> (r: Option<IndexParser>)
        ensures
            (r is Some) <==> self.tools@.len() > 0,
            r matches Some(ip) ==> ip.parsers@.len() == self.tools@.len() && (forall|i: int|
                0 <= i < self.tools@.len() ==> #[trigger] ip.parsers@[i].literal@ == tool_marker(
                    self.tools@[i],
                )),
    {
        let n = self.tools.len();
        let mut choices: Vec<LiteralParser> = Vec::new();
        let mut i: usize = 0;
        while i < n
            invariant
                0 <= i <= n,
                n == self.tools@.len(),
                choices@.len() == i,
                forall|j: int|
                    0 <= j < i ==> #[trigger] choices@[j].literal@ == tool_marker(self.tools@[j]),
            decreases n - i,
        {
            let mut marker = self.tools[i].name.as_str().as_bytes_vec();
            marker.push(10u8);
            let prompt_bytes = self.tools[i].input_prompt.as_str().as_bytes_vec();
            marker.extend_from_slice(prompt_bytes.as_slice());
            proof {
                assert(marker@ =~= tool_marker(self.tools@[i as int]));
            }
            choices.push(LiteralParser::new(marker));
            i += 1;
        }
        if choices.len() == 0 {
            None
        } else {
            Some(IndexParser::new(choices))
        }
    }

    /// The grammar of one `Thought` step: the literal `Thought: ` followed
    /// by one non-blank line.
    pub fn thought_constraints(&self) -> (r: PrefixedLineParser)
        ensures
            r.prefix.literal@ == encode_utf8("Thought: "@),
    {
        PrefixedLineParser::new(LiteralParser::new("Thought: ".as_bytes_vec()))
    }

    /// The grammar of one `Action` step: the literal `Action: `, then the
    /// branch markers, then the one-line argument.  The registry must not
    /// be empty; callers check before building this grammar.
    pub fn action_constraints(&self) -> (r: ActionParser)
        requires
            self.tools@.len() > 0,
        ensures
            r.prefix.literal@ == encode_utf8("Action: "@),
            r.choices.parsers@.len() == self.tools@.len(),
            forall|i: int|
                0 <= i < self.tools@.len() ==> #[trigger] r.choices.parsers@[i].literal@
                    == tool_marker(self.tools@[i]),
            r.wf(),
    {
        let choices = match self.tool_choices() {
            Some(c) => c,
            None => vstd::pervasive::unreached(),
        };
        ActionParser {
            prefix: LiteralParser::new("Action: ".as_bytes_vec()),
            choices,
            line: OneLine,
        }
    }

    /// The grammar of one `Final Answer` step: the literal `Final Answer: `
    /// followed by one non-blank line.
    pub fn answer_constraints(&self) -> (r: PrefixedLineParser)
        ensures
            r.prefix.literal@ == encode_utf8("Final Answer: "@),
    {
        PrefixedLineParser::new(LiteralParser::new("Final Answer: ".as_bytes_vec()))
    }

    /// The top-level step grammar: Thought, Action and Final Answer as an
    /// ordered alternative, attempted in that order.
    pub fn any_action_constraint(&self) -> (r: StepParser)
        requires
            self.tools@.len() > 0,
        ensures
            r.thought.prefix.literal@ == encode_utf8("Thought: "@),
            r.action.prefix.literal@ == encode_utf8("Action: "@),
            r.answer.prefix.literal@ == encode_utf8("Final Answer: "@),
            r.action.choices.parsers@.len() == self.tools@.len(),
            forall|i: int|
                0 <= i < self.tools@.len() ==> #[trigger] r.action.choices.parsers@[i].literal@
                    == tool_marker(self.tools@[i]),
            r.wf(),
    {
        StepParser {
            thought: self.thought_constraints(),
            action: self.action_constraints(),
            answer: self.answer_constraints(),
        }
    }

    /// The instruction prompt: the fixed boilerplate explaining the
    /// Thought/Action/Input/Observation loop, with every registered tool's
    /// name and description in registration order, and the user's question
    /// embedded.
    pub fn prompt(&self, question: &str) -> (r: String)
        ensures
            r@ == prompt_text(self.tools@, question@),
    {
        let n = self.tools.len();
        let mut tools_s = String::new();
        let mut names_s = String::new();
        let mut i: usize = 0;
        while i < n
            invariant
                0 <= i <= n,
                n == self.tools@.len(),
                tools_s@ == tools_text(self.tools@.take(i as int)),
                names_s@ == names_text(self.tools@.take(i as int)),
            decreases n - i,
        {
            tools_s.append("# ");
            tools_s.append(self.tools[i].name.as_str());
            tools_s.append("\n");
            tools_s.append(self.tools[i].description.as_str());
            names_s.append("'");
            names_s.append(self.tools[i].name.as_str());
            names_s.append("'");
            proof {
                assert(self.tools@.take(i as int + 1).drop_last() =~= self.tools@.take(i as int));
                assert(self.tools@.take(i as int + 1).last() == self.tools@[i as int]);
                assert(tools_s@ =~= tools_text(self.tools@.take(i as int + 1)));
                assert(names_s@ =~= names_text(self.tools@.take(i as int + 1)));
            }
            i += 1;
        }
        proof {
            assert(self.tools@.take(n as int) =~= self.tools@);
        }
        let mut r = String::new();
        r.append(
            "Use the following format:\n\nQuestion: the input question you must answer\nThought: you should always think about what to do\nAction: the action to take, should be one of [",
        );
        r.append(names_s.as_str());
        r.append(
            "]\nInput: the input to the action\nObservation: the result of the action\n... (this Thought/Action/Input/Observation can repeat N times)\nThought: I now know the final answer\nFinal Answer: the final answer to the original input question\n\nYou have access to the following tools:\n\n",
        );
        r.append(tools_s.as_str());
        r.append("\n\nBegin!\n\nQuestion: ");
        r.append(question);
        r.append("\n");
        proof {
            assert(r@ =~= prompt_text(self.tools@, question@));
        }
        r
    }

    /// Get a tool mutably by index, in registration order.
    pub fn get_tool_mut_by_index(&mut self, index: usize) -> (r: Option<&mut Tool>)
        ensures
            index < old(self).tools@.len() ==> r.is_some() && *r.unwrap() == old(
                self,
            ).tools@[index as int] && final(self).tools@ == old(self).tools@.update(
                index as int,
                *final(r.unwrap()),
            ),
            index >= old(self).tools@.len() ==> r.is_none() && final(self).tools@ == old(
                self,
            ).tools@,
    {
        if index < self.tools.len() {
            Some(&mut self.tools[index])
        } else {
            None
        }
    }
}

} // verus!
