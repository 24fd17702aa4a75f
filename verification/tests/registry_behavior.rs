use kalosm_language::parse::ParseResult;
use kalosm_language::step::StepOutput;
use kalosm_language::tool::{Tool, ToolManager};

fn search_tool() -> Tool {
    Tool::new(
        String::from("search"),
        String::from("query:"),
        String::from("searches the web"),
    )
}

fn calc_tool() -> Tool {
    Tool::new(
        String::from("calculator"),
        String::from("expression:"),
        String::from("evaluates arithmetic"),
    )
}

#[test]
fn empty_registry_builds_no_branch_grammar() {
    let manager = ToolManager::new();
    assert!(manager.tool_choices().is_none());
    assert!(manager.get_tools().is_empty());
}

#[test]
fn single_capability_marker_matches_at_index_zero() {
    let manager = ToolManager::new().with_tool(search_tool());
    let choices = manager.tool_choices().expect("one capability is registered");
    let state = choices.create_parser_state();
    match choices.parse(&state, b"search\nquery:") {
        Ok(ParseResult::Finished { result, remaining }) => {
            assert_eq!(result, 0);
            assert_eq!(remaining, Vec::<u8>::new());
        }
        _ => panic!("the marker must match at index zero"),
    }
}

#[test]
fn thought_line_resolves_via_thought_alternative_only() {
    let manager = ToolManager::new().with_tool(search_tool());
    let step = manager.any_action_constraint();
    let state = step.create_parser_state();
    match step.parse(&state, b"Thought: hello\n") {
        Ok(ParseResult::Finished { result, remaining }) => {
            match result {
                StepOutput::Thought(line) => assert_eq!(line, "hello"),
                StepOutput::Action(_, _) => panic!("must not resolve via the action branch"),
                StepOutput::FinalAnswer(_) => panic!("must not resolve via the answer branch"),
            }
            assert_eq!(remaining, Vec::<u8>::new());
        }
        _ => panic!("the thought line must finish"),
    }
}

#[test]
fn action_line_selects_tool_and_argument() {
    let manager = ToolManager::new().with_tool(calc_tool()).with_tool(search_tool());
    let step = manager.any_action_constraint();
    let state = step.create_parser_state();
    match step.parse(&state, b"Action: search\nquery: weather today\n") {
        Ok(ParseResult::Finished { result, remaining }) => {
            match result {
                StepOutput::Action(index, argument) => {
                    assert_eq!(index, 1);
                    assert_eq!(argument, " weather today");
                }
                _ => panic!("must resolve via the action branch"),
            }
            assert_eq!(remaining, Vec::<u8>::new());
        }
        _ => panic!("the action step must finish"),
    }
}

#[test]
fn answer_line_resolves_via_answer_alternative() {
    let manager = ToolManager::new().with_tool(search_tool());
    let step = manager.any_action_constraint();
    let state = step.create_parser_state();
    match step.parse(&state, b"Final Answer: 42\n") {
        Ok(ParseResult::Finished { result, .. }) => match result {
            StepOutput::FinalAnswer(line) => assert_eq!(line, "42"),
            _ => panic!("must resolve via the answer branch"),
        },
        _ => panic!("the answer step must finish"),
    }
}

#[test]
fn step_grammar_chunked_parse_equals_whole_parse() {
    let manager = ToolManager::new().with_tool(search_tool());
    let step = manager.any_action_constraint();
    let input = b"Thought: hello\n";
    let whole_state = step.create_parser_state();
    let whole_line = match step.parse(&whole_state, input) {
        Ok(ParseResult::Finished { result: StepOutput::Thought(line), remaining }) => {
            assert_eq!(remaining, Vec::<u8>::new());
            line
        }
        _ => panic!("the thought line must finish"),
    };
    let mut state = step.create_parser_state();
    let mut finished = None;
    for byte in input.iter() {
        match step.parse(&state, &[*byte]) {
            Ok(ParseResult::Incomplete { new_state, .. }) => state = new_state,
            Ok(ParseResult::Finished { result, remaining }) => {
                assert_eq!(remaining, Vec::<u8>::new());
                finished = Some(result);
                break;
            }
            Err(()) => panic!("the step must not be rejected"),
        }
    }
    match finished.expect("the split parse must finish too") {
        StepOutput::Thought(line) => assert_eq!(line, whole_line),
        _ => panic!("must resolve via the thought branch"),
    }
}

#[test]
fn step_hint_demands_rest_of_the_only_alive_prefix() {
    let manager = ToolManager::new().with_tool(search_tool());
    let step = manager.any_action_constraint();
    let state = step.create_parser_state();
    // After a `T`, the action and answer branches are dead and the
    // thought branch demands the rest of its literal prefix.
    match step.parse(&state, b"T") {
        Ok(ParseResult::Incomplete { new_state: _, required_next }) => {
            assert_eq!(required_next, b"hought: ".to_vec());
        }
        _ => panic!("expected an incomplete step"),
    }
}

#[test]
fn marker_hints_merge_over_shared_name_prefix() {
    let manager = ToolManager::new()
        .with_tool(Tool::new(
            String::from("searcher"),
            String::from("q:"),
            String::from("first"),
        ))
        .with_tool(Tool::new(
            String::from("search"),
            String::from("q:"),
            String::from("second"),
        ));
    let choices = manager.tool_choices().expect("two capabilities are registered");
    let state = choices.create_parser_state();
    // Branch hints are "searcher\nq:" and "search\nq:": the merged hint is
    // their longest common prefix.
    match choices.parse(&state, b"") {
        Ok(ParseResult::Incomplete { new_state: _, required_next }) => {
            assert_eq!(required_next, b"search".to_vec());
        }
        _ => panic!("expected an incomplete parse"),
    }
}

#[test]
fn rejected_step_reports_failure_once_all_branches_die() {
    let manager = ToolManager::new().with_tool(search_tool());
    let step = manager.any_action_constraint();
    let state = step.create_parser_state();
    assert!(step.parse(&state, b"Observation: nothing\n").is_err());
}

#[test]
fn lookup_by_name_returns_first_match() {
    let mut manager = ToolManager::new();
    manager.add_tool(calc_tool());
    manager.add_tool(search_tool());
    let found = manager.get_tool("search").expect("the tool is registered");
    assert_eq!(found.description().as_str(), "searches the web");
    assert!(manager.get_tool("missing").is_none());
}

#[test]
fn lookup_by_index_follows_registration_order() {
    let manager = ToolManager::new().with_tool(calc_tool()).with_tool(search_tool());
    assert_eq!(manager.get_tool_by_index(0).expect("present").name().as_str(), "calculator");
    assert_eq!(manager.get_tool_by_index(1).expect("present").name().as_str(), "search");
    assert!(manager.get_tool_by_index(2).is_none());
}

#[test]
fn mutable_lookup_edits_the_stored_tool() {
    let mut manager = ToolManager::new().with_tool(search_tool());
    {
        let tool = manager.get_tool_mut("search").expect("the tool is registered");
        tool.description = String::from("edited");
    }
    assert_eq!(manager.get_tool("search").expect("present").description().as_str(), "edited");
    assert!(manager.get_tool_mut("missing").is_none());
    {
        let tool = manager.get_tool_mut_by_index(0).expect("present");
        tool.input_prompt = String::from("q:");
    }
    assert_eq!(manager.get_tool_by_index(0).expect("present").input_prompt().as_str(), "q:");
    assert!(manager.get_tool_mut_by_index(5).is_none());
}

#[test]
fn prompt_lists_each_tool_exactly_once_in_order() {
    let manager = ToolManager::new().with_tool(search_tool()).with_tool(calc_tool());
    let prompt = manager.prompt("what is 2+2?");
    let search_block = "# search\nsearches the web";
    let calc_block = "# calculator\nevaluates arithmetic";
    assert_eq!(prompt.matches(search_block).count(), 1);
    assert_eq!(prompt.matches(calc_block).count(), 1);
    assert_eq!(prompt.matches("'search'").count(), 1);
    assert_eq!(prompt.matches("'calculator'").count(), 1);
    let first = prompt.find(search_block).expect("listed");
    let second = prompt.find(calc_block).expect("listed");
    assert!(first < second, "registration order decides the listing order");
    assert!(prompt.contains("Question: what is 2+2?"));
}

#[test]
fn prompt_has_the_exact_expected_text() {
    let manager = ToolManager::new().with_tool(search_tool());
    let prompt = manager.prompt("hi");
    let expected = "Use the following format:\n\nQuestion: the input question you must answer\nThought: you should always think about what to do\nAction: the action to take, should be one of ['search']\nInput: the input to the action\nObservation: the result of the action\n... (this Thought/Action/Input/Observation can repeat N times)\nThought: I now know the final answer\nFinal Answer: the final answer to the original input question\n\nYou have access to the following tools:\n\n# search\nsearches the web\n\nBegin!\n\nQuestion: hi\n";
    assert_eq!(prompt, expected);
}
