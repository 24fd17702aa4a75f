use kalosm_language::index::IndexParser;
use kalosm_language::line::OneLine;
use kalosm_language::literal::LiteralParser;
use kalosm_language::parse::ParseResult;

fn lit(s: &str) -> LiteralParser {
    LiteralParser::new(s.as_bytes().to_vec())
}

#[test]
fn line_rejects_blank_line() {
    let state = OneLine.create_parser_state();
    let r = OneLine.parse(&state, b"  \n");
    assert!(r.is_err());
}

#[test]
fn line_finishes_simple_line() {
    let state = OneLine.create_parser_state();
    match OneLine.parse(&state, b"ok\n") {
        Ok(ParseResult::Finished { result, remaining }) => {
            assert_eq!(result, "ok");
            assert_eq!(remaining, Vec::<u8>::new());
        }
        _ => panic!("expected a finished line"),
    }
}

#[test]
fn line_crlf_resolves_at_carriage_return() {
    let state = OneLine.create_parser_state();
    match OneLine.parse(&state, b"ok\r\nmore") {
        Ok(ParseResult::Finished { result, remaining }) => {
            assert_eq!(result, "ok");
            assert_eq!(remaining, b"\nmore".to_vec());
        }
        _ => panic!("expected a finished line"),
    }
    // The leftover `\n` fed into a fresh line parser is a blank line.
    let fresh = OneLine.create_parser_state();
    assert!(OneLine.parse(&fresh, b"\n").is_err());
}

#[test]
fn line_rejects_zero_bytes_on_fresh_state() {
    // Pinned quirk: no bytes before any content is a malformed line, not
    // "need more data".
    let state = OneLine.create_parser_state();
    assert!(OneLine.parse(&state, b"").is_err());
}

#[test]
fn line_zero_bytes_after_content_stays_incomplete() {
    let state = OneLine.create_parser_state();
    let state = match OneLine.parse(&state, b"ok") {
        Ok(ParseResult::Incomplete { new_state, required_next }) => {
            assert_eq!(required_next, Vec::<u8>::new());
            new_state
        }
        _ => panic!("expected an incomplete line"),
    };
    match OneLine.parse(&state, b"") {
        Ok(ParseResult::Incomplete { new_state, required_next }) => {
            assert_eq!(required_next, Vec::<u8>::new());
            assert_eq!(new_state.bytes, b"ok".to_vec());
            assert!(!new_state.all_whitespace);
        }
        _ => panic!("expected an incomplete line"),
    }
}

#[test]
fn line_replaces_invalid_encoding() {
    let state = OneLine.create_parser_state();
    match OneLine.parse(&state, &[0xff, b'a', b'\n']) {
        Ok(ParseResult::Finished { result, remaining }) => {
            assert_eq!(result, "\u{FFFD}a");
            assert_eq!(remaining, Vec::<u8>::new());
        }
        _ => panic!("expected a finished line"),
    }
}

#[test]
fn literal_demands_its_suffix() {
    let p = lit("abcd");
    let state = p.create_parser_state();
    match p.parse(&state, b"ab") {
        Ok(ParseResult::Incomplete { new_state, required_next }) => {
            assert_eq!(new_state.offset, 2);
            assert_eq!(required_next, b"cd".to_vec());
        }
        _ => panic!("expected an incomplete literal"),
    }
}

#[test]
fn literal_rejects_on_first_disagreeing_byte() {
    let p = lit("abcd");
    let state = p.create_parser_state();
    assert!(p.parse(&state, b"ax").is_err());
}

#[test]
fn index_registration_order_beats_longest_match() {
    // Registering "ab" then "abc" and feeding "abc": the earlier branch
    // wins with remainder "c".
    let p = IndexParser::new(vec![lit("ab"), lit("abc")]);
    let state = p.create_parser_state();
    match p.parse(&state, b"abc") {
        Ok(ParseResult::Finished { result, remaining }) => {
            assert_eq!(result, 0);
            assert_eq!(remaining, b"c".to_vec());
        }
        _ => panic!("expected a finished branch"),
    }
}

#[test]
fn index_full_branch_bytes_finish_at_its_position() {
    let p = IndexParser::new(vec![lit("xy"), lit("ab")]);
    let state = p.create_parser_state();
    match p.parse(&state, b"ab") {
        Ok(ParseResult::Finished { result, remaining }) => {
            assert_eq!(result, 1);
            assert_eq!(remaining, Vec::<u8>::new());
        }
        _ => panic!("expected a finished branch"),
    }
}

#[test]
fn index_merges_hints_to_common_prefix() {
    let p = IndexParser::new(vec![lit("abcd"), lit("abzz")]);
    let state = p.create_parser_state();
    match p.parse(&state, b"a") {
        Ok(ParseResult::Incomplete { new_state: _, required_next }) => {
            // Branch hints are "bcd" and "bzz": the merged hint is their
            // longest common prefix.
            assert_eq!(required_next, b"b".to_vec());
        }
        _ => panic!("expected an incomplete parse"),
    }
}

#[test]
fn index_hint_empty_when_branches_disagree_at_once() {
    let p = IndexParser::new(vec![lit("ax"), lit("bx")]);
    let state = p.create_parser_state();
    match p.parse(&state, b"") {
        Ok(ParseResult::Incomplete { new_state: _, required_next }) => {
            assert_eq!(required_next, Vec::<u8>::new());
        }
        _ => panic!("expected an incomplete parse"),
    }
}

#[test]
fn index_fails_once_every_branch_is_dead() {
    let p = IndexParser::new(vec![lit("aa"), lit("bb")]);
    let state = p.create_parser_state();
    assert!(p.parse(&state, b"cc").is_err());
}

#[test]
fn index_dead_branch_stays_dead() {
    let p = IndexParser::new(vec![lit("aa"), lit("ab")]);
    let state = p.create_parser_state();
    let state = match p.parse(&state, b"a") {
        Ok(ParseResult::Incomplete { new_state, .. }) => new_state,
        _ => panic!("expected an incomplete parse"),
    };
    // "b" kills the first branch, the second finishes.
    match p.parse(&state, b"b") {
        Ok(ParseResult::Finished { result, .. }) => assert_eq!(result, 1),
        _ => panic!("expected a finished branch"),
    }
    // A chunk killing both reports the failure.
    assert!(p.parse(&state, b"c").is_err());
}

#[test]
fn index_chunked_parse_equals_whole_parse() {
    // Chunk-size independence: one call on the full input against the
    // same input split into single bytes, state threaded between calls.
    let p = IndexParser::new(vec![lit("search\nquery:"), lit("sum\nterms:")]);
    let input = b"search\nquery: rest";
    let whole = p.create_parser_state();
    let (whole_index, whole_remaining) = match p.parse(&whole, input) {
        Ok(ParseResult::Finished { result, remaining }) => (result, remaining),
        _ => panic!("expected a finished branch"),
    };
    let mut state = p.create_parser_state();
    let mut finished = None;
    for (pos, byte) in input.iter().enumerate() {
        match p.parse(&state, &[*byte]) {
            Ok(ParseResult::Incomplete { new_state, .. }) => state = new_state,
            Ok(ParseResult::Finished { result, remaining }) => {
                let mut rest = remaining;
                rest.extend_from_slice(&input[pos + 1..]);
                finished = Some((result, rest));
                break;
            }
            Err(()) => panic!("no branch may die on this input"),
        }
    }
    let (byte_index, byte_remaining) = finished.expect("the split parse must finish too");
    assert_eq!(byte_index, whole_index);
    assert_eq!(byte_remaining, whole_remaining);
}

#[test]
fn line_chunked_parse_equals_whole_parse() {
    let input = b"hello world\nrest";
    let whole = OneLine.create_parser_state();
    let (whole_line, whole_remaining) = match OneLine.parse(&whole, input) {
        Ok(ParseResult::Finished { result, remaining }) => (result, remaining),
        _ => panic!("expected a finished line"),
    };
    let mut state = OneLine.create_parser_state();
    let mut finished = None;
    for (pos, byte) in input.iter().enumerate() {
        match OneLine.parse(&state, &[*byte]) {
            Ok(ParseResult::Incomplete { new_state, .. }) => state = new_state,
            Ok(ParseResult::Finished { result, remaining }) => {
                let mut rest = remaining;
                rest.extend_from_slice(&input[pos + 1..]);
                finished = Some((result, rest));
                break;
            }
            Err(()) => panic!("the line must not be rejected"),
        }
    }
    let (byte_line, byte_remaining) = finished.expect("the split parse must finish too");
    assert_eq!(byte_line, whole_line);
    assert_eq!(byte_remaining, whole_remaining);
}
