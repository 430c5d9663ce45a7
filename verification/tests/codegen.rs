//! Tests of the text-generation pipeline: range compression, decimal
//! rendering, indentation, and the full generated unit.

use noir_regex_codegen::dfa::{CaptureGroup, CompilationUnit, Dfa, State, StateKind, Transition};
use noir_regex_codegen::dfa::{has_one_accept_state, max_state_id};
use noir_regex_codegen::emit::to_noir_fn;
use noir_regex_codegen::ranges::byte_ranges;
use noir_regex_codegen::text::{dec_string, indent};

fn state(id: usize, kind: StateKind, transitions: Vec<Transition>) -> State {
    State { state_id: id, kind, transitions }
}

fn tran(target: usize, bytes: Vec<u8>) -> Transition {
    Transition { target, bytes }
}

/// The single-byte pattern `a$`: state 0 moves to the accepting state 1 on
/// byte 97.
fn unit_single_a(groups: Vec<CaptureGroup>) -> CompilationUnit {
    CompilationUnit {
        regex_pattern: String::from("a"),
        dfa: Dfa {
            states: vec![
                state(0, StateKind::Normal, vec![tran(1, vec![97])]),
                state(1, StateKind::Accept, vec![]),
            ],
        },
        has_end_anchor: true,
        capture_groups: groups,
    }
}

#[test]
fn ranges_empty_set() {
    let r = byte_ranges(&vec![]);
    assert_eq!(r, vec![]);
}

#[test]
fn ranges_single_byte() {
    let r = byte_ranges(&vec![97]);
    assert_eq!(r, vec![(97, 97)]);
}

#[test]
fn ranges_merge_consecutive() {
    let r = byte_ranges(&vec![97, 98, 99, 101]);
    assert_eq!(r, vec![(97, 99), (101, 101)]);
}

#[test]
fn ranges_extremes() {
    let r = byte_ranges(&vec![0, 255]);
    assert_eq!(r, vec![(0, 0), (255, 255)]);
    let r = byte_ranges(&vec![254, 255]);
    assert_eq!(r, vec![(254, 255)]);
}

#[test]
fn ranges_full_alphabet() {
    let all: Vec<u8> = (0..=255).collect();
    let r = byte_ranges(&all);
    assert_eq!(r, vec![(0, 255)]);
}

#[test]
fn decimal_rendering() {
    assert_eq!(dec_string(0), "0");
    assert_eq!(dec_string(9), "9");
    assert_eq!(dec_string(10), "10");
    assert_eq!(dec_string(255), "255");
    assert_eq!(dec_string(1234), "1234");
}

#[test]
fn indent_simple() {
    assert_eq!(indent("a\nb", 1), "    a\n    b");
    assert_eq!(indent("x", 2), "        x");
}

#[test]
fn indent_keeps_blank_lines() {
    assert_eq!(indent("a\n\nb", 1), "    a\n\n    b");
    assert_eq!(indent("   \nx", 2), "   \n        x");
}

#[test]
fn indent_keeps_trailing_newline() {
    assert_eq!(indent("a\n", 1), "    a\n");
    assert_eq!(indent("", 1), "");
}

#[test]
fn accept_state_counting() {
    let u = unit_single_a(vec![]);
    assert!(has_one_accept_state(&u.dfa));
    let none = Dfa { states: vec![state(0, StateKind::Normal, vec![])] };
    assert!(!has_one_accept_state(&none));
    let two = Dfa {
        states: vec![
            state(0, StateKind::Accept, vec![]),
            state(1, StateKind::Accept, vec![]),
        ],
    };
    assert!(!has_one_accept_state(&two));
}

#[test]
fn max_identity() {
    let u = unit_single_a(vec![]);
    assert_eq!(max_state_id(&u.dfa), 1);
}

#[test]
fn generation_is_deterministic() {
    let u = unit_single_a(vec![CaptureGroup { edges: vec![(0, 1)] }]);
    assert_eq!(to_noir_fn(&u, false), to_noir_fn(&u, false));
    assert_eq!(to_noir_fn(&u, true), to_noir_fn(&u, true));
}

#[test]
fn generated_text_without_captures() {
    let u = unit_single_a(vec![]);
    let expected = [
        "pub fn regex_match<let N: u32>(input: [u8; N]) {",
        "    // regex: a",
        "    let mut s = 0;",
        "    s = next_state(s, 255);",
        "",
        "    for i in 0..input.len() {",
        "        s = next_state(s, input[i]);",
        "    }",
        "",
        "    assert((s == 1), f\"no match: {s}\");",
        "}",
        "  ",
        "      ",
        "fn next_state(s: Field, input: u8) -> Field {",
        "    let mut next = 0;",
        "    if (s == 0) & (input == 97) {",
        "       next = 1;",
        "    } else if (input == 97) {",
        "       next = 1;",
        "    }",
        "",
        "    next",
        "}",
    ]
    .join("\n");
    assert_eq!(to_noir_fn(&u, false), expected);
}

#[test]
fn generated_text_with_captures() {
    let u = unit_single_a(vec![CaptureGroup { edges: vec![(0, 1)] }]);
    let expected = [
        "pub fn regex_match<let N: u32>(input: [u8; N]) -> Vec<BoundedVec<Field, N>> {",
        "    // regex: a",
        "    let mut substrings: Vec<BoundedVec<Field, N>> = Vec::new();",
        "",
        "    // \"Previous\" state",
        "    let mut s: Field = 0;",
        "    // \"Next\"/upcoming state",
        "    let mut s_next: Field = 0;",
        "    let stateInfo = next_state(s, 255);",
        "    s = stateInfo.next_state;",
        "    let mut consecutive_substr = 0;",
        "    let mut current_substring = BoundedVec::new();",
        "",
        "    for i in 0..input.len() {",
        "        let stateInfo =  next_state(s, input[i]);",
        "        if stateInfo.reset {",
        "            // If there was a reset, we consider the previous state to be 0.",
        "            s = 0;",
        "        }",
        "        s_next = stateInfo.next_state;",
        "        let temp = input[i] as Field;",
        "",
        "        // If a substring was in the making, but the state was reset",
        "        // we disregard previous progress because apparently it is invalid",
        "        if (stateInfo.reset & (consecutive_substr == 1)) {",
        "            current_substring = BoundedVec::new();",
        "            consecutive_substr = 0;",
        "        }",
        "",
        "        // Fill up substrings",
        "        if (((s == 0) & (s_next == 1))) {",
        "            if (consecutive_substr == 0) {",
        "              current_substring.push(temp);",
        "              consecutive_substr = 1;",
        "            } else if (consecutive_substr == 1) {",
        "              current_substring.push(temp);",
        "            }",
        "        } else if ((consecutive_substr == 1) & (s_next == 0)) {",
        "            current_substring = BoundedVec::new();",
        "            consecutive_substr = 0;",
        "        } else if (consecutive_substr == 1) {",
        "            // The substring is done so \"save\" it",
        "            substrings.push(current_substring);",
        "            // reset the substring holder for next use",
        "            current_substring = BoundedVec::new();",
        "            consecutive_substr = 0;",
        "        }",
        "        s = s_next;",
        "    }",
        "",
        "    assert((s == 1), f\"no match: {s}\");",
        "",
        "    // Add pending substring that hasn't been added",
        "    if consecutive_substr == 1 {",
        "      substrings.push(current_substring);",
        "    }",
        "    substrings",
        "}",
        "  ",
        "      ",
        "struct StateInfo {",
        "  next_state: Field,",
        "  reset: bool",
        "      }",
        "",
        "fn next_state(s: Field, input: u8) -> StateInfo {",
        "    let mut next = 0;",
        "    // Whether the move to the next state can be seen as a reset",
        "    // and what has been observed until now turned out to be invalid",
        "    let mut reset = true;",
        "    if (s == 0) & (input == 97) {",
        "       next = 1;",
        "       reset = false;",
        "    } else if (input == 97) {",
        "       next = 1;",
        "    }",
        "",
        "    StateInfo{ next_state: next, reset }",
        "}",
    ]
    .join("\n");
    assert_eq!(to_noir_fn(&u, true), expected);
}

#[test]
fn generated_text_without_end_anchor() {
    let mut u = unit_single_a(vec![]);
    u.has_end_anchor = false;
    let out = to_noir_fn(&u, false);
    // The accepting set gains the synthesized identity 2 = max + 1, and the
    // two absorption rules stand between the rows and the restart fallback.
    let expected = [
        "pub fn regex_match<let N: u32>(input: [u8; N]) {",
        "    // regex: a",
        "    let mut s = 0;",
        "    s = next_state(s, 255);",
        "",
        "    for i in 0..input.len() {",
        "        s = next_state(s, input[i]);",
        "    }",
        "",
        "    assert((s == 1) | (s == 2), f\"no match: {s}\");",
        "}",
        "  ",
        "      ",
        "fn next_state(s: Field, input: u8) -> Field {",
        "    let mut next = 0;",
        "    if (s == 0) & (input == 97) {",
        "       next = 1;",
        "    } else if (s == 1) {",
        "       next = 2;",
        "    } else if (s == 2) {",
        "       next = 2;",
        "    } else if (input == 97) {",
        "       next = 1;",
        "    }",
        "",
        "    next",
        "}",
    ]
    .join("\n");
    assert_eq!(out, expected);
}

#[test]
fn range_guard_rendering() {
    // A multi-byte interval renders a closed-range guard; the restart copy
    // stands in its own parentheses.
    let u = CompilationUnit {
        regex_pattern: String::from("[a-c]"),
        dfa: Dfa {
            states: vec![
                state(0, StateKind::Normal, vec![tran(1, vec![97, 98, 99])]),
                state(1, StateKind::Accept, vec![]),
            ],
        },
        has_end_anchor: true,
        capture_groups: vec![],
    };
    let out = to_noir_fn(&u, false);
    assert!(out.contains("    if (s == 0) & (input >= 97) & (input <= 99) {"));
    assert!(out.contains("    } else if ((input >= 97) & (input <= 99)) {"));
}
