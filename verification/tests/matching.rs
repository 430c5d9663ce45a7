//! Tests of the rule chain and the reference matcher semantics: the guarded
//! evaluation, restart fallback, accept absorption and capture tracking.

use noir_regex_codegen::dfa::{CaptureGroup, CompilationUnit, Dfa, State, StateKind, Transition};
use noir_regex_codegen::machine::{run_match, run_match_with_captures};
use noir_regex_codegen::rules::{accept_state_ids, build_rules, eval_rules, Rule};

fn state(id: usize, kind: StateKind, transitions: Vec<Transition>) -> State {
    State { state_id: id, kind, transitions }
}

fn tran(target: usize, bytes: Vec<u8>) -> Transition {
    Transition { target, bytes }
}

/// The pattern `a+b`: 0 moves to 1 on `a`, 1 loops on `a` and moves to the
/// accepting state 2 on `b`.
fn unit_a_plus_b(has_end_anchor: bool, groups: Vec<CaptureGroup>) -> CompilationUnit {
    CompilationUnit {
        regex_pattern: String::from("a+b"),
        dfa: Dfa {
            states: vec![
                state(0, StateKind::Normal, vec![tran(1, vec![97])]),
                state(1, StateKind::Normal, vec![tran(1, vec![97]), tran(2, vec![98])]),
                state(2, StateKind::Accept, vec![]),
            ],
        },
        has_end_anchor,
        capture_groups: groups,
    }
}

#[test]
fn rule_chain_layout() {
    let u = unit_a_plus_b(true, vec![]);
    let rules = build_rules(&u);
    assert_eq!(
        rules,
        vec![
            Rule::StateByte { state: 0, lo: 97, hi: 97, next: 1 },
            Rule::StateByte { state: 1, lo: 97, hi: 97, next: 1 },
            Rule::StateByte { state: 1, lo: 98, hi: 98, next: 2 },
            Rule::ByteOnly { lo: 97, hi: 97, next: 1 },
        ]
    );
}

#[test]
fn rule_chain_layout_without_end_anchor() {
    let u = unit_a_plus_b(false, vec![]);
    let rules = build_rules(&u);
    assert_eq!(
        rules,
        vec![
            Rule::StateByte { state: 0, lo: 97, hi: 97, next: 1 },
            Rule::StateByte { state: 1, lo: 97, hi: 97, next: 1 },
            Rule::StateByte { state: 1, lo: 98, hi: 98, next: 2 },
            Rule::StateAny { state: 2, next: 3 },
            Rule::StateAny { state: 3, next: 3 },
            Rule::ByteOnly { lo: 97, hi: 97, next: 1 },
        ]
    );
}

#[test]
fn sentinel_rows_stay_out_of_restart() {
    // A start-anchor rule keyed on the sentinel byte at state 0 gets no
    // restart copy; the other state-0 row does.
    let u = CompilationUnit {
        regex_pattern: String::from("^a"),
        dfa: Dfa {
            states: vec![
                state(0, StateKind::Normal, vec![tran(1, vec![255]), tran(2, vec![97])]),
                state(1, StateKind::Normal, vec![tran(2, vec![97])]),
                state(2, StateKind::Accept, vec![]),
            ],
        },
        has_end_anchor: true,
        capture_groups: vec![],
    };
    let rules = build_rules(&u);
    assert_eq!(
        rules,
        vec![
            Rule::StateByte { state: 0, lo: 255, hi: 255, next: 1 },
            Rule::StateByte { state: 0, lo: 97, hi: 97, next: 2 },
            Rule::StateByte { state: 1, lo: 97, hi: 97, next: 2 },
            Rule::ByteOnly { lo: 97, hi: 97, next: 2 },
        ]
    );
}

#[test]
fn accept_ids_with_and_without_anchor() {
    let anchored = unit_a_plus_b(true, vec![]);
    assert_eq!(accept_state_ids(&anchored), vec![2]);
    let open_ended = unit_a_plus_b(false, vec![]);
    assert_eq!(accept_state_ids(&open_ended), vec![2, 3]);
}

#[test]
fn evaluation_first_match_wins_and_falls_back() {
    let u = unit_a_plus_b(true, vec![]);
    let rules = build_rules(&u);
    // A state-qualified rule fires and clears the reset flag.
    assert_eq!(eval_rules(&rules, 1, 98), (2, false));
    // At an unknown state the restart fallback decides, with the flag set.
    assert_eq!(eval_rules(&rules, 7, 97), (1, true));
    // With no rule at all the step falls back to state 0 with the flag set.
    assert_eq!(eval_rules(&rules, 7, 120), (0, true));
}

#[test]
fn anchored_match_ends_in_accept_state() {
    let u = unit_a_plus_b(true, vec![]);
    let rules = build_rules(&u);
    let ids = accept_state_ids(&u);
    let (final_state, accepted) = run_match(&rules, &ids, &b"aaab".to_vec());
    assert_eq!(final_state, 2);
    assert!(accepted);
}

#[test]
fn anchored_match_rejects_trailing_bytes() {
    let u = unit_a_plus_b(true, vec![]);
    let rules = build_rules(&u);
    let ids = accept_state_ids(&u);
    let (final_state, accepted) = run_match(&rules, &ids, &b"aabx".to_vec());
    assert_eq!(final_state, 0);
    assert!(!accepted);
}

#[test]
fn unanchored_match_absorbs_trailing_bytes() {
    let u = unit_a_plus_b(false, vec![]);
    let rules = build_rules(&u);
    let ids = accept_state_ids(&u);
    let (final_state, accepted) = run_match(&rules, &ids, &b"aaabxx".to_vec());
    assert_eq!(final_state, 3);
    assert!(accepted);
}

#[test]
fn restart_finds_later_match() {
    // A failed prefix does not end the scan: the byte restarts the attempt.
    let u = unit_a_plus_b(true, vec![]);
    let rules = build_rules(&u);
    let ids = accept_state_ids(&u);
    let (final_state, accepted) = run_match(&rules, &ids, &b"axab".to_vec());
    assert_eq!(final_state, 2);
    assert!(accepted);
}

#[test]
fn capture_of_repeated_group() {
    let groups = vec![CaptureGroup { edges: vec![(0, 1), (1, 1)] }];
    let u = unit_a_plus_b(true, groups);
    let rules = build_rules(&u);
    let ids = accept_state_ids(&u);
    let (final_state, accepted, bufs) =
        run_match_with_captures(&rules, &u.capture_groups, &ids, &b"aaab".to_vec());
    assert_eq!(final_state, 2);
    assert!(accepted);
    assert_eq!(bufs, vec![b"aaa".to_vec()]);
}

#[test]
fn capture_discarded_on_reset() {
    // The open buffer of a speculative match is discarded when the automaton
    // resets; a later attempt opens a fresh one, committed at exhaustion.
    let groups = vec![CaptureGroup { edges: vec![(0, 1), (1, 1)] }];
    let u = unit_a_plus_b(true, groups);
    let rules = build_rules(&u);
    let ids = accept_state_ids(&u);
    let (final_state, accepted, bufs) =
        run_match_with_captures(&rules, &u.capture_groups, &ids, &b"aaxa".to_vec());
    assert_eq!(final_state, 1);
    assert!(!accepted);
    assert_eq!(bufs, vec![b"a".to_vec()]);
}

#[test]
fn capture_reopens_on_restart_edge() {
    // A restart step whose byte takes a group edge out of state 0 opens a new
    // buffer in the same step that discarded nothing (the old one was already
    // committed).
    let groups = vec![CaptureGroup { edges: vec![(0, 1), (1, 1)] }];
    let u = unit_a_plus_b(true, groups);
    let rules = build_rules(&u);
    let ids = accept_state_ids(&u);
    let (final_state, accepted, bufs) =
        run_match_with_captures(&rules, &u.capture_groups, &ids, &b"aaba".to_vec());
    assert_eq!(final_state, 1);
    assert!(!accepted);
    assert_eq!(bufs, vec![b"aa".to_vec(), b"a".to_vec()]);
}

#[test]
fn no_restart_when_state_zero_has_only_sentinel_rows() {
    // With no non-sentinel transition out of state 0 the fallback rule set is
    // absent, and an unmatched byte falls back to state 0.
    let u = CompilationUnit {
        regex_pattern: String::from("^a"),
        dfa: Dfa {
            states: vec![
                state(0, StateKind::Normal, vec![tran(1, vec![255])]),
                state(1, StateKind::Normal, vec![tran(2, vec![97])]),
                state(2, StateKind::Accept, vec![]),
            ],
        },
        has_end_anchor: true,
        capture_groups: vec![],
    };
    let rules = build_rules(&u);
    assert_eq!(
        rules,
        vec![
            Rule::StateByte { state: 0, lo: 255, hi: 255, next: 1 },
            Rule::StateByte { state: 1, lo: 97, hi: 97, next: 2 },
        ]
    );
    let ids = accept_state_ids(&u);
    let (final_state, accepted) = run_match(&rules, &ids, &b"a".to_vec());
    assert_eq!(final_state, 2);
    assert!(accepted);
    // A byte no rule accepts at a mid state: the step falls back to state 0.
    let (final_state, accepted) = run_match(&rules, &ids, &b"ax".to_vec());
    assert_eq!(final_state, 0);
    assert!(!accepted);
}

#[test]
fn empty_group_spec_commits_nothing() {
    let u = unit_a_plus_b(true, vec![]);
    let rules = build_rules(&u);
    let ids = accept_state_ids(&u);
    let (final_state, accepted, bufs) =
        run_match_with_captures(&rules, &u.capture_groups, &ids, &b"aaab".to_vec());
    assert_eq!(final_state, 2);
    assert!(accepted);
    assert_eq!(bufs, Vec::<Vec<u8>>::new());
}
