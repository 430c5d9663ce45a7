//! Emitter: renders the synthesized rule chain, accepting identity set and
//! capture conditions into the one textual unit — two function definitions in
//! the circuit language, with deterministic naming and structure.

use vstd::prelude::*;
use vstd::string::{StringExecFns, StrSliceExecFns};
use crate::dfa::{CaptureGroup, CompilationUnit, unit_wf};
use crate::rules::{
    Rule, rule_next, rule_resets, spec_rules, spec_accept_ids, build_rules, accept_state_ids,
};
use crate::text::{spec_dec, dec_string, spec_indent, indent};

verus! {

/// The guard text of one rule: an equality test for a single-byte interval, a
/// closed-range test otherwise, conjoined with a state-equality test for
/// state-qualified rules. A restart rule's range test stands in one extra
/// pair of parentheses.
pub open spec fn spec_guard_text(r: Rule) -> Seq<char> {
    match r {
        Rule::StateByte { state, lo, hi, next } => if lo == hi {
            "(s == "@ + spec_dec(state as nat) + ") & (input == "@ + spec_dec(lo as nat) + ")"@
        } else {
            "(s == "@ + spec_dec(state as nat) + ") & (input >= "@ + spec_dec(lo as nat)
                + ") & (input <= "@ + spec_dec(hi as nat) + ")"@
        },
        Rule::StateAny { state, next } => "(s == "@ + spec_dec(state as nat) + ")"@,
        Rule::ByteOnly { lo, hi, next } => if lo == hi {
            "(input == "@ + spec_dec(lo as nat) + ")"@
        } else {
            "((input >= "@ + spec_dec(lo as nat) + ") & (input <= "@ + spec_dec(hi as nat)
                + "))"@
        },
    }
}

/// The full text of one guarded rule: the guard, the move to the next state,
/// and — in capture mode, for rules that mark a valid continuation — the line
/// clearing the reset flag.
pub open spec fn spec_rule_text(r: Rule, first: bool, substrs: bool) -> Seq<char> {
    (if first {
        "if "@
    } else {
        " else if "@
    }) + spec_guard_text(r) + " {\n   next = "@ + spec_dec(rule_next(r) as nat) + ";"@ + (
    if substrs && !rule_resets(r) {
        "\n   reset = false;"@
    } else {
        Seq::<char>::empty()
    }) + "\n}"@
}

/// The text of the first `i` rules of the chain.
pub open spec fn spec_chain_upto(rules: Seq<Rule>, substrs: bool, i: int) -> Seq<char>
    decreases i,
{
    if i <= 0 {
        Seq::empty()
    } else {
        spec_chain_upto(rules, substrs, i - 1) + spec_rule_text(rules[i - 1], i == 1, substrs)
    }
}

pub open spec fn spec_chain(rules: Seq<Rule>, substrs: bool) -> Seq<char> {
    spec_chain_upto(rules, substrs, rules.len() as int)
}

/// The acceptance test over the first `i` accepting identities, joined by
/// disjunction.
pub open spec fn spec_accept_cond_upto(ids: Seq<usize>, i: int) -> Seq<char>
    decreases i,
{
    if i <= 0 {
        Seq::empty()
    } else {
        spec_accept_cond_upto(ids, i - 1) + (if i == 1 {
            Seq::<char>::empty()
        } else {
            " | "@
        }) + "(s == "@ + spec_dec(ids[i - 1] as nat) + ")"@
    }
}

pub open spec fn spec_accept_cond(ids: Seq<usize>) -> Seq<char> {
    spec_accept_cond_upto(ids, ids.len() as int)
}

/// The membership test over the first `i` edges of one capture group, joined
/// by disjunction.
pub open spec fn spec_pair_cond_upto(edges: Seq<(usize, usize)>, i: int) -> Seq<char>
    decreases i,
{
    if i <= 0 {
        Seq::empty()
    } else {
        spec_pair_cond_upto(edges, i - 1) + (if i == 1 {
            Seq::<char>::empty()
        } else {
            " | "@
        }) + "((s == "@ + spec_dec(edges[i - 1].0 as nat) + ") & (s_next == "@ + spec_dec(
            edges[i - 1].1 as nat,
        ) + "))"@
    }
}

pub open spec fn spec_pair_cond(edges: Seq<(usize, usize)>) -> Seq<char> {
    spec_pair_cond_upto(edges, edges.len() as int)
}

/// The guarded block of one capture group: on an edge of the group, open a
/// buffer or extend the open one with the current byte.
pub open spec fn spec_group_block(edges: Seq<(usize, usize)>, first: bool) -> Seq<char> {
    (if first {
        "if"@
    } else {
        "else if"@
    }) + " ("@ + spec_pair_cond(edges)
        + ") {\n    if (consecutive_substr == 0) {\n      current_substring.push(temp);\n      consecutive_substr = 1;\n    } else if (consecutive_substr == 1) {\n      current_substring.push(temp);\n    }\n}"@
}

/// The group blocks of the first `i` groups, joined by line breaks.
pub open spec fn spec_group_blocks_upto(groups: Seq<CaptureGroup>, i: int) -> Seq<char>
    decreases i,
{
    if i <= 0 {
        Seq::empty()
    } else {
        spec_group_blocks_upto(groups, i - 1) + (if i == 1 {
            Seq::<char>::empty()
        } else {
            "\n"@
        }) + spec_group_block(groups[i - 1].edges@, i == 1)
    }
}

/// The complete per-byte capture conditions: the group blocks, then the
/// discard of a buffer orphaned by a restart to the initial state, then the
/// commit of a buffer whose edge left every group.
pub open spec fn spec_capture_conditions(groups: Seq<CaptureGroup>) -> Seq<char> {
    spec_group_blocks_upto(groups, groups.len() as int)
        + " else if ((consecutive_substr == 1) & (s_next == 0)) {\n    current_substring = BoundedVec::new();\n    consecutive_substr = 0;\n} else if (consecutive_substr == 1) {\n    // The substring is done so \"save\" it\n    substrings.push(current_substring);\n    // reset the substring holder for next use\n    current_substring = BoundedVec::new();\n    consecutive_substr = 0;\n}"@
}

/// The transition-evaluator function: in capture mode a record of next state
/// and reset flag, otherwise the bare next state.
pub open spec fn spec_next_state_fn(rules: Seq<Rule>, substrs: bool) -> Seq<char> {
    if substrs {
        "struct StateInfo {\n  next_state: Field,\n  reset: bool\n      }\n\nfn next_state(s: Field, input: u8) -> StateInfo {\n    let mut next = 0;\n    // Whether the move to the next state can be seen as a reset\n    // and what has been observed until now turned out to be invalid\n    let mut reset = true;\n"@
            + spec_indent(spec_chain(rules, substrs), 1)
            + "\n\n    StateInfo{ next_state: next, reset }\n}"@
    } else {
        "fn next_state(s: Field, input: u8) -> Field {\n    let mut next = 0;\n"@ + spec_indent(
            spec_chain(rules, substrs),
            1,
        ) + "\n\n    next\n}"@
    }
}

/// The match entry point: state initialization, the one-time sentinel feed,
/// the fixed-size input loop, and the final acceptance assertion; in capture
/// mode also the per-byte capture logic and the returned buffer collection.
pub open spec fn spec_match_fn(u: CompilationUnit, substrs: bool) -> Seq<char> {
    if substrs {
        "pub fn regex_match<let N: u32>(input: [u8; N]) -> Vec<BoundedVec<Field, N>> {\n    // regex: "@
            + u.regex_pattern@
            + "\n    let mut substrings: Vec<BoundedVec<Field, N>> = Vec::new();\n\n    // \"Previous\" state\n    let mut s: Field = 0;\n    // \"Next\"/upcoming state\n    let mut s_next: Field = 0;\n    let stateInfo = next_state(s, 255);\n    s = stateInfo.next_state;\n    let mut consecutive_substr = 0;\n    let mut current_substring = BoundedVec::new();\n\n    for i in 0..input.len() {\n        let stateInfo =  next_state(s, input[i]);\n        if stateInfo.reset {\n            // If there was a reset, we consider the previous state to be 0.\n            s = 0;\n        }\n        s_next = stateInfo.next_state;\n        let temp = input[i] as Field;\n\n        // If a substring was in the making, but the state was reset\n        // we disregard previous progress because apparently it is invalid\n        if (stateInfo.reset & (consecutive_substr == 1)) {\n            current_substring = BoundedVec::new();\n            consecutive_substr = 0;\n        }\n\n        // Fill up substrings\n"@
            + spec_indent(spec_capture_conditions(u.capture_groups@), 2)
            + "\n        s = s_next;\n    }\n\n    assert("@ + spec_accept_cond(spec_accept_ids(u))
            + ", f\"no match: {s}\");\n\n    // Add pending substring that hasn't been added\n    if consecutive_substr == 1 {\n      substrings.push(current_substring);\n    }\n    substrings\n}"@
    } else {
        "pub fn regex_match<let N: u32>(input: [u8; N]) {\n    // regex: "@ + u.regex_pattern@
            + "\n    let mut s = 0;\n    s = next_state(s, 255);\n\n    for i in 0..input.len() {\n        s = next_state(s, input[i]);\n    }\n\n    assert("@
            + spec_accept_cond(spec_accept_ids(u)) + ", f\"no match: {s}\");\n}"@
    }
}

/// The whole generated unit: the match entry point, then the transition
/// evaluator.
pub open spec fn spec_to_noir(u: CompilationUnit, substrs: bool) -> Seq<char> {
    spec_match_fn(u, substrs) + "\n  \n      \n"@ + spec_next_state_fn(spec_rules(u), substrs)
}

fn render_guard(r: &Rule) -> (s: String)
    ensures
        s@ == spec_guard_text(*r),
{
    match *r {
        Rule::StateByte { state, lo, hi, next } => {
            if lo == hi {
                let mut s = String::from_str("(s == ");
                s.append(dec_string(state).as_str());
                s.append(") & (input == ");
                s.append(dec_string(lo as usize).as_str());
                s.append(")");
                s
            } else {
                let mut s = String::from_str("(s == ");
                s.append(dec_string(state).as_str());
                s.append(") & (input >= ");
                s.append(dec_string(lo as usize).as_str());
                s.append(") & (input <= ");
                s.append(dec_string(hi as usize).as_str());
                s.append(")");
                s
            }
        },
        Rule::StateAny { state, next } => {
            let mut s = String::from_str("(s == ");
            s.append(dec_string(state).as_str());
            s.append(")");
            s
        },
        Rule::ByteOnly { lo, hi, next } => {
            if lo == hi {
                let mut s = String::from_str("(input == ");
                s.append(dec_string(lo as usize).as_str());
                s.append(")");
                s
            } else {
                let mut s = String::from_str("((input >= ");
                s.append(dec_string(lo as usize).as_str());
                s.append(") & (input <= ");
                s.append(dec_string(hi as usize).as_str());
                s.append("))");
                s
            }
        },
    }
}

fn render_rule(r: &Rule, first: bool, substrs: bool) -> (s: String)
    ensures
        s@ == spec_rule_text(*r, first, substrs),
{
    let mut s = if first {
        String::from_str("if ")
    } else {
        String::from_str(" else if ")
    };
    let guard = render_guard(r);
    s.append(guard.as_str());
    s.append(" {\n   next = ");
    let next = match *r {
        Rule::StateByte { state, lo, hi, next } => next,
        Rule::StateAny { state, next } => next,
        Rule::ByteOnly { lo, hi, next } => next,
    };
    s.append(dec_string(next).as_str());
    s.append(";");
    let resets = match *r {
        Rule::ByteOnly { .. } => true,
        _ => false,
    };
    if substrs && !resets {
        s.append("\n   reset = false;");
    }
    s.append("\n}");
    proof {
        assert(s@ =~= spec_rule_text(*r, first, substrs));
    }
    s
}

fn render_chain(rules: &Vec<Rule>, substrs: bool) -> (s: String)
    ensures
        s@ == spec_chain(rules@, substrs),
{
    let mut s = String::new();
    let n = rules.len();
    for i in 0..n
        invariant
            n == rules@.len(),
            s@ == spec_chain_upto(rules@, substrs, i as int),
    {
        let t = render_rule(&rules[i], i == 0, substrs);
        s.append(t.as_str());
        proof {
            assert(s@ =~= spec_chain_upto(rules@, substrs, i + 1));
        }
    }
    s
}

fn render_accept_cond(ids: &Vec<usize>) -> (s: String)
    ensures
        s@ == spec_accept_cond(ids@),
{
    let mut s = String::new();
    let n = ids.len();
    for i in 0..n
        invariant
            n == ids@.len(),
            s@ == spec_accept_cond_upto(ids@, i as int),
    {
        if i > 0 {
            s.append(" | ");
        }
        s.append("(s == ");
        s.append(dec_string(ids[i]).as_str());
        s.append(")");
        proof {
            assert(s@ =~= spec_accept_cond_upto(ids@, i + 1));
        }
    }
    s
}

fn render_pair_cond(edges: &Vec<(usize, usize)>) -> (s: String)
    ensures
        s@ == spec_pair_cond(edges@),
{
    let mut s = String::new();
    let n = edges.len();
    for i in 0..n
        invariant
            n == edges@.len(),
            s@ == spec_pair_cond_upto(edges@, i as int),
    {
        if i > 0 {
            s.append(" | ");
        }
        let (f, t) = edges[i];
        s.append("((s == ");
        s.append(dec_string(f).as_str());
        s.append(") & (s_next == ");
        s.append(dec_string(t).as_str());
        s.append("))");
        proof {
            assert(s@ =~= spec_pair_cond_upto(edges@, i + 1));
        }
    }
    s
}

fn render_group_block(g: &CaptureGroup, first: bool) -> (s: String)
    ensures
        s@ == spec_group_block(g.edges@, first),
{
    let mut s = if first {
        String::from_str("if")
    } else {
        String::from_str("else if")
    };
    s.append(" (");
    let cond = render_pair_cond(&g.edges);
    s.append(cond.as_str());
    s.append(
        ") {\n    if (consecutive_substr == 0) {\n      current_substring.push(temp);\n      consecutive_substr = 1;\n    } else if (consecutive_substr == 1) {\n      current_substring.push(temp);\n    }\n}",
    );
    proof {
        assert(s@ =~= spec_group_block(g.edges@, first));
    }
    s
}

fn render_capture_conditions(groups: &Vec<CaptureGroup>) -> (s: String)
    ensures
        s@ == spec_capture_conditions(groups@),
{
    let mut s = String::new();
    let n = groups.len();
    for i in 0..n
        invariant
            n == groups@.len(),
            s@ == spec_group_blocks_upto(groups@, i as int),
    {
        if i > 0 {
            s.append("\n");
        }
        let block = render_group_block(&groups[i], i == 0);
        s.append(block.as_str());
        proof {
            assert(s@ =~= spec_group_blocks_upto(groups@, i + 1));
        }
    }
    s.append(
        " else if ((consecutive_substr == 1) & (s_next == 0)) {\n    current_substring = BoundedVec::new();\n    consecutive_substr = 0;\n} else if (consecutive_substr == 1) {\n    // The substring is done so \"save\" it\n    substrings.push(current_substring);\n    // reset the substring holder for next use\n    current_substring = BoundedVec::new();\n    consecutive_substr = 0;\n}",
    );
    s
}

fn render_next_state_fn(rules: &Vec<Rule>, substrs: bool) -> (s: String)
    ensures
        s@ == spec_next_state_fn(rules@, substrs),
{
    let chain = render_chain(rules, substrs);
    let body = indent(chain.as_str(), 1);
    if substrs {
        let mut s = String::from_str(
            "struct StateInfo {\n  next_state: Field,\n  reset: bool\n      }\n\nfn next_state(s: Field, input: u8) -> StateInfo {\n    let mut next = 0;\n    // Whether the move to the next state can be seen as a reset\n    // and what has been observed until now turned out to be invalid\n    let mut reset = true;\n",
        );
        s.append(body.as_str());
        s.append("\n\n    StateInfo{ next_state: next, reset }\n}");
        s
    } else {
        let mut s = String::from_str(
            "fn next_state(s: Field, input: u8) -> Field {\n    let mut next = 0;\n",
        );
        s.append(body.as_str());
        s.append("\n\n    next\n}");
        s
    }
}

/// Generates the complete textual unit for the compilation unit: the match
/// entry point and the transition evaluator, with capture extraction when
/// `gen_substrs` is set. A pure function of its arguments: the `ensures`
/// pins the output text, so generating twice from the same input yields
/// identical text.
pub fn to_noir_fn(u: &CompilationUnit, gen_substrs: bool) -> (s: String)
    requires
        unit_wf(*u),
    ensures
        s@ == spec_to_noir(*u, gen_substrs),
{
    let rules = build_rules(u);
    let ids = accept_state_ids(u);
    let cond = render_accept_cond(&ids);
    let nsf = render_next_state_fn(&rules, gen_substrs);
    let mut s: String;
    if gen_substrs {
        let fc = render_capture_conditions(&u.capture_groups);
        let fci = indent(fc.as_str(), 2);
        s = String::from_str(
            "pub fn regex_match<let N: u32>(input: [u8; N]) -> Vec<BoundedVec<Field, N>> {\n    // regex: ",
        );
        s.append(u.regex_pattern.as_str());
        s.append(
            "\n    let mut substrings: Vec<BoundedVec<Field, N>> = Vec::new();\n\n    // \"Previous\" state\n    let mut s: Field = 0;\n    // \"Next\"/upcoming state\n    let mut s_next: Field = 0;\n    let stateInfo = next_state(s, 255);\n    s = stateInfo.next_state;\n    let mut consecutive_substr = 0;\n    let mut current_substring = BoundedVec::new();\n\n    for i in 0..input.len() {\n        let stateInfo =  next_state(s, input[i]);\n        if stateInfo.reset {\n            // If there was a reset, we consider the previous state to be 0.\n            s = 0;\n        }\n        s_next = stateInfo.next_state;\n        let temp = input[i] as Field;\n\n        // If a substring was in the making, but the state was reset\n        // we disregard previous progress because apparently it is invalid\n        if (stateInfo.reset & (consecutive_substr == 1)) {\n            current_substring = BoundedVec::new();\n            consecutive_substr = 0;\n        }\n\n        // Fill up substrings\n",
        );
        s.append(fci.as_str());
        s.append("\n        s = s_next;\n    }\n\n    assert(");
        s.append(cond.as_str());
        s.append(
            ", f\"no match: {s}\");\n\n    // Add pending substring that hasn't been added\n    if consecutive_substr == 1 {\n      substrings.push(current_substring);\n    }\n    substrings\n}",
        );
    } else {
        s = String::from_str(
            "pub fn regex_match<let N: u32>(input: [u8; N]) {\n    // regex: ",
        );
        s.append(u.regex_pattern.as_str());
        s.append(
            "\n    let mut s = 0;\n    s = next_state(s, 255);\n\n    for i in 0..input.len() {\n        s = next_state(s, input[i]);\n    }\n\n    assert(",
        );
        s.append(cond.as_str());
        s.append(", f\"no match: {s}\");\n}");
    }
    proof {
        assert(s@ == spec_match_fn(*u, gen_substrs));
    }
    s.append("\n  \n      \n");
    s.append(nsf.as_str());
    s
}

} // verus!
