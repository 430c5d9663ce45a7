//! Transition synthesizer: the complete (state, byte) -> next-state decision
//! as an ordered chain of guarded rules, evaluated top to bottom with
//! first-match-wins semantics, plus the pure evaluator over that chain.

use vstd::prelude::*;
use crate::dfa::{
    CompilationUnit, Dfa, State, Transition, one_accept, spec_accept_id, spec_max_id,
    lemma_max_id_upto_bound, find_accept_index, max_state_id, unit_wf, dfa_closed,
};
use crate::ranges::{spec_ranges, byte_ranges};

verus! {

/// The sentinel byte fed once before the input to seed start-anchor rules.
pub const SENTINEL_BYTE: u8 = 255;

/// One guarded rule of the transition chain.
///
/// `StateByte` is a state-qualified rule from the automaton itself; `StateAny`
/// is a synthesized accept-absorption rule firing on any byte; `ByteOnly` is a
/// restart-fallback rule with no state guard. A fired `StateByte` or
/// `StateAny` rule marks the step a valid continuation; a fired `ByteOnly`
/// rule (like no rule at all) marks it a reset.
#[derive(Clone, Copy, PartialEq, Eq, Structural, Debug)]
pub enum Rule {
    StateByte { state: usize, lo: u8, hi: u8, next: usize },
    StateAny { state: usize, next: usize },
    ByteOnly { lo: u8, hi: u8, next: usize },
}

/// Whether a rule's guard holds of the current state and input byte.
pub open spec fn rule_matches(r: Rule, s: usize, b: u8) -> bool {
    match r {
        Rule::StateByte { state, lo, hi, next } => s == state && lo <= b && b <= hi,
        Rule::StateAny { state, next } => s == state,
        Rule::ByteOnly { lo, hi, next } => lo <= b && b <= hi,
    }
}

/// The state a rule moves to when it fires.
pub open spec fn rule_next(r: Rule) -> usize {
    match r {
        Rule::StateByte { state, lo, hi, next } => next,
        Rule::StateAny { state, next } => next,
        Rule::ByteOnly { lo, hi, next } => next,
    }
}

/// Whether a fired rule leaves the step marked as a reset.
pub open spec fn rule_resets(r: Rule) -> bool {
    match r {
        Rule::StateByte { .. } => false,
        Rule::StateAny { .. } => false,
        Rule::ByteOnly { .. } => true,
    }
}

/// First-match-wins evaluation of the chain: the next state and the reset
/// flag. With no matching rule the step falls back to state 0 with the reset
/// flag left set.
pub open spec fn spec_eval(rules: Seq<Rule>, s: usize, b: u8) -> (usize, bool)
    decreases rules.len(),
{
    if rules.len() == 0 {
        (0usize, true)
    } else if rule_matches(rules[0], s, b) {
        (rule_next(rules[0]), rule_resets(rules[0]))
    } else {
        spec_eval(rules.drop_first(), s, b)
    }
}

/// The state-qualified rules of one transition: one rule per compressed
/// interval of its byte set, in ascending interval order.
pub open spec fn tran_rules_upto(sid: usize, t: Transition, k: int) -> Seq<Rule>
    decreases k,
{
    if k <= 0 {
        Seq::empty()
    } else {
        tran_rules_upto(sid, t, k - 1).push(
            Rule::StateByte {
                state: sid,
                lo: spec_ranges(t.bytes@)[k - 1].0,
                hi: spec_ranges(t.bytes@)[k - 1].1,
                next: t.target,
            },
        )
    }
}

pub open spec fn tran_rules(sid: usize, t: Transition) -> Seq<Rule> {
    tran_rules_upto(sid, t, spec_ranges(t.bytes@).len() as int)
}

/// The rules of one state's first `j` transitions, in transition order.
pub open spec fn state_rules_upto(st: State, j: int) -> Seq<Rule>
    decreases j,
{
    if j <= 0 {
        Seq::empty()
    } else {
        state_rules_upto(st, j - 1) + tran_rules(st.state_id, st.transitions@[j - 1])
    }
}

pub open spec fn state_rules(st: State) -> Seq<Rule> {
    state_rules_upto(st, st.transitions@.len() as int)
}

/// The state-qualified rows of the first `i` states, in automaton iteration
/// order.
pub open spec fn rows_upto(states: Seq<State>, i: int) -> Seq<Rule>
    decreases i,
{
    if i <= 0 {
        Seq::empty()
    } else {
        rows_upto(states, i - 1) + state_rules(states[i - 1])
    }
}

pub open spec fn spec_rows(d: Dfa) -> Seq<Rule> {
    rows_upto(d.states@, d.states@.len() as int)
}

/// The synthesized extra accepting identity for patterns without an end
/// anchor: one above the largest existing identity.
pub open spec fn spec_extra_id(d: Dfa) -> usize
    recommends spec_max_id(d) < usize::MAX,
{
    (spec_max_id(d) + 1) as usize
}

/// The accept-absorption rules: route the original accepting state into the
/// synthesized one on any byte, and keep the synthesized one self-looping.
/// Empty when the pattern is anchored at the end.
pub open spec fn spec_extra_rules(u: CompilationUnit) -> Seq<Rule> {
    if u.has_end_anchor {
        Seq::empty()
    } else {
        seq![
            Rule::StateAny { state: spec_accept_id(u.dfa.states@), next: spec_extra_id(u.dfa) },
            Rule::StateAny { state: spec_extra_id(u.dfa), next: spec_extra_id(u.dfa) },
        ]
    }
}

/// The restart fallback derived from the first `i` rows: each state-0 row
/// whose interval does not start at the sentinel byte, stripped of its state
/// guard.
pub open spec fn restart_upto(rows: Seq<Rule>, i: int) -> Seq<Rule>
    decreases i,
{
    if i <= 0 {
        Seq::empty()
    } else {
        restart_upto(rows, i - 1) + match rows[i - 1] {
            Rule::StateByte { state, lo, hi, next } => if state == 0 && lo != SENTINEL_BYTE {
                seq![Rule::ByteOnly { lo, hi, next }]
            } else {
                Seq::<Rule>::empty()
            },
            _ => Seq::<Rule>::empty(),
        }
    }
}

pub open spec fn spec_restart_rules(d: Dfa) -> Seq<Rule> {
    restart_upto(spec_rows(d), spec_rows(d).len() as int)
}

/// The full ordered chain: automaton rows, then accept absorption, then the
/// restart fallback.
pub open spec fn spec_rules(u: CompilationUnit) -> Seq<Rule> {
    spec_rows(u.dfa) + spec_extra_rules(u) + spec_restart_rules(u.dfa)
}

/// The accepting identity set of the generated matcher: the original
/// accepting identity alone under an end anchor, otherwise that identity and
/// the synthesized absorbing one.
pub open spec fn spec_accept_ids(u: CompilationUnit) -> Seq<usize> {
    if u.has_end_anchor {
        seq![spec_accept_id(u.dfa.states@)]
    } else {
        seq![spec_accept_id(u.dfa.states@), spec_extra_id(u.dfa)]
    }
}

/// Builds the accepting identity set.
pub fn accept_state_ids(u: &CompilationUnit) -> (ids: Vec<usize>)
    requires
        one_accept(u.dfa.states@),
        spec_max_id(u.dfa) < usize::MAX,
    ensures
        ids@ == spec_accept_ids(*u),
{
    let mut ids: Vec<usize> = Vec::new();
    let idx = find_accept_index(&u.dfa);
    ids.push(u.dfa.states[idx].state_id);
    if !u.has_end_anchor {
        let m = max_state_id(&u.dfa);
        ids.push(m + 1);
        proof {
            assert(ids@ =~= spec_accept_ids(*u));
        }
    } else {
        proof {
            assert(ids@ =~= spec_accept_ids(*u));
        }
    }
    ids
}

/// Builds the full ordered rule chain for the compilation unit.
pub fn build_rules(u: &CompilationUnit) -> (rules: Vec<Rule>)
    requires
        unit_wf(*u),
    ensures
        rules@ == spec_rules(*u),
{
    // Automaton rows, state by state, transition by transition.
    let mut rows: Vec<Rule> = Vec::new();
    let n = u.dfa.states.len();
    for i in 0..n
        invariant
            n == u.dfa.states@.len(),
            unit_wf(*u),
            rows@ == rows_upto(u.dfa.states@, i as int),
    {
        let st = &u.dfa.states[i];
        let m = st.transitions.len();
        for j in 0..m
            invariant
                n == u.dfa.states@.len(),
                i < n,
                unit_wf(*u),
                m == u.dfa.states@[i as int].transitions@.len(),
                rows@ == rows_upto(u.dfa.states@, i as int)
                    + state_rules_upto(u.dfa.states@[i as int], j as int),
        {
            let t = &u.dfa.states[i].transitions[j];
            let rs = byte_ranges(&t.bytes);
            let k_max = rs.len();
            let ghost rows_before = rows@;
            for k in 0..k_max
                invariant
                    n == u.dfa.states@.len(),
                    i < n,
                    m == u.dfa.states@[i as int].transitions@.len(),
                    j < m,
                    t == &u.dfa.states@[i as int].transitions@[j as int],
                    rs@ == spec_ranges(t.bytes@),
                    k_max == rs@.len(),
                    rows@ == rows_before
                        + tran_rules_upto(u.dfa.states@[i as int].state_id, *t, k as int),
            {
                let (lo, hi) = rs[k];
                rows.push(Rule::StateByte { state: u.dfa.states[i].state_id, lo, hi, next: t.target });
            }
            proof {
                assert(rows@ =~= rows_upto(u.dfa.states@, i as int)
                    + state_rules_upto(u.dfa.states@[i as int], j + 1));
            }
        }
        proof {
            assert(state_rules_upto(u.dfa.states@[i as int], m as int)
                == state_rules(u.dfa.states@[i as int]));
            assert(rows@ =~= rows_upto(u.dfa.states@, i + 1));
        }
    }

    // Restart fallback, derived from the rows before anything is appended.
    let mut restart: Vec<Rule> = Vec::new();
    let rlen = rows.len();
    for i in 0..rlen
        invariant
            rlen == rows@.len(),
            rows@ == spec_rows(u.dfa),
            restart@ == restart_upto(rows@, i as int),
    {
        match rows[i] {
            Rule::StateByte { state, lo, hi, next } => {
                if state == 0 && lo != SENTINEL_BYTE {
                    restart.push(Rule::ByteOnly { lo, hi, next });
                }
            },
            _ => {},
        }
        proof {
            assert(restart@ =~= restart_upto(rows@, i + 1));
        }
    }

    // Accept absorption, then the fallback, appended in chain order.
    let mut rules = rows;
    if !u.has_end_anchor {
        let idx = find_accept_index(&u.dfa);
        let a = u.dfa.states[idx].state_id;
        let extra = max_state_id(&u.dfa) + 1;
        rules.push(Rule::StateAny { state: a, next: extra });
        rules.push(Rule::StateAny { state: extra, next: extra });
    }
    proof {
        assert(rules@ =~= spec_rows(u.dfa) + spec_extra_rules(*u));
    }
    let xlen = restart.len();
    for i in 0..xlen
        invariant
            xlen == restart@.len(),
            restart@ == spec_restart_rules(u.dfa),
            rules@ == spec_rows(u.dfa) + spec_extra_rules(*u) + restart@.take(i as int),
    {
        rules.push(restart[i]);
        proof {
            assert(restart@.take(i + 1) =~= restart@.take(i as int).push(restart@[i as int]));
            assert(rules@ =~= spec_rows(u.dfa) + spec_extra_rules(*u) + restart@.take(i + 1));
        }
    }
    proof {
        assert(restart@.take(xlen as int) =~= restart@);
        assert(rules@ =~= spec_rules(*u));
    }
    rules
}

/// Evaluates the chain on one (state, byte) pair: the first matching rule
/// decides; with none, the step falls back to state 0 with the reset flag
/// left set.
pub fn eval_rules(rules: &Vec<Rule>, s: usize, b: u8) -> (r: (usize, bool))
    ensures
        r == spec_eval(rules@, s, b),
{
    let n = rules.len();
    proof {
        assert(rules@.skip(0) =~= rules@);
    }
    for i in 0..n
        invariant
            n == rules@.len(),
            forall|j: int| 0 <= j < i ==> !rule_matches(rules@[j], s, b),
            spec_eval(rules@, s, b) == spec_eval(rules@.skip(i as int), s, b),
    {
        let fired = match rules[i] {
            Rule::StateByte { state, lo, hi, next } => s == state && lo <= b && b <= hi,
            Rule::StateAny { state, next } => s == state,
            Rule::ByteOnly { lo, hi, next } => lo <= b && b <= hi,
        };
        proof {
            assert(rules@.skip(i as int)[0] == rules@[i as int]);
        }
        if fired {
            let (nx, rst) = match rules[i] {
                Rule::StateByte { state, lo, hi, next } => (next, false),
                Rule::StateAny { state, next } => (next, false),
                Rule::ByteOnly { lo, hi, next } => (next, true),
            };
            return (nx, rst);
        }
        proof {
            assert(rules@.skip(i as int).drop_first() =~= rules@.skip(i + 1));
        }
    }
    proof {
        assert(rules@.skip(n as int).len() == 0);
    }
    (0, true)
}

/// If no rule of a prefix matches, evaluation of the whole chain is
/// evaluation of the remainder.
pub proof fn lemma_eval_skip_unmatched(rules: Seq<Rule>, i: int, s: usize, b: u8)
    requires
        0 <= i <= rules.len(),
        forall|j: int| 0 <= j < i ==> !rule_matches(rules[j], s, b),
    ensures
        spec_eval(rules, s, b) == spec_eval(rules.skip(i), s, b),
    decreases i,
{
    if i == 0 {
        assert(rules.skip(0) =~= rules);
    } else {
        lemma_eval_skip_unmatched(rules, i - 1, s, b);
        assert(rules.skip(i - 1)[0] == rules[i - 1]);
        assert(rules.skip(i - 1).drop_first() =~= rules.skip(i));
    }
}

/// Restart completeness: when no state-qualified rule (neither an automaton
/// row nor an accept-absorption rule) fires for the pair, the restart
/// fallback derived from state 0 alone determines the step.
pub proof fn lemma_restart_fallback(u: CompilationUnit, s: usize, b: u8)
    requires
        forall|j: int|
            0 <= j < (spec_rows(u.dfa) + spec_extra_rules(u)).len()
                ==> !rule_matches((spec_rows(u.dfa) + spec_extra_rules(u))[j], s, b),
    ensures
        spec_eval(spec_rules(u), s, b) == spec_eval(spec_restart_rules(u.dfa), s, b),
{
    let pre = spec_rows(u.dfa) + spec_extra_rules(u);
    let all = spec_rules(u);
    assert(all =~= pre + spec_restart_rules(u.dfa));
    assert forall|j: int| 0 <= j < pre.len() implies !rule_matches(all[j], s, b) by {
        assert(all[j] == pre[j]);
    }
    lemma_eval_skip_unmatched(all, pre.len() as int, s, b);
    assert(all.skip(pre.len() as int) =~= spec_restart_rules(u.dfa));
}

/// Whether `x` occurs as the target of some transition of the automaton.
pub open spec fn is_dfa_target(d: Dfa, x: usize) -> bool {
    exists|k: int, l: int|
        0 <= k < d.states@.len() && 0 <= l < d.states@[k].transitions@.len()
            && #[trigger] d.states@[k].transitions@[l].target == x
}

proof fn lemma_tran_rules_shape(sid: usize, t: Transition, k: int)
    requires
        0 <= k,
    ensures
        forall|j: int|
            0 <= j < tran_rules_upto(sid, t, k).len()
                ==> ((#[trigger] tran_rules_upto(sid, t, k)[j]) matches Rule::StateByte { state, next, .. }
                    && state == sid && next == t.target),
    decreases k,
{
    if k > 0 {
        lemma_tran_rules_shape(sid, t, k - 1);
    }
}

proof fn lemma_state_rules_shape(d: Dfa, si: int, j: int)
    requires
        0 <= si < d.states@.len(),
        0 <= j <= d.states@[si].transitions@.len(),
    ensures
        forall|x: int|
            0 <= x < state_rules_upto(d.states@[si], j).len()
                ==> ((#[trigger] state_rules_upto(d.states@[si], j)[x]) matches Rule::StateByte { next, .. }
                    && is_dfa_target(d, next)),
    decreases j,
{
    if j > 0 {
        lemma_state_rules_shape(d, si, j - 1);
        let st = d.states@[si];
        let t = st.transitions@[j - 1];
        lemma_tran_rules_shape(st.state_id, t, spec_ranges(t.bytes@).len() as int);
        assert(is_dfa_target(d, t.target));
        let whole = state_rules_upto(st, j);
        let front = state_rules_upto(st, j - 1);
        assert forall|x: int|
            0 <= x < whole.len() implies (#[trigger] whole[x]) matches Rule::StateByte { next, .. }
                && is_dfa_target(d, next) by {
            if x < front.len() {
                assert(whole[x] == front[x]);
            } else {
                assert(whole[x] == tran_rules(st.state_id, t)[x - front.len()]);
            }
        }
    }
}

proof fn lemma_rows_shape(d: Dfa, i: int)
    requires
        0 <= i <= d.states@.len(),
    ensures
        forall|x: int|
            0 <= x < rows_upto(d.states@, i).len()
                ==> ((#[trigger] rows_upto(d.states@, i)[x]) matches Rule::StateByte { next, .. }
                    && is_dfa_target(d, next)),
    decreases i,
{
    if i > 0 {
        lemma_rows_shape(d, i - 1);
        lemma_state_rules_shape(d, i - 1, d.states@[i - 1].transitions@.len() as int);
        let whole = rows_upto(d.states@, i);
        let front = rows_upto(d.states@, i - 1);
        assert forall|x: int|
            0 <= x < whole.len() implies (#[trigger] whole[x]) matches Rule::StateByte { next, .. }
                && is_dfa_target(d, next) by {
            if x < front.len() {
                assert(whole[x] == front[x]);
            } else {
                assert(whole[x] == state_rules(d.states@[i - 1])[x - front.len()]);
            }
        }
    }
}

proof fn lemma_restart_shape(d: Dfa, rows: Seq<Rule>, i: int)
    requires
        0 <= i <= rows.len(),
        forall|x: int|
            0 <= x < rows.len() ==> ((#[trigger] rows[x]) matches Rule::StateByte { next, .. }
                && is_dfa_target(d, next)),
    ensures
        forall|x: int|
            0 <= x < restart_upto(rows, i).len()
                ==> ((#[trigger] restart_upto(rows, i)[x]) matches Rule::ByteOnly { next, .. }
                    && is_dfa_target(d, next)),
    decreases i,
{
    if i > 0 {
        lemma_restart_shape(d, rows, i - 1);
        let whole = restart_upto(rows, i);
        let front = restart_upto(rows, i - 1);
        assert forall|x: int|
            0 <= x < whole.len() implies (#[trigger] whole[x]) matches Rule::ByteOnly { next, .. }
                && is_dfa_target(d, next) by {
            if x < front.len() {
                assert(whole[x] == front[x]);
            }
        }
    }
}

/// A transition target is a state identity, hence bounded by the maximum.
proof fn lemma_target_bounded(d: Dfa, x: usize)
    requires
        dfa_closed(d),
        is_dfa_target(d, x),
    ensures
        x <= spec_max_id(d),
{
    let (k, l) = choose|k: int, l: int|
        0 <= k < d.states@.len() && 0 <= l < d.states@[k].transitions@.len()
            && #[trigger] d.states@[k].transitions@[l].target == x;
    let w = choose|w: int| 0 <= w < d.states@.len() && d.states@[w].state_id == x;
    lemma_max_id_upto_bound(d.states@, d.states@.len() as int, w);
}

/// Accept consolidation: with an end anchor the accepting identity set is
/// exactly the original singleton; without one, exactly one extra identity is
/// synthesized, distinct from every existing state identity, and included in
/// the set beside the original.
pub proof fn lemma_accept_consolidation(u: CompilationUnit)
    requires
        unit_wf(u),
    ensures
        u.has_end_anchor ==> spec_accept_ids(u) == seq![spec_accept_id(u.dfa.states@)],
        !u.has_end_anchor ==> spec_accept_ids(u)
            == seq![spec_accept_id(u.dfa.states@), spec_extra_id(u.dfa)],
        !u.has_end_anchor ==> forall|k: int|
            0 <= k < u.dfa.states@.len()
                ==> (#[trigger] u.dfa.states@[k]).state_id != spec_extra_id(u.dfa),
{
    if !u.has_end_anchor {
        assert forall|k: int|
            0 <= k < u.dfa.states@.len() implies (#[trigger] u.dfa.states@[k]).state_id
                != spec_extra_id(u.dfa) by {
            lemma_max_id_upto_bound(u.dfa.states@, u.dfa.states@.len() as int, k);
        }
    }
}

/// The synthesized extra accepting identity is reachable only from the
/// original accepting state or from itself: the only rules of the chain whose
/// target it is are the two synthesized absorption rules.
pub proof fn lemma_extra_accept_isolated(u: CompilationUnit, j: int)
    requires
        unit_wf(u),
        !u.has_end_anchor,
        0 <= j < spec_rules(u).len(),
        rule_next(spec_rules(u)[j]) == spec_extra_id(u.dfa),
    ensures
        spec_rules(u)[j] == (Rule::StateAny {
            state: spec_accept_id(u.dfa.states@),
            next: spec_extra_id(u.dfa),
        }) || spec_rules(u)[j] == (Rule::StateAny {
            state: spec_extra_id(u.dfa),
            next: spec_extra_id(u.dfa),
        }),
{
    let d = u.dfa;
    let rows = spec_rows(d);
    let extra = spec_extra_rules(u);
    let restart = spec_restart_rules(d);
    let all = spec_rules(u);
    lemma_rows_shape(d, d.states@.len() as int);
    lemma_restart_shape(d, rows, rows.len() as int);
    if j < rows.len() {
        assert(all[j] == rows[j]);
        lemma_target_bounded(d, rule_next(rows[j]));
    } else if j < rows.len() + extra.len() {
        assert(all[j] == extra[j - rows.len()]);
    } else {
        assert(all[j] == restart[j - rows.len() - extra.len()]);
        lemma_target_bounded(d, rule_next(restart[j - rows.len() - extra.len()]));
    }
}

/// When state 0 has no non-sentinel outgoing rows, the restart fallback is
/// absent and an unmatched step falls back to state 0 with the reset flag
/// set.
pub proof fn lemma_restart_absent(rows: Seq<Rule>, i: int)
    requires
        0 <= i <= rows.len(),
        forall|j: int|
            0 <= j < rows.len() ==> match #[trigger] rows[j] {
                Rule::StateByte { state, lo, hi, next } => !(state == 0 && lo != SENTINEL_BYTE),
                _ => true,
            },
    ensures
        restart_upto(rows, i) == Seq::<Rule>::empty(),
    decreases i,
{
    if i > 0 {
        lemma_restart_absent(rows, i - 1);
        assert(restart_upto(rows, i) =~= Seq::<Rule>::empty());
    }
}

} // verus!
