//! Input data model: states, transitions, capture-group specifications and
//! the compilation unit consumed by the generation pipeline.

use vstd::prelude::*;

verus! {

/// Whether a state is an ordinary state or the (unique) accepting state.
#[derive(Clone, Copy, PartialEq, Eq, Structural, Debug)]
pub enum StateKind {
    Normal,
    Accept,
}

/// One outgoing edge group of a state: the set of input bytes (kept as a
/// strictly increasing vector, i.e. a sorted set) that move the automaton to
/// `target`.
pub struct Transition {
    pub target: usize,
    pub bytes: Vec<u8>,
}

/// A DFA state: its identity, its kind, and its outgoing transitions.
pub struct State {
    pub state_id: usize,
    pub kind: StateKind,
    pub transitions: Vec<Transition>,
}

/// A deterministic finite automaton: a collection of states in a fixed
/// iteration order.
pub struct Dfa {
    pub states: Vec<State>,
}

/// One capture group: the set of (from-state, to-state) edges whose traversal
/// is "inside" the group.
pub struct CaptureGroup {
    pub edges: Vec<(usize, usize)>,
}

/// Everything the generation pipeline consumes: the regex source text (only
/// embedded as a diagnostic comment), the automaton, whether the pattern is
/// anchored at the end, and the capture-group specification (empty when
/// substring extraction is disabled).
pub struct CompilationUnit {
    pub regex_pattern: String,
    pub dfa: Dfa,
    pub has_end_anchor: bool,
    pub capture_groups: Vec<CaptureGroup>,
}

/// A byte set is represented as a strictly increasing vector.
pub open spec fn strictly_increasing(s: Seq<u8>) -> bool {
    forall|i: int, j: int| 0 <= i < j < s.len() ==> s[i] < s[j]
}

/// Every transition's byte set is in its canonical (sorted, duplicate-free)
/// representation.
pub open spec fn dfa_bytes_sorted(d: Dfa) -> bool {
    forall|i: int, j: int|
        0 <= i < d.states@.len() && 0 <= j < d.states@[i].transitions@.len()
            ==> strictly_increasing(#[trigger] d.states@[i].transitions@[j].bytes@)
}

/// Every transition target names a state that exists in the collection.
pub open spec fn dfa_closed(d: Dfa) -> bool {
    forall|i: int, j: int|
        0 <= i < d.states@.len() && 0 <= j < d.states@[i].transitions@.len()
            ==> exists|k: int|
                0 <= k < d.states@.len() && d.states@[k].state_id == #[trigger] d.states@[i].transitions@[j].target
}

/// The automaton holds exactly one accepting state.
pub open spec fn one_accept(states: Seq<State>) -> bool {
    exists|i: int|
        0 <= i < states.len() && states[i].kind is Accept && (forall|j: int|
            0 <= j < states.len() && #[trigger] states[j].kind is Accept ==> j == i)
}

/// The index of the unique accepting state.
pub open spec fn accept_index(states: Seq<State>) -> int {
    choose|i: int|
        0 <= i < states.len() && states[i].kind is Accept && (forall|j: int|
            0 <= j < states.len() && #[trigger] states[j].kind is Accept ==> j == i)
}

/// The identity of the unique accepting state.
pub open spec fn spec_accept_id(states: Seq<State>) -> usize {
    states[accept_index(states)].state_id
}

/// The largest state identity among the first `i` states (0 when none).
pub open spec fn max_id_upto(states: Seq<State>, i: int) -> usize
    decreases i,
{
    if i <= 0 {
        0
    } else if states[i - 1].state_id > max_id_upto(states, i - 1) {
        states[i - 1].state_id
    } else {
        max_id_upto(states, i - 1)
    }
}

/// The largest state identity in the automaton.
pub open spec fn spec_max_id(d: Dfa) -> usize {
    max_id_upto(d.states@, d.states@.len() as int)
}

/// The well-formedness every generation entry point assumes of its input.
pub open spec fn unit_wf(u: CompilationUnit) -> bool {
    &&& dfa_bytes_sorted(u.dfa)
    &&& dfa_closed(u.dfa)
    &&& one_accept(u.dfa.states@)
    &&& spec_max_id(u.dfa) < usize::MAX
}

/// Every state identity is bounded by the running maximum.
pub proof fn lemma_max_id_upto_bound(states: Seq<State>, i: int, k: int)
    requires
        0 <= k < i <= states.len(),
    ensures
        states[k].state_id <= max_id_upto(states, i),
    decreases i,
{
    if k < i - 1 {
        lemma_max_id_upto_bound(states, i - 1, k);
    }
}

/// Decides whether the automaton holds exactly one accepting state — the
/// generation precondition a caller must establish before generating.
pub fn has_one_accept_state(d: &Dfa) -> (r: bool)
    ensures
        r == one_accept(d.states@),
{
    let mut count: usize = 0;
    let mut found: usize = 0;
    let n = d.states.len();
    for i in 0..n
        invariant
            n == d.states@.len(),
            count <= i,
            count == 0 ==> forall|j: int| 0 <= j < i ==> !(#[trigger] d.states@[j].kind is Accept),
            count == 1 ==> 0 <= found < i && d.states@[found as int].kind is Accept && (forall|j: int|
                0 <= j < i && #[trigger] d.states@[j].kind is Accept ==> j == found as int),
            count >= 2 ==> exists|j1: int, j2: int|
                0 <= j1 < j2 < i && #[trigger] d.states@[j1].kind is Accept && #[trigger] d.states@[j2].kind is Accept,
    {
        if matches!(d.states[i].kind, StateKind::Accept) {
            if count == 0 {
                found = i;
            }
            if count < 2 {
                count = count + 1;
            }
        }
    }
    if count == 1 {
        assert(one_accept(d.states@));
        true
    } else {
        assert(!one_accept(d.states@));
        false
    }
}

/// Returns the index of the unique accepting state.
pub fn find_accept_index(d: &Dfa) -> (r: usize)
    requires
        one_accept(d.states@),
    ensures
        r as int == accept_index(d.states@),
        r < d.states@.len(),
{
    let ghost w = accept_index(d.states@);
    let n = d.states.len();
    for i in 0..n
        invariant
            n == d.states@.len(),
            one_accept(d.states@),
            w == accept_index(d.states@),
            0 <= w < d.states@.len(),
            d.states@[w].kind is Accept,
            forall|j: int| 0 <= j < i ==> !(#[trigger] d.states@[j].kind is Accept),
    {
        if matches!(d.states[i].kind, StateKind::Accept) {
            assert(i as int == w);
            return i;
        }
    }
    proof {
        assert(!(d.states@[w].kind is Accept));
    }
    unreached()
}

/// Returns the largest state identity in the automaton.
pub fn max_state_id(d: &Dfa) -> (r: usize)
    ensures
        r == spec_max_id(*d),
{
    let mut m: usize = 0;
    let n = d.states.len();
    for i in 0..n
        invariant
            n == d.states@.len(),
            m == max_id_upto(d.states@, i as int),
    {
        if d.states[i].state_id > m {
            m = d.states[i].state_id;
        }
    }
    m
}

} // verus!
