//! Capture synthesizer model: the per-byte state machine that opens, extends,
//! discards and commits speculative capture buffers in lock-step with the
//! automaton transitions.

use vstd::prelude::*;
use crate::dfa::CaptureGroup;

verus! {

/// The capture in progress: whether one is open and the bytes collected so
/// far.
pub struct CaptureState {
    pub open: bool,
    pub buf: Vec<u8>,
}

/// The committed buffers, as a sequence of byte sequences.
pub open spec fn bufs_view(out: Seq<Vec<u8>>) -> Seq<Seq<u8>> {
    out.map_values(|v: Vec<u8>| v@)
}

/// Whether the edge (s, t) belongs to one capture group's pair set.
pub open spec fn edge_in_group(g: CaptureGroup, s: usize, t: usize) -> bool {
    g.edges@.contains((s, t))
}

/// Whether the edge (s, t) belongs to any capture group's pair set. In a
/// deterministic automaton with disjoint groups at most one group can hold
/// it, and every group drives the capture buffer the same way, so membership
/// alone decides the step.
pub open spec fn edge_in_groups(groups: Seq<CaptureGroup>, s: usize, t: usize) -> bool {
    exists|k: int| 0 <= k < groups.len() && edge_in_group(#[trigger] groups[k], s, t)
}

/// One per-byte step of the capture state machine, given the state `s` before
/// the step, the state `s_next` after it, the step's reset flag and the input
/// byte.
///
/// A reset first discards any open buffer; the membership test then uses
/// state 0 as the effective source state, since a reset step consumes its
/// byte as a fresh match attempt out of the initial state. An edge inside a
/// group opens a buffer (or extends the open one) with the byte; any other
/// edge closes an open buffer, committing it unless the automaton fell back
/// to the initial state, which discards it as a failed speculation.
pub open spec fn spec_capture_step(
    groups: Seq<CaptureGroup>,
    s: usize,
    s_next: usize,
    reset: bool,
    byte: u8,
    open: bool,
    buf: Seq<u8>,
    out: Seq<Seq<u8>>,
) -> (bool, Seq<u8>, Seq<Seq<u8>>) {
    let open1 = if reset { false } else { open };
    let buf1 = if reset { Seq::<u8>::empty() } else { buf };
    let s_eff: usize = if reset { 0 } else { s };
    if edge_in_groups(groups, s_eff, s_next) {
        if open1 {
            (true, buf1.push(byte), out)
        } else {
            (true, seq![byte], out)
        }
    } else if open1 && s_next == 0 {
        (false, Seq::<u8>::empty(), out)
    } else if open1 {
        (false, Seq::<u8>::empty(), out.push(buf1))
    } else {
        (false, buf1, out)
    }
}

/// Decides membership of the edge (s, t) in one group's pair set.
pub fn edge_in_group_exec(g: &CaptureGroup, s: usize, t: usize) -> (r: bool)
    ensures
        r == edge_in_group(*g, s, t),
{
    let n = g.edges.len();
    for i in 0..n
        invariant
            n == g.edges@.len(),
            forall|j: int| 0 <= j < i ==> g.edges@[j] != (s, t),
    {
        let (a, b) = g.edges[i];
        if a == s && b == t {
            proof {
                assert(g.edges@[i as int] == (s, t));
            }
            return true;
        }
    }
    proof {
        assert(!g.edges@.contains((s, t)));
    }
    false
}

/// Decides membership of the edge (s, t) in any group's pair set.
pub fn edge_in_groups_exec(groups: &Vec<CaptureGroup>, s: usize, t: usize) -> (r: bool)
    ensures
        r == edge_in_groups(groups@, s, t),
{
    let n = groups.len();
    for i in 0..n
        invariant
            n == groups@.len(),
            forall|j: int| 0 <= j < i ==> !edge_in_group(#[trigger] groups@[j], s, t),
    {
        if edge_in_group_exec(&groups[i], s, t) {
            return true;
        }
    }
    false
}

/// Runs one per-byte capture step, committing into `out`.
pub fn capture_step(
    groups: &Vec<CaptureGroup>,
    s: usize,
    s_next: usize,
    reset: bool,
    byte: u8,
    cap: CaptureState,
    out: &mut Vec<Vec<u8>>,
) -> (r: CaptureState)
    ensures
        ({
            let (o, b, outs) = spec_capture_step(
                groups@, s, s_next, reset, byte, cap.open, cap.buf@, bufs_view(old(out)@),
            );
            r.open == o && r.buf@ == b && bufs_view(final(out)@) == outs
        }),
{
    let CaptureState { open: open0, buf: buf0 } = cap;
    let (open1, buf1) = if reset { (false, Vec::new()) } else { (open0, buf0) };
    let s_eff: usize = if reset { 0 } else { s };
    if edge_in_groups_exec(groups, s_eff, s_next) {
        let mut nb = if open1 { buf1 } else { Vec::new() };
        nb.push(byte);
        proof {
            if !open1 {
                assert(nb@ =~= seq![byte]);
            }
        }
        CaptureState { open: true, buf: nb }
    } else if open1 && s_next == 0 {
        CaptureState { open: false, buf: Vec::new() }
    } else if open1 {
        let ghost before = out@;
        out.push(buf1);
        proof {
            assert(bufs_view(out@) =~= bufs_view(before).push(buf1@));
        }
        CaptureState { open: false, buf: Vec::new() }
    } else {
        CaptureState { open: false, buf: buf1 }
    }
}

} // verus!
