//! Reference semantics of the generated matcher: the fixed-length evaluation
//! loop over the rule chain, with and without capture tracking, and the
//! properties of the capture trace.

use vstd::prelude::*;
use crate::dfa::CaptureGroup;
use crate::rules::{Rule, spec_eval, eval_rules, SENTINEL_BYTE};
use crate::capture::{
    CaptureState, spec_capture_step, capture_step, bufs_view, edge_in_groups,
};

verus! {

/// The matcher state before step `i`: after the one-time sentinel feed and
/// the first `i` input bytes.
pub open spec fn state_at(rules: Seq<Rule>, input: Seq<u8>, i: int) -> usize
    decreases i,
{
    if i <= 0 {
        spec_eval(rules, 0, SENTINEL_BYTE).0
    } else {
        spec_eval(rules, state_at(rules, input, i - 1), input[i - 1]).0
    }
}

/// The reset flag computed by step `i`.
pub open spec fn reset_at(rules: Seq<Rule>, input: Seq<u8>, i: int) -> bool {
    spec_eval(rules, state_at(rules, input, i), input[i]).1
}

/// The effective source state of step `i`: the initial state on a reset step,
/// whose byte is consumed as a fresh match attempt.
pub open spec fn eff_state_at(rules: Seq<Rule>, input: Seq<u8>, i: int) -> usize {
    if reset_at(rules, input, i) {
        0
    } else {
        state_at(rules, input, i)
    }
}

/// Whether step `i`'s effective edge lies inside some capture group.
pub open spec fn step_in_group(
    rules: Seq<Rule>,
    groups: Seq<CaptureGroup>,
    input: Seq<u8>,
    i: int,
) -> bool {
    edge_in_groups(groups, eff_state_at(rules, input, i), state_at(rules, input, i + 1))
}

/// The capture machine state (open flag, open buffer, committed buffers)
/// before step `i`.
pub open spec fn caps_at(
    rules: Seq<Rule>,
    groups: Seq<CaptureGroup>,
    input: Seq<u8>,
    i: int,
) -> (bool, Seq<u8>, Seq<Seq<u8>>)
    decreases i,
{
    if i <= 0 {
        (false, Seq::<u8>::empty(), Seq::<Seq<u8>>::empty())
    } else {
        let prev = caps_at(rules, groups, input, i - 1);
        let s = state_at(rules, input, i - 1);
        let e = spec_eval(rules, s, input[i - 1]);
        spec_capture_step(groups, s, e.0, e.1, input[i - 1], prev.0, prev.1, prev.2)
    }
}

/// All committed buffers for the input: the trace's committed collection,
/// plus the buffer still open at input exhaustion, which is a legitimate
/// result and is committed rather than discarded.
pub open spec fn spec_captures(
    rules: Seq<Rule>,
    groups: Seq<CaptureGroup>,
    input: Seq<u8>,
) -> Seq<Seq<u8>> {
    let fin = caps_at(rules, groups, input, input.len() as int);
    if fin.0 {
        fin.2.push(fin.1)
    } else {
        fin.2
    }
}

/// Decides membership of an identity in the accepting identity set.
pub fn contains_id(ids: &Vec<usize>, x: usize) -> (r: bool)
    ensures
        r == ids@.contains(x),
{
    let n = ids.len();
    for i in 0..n
        invariant
            n == ids@.len(),
            forall|j: int| 0 <= j < i ==> ids@[j] != x,
    {
        if ids[i] == x {
            return true;
        }
    }
    false
}

/// Runs the matcher without capture tracking: feeds the sentinel once,
/// consumes every input byte, and reports the final state and whether it is
/// accepting.
pub fn run_match(rules: &Vec<Rule>, accept_ids: &Vec<usize>, input: &Vec<u8>) -> (r: (usize, bool))
    ensures
        r.0 == state_at(rules@, input@, input@.len() as int),
        r.1 == accept_ids@.contains(r.0),
{
    let e0 = eval_rules(rules, 0, SENTINEL_BYTE);
    let mut s = e0.0;
    let n = input.len();
    for i in 0..n
        invariant
            n == input@.len(),
            s == state_at(rules@, input@, i as int),
    {
        let e = eval_rules(rules, s, input[i]);
        s = e.0;
    }
    let acc = contains_id(accept_ids, s);
    (s, acc)
}

/// Runs the matcher with capture tracking: like `run_match`, and in lock-step
/// with each consumed byte drives the capture state machine, committing the
/// buffer still open at exhaustion.
pub fn run_match_with_captures(
    rules: &Vec<Rule>,
    groups: &Vec<CaptureGroup>,
    accept_ids: &Vec<usize>,
    input: &Vec<u8>,
) -> (r: (usize, bool, Vec<Vec<u8>>))
    ensures
        r.0 == state_at(rules@, input@, input@.len() as int),
        r.1 == accept_ids@.contains(r.0),
        bufs_view(r.2@) == spec_captures(rules@, groups@, input@),
{
    let e0 = eval_rules(rules, 0, SENTINEL_BYTE);
    let mut s = e0.0;
    let mut cap = CaptureState { open: false, buf: Vec::new() };
    let mut out: Vec<Vec<u8>> = Vec::new();
    proof {
        assert(cap.buf@ =~= caps_at(rules@, groups@, input@, 0).1);
        assert(bufs_view(out@) =~= caps_at(rules@, groups@, input@, 0).2);
    }
    let n = input.len();
    for i in 0..n
        invariant
            n == input@.len(),
            s == state_at(rules@, input@, i as int),
            cap.open == caps_at(rules@, groups@, input@, i as int).0,
            cap.buf@ == caps_at(rules@, groups@, input@, i as int).1,
            bufs_view(out@) == caps_at(rules@, groups@, input@, i as int).2,
    {
        let b = input[i];
        let e = eval_rules(rules, s, b);
        cap = capture_step(groups, s, e.0, e.1, b, cap, &mut out);
        s = e.0;
    }
    if cap.open {
        let ghost before = out@;
        out.push(cap.buf);
        proof {
            assert(bufs_view(out@) =~= bufs_view(before).push(
                caps_at(rules@, groups@, input@, n as int).1,
            ));
        }
    }
    let acc = contains_id(accept_ids, s);
    (s, acc, out)
}

/// A contiguous run of steps `[j, e)` each of whose effective edge lies in
/// some capture group.
pub open spec fn group_run(
    rules: Seq<Rule>,
    groups: Seq<CaptureGroup>,
    input: Seq<u8>,
    j: int,
    e: int,
) -> bool {
    &&& 0 <= j < e <= input.len()
    &&& forall|m: int| j <= m < e ==> step_in_group(rules, groups, input, m)
}

/// A group run that the machine commits: it reaches input exhaustion, or the
/// step after it leaves every group without a reset and without falling back
/// to the initial state.
pub open spec fn committed_run(
    rules: Seq<Rule>,
    groups: Seq<CaptureGroup>,
    input: Seq<u8>,
    j: int,
    e: int,
) -> bool {
    &&& group_run(rules, groups, input, j, e)
    &&& (e == input.len() || (!step_in_group(rules, groups, input, e)
        && !reset_at(rules, input, e) && state_at(rules, input, e + 1) != 0))
}

/// A run starting at `j` is maximal at its start: it is not the tail of a
/// longer run — nothing was open when it opened, because the input begins at
/// `j`, the step before `j` lies in no group, or step `j` is itself a reset
/// (which first discards whatever was open).
pub open spec fn run_start_maximal(
    rules: Seq<Rule>,
    groups: Seq<CaptureGroup>,
    input: Seq<u8>,
    j: int,
) -> bool {
    j == 0 || !step_in_group(rules, groups, input, j - 1) || reset_at(rules, input, j)
}

/// No step strictly inside the run resets: the machine never carries one
/// buffer across a reset step (a reset first discards, then at most reopens).
pub open spec fn run_uninterrupted(rules: Seq<Rule>, input: Seq<u8>, j: int, e: int) -> bool {
    forall|m: int| j < m < e ==> !reset_at(rules, input, m)
}

/// An open buffer at position `i` holds exactly the bytes of a group run
/// ending at `i`.
pub open spec fn buf_is_open_run(
    rules: Seq<Rule>,
    groups: Seq<CaptureGroup>,
    input: Seq<u8>,
    i: int,
    buf: Seq<u8>,
) -> bool {
    exists|j: int|
        #![trigger input.subrange(j, i)]
        group_run(rules, groups, input, j, i) && run_start_maximal(rules, groups, input, j)
            && run_uninterrupted(rules, input, j, i) && buf == input.subrange(j, i)
}

/// Every buffer of the collection holds exactly the bytes of a committed
/// group run.
pub open spec fn outputs_are_committed_runs(
    rules: Seq<Rule>,
    groups: Seq<CaptureGroup>,
    input: Seq<u8>,
    outs: Seq<Seq<u8>>,
) -> bool {
    forall|k: int|
        #![trigger outs[k]]
        0 <= k < outs.len() ==> exists|j: int, e: int|
            #![trigger input.subrange(j, e)]
            committed_run(rules, groups, input, j, e) && run_start_maximal(rules, groups, input, j)
                && run_uninterrupted(rules, input, j, e) && outs[k] == input.subrange(j, e)
}

/// Appending one committed run keeps the collection property.
proof fn lemma_runs_push(
    rules: Seq<Rule>,
    groups: Seq<CaptureGroup>,
    input: Seq<u8>,
    outs: Seq<Seq<u8>>,
    b: Seq<u8>,
    j: int,
    e: int,
)
    requires
        outputs_are_committed_runs(rules, groups, input, outs),
        committed_run(rules, groups, input, j, e),
        run_start_maximal(rules, groups, input, j),
        run_uninterrupted(rules, input, j, e),
        b == input.subrange(j, e),
    ensures
        outputs_are_committed_runs(rules, groups, input, outs.push(b)),
{
    let pushed = outs.push(b);
    assert forall|k: int| #![trigger pushed[k]] 0 <= k < pushed.len() implies exists|j2: int, e2: int|
        #![trigger input.subrange(j2, e2)]
        committed_run(rules, groups, input, j2, e2) && run_start_maximal(rules, groups, input, j2)
            && run_uninterrupted(rules, input, j2, e2) && pushed[k] == input.subrange(j2, e2) by {
        if k < outs.len() {
            assert(pushed[k] == outs[k]);
        } else {
            assert(pushed[k] == b && committed_run(rules, groups, input, j, e));
        }
    }
}

/// The invariant of the capture trace: a buffer is open exactly after an
/// in-group step; an open buffer holds exactly the bytes of a group run
/// ending at the current position; and every committed buffer holds exactly
/// the bytes of a committed group run.
pub proof fn lemma_caps_at_sound(
    rules: Seq<Rule>,
    groups: Seq<CaptureGroup>,
    input: Seq<u8>,
    i: int,
)
    requires
        0 <= i <= input.len(),
    ensures
        caps_at(rules, groups, input, i).0 == (i > 0 && step_in_group(rules, groups, input, i - 1)),
        caps_at(rules, groups, input, i).0 ==> buf_is_open_run(
            rules, groups, input, i, caps_at(rules, groups, input, i).1,
        ),
        outputs_are_committed_runs(rules, groups, input, caps_at(rules, groups, input, i).2),
    decreases i,
{
    if i <= 0 {
        let empty = Seq::<Seq<u8>>::empty();
        assert(outputs_are_committed_runs(rules, groups, input, empty));
    } else {
        lemma_caps_at_sound(rules, groups, input, i - 1);
        let prev = caps_at(rules, groups, input, i - 1);
        let cur = caps_at(rules, groups, input, i);
        let s = state_at(rules, input, i - 1);
        let e = spec_eval(rules, s, input[i - 1]);
        let rst = e.1;
        assert(e.0 == state_at(rules, input, i));
        assert(rst == reset_at(rules, input, i - 1));
        let open1 = if rst { false } else { prev.0 };
        if step_in_group(rules, groups, input, i - 1) {
            if open1 {
                // The open buffer extends by one byte; its run extends by one
                // in-group step.
                let j = choose|j: int|
                    #![trigger input.subrange(j, i - 1)]
                    group_run(rules, groups, input, j, i - 1) && run_start_maximal(
                        rules, groups, input, j,
                    ) && run_uninterrupted(rules, input, j, i - 1) && prev.1 == input.subrange(
                        j,
                        i - 1,
                    );
                assert(input.subrange(j, i - 1).push(input[i - 1]) =~= input.subrange(j, i));
                assert(group_run(rules, groups, input, j, i));
                // The extending step is no reset, so the longer run stays
                // uninterrupted.
                assert(run_uninterrupted(rules, input, j, i));
                assert(cur.1 == input.subrange(j, i));
            } else {
                // A fresh capture opens with this byte alone, and nothing
                // was open just before: the step resets, or the previous step
                // lay in no group.
                assert(seq![input[i - 1]] =~= input.subrange(i - 1, i));
                assert(group_run(rules, groups, input, i - 1, i));
                assert(run_start_maximal(rules, groups, input, i - 1));
                assert(run_uninterrupted(rules, input, i - 1, i));
                assert(cur.1 == input.subrange(i - 1, i));
            }
            assert(cur.2 == prev.2);
        } else if open1 && e.0 == 0 {
            // Restart to the initial state: the speculative buffer is
            // discarded, the committed collection is untouched.
            assert(cur.2 == prev.2);
        } else if open1 {
            // The run ends here and is committed: this step leaves every
            // group, is no reset, and does not fall back to the initial
            // state.
            let j = choose|j: int|
                #![trigger input.subrange(j, i - 1)]
                group_run(rules, groups, input, j, i - 1) && run_start_maximal(
                    rules, groups, input, j,
                ) && run_uninterrupted(rules, input, j, i - 1) && prev.1 == input.subrange(
                    j,
                    i - 1,
                );
            assert(committed_run(rules, groups, input, j, i - 1));
            assert(cur.2 == prev.2.push(prev.1));
            lemma_runs_push(rules, groups, input, prev.2, prev.1, j, i - 1);
        } else {
            assert(cur.2 == prev.2);
        }
    }
}

/// Capture soundness: every buffer in the output collection is exactly the
/// byte run of a contiguous sequence of steps whose effective edges lie
/// inside the capture groups, and its run was committed — ended by input
/// exhaustion or by a non-reset step that left the groups without falling
/// back to the initial state. Discarded speculative buffers never appear.
pub proof fn lemma_capture_soundness(rules: Seq<Rule>, groups: Seq<CaptureGroup>, input: Seq<u8>)
    ensures
        outputs_are_committed_runs(
            rules, groups, input, spec_captures(rules, groups, input),
        ),
{
    let n = input.len() as int;
    lemma_caps_at_sound(rules, groups, input, n);
    let fin = caps_at(rules, groups, input, n);
    if fin.0 {
        // The buffer still open at exhaustion, committed as-is.
        let j = choose|j: int|
            #![trigger input.subrange(j, n)]
            group_run(rules, groups, input, j, n) && run_start_maximal(rules, groups, input, j)
                && run_uninterrupted(rules, input, j, n) && fin.1 == input.subrange(j, n);
        assert(committed_run(rules, groups, input, j, n));
        lemma_runs_push(rules, groups, input, fin.2, fin.1, j, n);
    }
}

/// With an empty capture-group specification no step lies in a group, so no
/// buffer ever opens and the trace commits nothing.
proof fn lemma_caps_at_empty_spec(rules: Seq<Rule>, input: Seq<u8>, i: int)
    requires
        0 <= i,
    ensures
        !caps_at(rules, Seq::<CaptureGroup>::empty(), input, i).0,
        caps_at(rules, Seq::<CaptureGroup>::empty(), input, i).2 == Seq::<Seq<u8>>::empty(),
    decreases i,
{
    if i > 0 {
        lemma_caps_at_empty_spec(rules, input, i - 1);
    }
}

/// Capture extraction with an empty group specification yields an empty
/// output collection on every input.
pub proof fn lemma_empty_group_spec(rules: Seq<Rule>, input: Seq<u8>)
    ensures
        spec_captures(rules, Seq::<CaptureGroup>::empty(), input) == Seq::<Seq<u8>>::empty(),
{
    lemma_caps_at_empty_spec(rules, input, input.len() as int);
}

} // verus!
