//! Range compressor: turns a byte set (a strictly increasing byte vector)
//! into the minimal ordered list of closed intervals covering it.

use vstd::prelude::*;
use crate::dfa::strictly_increasing;

verus! {

/// The interval list obtained by scanning the byte sequence left to right,
/// extending the last interval while the next byte is consecutive and opening
/// a new one otherwise.
pub open spec fn spec_ranges(bytes: Seq<u8>) -> Seq<(u8, u8)>
    decreases bytes.len(),
{
    if bytes.len() == 0 {
        Seq::empty()
    } else {
        let prev = spec_ranges(bytes.drop_last());
        let b = bytes.last();
        if prev.len() > 0 && b == prev.last().1 + 1 {
            prev.update(prev.len() - 1, (prev.last().0, b))
        } else {
            prev.push((b, b))
        }
    }
}

/// Whether byte `b` lies in one of the closed intervals of `r`.
pub open spec fn in_ranges(r: Seq<(u8, u8)>, b: u8) -> bool {
    exists|k: int| 0 <= k < r.len() && (#[trigger] r[k]).0 <= b && b <= r[k].1
}

/// Each interval is non-empty (`lo <= hi`).
pub open spec fn ranges_nonempty(r: Seq<(u8, u8)>) -> bool {
    forall|k: int| 0 <= k < r.len() ==> (#[trigger] r[k]).0 <= r[k].1
}

/// Consecutive intervals are in ascending order and separated by a gap of at
/// least one byte, so no two emitted intervals could be merged.
pub open spec fn ranges_separated(r: Seq<(u8, u8)>) -> bool {
    forall|k: int| 0 <= k < r.len() - 1 ==> (#[trigger] r[k]).1 + 1 < r[k + 1].0
}

/// Compresses a byte set into its ordered closed-interval list.
///
/// Total on any byte vector; an empty vector yields no intervals. On the
/// canonical (strictly increasing) representation the result has the coverage,
/// disjointness and maximality properties of `lemma_range_properties`.
pub fn byte_ranges(bytes: &Vec<u8>) -> (r: Vec<(u8, u8)>)
    ensures
        r@ == spec_ranges(bytes@),
{
    let mut r: Vec<(u8, u8)> = Vec::new();
    let n = bytes.len();
    for i in 0..n
        invariant
            n == bytes@.len(),
            r@ == spec_ranges(bytes@.take(i as int)),
    {
        let b = bytes[i];
        let len = r.len();
        let mut extended = false;
        if len > 0 {
            let (lo, hi) = r[len - 1];
            if hi < 255 && b == hi + 1 {
                r.set(len - 1, (lo, b));
                extended = true;
            }
        }
        if !extended {
            r.push((b, b));
        }
        proof {
            let t = bytes@.take(i + 1);
            assert(t.drop_last() =~= bytes@.take(i as int));
            assert(t.last() == bytes@[i as int]);
        }
    }
    proof {
        assert(bytes@.take(n as int) =~= bytes@);
    }
    r
}

/// Range coverage: on a sorted byte set the compressed intervals are
/// non-empty, pairwise separated (hence disjoint and maximal, in ascending
/// order), and cover exactly the bytes of the set.
pub proof fn lemma_range_properties(bytes: Seq<u8>)
    requires
        strictly_increasing(bytes),
    ensures
        ranges_nonempty(spec_ranges(bytes)),
        ranges_separated(spec_ranges(bytes)),
        forall|b: u8| in_ranges(spec_ranges(bytes), b) <==> bytes.contains(b),
    decreases bytes.len(),
{
    if bytes.len() == 0 {
        assert forall|b: u8| in_ranges(spec_ranges(bytes), b) <==> bytes.contains(b) by {
            assert(!in_ranges(spec_ranges(bytes), b));
            assert(!bytes.contains(b));
        }
    } else {
        let front = bytes.drop_last();
        let b = bytes.last();
        let prev = spec_ranges(front);
        let r = spec_ranges(bytes);
        assert(strictly_increasing(front));
        lemma_range_properties(front);
        assert forall|x: u8| front.contains(x) implies x < b by {
            let i = choose|i: int| 0 <= i < front.len() && front[i] == x;
            assert(bytes[i] == x && bytes[bytes.len() - 1] == b);
        }
        if prev.len() > 0 {
            // The high end of the last interval is itself a covered byte,
            // hence an element of the prefix, hence below `b`.
            let hi = prev.last().1;
            assert(in_ranges(prev, hi)) by {
                assert(prev[prev.len() - 1].0 <= hi <= prev[prev.len() - 1].1);
            }
            assert(front.contains(hi));
            assert(hi < b);
        }
        if prev.len() > 0 && b == prev.last().1 + 1 {
            let last = prev.len() - 1;
            assert(r == prev.update(last, (prev.last().0, b)));
            assert forall|x: u8| in_ranges(r, x) <==> bytes.contains(x) by {
                if in_ranges(r, x) {
                    let k = choose|k: int| 0 <= k < r.len() && (#[trigger] r[k]).0 <= x && x <= r[k].1;
                    if k < last {
                        assert(prev[k].0 <= x <= prev[k].1);
                        assert(in_ranges(prev, x));
                        assert(front.contains(x));
                        let i = choose|i: int| 0 <= i < front.len() && front[i] == x;
                        assert(bytes[i] == x);
                    } else {
                        if x <= prev[last].1 {
                            assert(in_ranges(prev, x));
                            assert(front.contains(x));
                            let i = choose|i: int| 0 <= i < front.len() && front[i] == x;
                            assert(bytes[i] == x);
                        } else {
                            assert(x == b);
                            assert(bytes[bytes.len() - 1] == x);
                        }
                    }
                    assert(bytes.contains(x));
                }
                if bytes.contains(x) {
                    let i = choose|i: int| 0 <= i < bytes.len() && bytes[i] == x;
                    if i < bytes.len() - 1 {
                        assert(front[i] == x);
                        assert(front.contains(x));
                        assert(in_ranges(prev, x));
                        let k = choose|k: int| 0 <= k < prev.len() && (#[trigger] prev[k]).0 <= x && x <= prev[k].1;
                        if k < last {
                            assert(r[k].0 <= x <= r[k].1);
                        } else {
                            assert(r[last].0 <= x <= r[last].1);
                        }
                        assert(in_ranges(r, x));
                    } else {
                        assert(x == b);
                        assert(r[last].0 <= x <= r[last].1);
                        assert(in_ranges(r, x));
                    }
                }
            }
        } else {
            assert(r == prev.push((b, b)));
            assert(ranges_nonempty(r)) by {
                assert forall|k: int| 0 <= k < r.len() implies (#[trigger] r[k]).0 <= r[k].1 by {
                    if k < prev.len() {
                        assert(r[k] == prev[k]);
                    }
                }
            }
            assert(ranges_separated(r)) by {
                assert forall|k: int| 0 <= k < r.len() - 1 implies (#[trigger] r[k]).1 + 1 < r[k + 1].0 by {
                    if k < prev.len() - 1 {
                        assert(r[k] == prev[k] && r[k + 1] == prev[k + 1]);
                    } else {
                        // The new singleton starts past the previous high end:
                        // `b` exceeds it and is not its direct successor.
                        assert(prev.len() > 0);
                        let hi = prev.last().1;
                        assert(hi < b && b != hi + 1);
                        assert(r[k] == prev[k] && r[k + 1] == (b, b));
                    }
                }
            }
            assert forall|x: u8| in_ranges(r, x) <==> bytes.contains(x) by {
                if in_ranges(r, x) {
                    let k = choose|k: int| 0 <= k < r.len() && (#[trigger] r[k]).0 <= x && x <= r[k].1;
                    if k < prev.len() {
                        assert(in_ranges(prev, x));
                        assert(front.contains(x));
                        let i = choose|i: int| 0 <= i < front.len() && front[i] == x;
                        assert(bytes[i] == x);
                    } else {
                        assert(x == b);
                        assert(bytes[bytes.len() - 1] == x);
                    }
                    assert(bytes.contains(x));
                }
                if bytes.contains(x) {
                    let i = choose|i: int| 0 <= i < bytes.len() && bytes[i] == x;
                    if i < bytes.len() - 1 {
                        assert(front[i] == x);
                        assert(front.contains(x));
                        assert(in_ranges(prev, x));
                        let k = choose|k: int| 0 <= k < prev.len() && (#[trigger] prev[k]).0 <= x && x <= prev[k].1;
                        assert(r[k].0 <= x <= r[k].1);
                        assert(in_ranges(r, x));
                    } else {
                        assert(x == b);
                        assert(r[r.len() - 1].0 <= x <= r[r.len() - 1].1);
                        assert(in_ranges(r, x));
                    }
                }
            }
        }
    }
}

/// Any two intervals of a separated list stand in ascending order.
pub proof fn lemma_ranges_ordered(r: Seq<(u8, u8)>, k1: int, k2: int)
    requires
        ranges_nonempty(r),
        ranges_separated(r),
        0 <= k1 < k2 < r.len(),
    ensures
        r[k1].1 < r[k2].0,
    decreases k2 - k1,
{
    if k1 + 1 < k2 {
        lemma_ranges_ordered(r, k1 + 1, k2);
    }
}

/// Separated intervals are pairwise disjoint: no byte lies in two of them.
pub proof fn lemma_ranges_disjoint(r: Seq<(u8, u8)>, k1: int, k2: int, b: u8)
    requires
        ranges_nonempty(r),
        ranges_separated(r),
        0 <= k1 < k2 < r.len(),
        r[k1].0 <= b <= r[k1].1,
    ensures
        !(r[k2].0 <= b && b <= r[k2].1),
{
    lemma_ranges_ordered(r, k1, k2);
}

} // verus!
