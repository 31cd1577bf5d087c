//! Sorted sets of disjoint byte ranges.
//!
//! An upload session records which half-open byte intervals of the expected
//! content have arrived. Chunks may arrive in any order and may overlap, so
//! the set keeps its parts sorted, disjoint and non-adjacent by coalescing
//! on every insertion; completeness is then a single-interval check.

use vstd::prelude::*;

verus! {

/// Well-formed interval sequences: every part is non-empty, and parts are
/// strictly ordered with a gap between them (adjacent parts are merged).
pub open spec fn wf_seq(s: Seq<(u64, u64)>) -> bool {
    &&& forall|i: int| 0 <= i < s.len() ==> (#[trigger] s[i]).0 < s[i].1
    &&& forall|i: int, j: int|
        0 <= i < j < s.len() ==> (#[trigger] s[i]).1 < (#[trigger] s[j]).0
}

/// Whether byte position `x` lies inside one of the intervals.
pub open spec fn covers_seq(s: Seq<(u64, u64)>, x: int) -> bool {
    exists|i: int| 0 <= i < s.len() && ((#[trigger] s[i]).0 <= x < s[i].1)
}

/// Splitting a sequence of intervals splits its coverage.
pub proof fn lemma_covers_concat(a: Seq<(u64, u64)>, b: Seq<(u64, u64)>, x: int)
    ensures
        covers_seq(a + b, x) <==> (covers_seq(a, x) || covers_seq(b, x)),
{
    if covers_seq(a + b, x) {
        let i = choose|i: int| 0 <= i < (a + b).len() && ((#[trigger] (a + b)[i]).0 <= x
            < (a + b)[i].1);
        if i < a.len() {
            assert(a[i].0 <= x < a[i].1);
        } else {
            assert(b[i - a.len()].0 <= x < b[i - a.len()].1);
        }
    }
    if covers_seq(a, x) {
        let i = choose|i: int| 0 <= i < a.len() && ((#[trigger] a[i]).0 <= x < a[i].1);
        assert((a + b)[i].0 <= x < (a + b)[i].1);
    }
    if covers_seq(b, x) {
        let i = choose|i: int| 0 <= i < b.len() && ((#[trigger] b[i]).0 <= x < b[i].1);
        assert((a + b)[a.len() + i].0 <= x < (a + b)[a.len() + i].1);
    }
}

/// The set of byte ranges an upload session has received, kept as sorted,
/// disjoint, non-adjacent half-open intervals.
pub struct RangeSet {
    pub parts: Vec<(u64, u64)>,
}

impl RangeSet {
    pub open spec fn wf(self) -> bool {
        wf_seq(self.parts@)
    }

    /// Whether byte position `x` has been received.
    pub open spec fn covers(self, x: int) -> bool {
        covers_seq(self.parts@, x)
    }

    /// Whether every received byte lies below `n`.
    pub open spec fn bounded(self, n: int) -> bool {
        forall|x: int| #[trigger] self.covers(x) ==> 0 <= x < n
    }

    /// An empty set: nothing received yet.
    pub fn new() -> (r: Self)
        ensures
            r.wf(),
            forall|x: int| !r.covers(x),
    {
        RangeSet { parts: Vec::new() }
    }

    /// Merges `[start, end)` into the set. Coverage afterwards is exactly
    /// the old coverage plus the new interval; overlap and adjacency are
    /// coalesced so the representation stays well-formed.
    #[verifier::rlimit(60)]
    pub fn insert(&mut self, start: u64, end: u64)
        requires
            old(self).wf(),
            start < end,
        ensures
            final(self).wf(),
            forall|x: int|
                #[trigger] final(self).covers(x) <==> (old(self).covers(x) || start <= x
                    < end),
    {
        let n = self.parts.len();
        let ghost orig = self.parts@;
        let mut out: Vec<(u64, u64)> = Vec::new();

        // Copy the parts that end strictly before the new interval starts.
        let mut i: usize = 0;
        while i < n && self.parts[i].1 < start
            invariant
                self.parts@ == orig,
                n == orig.len(),
                0 <= i <= n,
                wf_seq(orig),
                start < end,
                out@ == orig.subrange(0, i as int),
                forall|k: int| 0 <= k < i ==> (#[trigger] orig[k]).1 < start,
            decreases n - i,
        {
            let p = self.parts[i];
            out.push(p);
            proof {
                assert(out@ =~= orig.subrange(0, i + 1));
            }
            i = i + 1;
        }
        let ghost i1 = i as int;

        // Coalesce every part that overlaps or touches the growing interval.
        let mut s = start;
        let mut e = end;
        while i < n && self.parts[i].0 <= e
            invariant
                self.parts@ == orig,
                n == orig.len(),
                0 <= i1 <= i <= n,
                wf_seq(orig),
                start < end,
                s <= start < end <= e,
                forall|k: int| 0 <= k < i1 ==> (#[trigger] orig[k]).1 < s,
                forall|k: int| i1 <= k < n ==> (#[trigger] orig[k]).1 >= start,
                forall|k: int|
                    i1 <= k < i ==> s <= (#[trigger] orig[k]).0 && orig[k].1 <= e,
                forall|x: int|
                    s <= x < e ==> (start <= x < end || covers_seq(
                        orig.subrange(i1, i as int),
                        x,
                    )),
            decreases n - i,
        {
            let p = self.parts[i];
            let ghost s0 = s;
            let ghost e0 = e;
            if p.0 < s {
                s = p.0;
            }
            if p.1 > e {
                e = p.1;
            }
            proof {
                let mid0 = orig.subrange(i1, i as int);
                let mid1 = orig.subrange(i1, i + 1);
                assert(mid1 =~= mid0 + seq![orig[i as int]]);
                assert forall|x: int| s <= x < e implies (start <= x < end || covers_seq(
                    mid1,
                    x,
                )) by {
                    if p.0 <= x < p.1 {
                        assert(mid1[mid1.len() - 1].0 <= x < mid1[mid1.len() - 1].1);
                    } else if s0 <= x < e0 {
                        if covers_seq(mid0, x) {
                            lemma_covers_concat(mid0, seq![orig[i as int]], x);
                        }
                    } else if x < p.0 {
                        // then x sits below the old start as well: impossible
                        assert(s0 <= x);
                        assert(false);
                    } else {
                        // at or past the merged part's end, yet inside [s, e):
                        // impossible, since the old interval reached this far
                        assert(orig[i as int].1 >= start >= s0);
                        assert(x < e0);
                        assert(false);
                    }
                }
            }
            i = i + 1;
        }
        let ghost i2 = i as int;
        let ghost sf = s;
        let ghost ef = e;
        out.push((s, e));
        proof {
            assert(out@ =~= orig.subrange(0, i1) + seq![(sf, ef)]);
        }

        // Copy the parts that begin strictly after the new interval ends.
        while i < n
            invariant
                self.parts@ == orig,
                n == orig.len(),
                0 <= i1 <= i2 <= i <= n,
                wf_seq(orig),
                sf <= start < end <= ef,
                out@ == orig.subrange(0, i1) + seq![(sf, ef)] + orig.subrange(i2, i as int),
                forall|k: int| 0 <= k < i1 ==> (#[trigger] orig[k]).1 < sf,
                forall|k: int|
                    i1 <= k < i2 ==> sf <= (#[trigger] orig[k]).0 && orig[k].1 <= ef,
                forall|x: int|
                    sf <= x < ef ==> (start <= x < end || covers_seq(
                        orig.subrange(i1, i2),
                        x,
                    )),
                i2 == n || orig[i2].0 > ef,
            decreases n - i,
        {
            let p = self.parts[i];
            out.push(p);
            proof {
                assert(out@ =~= orig.subrange(0, i1) + seq![(sf, ef)] + orig.subrange(
                    i2,
                    i + 1,
                ));
            }
            i = i + 1;
        }

        proof {
            let pre = orig.subrange(0, i1);
            let mid = orig.subrange(i1, i2);
            let suf = orig.subrange(i2, n as int);
            assert(orig =~= pre + mid + suf);
            assert(out@ =~= pre + seq![(sf, ef)] + suf);

            // Well-formedness of the result.
            assert forall|a: int| 0 <= a < out@.len() implies (#[trigger] out@[a]).0
                < out@[a].1 by {
                if a < i1 {
                    assert(out@[a] == orig[a]);
                } else if a > i1 {
                    assert(out@[a] == orig[a - i1 - 1 + i2]);
                }
            }
            assert forall|a: int, b: int|
                0 <= a < b < out@.len() implies (#[trigger] out@[a]).1
                < (#[trigger] out@[b]).0 by {
                if b < i1 {
                    assert(out@[a] == orig[a] && out@[b] == orig[b]);
                } else if b == i1 {
                    assert(out@[a] == orig[a] && out@[b] == (sf, ef));
                    assert(orig[a].1 < sf);
                } else {
                    let bb = b - i1 - 1 + i2;
                    assert(out@[b] == orig[bb]);
                    assert(i2 < n && i2 <= bb < n);
                    assert(orig[i2].0 <= orig[bb].0) by {
                        if i2 < bb {
                            assert(orig[i2].1 < orig[bb].0);
                        }
                    }
                    if a < i1 {
                        assert(out@[a] == orig[a]);
                        assert(orig[a].1 < sf <= ef);
                    } else if a == i1 {
                        assert(out@[a] == (sf, ef));
                    } else {
                        assert(out@[a] == orig[a - i1 - 1 + i2]);
                    }
                }
            }

            // Coverage of the result.
            assert forall|x: int|
                covers_seq(out@, x) <==> (covers_seq(orig, x) || start <= x < end) by {
                lemma_covers_concat(pre + seq![(sf, ef)], suf, x);
                lemma_covers_concat(pre, seq![(sf, ef)], x);
                lemma_covers_concat(pre + mid, suf, x);
                lemma_covers_concat(pre, mid, x);
                assert(covers_seq(seq![(sf, ef)], x) <==> sf <= x < ef) by {
                    if sf <= x < ef {
                        assert(seq![(sf, ef)][0].0 <= x < seq![(sf, ef)][0].1);
                    }
                }
                // [sf, ef) is exactly [start, end) joined with the coalesced parts
                if covers_seq(mid, x) {
                    let k = choose|k: int|
                        0 <= k < mid.len() && ((#[trigger] mid[k]).0 <= x < mid[k].1);
                    assert(mid[k] == orig[i1 + k]);
                    assert(sf <= orig[i1 + k].0 && orig[i1 + k].1 <= ef);
                }
            }
        }
        self.parts = out;
    }

    /// Whether the received ranges form the single interval `[0, n)`, i.e.
    /// the whole expected content has arrived.
    pub fn is_complete(&self, n: u64) -> (r: bool)
        requires
            self.wf(),
            self.bounded(n as int),
        ensures
            r <==> (forall|x: int| 0 <= x < n ==> self.covers(x)),
    {
        let r = if n == 0 {
            true
        } else {
            self.parts.len() == 1 && self.parts[0].0 == 0 && self.parts[0].1 == n
        };
        proof {
            if n > 0 {
                if r {
                    assert forall|x: int| 0 <= x < n implies self.covers(x) by {
                        assert(self.parts@[0].0 <= x < self.parts@[0].1);
                    }
                } else if forall|x: int| 0 <= x < n ==> self.covers(x) {
                    // The ranges cover 0, so the first part starts at 0.
                    assert(self.covers(0));
                    let i = choose|i: int|
                        0 <= i < self.parts@.len() && ((#[trigger] self.parts@[i]).0 <= 0
                            < self.parts@[i].1);
                    assert(i == 0) by {
                        if i > 0 {
                            assert(self.parts@[0].1 < self.parts@[i].0);
                        }
                    }
                    // The first part reaches n, else the byte at its end is
                    // covered by a later part, contradicting the gap.
                    if self.parts@[0].1 < n {
                        let y = self.parts@[0].1 as int;
                        assert(self.covers(y));
                        let j = choose|j: int|
                            0 <= j < self.parts@.len() && ((#[trigger] self.parts@[j]).0 <= y
                                < self.parts@[j].1);
                        assert(j > 0);
                        assert(self.parts@[0].1 < self.parts@[j].0);
                        assert(false);
                    }
                    // And it reaches no further than n, since coverage is bounded.
                    assert(self.covers(self.parts@[0].1 - 1));
                    assert(self.parts@[0].1 == n);
                    // A second part would cover a byte at or beyond n.
                    if self.parts@.len() > 1 {
                        assert(self.covers(self.parts@[1].0 as int));
                        assert(self.parts@[0].1 < self.parts@[1].0);
                        assert(false);
                    }
                    assert(false);
                }
            }
        }
        r
    }
}

} // verus!
