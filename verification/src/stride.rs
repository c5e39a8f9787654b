//! Walking a range of offsets in equal steps.

use vstd::arithmetic::div_mod::{lemma_basic_div, lemma_div_plus_one};
use vstd::prelude::*;

verus! {

/// The offsets `start`, `start + stride`, ... below `end`.
pub open spec fn offsets(start: int, end: int, stride: int) -> Seq<int>
    decreases
        if start < end {
            end - start
        } else {
            0
        },
{
    if stride > 0 && start < end {
        seq![start] + offsets(start + stride, end, stride)
    } else {
        Seq::empty()
    }
}

/// A walk over the offsets of a range.
pub struct Strides {
    next: u64,
    end: u64,
    stride: u64,
}

impl Strides {
    /// The offsets still to come.
    pub closed spec fn remaining(self) -> Seq<int> {
        offsets(self.next as int, self.end as int, self.stride as int)
    }

    /// Whether the walk moves forward.
    pub closed spec fn wf(self) -> bool {
        self.stride > 0
    }

    /// The walk over `[start, end)` in steps of `stride`.
    pub fn over(start: u64, end: u64, stride: u64) -> (r: Strides)
        requires
            stride > 0,
        ensures
            r.wf(),
            r.remaining() == offsets(start as int, end as int, stride as int),
    {
        Strides { next: start, end, stride }
    }

    /// The next offset, if any is left.
    pub fn advance(&mut self) -> (r: Option<u64>)
        requires
            old(self).wf(),
        ensures
            final(self).wf(),
            match r {
                Some(off) => old(self).remaining().len() > 0 && off == old(self).remaining()[0]
                    && final(self).remaining() == old(self).remaining().drop_first(),
                None => old(self).remaining().len() == 0 && final(self).remaining() == old(
                    self,
                ).remaining(),
            },
    {
        if self.next < self.end {
            let off: u64 = self.next;
            self.next = if self.end - off > self.stride {
                off + self.stride
            } else {
                self.end
            };
            proof {
                assert(old(self).remaining().drop_first() =~= offsets(
                    off + self.stride,
                    self.end as int,
                    self.stride as int,
                ));
                assert(self.next == self.end ==> offsets(
                    off + self.stride,
                    self.end as int,
                    self.stride as int,
                ) =~= offsets(self.end as int, self.end as int, self.stride as int));
            }
            Some(off)
        } else {
            None
        }
    }
}

/// How many offsets a walk has: the range divided by the stride, rounded up.
pub open spec fn stride_count(start: int, end: int, stride: int) -> int {
    if start < end {
        (end - start + stride - 1) / stride
    } else {
        0
    }
}

/// The walk visits every multiple of the stride below the end once, in order,
/// and nothing else.
pub proof fn law_walk_visits_every_stride(start: int, end: int, stride: int)
    requires
        stride > 0,
    ensures
        offsets(start, end, stride).len() == stride_count(start, end, stride),
        forall|k: int|
            0 <= k < stride_count(start, end, stride) ==> #[trigger] offsets(start, end, stride)[k]
                == start + k * stride && start + k * stride < end,
    decreases
        if start < end {
            end - start
        } else {
            0
        },
{
    if start < end {
        law_walk_visits_every_stride(start + stride, end, stride);
        let rest = offsets(start + stride, end, stride);
        let all = offsets(start, end, stride);
        assert(stride_count(start, end, stride) == stride_count(start + stride, end, stride) + 1)
            by {
            let more = end - start - 1;
            lemma_div_plus_one(more, stride);
            if start + stride >= end {
                lemma_basic_div(more, stride);
            }
        }
        assert forall|k: int| 0 <= k < stride_count(start, end, stride) implies #[trigger] all[k]
            == start + k * stride && start + k * stride < end by {
            if k > 0 {
                assert(all[k] == rest[k - 1]);
                assert(start + stride + (k - 1) * stride == start + k * stride) by (nonlinear_arith);
            } else {
                assert(0 * stride == 0);
            }
        }
    }
}

/// A walk is the offsets that a whole number of strides lead to from the start,
/// as far as the end: the one that `k` strides lead to is visited exactly if it
/// is below the end, and after `k` others.
pub proof fn law_walk_misses_nothing(start: int, end: int, stride: int, k: int)
    requires
        stride > 0,
        k >= 0,
    ensures
        k < offsets(start, end, stride).len() <==> start + k * stride < end,
        start + k * stride < end ==> offsets(start, end, stride)[k] == start + k * stride,
    decreases k,
{
    let all = offsets(start, end, stride);
    assert(start + stride + (k - 1) * stride == start + k * stride) by (nonlinear_arith);
    assert(k * stride >= 0) by (nonlinear_arith)
        requires
            k >= 0,
            stride > 0,
    ;
    if start < end {
        let rest = offsets(start + stride, end, stride);
        assert(all =~= seq![start] + rest);
        if k > 0 {
            law_walk_misses_nothing(start + stride, end, stride, k - 1);
        } else {
            assert(0 * stride == 0);
        }
    }
}

}
