//! Giving guest memory back: which host operations, in which order, and what
//! they leave of the stage-2 mapping.

use crate::guest::RAM_GPA;
use crate::options::{Advice, Options, ReclaimMode};
use vstd::prelude::*;

verus! {

/// One host operation. `off` is an offset into the host mapping of guest RAM,
/// `gpa` a guest-physical address.
#[derive(Clone, Copy, PartialEq, Eq, Structural, Debug)]
pub enum HostOp {
    /// Take the range out of the guest's stage-2 mapping.
    Stage2Unmap { gpa: u64, len: u64 },
    /// Map host memory at `gpa`, readable and writable.
    Stage2Map { off: u64, gpa: u64, len: u64 },
    /// Advise the kernel about the range.
    Advise { off: u64, len: u64, advice: Advice },
    /// Take the host mapping out.
    Munmap { off: u64, len: u64 },
    /// Put fresh zero-fill memory in its place.
    MmapFixed { off: u64, len: u64 },
}

/// A host operation that did not succeed.
#[derive(Clone, Copy, PartialEq, Eq, Structural, Debug)]
pub struct OpFailed {
    pub op: HostOp,
    pub ret: i32,
}

/// What is still to be done of `left` once its first operation returned `ret`:
/// the rest, or nothing where it failed.
pub open spec fn left_after(left: Seq<HostOp>, ret: i32) -> Seq<HostOp> {
    if ret == 0 && left.len() > 0 {
        left.drop_first()
    } else {
        Seq::empty()
    }
}

/// Host operations to be made one after the other. The first that fails is
/// the last that is made.
pub struct HostRun {
    ops: Vec<HostOp>,
    next: usize,
}

impl HostRun {
    /// The operations still to be made.
    pub closed spec fn remaining(self) -> Seq<HostOp> {
        self.ops@.skip(self.next as int)
    }

    pub closed spec fn wf(self) -> bool {
        self.next <= self.ops@.len()
    }

    /// A run over `ops`.
    pub fn over(ops: Vec<HostOp>) -> (r: HostRun)
        ensures
            r.wf(),
            r.remaining() == ops@,
    {
        let r = HostRun { ops, next: 0 };
        assert(r.remaining() =~= ops@);
        r
    }

    /// The operation to make next, if any.
    pub fn request(&self) -> (r: Option<HostOp>)
        requires
            self.wf(),
        ensures
            r == if self.remaining().len() > 0 {
                Some(self.remaining()[0])
            } else {
                None
            },
    {
        if self.next < self.ops.len() {
            Some(self.ops[self.next])
        } else {
            None
        }
    }

    /// Takes what the operation returned; zero is success.
    pub fn reply(&mut self, ret: i32) -> (r: Result<(), OpFailed>)
        requires
            old(self).wf(),
            old(self).remaining().len() > 0,
        ensures
            final(self).wf(),
            final(self).remaining() == left_after(old(self).remaining(), ret),
            r == if ret == 0 {
                Ok::<(), OpFailed>(())
            } else {
                Err(OpFailed { op: old(self).remaining()[0], ret })
            },
    {
        let total: usize = self.ops.len();
        let op = self.ops[self.next];
        if ret == 0 {
            self.next = self.next + 1;
            assert(self.remaining() =~= old(self).remaining().drop_first());
            Ok(())
        } else {
            self.next = total;
            assert(self.remaining() =~= Seq::<HostOp>::empty());
            Err(OpFailed { op, ret })
        }
    }
}

/// What is still to be done once as many operations as there are `rets` were
/// made and returned them.
pub open spec fn left_after_all(left: Seq<HostOp>, rets: Seq<i32>) -> Seq<HostOp>
    decreases rets.len(),
{
    if rets.len() == 0 {
        left
    } else {
        left_after(left_after_all(left, rets.drop_last()), rets.last())
    }
}

/// Operations are made in order, and none after one that failed.
pub proof fn law_nothing_follows_a_failure(ops: Seq<HostOp>, rets: Seq<i32>)
    requires
        rets.len() <= ops.len(),
    ensures
        (forall|i: int| 0 <= i < rets.len() ==> #[trigger] rets[i] == 0) ==> left_after_all(
            ops,
            rets,
        ) == ops.skip(rets.len() as int),
        forall|i: int|
            0 <= i < rets.len() - 1 && #[trigger] rets[i] != 0 ==> left_after_all(ops, rets).len()
                == 0,
        rets.len() > 0 && rets.last() != 0 ==> left_after_all(ops, rets).len() == 0,
    decreases rets.len(),
{
    if rets.len() == 0 {
        assert(ops.skip(0) =~= ops);
    } else {
        let before = rets.drop_last();
        law_nothing_follows_a_failure(ops, before);
        let left = left_after_all(ops, before);
        if forall|i: int| 0 <= i < rets.len() ==> #[trigger] rets[i] == 0 {
            assert forall|i: int| 0 <= i < before.len() implies #[trigger] before[i] == 0 by {
                assert(rets[i] == 0);
            }
            assert(left.drop_first() =~= ops.skip(rets.len() as int));
        }
        assert forall|i: int| 0 <= i < rets.len() - 1 && #[trigger] rets[i] != 0 implies
            left_after_all(ops, rets).len() == 0 by {
            assert(before[i] == rets[i]);
            assert(left.len() == 0);
        }
    }
}

/// The release step of a reclaim.
pub open spec fn release_ops(off: u64, len: u64, mode: ReclaimMode, advice: Advice) -> Seq<HostOp> {
    match mode {
        ReclaimMode::Reusable => seq![HostOp::Advise { off, len, advice }],
        ReclaimMode::Munmap => seq![HostOp::Munmap { off, len }, HostOp::MmapFixed { off, len }],
    }
}

/// The working sequence: out of stage 2, release, back into stage 2.
pub open spec fn reclaim_ops(off: u64, len: u64, mode: ReclaimMode, advice: Advice) -> Seq<HostOp> {
    let gpa = (RAM_GPA + off) as u64;
    seq![HostOp::Stage2Unmap { gpa, len }] + release_ops(off, len, mode, advice) + seq![
        HostOp::Stage2Map { off, gpa, len },
    ]
}

/// Reclaims `len` bytes of guest RAM from `off` on.
pub fn reclaim_range(off: u64, len: u64, mode: ReclaimMode, advice: Advice) -> (r: HostRun)
    requires
        RAM_GPA + off <= u64::MAX,
    ensures
        r.wf(),
        r.remaining() == reclaim_ops(off, len, mode, advice),
{
    let gpa: u64 = RAM_GPA + off;
    let mut ops: Vec<HostOp> = Vec::new();
    ops.push(HostOp::Stage2Unmap { gpa, len });
    match mode {
        ReclaimMode::Reusable => {
            ops.push(HostOp::Advise { off, len, advice });
        },
        ReclaimMode::Munmap => {
            ops.push(HostOp::Munmap { off, len });
            ops.push(HostOp::MmapFixed { off, len });
        },
    }
    ops.push(HostOp::Stage2Map { off, gpa, len });
    assert(ops@ =~= reclaim_ops(off, len, mode, advice));
    HostRun::over(ops)
}

/// The answer to a doorbell.
pub open spec fn doorbell_ops(o: Options, ram_size: u64) -> Seq<HostOp> {
    if o.naive {
        seq![HostOp::Advise { off: 0, len: ram_size, advice: o.advice }]
    } else {
        reclaim_ops(0, ram_size, ReclaimMode::Reusable, o.advice)
    }
}

/// The reclaim answer to a doorbell: unmap, advise, remap, or the advice in
/// place where the options ask for the naive form.
pub fn reclaim(opts: &Options, ram_size: u64) -> (r: HostRun)
    ensures
        r.wf(),
        r.remaining() == doorbell_ops(*opts, ram_size),
{
    if opts.naive {
        let mut ops: Vec<HostOp> = Vec::new();
        ops.push(HostOp::Advise { off: 0, len: ram_size, advice: opts.advice });
        assert(ops@ =~= doorbell_ops(*opts, ram_size));
        HostRun::over(ops)
    } else {
        reclaim_range(0, ram_size, ReclaimMode::Reusable, opts.advice)
    }
}

/// What the host keeps of guest RAM, byte by byte.
pub struct Host {
    /// Where each guest-physical address leads in the host mapping.
    pub stage2: Map<int, int>,
    /// The offsets that host memory stands behind.
    pub backed: Set<int>,
    /// The offsets that the guest touched through stage 2.
    pub touched: Set<int>,
    /// The offsets that came off the footprint ledger: marked reusable, or
    /// unmapped. The other advices leave the ledger flat.
    pub released: Set<int>,
    /// The offsets whose release the kernel declined, though it reported
    /// success: the guest had touched them and still reached them.
    pub trapped: Set<int>,
}

impl Host {
    /// Whether a guest address leads to the offset.
    pub open spec fn reachable(self, off: int) -> bool {
        exists|g: int| #[trigger] self.stage2.dom().contains(g) && self.stage2[g] == off
    }

    /// Whether the kernel declines to release the offset.
    pub open spec fn pinned(self, off: int) -> bool {
        self.reachable(off) && self.touched.contains(off)
    }

    /// Releasing a range.
    pub open spec fn release(self, off: int, len: int) -> Host {
        Host {
            released: self.released.union(
                Set::new(|o: int| off <= o < off + len && !self.pinned(o)),
            ),
            trapped: self.trapped.union(Set::new(|o: int| off <= o < off + len && self.pinned(o))),
            ..self
        }
    }

    /// One operation.
    pub open spec fn after(self, op: HostOp) -> Host {
        match op {
            HostOp::Stage2Unmap { gpa, len } => Host {
                stage2: self.stage2.remove_keys(Set::new(|g: int| gpa <= g < gpa + len)),
                ..self
            },
            HostOp::Stage2Map { off, gpa, len } => Host {
                stage2: self.stage2.union_prefer_right(
                    Map::new(|g: int| gpa <= g < gpa + len, |g: int| off + (g - gpa)),
                ),
                ..self
            },
            HostOp::Advise { off, len, advice } => if advice == Advice::Reusable {
                self.release(off as int, len as int)
            } else {
                self
            },
            HostOp::Munmap { off, len } => Host {
                backed: self.backed.difference(Set::new(|o: int| off <= o < off + len)),
                ..self.release(off as int, len as int)
            },
            HostOp::MmapFixed { off, len } => Host {
                backed: self.backed.union(Set::new(|o: int| off <= o < off + len)),
                ..self
            },
        }
    }

    /// Operations in order.
    pub open spec fn after_all(self, ops: Seq<HostOp>) -> Host
        decreases ops.len(),
    {
        if ops.len() == 0 {
            self
        } else {
            self.after(ops[0]).after_all(ops.drop_first())
        }
    }

    /// Guest RAM of `ram_size` bytes is mapped straight through, and host
    /// memory stands behind all of it.
    pub open spec fn mapped_through(self, ram_size: int) -> bool {
        &&& self.stage2 == Map::new(
            |g: int| RAM_GPA <= g < RAM_GPA + ram_size,
            |g: int| g - RAM_GPA,
        )
        &&& forall|o: int| 0 <= o < ram_size ==> #[trigger] self.backed.contains(o)
    }
}

/// The set of offsets of a range.
pub open spec fn range_set(off: int, len: int) -> Set<int> {
    Set::new(|o: int| off <= o < off + len)
}

/// Whether a reclaim moves the ledger: by unmapping, or by the one advice that
/// does.
pub open spec fn releases(mode: ReclaimMode, advice: Advice) -> bool {
    mode == ReclaimMode::Munmap || advice == Advice::Reusable
}

/// The working sequence releases exactly the range, whoever touched it, and
/// puts the mapping back as it was.
pub proof fn law_reclaim_releases_the_range_and_restores_the_mapping(
    h: Host,
    ram_size: int,
    off: u64,
    len: u64,
    mode: ReclaimMode,
    advice: Advice,
)
    requires
        h.mapped_through(ram_size),
        off + len <= ram_size,
        RAM_GPA + ram_size <= u64::MAX,
        releases(mode, advice),
    ensures
        ({
            let e = h.after_all(reclaim_ops(off, len, mode, advice));
            &&& e.stage2 == h.stage2
            &&& e.backed == h.backed
            &&& e.touched == h.touched
            &&& e.released == h.released.union(range_set(off as int, len as int))
            &&& e.trapped == h.trapped
            &&& e.mapped_through(ram_size)
        }),
{
    let ops = reclaim_ops(off, len, mode, advice);
    let r = range_set(off as int, len as int);
    let h1 = h.after(ops[0]);
    assert forall|o: int| off <= o < off + len implies !#[trigger] h1.reachable(o) by {}
    let h2 = h1.after(ops[1]);
    assert(h2.released =~= h.released.union(r));
    assert(h2.trapped =~= h.trapped);
    match mode {
        ReclaimMode::Reusable => {
            let h3 = h2.after(ops[2]);
            assert(h3.stage2 =~= h.stage2);
            assert(ops.drop_first().drop_first() =~= seq![ops[2]]);
            assert(seq![ops[2]].drop_first() =~= Seq::<HostOp>::empty());
            reveal_with_fuel(Host::after_all, 4);
            assert(h.after_all(ops) == h3);
        },
        ReclaimMode::Munmap => {
            let h3 = h2.after(ops[2]);
            let h4 = h3.after(ops[3]);
            assert(h4.stage2 =~= h.stage2);
            assert(h4.backed =~= h.backed);
            assert(ops.drop_first().drop_first() =~= seq![ops[2], ops[3]]);
            assert(seq![ops[2], ops[3]].drop_first() =~= seq![ops[3]]);
            assert(seq![ops[3]].drop_first() =~= Seq::<HostOp>::empty());
            reveal_with_fuel(Host::after_all, 5);
            assert(h.after_all(ops) == h4);
        },
    }
}

/// The naive form is the trap: nothing that the guest touched is released.
/// What only the host touched is, which is why a trial on host-touched memory
/// does not show it.
pub proof fn law_naive_reclaim_is_the_trap(h: Host, o: Options, ram_size: u64)
    requires
        h.mapped_through(ram_size as int),
        o.naive,
        o.advice == Advice::Reusable,
    ensures
        ({
            let e = h.after_all(doorbell_ops(o, ram_size));
            let ram = range_set(0, ram_size as int);
            &&& e.stage2 == h.stage2
            &&& e.backed == h.backed
            &&& e.released == h.released.union(ram.difference(h.touched))
            &&& e.trapped == h.trapped.union(ram.intersect(h.touched))
        }),
{
    let ops = doorbell_ops(o, ram_size);
    let e = h.after(ops[0]);
    let ram = range_set(0, ram_size as int);
    assert forall|x: int| 0 <= x < ram_size implies #[trigger] h.reachable(x) by {
        assert(h.stage2.dom().contains(RAM_GPA + x));
    }
    assert(e.released =~= h.released.union(ram.difference(h.touched)));
    assert(e.trapped =~= h.trapped.union(ram.intersect(h.touched)));
    assert(ops.drop_first() =~= Seq::<HostOp>::empty());
    reveal_with_fuel(Host::after_all, 2);
}

/// The answer to the doorbell, when it is not the naive one, releases all of
/// guest RAM, traps nothing and leaves the guest running on the same mapping.
pub proof fn law_reclaim_releases_all_guest_ram(h: Host, o: Options, ram_size: u64)
    requires
        h.mapped_through(ram_size as int),
        RAM_GPA + ram_size <= u64::MAX,
        !o.naive,
        o.advice == Advice::Reusable,
    ensures
        ({
            let e = h.after_all(doorbell_ops(o, ram_size));
            &&& e.mapped_through(ram_size as int)
            &&& e.released == h.released.union(range_set(0, ram_size as int))
            &&& e.trapped == h.trapped
        }),
{
    law_reclaim_releases_the_range_and_restores_the_mapping(
        h,
        ram_size as int,
        0,
        ram_size,
        ReclaimMode::Reusable,
        o.advice,
    );
}

/// The other advices give nothing back, naive or not: the ledger stays flat,
/// and the mapping is as it was.
pub proof fn law_other_advices_leave_the_ledger_flat(h: Host, o: Options, ram_size: u64)
    requires
        h.mapped_through(ram_size as int),
        RAM_GPA + ram_size <= u64::MAX,
        o.advice != Advice::Reusable,
    ensures
        ({
            let e = h.after_all(doorbell_ops(o, ram_size));
            &&& e.mapped_through(ram_size as int)
            &&& e.released == h.released
            &&& e.trapped == h.trapped
        }),
{
    let ops = doorbell_ops(o, ram_size);
    reveal_with_fuel(Host::after_all, 4);
    if o.naive {
        assert(ops.drop_first() =~= Seq::<HostOp>::empty());
    } else {
        let h3 = h.after(ops[0]).after(ops[1]).after(ops[2]);
        assert(ops.drop_first().drop_first() =~= seq![ops[2]]);
        assert(seq![ops[2]].drop_first() =~= Seq::<HostOp>::empty());
        assert(h.after_all(ops) == h3);
        assert(h3.stage2 =~= h.stage2);
    }
}

/// While one range is out, the guest reaches all the rest of its RAM.
pub proof fn law_the_rest_stays_mapped(
    h: Host,
    ram_size: int,
    off: u64,
    len: u64,
    mode: ReclaimMode,
    advice: Advice,
)
    requires
        h.mapped_through(ram_size),
        off + len <= ram_size,
        RAM_GPA + ram_size <= u64::MAX,
    ensures
        forall|o: int|
            0 <= o < ram_size && !(off <= o < off + len) ==> #[trigger] h.after(
                reclaim_ops(off, len, mode, advice)[0],
            ).reachable(o),
{
    let h1 = h.after(reclaim_ops(off, len, mode, advice)[0]);
    assert forall|o: int| 0 <= o < ram_size && !(off <= o < off + len) implies #[trigger] h1.reachable(
        o,
    ) by {
        assert(h1.stage2.dom().contains(RAM_GPA + o));
    }
}

/// The part of guest RAM that an operation is about: offset and length.
pub open spec fn range_of(op: HostOp) -> (int, int) {
    match op {
        HostOp::Stage2Unmap { gpa, len } => (gpa - RAM_GPA, len as int),
        HostOp::Stage2Map { off: _, gpa, len } => (gpa - RAM_GPA, len as int),
        HostOp::Advise { off, len, advice: _ } => (off as int, len as int),
        HostOp::Munmap { off, len } => (off as int, len as int),
        HostOp::MmapFixed { off, len } => (off as int, len as int),
    }
}

/// Whatever the options, the answer to the doorbell holds exactly one advice:
/// it covers all of guest RAM and is the advice that the options name. The
/// naive form is that advice and nothing else; the other takes all of guest
/// RAM out of stage 2 before it and puts all of it back after.
pub proof fn law_the_advice_is_the_one_asked_for(o: Options, ram_size: u64)
    ensures
        ({
            let ops = doorbell_ops(o, ram_size);
            let advise = HostOp::Advise { off: 0, len: ram_size, advice: o.advice };
            &&& ops.contains(advise)
            &&& forall|i: int, j: int|
                0 <= i < ops.len() && 0 <= j < ops.len() && #[trigger] ops[i] is Advise
                    && #[trigger] ops[j] is Advise ==> i == j
            &&& o.naive ==> ops.len() == 1
            &&& !o.naive ==> ops.len() == 3 && ops[1] == advise && ops[0] == (
            HostOp::Stage2Unmap { gpa: RAM_GPA, len: ram_size }) && ops[2] == (HostOp::Stage2Map {
                off: 0,
                gpa: RAM_GPA,
                len: ram_size,
            })
        }),
{
    let ops = doorbell_ops(o, ram_size);
    if o.naive {
        assert(ops[0] is Advise);
    } else {
        assert(ops[1] is Advise);
    }
}

/// Every operation of a reclaim is about the range that is reclaimed and no
/// other. It begins by taking the range out of stage 2 and ends by mapping it
/// back where it was; between these the mode decides: the advice that was asked
/// for, once, or the host mapping taken out and replaced, with no advice.
pub proof fn law_reclaim_keeps_to_its_range(off: u64, len: u64, mode: ReclaimMode, advice: Advice)
    requires
        RAM_GPA + off <= u64::MAX,
    ensures
        ({
            let ops = reclaim_ops(off, len, mode, advice);
            let n = ops.len() as int;
            &&& forall|i: int|
                0 <= i < n ==> range_of(#[trigger] ops[i]) == (off as int, len as int)
            &&& forall|i: int| 0 <= i < n ==> (#[trigger] ops[i] is Stage2Unmap <==> i == 0)
            &&& forall|i: int| 0 <= i < n ==> (#[trigger] ops[i] is Stage2Map <==> i == n - 1)
            &&& forall|i: int|
                0 <= i < n ==> (#[trigger] ops[i] matches HostOp::Stage2Map { off: from, .. }
                    ==> from == off)
            &&& match mode {
                ReclaimMode::Reusable => n == 3 && ops[1] == (HostOp::Advise { off, len, advice }),
                ReclaimMode::Munmap => n == 4 && ops[1] is Munmap && ops[2] is MmapFixed,
            }
        }),
{
}

}
