//! What the reclaim sequence costs: the extents it runs over and the phases
//! its time is booked under.

use crate::guest::RAM_GPA;
use crate::ledger::PAGE;
use crate::options::{Advice, Options, ReclaimMode};
use crate::reclaim::{
    law_reclaim_releases_the_range_and_restores_the_mapping, left_after, range_set, reclaim_ops,
    reclaim_range, releases, Host, HostOp, HostRun, OpFailed,
};
use crate::run::{law_resets_leave_one_mapping, numbers, Mappings, RECLAIM_REST_MILLIS};
use crate::stride::{law_walk_visits_every_stride, offsets, Strides};
use vstd::arithmetic::div_mod::{
    lemma_div_by_self, lemma_fundamental_div_mod, lemma_mod_multiples_basic, lemma_mod_self_0,
    lemma_mod_sub_multiples_vanish, lemma_small_mod,
};
use vstd::prelude::*;

verus! {

/// How the timing matrix cuts guest RAM up.
#[derive(Clone, Copy, PartialEq, Eq, Structural, Debug)]
pub struct TimingPlan {
    pub extent: u64,
    pub extents: u64,
}

/// The extent size the options ask for, in bytes.
pub open spec fn extent_bytes(o: Options) -> int {
    if o.extent_kb == 0 {
        o.ram_bytes()
    } else {
        o.extent_kb * 1024
    }
}

/// Whether the extent is whole pages and divides guest RAM.
pub open spec fn extent_fits(o: Options) -> bool {
    let extent = extent_bytes(o);
    &&& 0 < extent <= u64::MAX
    &&& extent % (PAGE as int) == 0
    &&& o.ram_bytes() % extent == 0
}

pub open spec fn cut_up(o: Options) -> Option<TimingPlan> {
    if extent_fits(o) {
        Some(
            TimingPlan {
                extent: extent_bytes(o) as u64,
                extents: (o.ram_bytes() / extent_bytes(o)) as u64,
            },
        )
    } else {
        None
    }
}

/// Cuts guest RAM into extents, or refuses an extent size that is not a
/// multiple of the page size or does not divide the RAM size.
pub fn plan(opts: &Options) -> (r: Option<TimingPlan>)
    ensures
        r == cut_up(*opts),
{
    let ram_size: u64 = opts.ram_size();
    let extent: u64 = if opts.extent_kb == 0 {
        ram_size
    } else {
        match opts.extent_kb.checked_mul(1024) {
            Some(e) => e,
            None => {
                return None;
            },
        }
    };
    if extent == 0 || extent % PAGE != 0 || ram_size % extent != 0 {
        return None;
    }
    Some(TimingPlan { extent, extents: ram_size / extent })
}

/// One step of a timing cycle.
#[derive(Clone, Copy, PartialEq, Eq, Structural, Debug)]
pub enum TimingStep {
    /// Give guest RAM fresh memory.
    Reset,
    /// Have the guest touch its RAM, against the clock.
    Touch,
    ReadBefore,
    /// Reclaim extent by extent, against the clock.
    Reclaim,
    Rest { millis: u64 },
    ReadAfter,
    /// Have the guest fault everything back in, against the clock.
    FaultBack,
    /// Print the line of the cycle with this number.
    Report { cycle: u64 },
}

/// The steps of timing cycle `n`, counted from one.
pub open spec fn timing_cycle_of(o: Options, n: u64) -> Seq<TimingStep> {
    (if n > 1 && !o.steady_state {
        seq![TimingStep::Reset]
    } else {
        Seq::empty()
    }) + seq![
        TimingStep::Touch,
        TimingStep::ReadBefore,
        TimingStep::Reclaim,
        TimingStep::Rest { millis: RECLAIM_REST_MILLIS },
        TimingStep::ReadAfter,
        TimingStep::FaultBack,
        TimingStep::Report { cycle: n },
    ]
}

/// The steps of timing cycle `n`: on fresh memory after the first, unless the
/// steady state is measured.
pub fn timing_cycle(opts: &Options, n: u64) -> (r: Vec<TimingStep>)
    ensures
        r@ == timing_cycle_of(*opts, n),
{
    let mut steps: Vec<TimingStep> = Vec::new();
    if n > 1 && !opts.steady_state {
        steps.push(TimingStep::Reset);
    }
    steps.push(TimingStep::Touch);
    steps.push(TimingStep::ReadBefore);
    steps.push(TimingStep::Reclaim);
    steps.push(TimingStep::Rest { millis: RECLAIM_REST_MILLIS });
    steps.push(TimingStep::ReadAfter);
    steps.push(TimingStep::FaultBack);
    steps.push(TimingStep::Report { cycle: n });
    assert(steps@ =~= timing_cycle_of(*opts, n));
    steps
}

/// The timing cycles from `n` on.
pub open spec fn all_timing_cycles(o: Options, n: int) -> Seq<TimingStep>
    decreases o.repeat - n + 1,
{
    if 1 <= n <= o.repeat {
        timing_cycle_of(o, n as u64) + all_timing_cycles(o, n + 1)
    } else {
        Seq::empty()
    }
}

/// A timing run under way.
pub struct TimingRun {
    opts: Options,
    /// The cycle that is under way or was last.
    cycle: u64,
    steps: Vec<TimingStep>,
    next: usize,
}

impl TimingRun {
    /// The steps still to come.
    pub closed spec fn remaining(self) -> Seq<TimingStep> {
        self.steps@.skip(self.next as int) + all_timing_cycles(self.opts, self.cycle + 1)
    }

    pub closed spec fn wf(self) -> bool {
        &&& self.next <= self.steps@.len()
        &&& self.cycle <= self.opts.repeat
    }

    /// A run about to start.
    pub fn new(opts: &Options) -> (r: TimingRun)
        ensures
            r.wf(),
            r.remaining() == all_timing_cycles(*opts, 1),
    {
        let r = TimingRun { opts: *opts, cycle: 0, steps: Vec::new(), next: 0 };
        assert(r.remaining() =~= all_timing_cycles(*opts, 1));
        r
    }

    /// The next step, if any is left.
    pub fn advance(&mut self) -> (r: Option<TimingStep>)
        requires
            old(self).wf(),
        ensures
            final(self).wf(),
            match r {
                Some(step) => old(self).remaining().len() > 0 && step == old(self).remaining()[0]
                    && final(self).remaining() == old(self).remaining().drop_first(),
                None => old(self).remaining().len() == 0 && final(self).remaining() == old(
                    self,
                ).remaining(),
            },
    {
        if self.next == self.steps.len() && self.cycle < self.opts.repeat {
            self.next = 0;
            self.cycle = self.cycle + 1;
            self.steps = timing_cycle(&self.opts, self.cycle);
        }
        assert(self.remaining() =~= old(self).remaining());
        if self.next == self.steps.len() {
            return None;
        }
        let step = self.steps[self.next];
        self.next = self.next + 1;
        assert(self.remaining() =~= old(self).remaining().drop_first());
        Some(step)
    }
}

/// How many of the steps give guest RAM fresh memory.
pub open spec fn timing_resets_in(steps: Seq<TimingStep>) -> nat
    decreases steps.len(),
{
    if steps.len() == 0 {
        0
    } else {
        timing_resets_in(steps.drop_last()) + if steps.last() == TimingStep::Reset {
            1nat
        } else {
            0nat
        }
    }
}

/// The cycles that the steps print a line for, by their numbers.
pub open spec fn lines_in(steps: Seq<TimingStep>) -> Seq<u64>
    decreases steps.len(),
{
    if steps.len() == 0 {
        Seq::empty()
    } else {
        match steps.last() {
            TimingStep::Report { cycle } => lines_in(steps.drop_last()).push(cycle),
            _ => lines_in(steps.drop_last()),
        }
    }
}

proof fn lemma_timing_counts_add(a: Seq<TimingStep>, b: Seq<TimingStep>)
    ensures
        timing_resets_in(a + b) == timing_resets_in(a) + timing_resets_in(b),
        lines_in(a + b) == lines_in(a) + lines_in(b),
    decreases b.len(),
{
    if b.len() == 0 {
        assert(a + b =~= a);
        assert(lines_in(a) + lines_in(b) =~= lines_in(a));
    } else {
        lemma_timing_counts_add(a, b.drop_last());
        assert((a + b).drop_last() =~= a + b.drop_last());
        assert(lines_in(a + b) =~= lines_in(a) + lines_in(b));
    }
}

proof fn lemma_timing_counts_of_others(steps: Seq<TimingStep>)
    ensures
        (forall|i: int| 0 <= i < steps.len() ==> #[trigger] steps[i] != TimingStep::Reset)
            ==> timing_resets_in(steps) == 0,
        (forall|i: int| 0 <= i < steps.len() ==> !(#[trigger] steps[i] is Report))
            ==> lines_in(steps) == Seq::<u64>::empty(),
    decreases steps.len(),
{
    if steps.len() > 0 {
        let before = steps.drop_last();
        lemma_timing_counts_of_others(before);
        assert(forall|i: int| 0 <= i < before.len() ==> before[i] == #[trigger] steps[i]);
        assert(steps.last() == steps[steps.len() - 1]);
    }
}

proof fn lemma_timing_counts_of_cycles(o: Options, n: int)
    requires
        1 <= n <= o.repeat + 1,
    ensures
        lines_in(all_timing_cycles(o, n)) == numbers(n, o.repeat as int),
        timing_resets_in(all_timing_cycles(o, n)) == if o.steady_state {
            0
        } else if n == 1 && o.repeat >= 1 {
            o.repeat - 1
        } else {
            o.repeat - n + 1
        },
    decreases o.repeat - n + 1,
{
    if n <= o.repeat {
        let c = timing_cycle_of(o, n as u64);
        let head = c.take(1);
        lemma_timing_counts_of_cycles(o, n + 1);
        lemma_timing_counts_add(c, all_timing_cycles(o, n + 1));
        lemma_timing_counts_of_others(c.drop_last());
        assert(c == head + c.skip(1));
        lemma_timing_counts_add(head, c.skip(1));
        lemma_timing_counts_of_others(c.skip(1));
        assert(head.drop_last() =~= Seq::<TimingStep>::empty());
        reveal_with_fuel(timing_resets_in, 2);
        assert(timing_resets_in(head) == if n > 1 && !o.steady_state {
            1nat
        } else {
            0nat
        });
        assert(lines_in(c) =~= seq![n as u64]);
        assert(seq![n as u64] + numbers(n + 1, o.repeat as int) =~= numbers(n, o.repeat as int));
    } else {
        assert(lines_in(all_timing_cycles(o, n)) =~= numbers(n, o.repeat as int));
    }
}

/// A timing run prints one line for each cycle, in order. It replaces the
/// mapping of guest RAM before each cycle but the first, and never in the
/// steady state; in the end one mapping is there, mapped in stage 2, and every
/// one that was replaced has been given back.
pub proof fn law_timing_prints_a_line_per_cycle(o: Options, m: Mappings, ram_size: u64)
    requires
        m.sound(ram_size),
    ensures
        lines_in(all_timing_cycles(o, 1)) == numbers(1, o.repeat as int),
        timing_resets_in(all_timing_cycles(o, 1)) == if o.steady_state || o.repeat <= 1 {
            0
        } else {
            o.repeat - 1
        },
        ({
            let end = m.after_resets(timing_resets_in(all_timing_cycles(o, 1)), ram_size);
            &&& end.sound(ram_size)
            &&& end.current == m.current + timing_resets_in(all_timing_cycles(o, 1))
            &&& o.steady_state || o.repeat <= 1 ==> end == m
        }),
{
    lemma_timing_counts_of_cycles(o, 1);
    law_resets_leave_one_mapping(m, timing_resets_in(all_timing_cycles(o, 1)), ram_size);
}

/// The operations that reclaim the extents at `offs`, one extent after the
/// other.
pub open spec fn extents_ops(
    offs: Seq<int>,
    extent: u64,
    mode: ReclaimMode,
    advice: Advice,
) -> Seq<HostOp>
    decreases offs.len(),
{
    if offs.len() == 0 {
        Seq::empty()
    } else {
        reclaim_ops(offs[0] as u64, extent, mode, advice) + extents_ops(
            offs.drop_first(),
            extent,
            mode,
            advice,
        )
    }
}

/// The reclaim of one extent after the other, the shape a reporting-driven
/// reclaim path has. The first operation that fails is the last that is made.
pub struct ExtentReclaim {
    current: HostRun,
    walk: Strides,
    extent: u64,
    mode: ReclaimMode,
    advice: Advice,
    end: Ghost<int>,
}

impl ExtentReclaim {
    /// The operations still to be made.
    pub closed spec fn remaining(self) -> Seq<HostOp> {
        self.current.remaining() + extents_ops(
            self.walk.remaining(),
            self.extent,
            self.mode,
            self.advice,
        )
    }

    /// The current extent comes first, and every extent after it has a
    /// guest-physical address.
    pub closed spec fn wf(self) -> bool {
        &&& self.current.wf()
        &&& self.walk_wf()
        &&& self.current.remaining().len() == 0 ==> self.walk.remaining().len() == 0
    }

    spec fn walk_wf(self) -> bool {
        &&& self.walk.wf()
        &&& RAM_GPA + self.end@ <= u64::MAX
        &&& forall|i: int|
            0 <= i < self.walk.remaining().len() ==> 0 <= #[trigger] self.walk.remaining()[i]
                < self.end@
    }

    /// Goes on to the next extent, if any is left.
    fn next_extent(&mut self)
        requires
            old(self).current.wf(),
            old(self).walk_wf(),
            old(self).current.remaining().len() == 0,
        ensures
            final(self).wf(),
            final(self).remaining() == old(self).remaining(),
    {
        if let Some(off) = self.walk.advance() {
            self.current = reclaim_range(off, self.extent, self.mode, self.advice);
        }
        assert(self.remaining() =~= old(self).remaining());
    }

    /// The operation to make next, if any.
    pub fn request(&self) -> (r: Option<HostOp>)
        requires
            self.wf(),
        ensures
            r == if self.remaining().len() > 0 {
                Some(self.remaining()[0])
            } else {
                None
            },
    {
        self.current.request()
    }

    /// Takes what the operation returned; zero is success.
    pub fn reply(&mut self, ret: i32) -> (r: Result<(), OpFailed>)
        requires
            old(self).wf(),
            old(self).remaining().len() > 0,
        ensures
            final(self).wf(),
            final(self).remaining() == left_after(old(self).remaining(), ret),
            r == if ret == 0 {
                Ok::<(), OpFailed>(())
            } else {
                Err(OpFailed { op: old(self).remaining()[0], ret })
            },
    {
        let done = self.current.reply(ret);
        if ret != 0 {
            self.walk = Strides::over(0, 0, 1);
            assert(self.remaining() =~= Seq::<HostOp>::empty());
            return done;
        }
        assert(self.remaining() =~= old(self).remaining().drop_first());
        if self.current.request().is_none() {
            self.next_extent();
        }
        done
    }
}

/// Reclaims guest RAM of `ram_size` bytes extent by extent.
pub fn reclaim_extents(ram_size: u64, extent: u64, mode: ReclaimMode, advice: Advice) -> (r:
    ExtentReclaim)
    requires
        extent > 0,
        RAM_GPA + ram_size <= u64::MAX,
    ensures
        r.wf(),
        r.remaining() == extents_ops(
            offsets(0, ram_size as int, extent as int),
            extent,
            mode,
            advice,
        ),
{
    proof {
        law_walk_visits_every_stride(0, ram_size as int, extent as int);
        assert forall|k: int|
            0 <= k < offsets(0, ram_size as int, extent as int).len() implies 0 <= #[trigger] offsets(
            0,
            ram_size as int,
            extent as int,
        )[k] < ram_size by {
            assert(k * extent >= 0) by (nonlinear_arith)
                requires
                    k >= 0,
                    extent > 0,
            ;
        }
    }
    let mut r = ExtentReclaim {
        current: HostRun::over(Vec::new()),
        walk: Strides::over(0, ram_size, extent),
        extent,
        mode,
        advice,
        end: Ghost(ram_size as int),
    };
    assert(r.remaining() =~= extents_ops(
        offsets(0, ram_size as int, extent as int),
        extent,
        mode,
        advice,
    ));
    r.next_extent();
    r
}

proof fn lemma_after_all_add(h: Host, a: Seq<HostOp>, b: Seq<HostOp>)
    ensures
        h.after_all(a + b) == h.after_all(a).after_all(b),
    decreases a.len(),
{
    if a.len() == 0 {
        assert(a + b =~= b);
    } else {
        lemma_after_all_add(h.after(a[0]), a.drop_first(), b);
        assert((a + b).drop_first() =~= a.drop_first() + b);
    }
}

proof fn lemma_after_extents(
    h: Host,
    ram_size: int,
    from: int,
    extent: u64,
    mode: ReclaimMode,
    advice: Advice,
)
    requires
        extent > 0,
        RAM_GPA + ram_size <= u64::MAX,
        h.mapped_through(ram_size),
        releases(mode, advice),
        0 <= from <= ram_size,
        (ram_size - from) % (extent as int) == 0,
    ensures
        ({
            let ops = extents_ops(offsets(from, ram_size, extent as int), extent, mode, advice);
            let e = h.after_all(ops);
            &&& e.mapped_through(ram_size)
            &&& e.released == h.released.union(range_set(from, ram_size - from))
            &&& e.trapped == h.trapped
        }),
    decreases ram_size - from,
{
    let offs = offsets(from, ram_size, extent as int);
    if from < ram_size {
        let left = ram_size - from;
        if left < extent {
            lemma_small_mod(left as nat, extent as nat);
        }
        lemma_mod_sub_multiples_vanish(left, extent as int);
        law_reclaim_releases_the_range_and_restores_the_mapping(
            h,
            ram_size,
            from as u64,
            extent,
            mode,
            advice,
        );
        let first = reclaim_ops(from as u64, extent, mode, advice);
        lemma_after_extents(h.after_all(first), ram_size, from + extent, extent, mode, advice);
        assert(offs.drop_first() =~= offsets(from + extent, ram_size, extent as int));
        let rest = extents_ops(offs.drop_first(), extent, mode, advice);
        lemma_after_all_add(h, first, rest);
        let e = h.after_all(first + rest);
        assert(e.released =~= h.released.union(range_set(from, ram_size - from)));
    } else {
        assert(h.released =~= h.released.union(range_set(from, 0)));
    }
}

/// Reclaiming extent by extent releases all of guest RAM, whoever touched it,
/// and leaves the mapping as it was.
pub proof fn law_extents_cover_guest_ram(
    h: Host,
    o: Options,
    mode: ReclaimMode,
    advice: Advice,
)
    requires
        extent_fits(o),
        RAM_GPA + o.ram_bytes() <= u64::MAX,
        h.mapped_through(o.ram_bytes()),
        releases(mode, advice),
    ensures
        ({
            let extent = extent_bytes(o) as u64;
            let offs = offsets(0, o.ram_bytes(), extent as int);
            let e = h.after_all(extents_ops(offs, extent, mode, advice));
            &&& e.mapped_through(o.ram_bytes())
            &&& e.released == h.released.union(range_set(0, o.ram_bytes()))
            &&& e.trapped == h.trapped
        }),
{
    lemma_after_extents(h, o.ram_bytes(), 0, extent_bytes(o) as u64, mode, advice);
}

/// The phases of a reclaim whose time is booked apart.
#[derive(Clone, Copy, PartialEq, Eq, Structural, Debug)]
pub enum TimedPhase {
    Unmap,
    Release,
    Remap,
}

/// The phase an operation belongs to.
pub open spec fn booked_under(op: HostOp) -> TimedPhase {
    match op {
        HostOp::Stage2Unmap { .. } => TimedPhase::Unmap,
        HostOp::Stage2Map { .. } => TimedPhase::Remap,
        _ => TimedPhase::Release,
    }
}

/// One cycle's phase totals, in nanoseconds.
#[derive(Clone, Copy, PartialEq, Eq, Structural, Debug)]
pub struct Phases {
    pub unmap: u128,
    pub release: u128,
    pub remap: u128,
}

/// Whether totals `before` become `after` when `ns` nanoseconds that `op` took
/// are booked: its phase grows by them, and no other moves.
pub open spec fn booked_as(before: Phases, op: HostOp, ns: u128, after: Phases) -> bool {
    &&& after.booked(booked_under(op)) == before.booked(booked_under(op)) + ns
    &&& forall|p: TimedPhase|
        p != booked_under(op) ==> #[trigger] after.booked(p) == before.booked(p)
}

impl Phases {
    pub fn zero() -> (r: Phases)
        ensures
            r == (Phases { unmap: 0, release: 0, remap: 0 }),
    {
        Phases { unmap: 0, release: 0, remap: 0 }
    }

    /// The total booked under a phase.
    pub open spec fn booked(self, phase: TimedPhase) -> u128 {
        match phase {
            TimedPhase::Unmap => self.unmap,
            TimedPhase::Release => self.release,
            TimedPhase::Remap => self.remap,
        }
    }

    /// Books `ns` nanoseconds that `op` took.
    pub fn book(&mut self, op: &HostOp, ns: u128)
        requires
            old(self).booked(booked_under(*op)) + ns <= u128::MAX,
        ensures
            booked_as(*old(self), *op, ns, *final(self)),
    {
        match *op {
            HostOp::Stage2Unmap { .. } => {
                self.unmap = self.unmap + ns;
            },
            HostOp::Stage2Map { .. } => {
                self.remap = self.remap + ns;
            },
            _ => {
                self.release = self.release + ns;
            },
        }
    }
}

/// Extents reclaimed one after the other: those of two lists are those of the
/// first and then those of the second, and one extent is a reclaim of its own.
pub proof fn law_extents_are_reclaimed_in_turn(
    a: Seq<int>,
    b: Seq<int>,
    off: int,
    extent: u64,
    mode: ReclaimMode,
    advice: Advice,
)
    ensures
        extents_ops(a + b, extent, mode, advice) == extents_ops(a, extent, mode, advice)
            + extents_ops(b, extent, mode, advice),
        extents_ops(seq![off], extent, mode, advice) == reclaim_ops(
            off as u64,
            extent,
            mode,
            advice,
        ),
        extents_ops(Seq::<int>::empty(), extent, mode, advice).len() == 0,
    decreases a.len(),
{
    if a.len() == 0 {
        assert(a + b =~= b);
        assert(extents_ops(a, extent, mode, advice) + extents_ops(b, extent, mode, advice)
            =~= extents_ops(b, extent, mode, advice));
    } else {
        law_extents_are_reclaimed_in_turn(a.drop_first(), b, off, extent, mode, advice);
        assert((a + b).drop_first() =~= a.drop_first() + b);
        assert(extents_ops(a + b, extent, mode, advice) =~= extents_ops(a, extent, mode, advice)
            + extents_ops(b, extent, mode, advice));
    }
    assert(seq![off].drop_first() =~= Seq::<int>::empty());
    reveal_with_fuel(extents_ops, 2);
    assert(extents_ops(seq![off], extent, mode, advice) =~= reclaim_ops(
        off as u64,
        extent,
        mode,
        advice,
    ));
}

/// An accepted extent is whole pages and is laid out over guest RAM without a
/// remainder: all of it at once where no extent is asked for.
pub proof fn law_extents_tile_guest_ram(o: Options)
    requires
        extent_fits(o),
    ensures
        ({
            let extent = extent_bytes(o);
            let extents = o.ram_bytes() / extent;
            &&& extents * extent == o.ram_bytes()
            &&& extent == 16384 * (extent / 16384)
            &&& o.extent_kb == 0 ==> extents == 1
            &&& o.extent_kb != 0 ==> extent == 1024 * o.extent_kb
        }),
{
    let extent = extent_bytes(o);
    lemma_fundamental_div_mod(o.ram_bytes(), extent);
    assert(extent * (o.ram_bytes() / extent) == (o.ram_bytes() / extent) * extent)
        by (nonlinear_arith);
    if o.extent_kb == 0 {
        lemma_div_by_self(extent);
    }
}

/// Every extent of whole pages that guest RAM is a multiple of is accepted, and
/// so is none at all where there is RAM.
pub proof fn law_fitting_extents_are_accepted(o: Options, pages: int, times: int)
    requires
        o.ram_bytes() > 0,
        o.extent_kb == 0 || (pages > 0 && o.extent_kb * 1024 == pages * 16384 && o.ram_bytes()
            == times * (pages * 16384)),
    ensures
        extent_fits(o),
{
    if o.extent_kb == 0 {
        let n = o.size_gb * 0x4000_0000;
        assert(n % 16384 == 0);
        assert(o.ram_bytes() % 16384 == 0);
        lemma_mod_self_0(o.ram_bytes());
    } else {
        let extent = pages * 16384;
        assert(extent <= times * extent) by (nonlinear_arith)
            requires
                extent > 0,
                times * extent > 0,
        ;
        lemma_mod_multiples_basic(times, extent);
    }
}

/// A timing cycle times the guest's touch, reads the ledger right before the
/// reclaim and again after it with only the rest between, has the guest fault
/// everything back in, and prints its own number last. Fresh memory comes
/// first, in every cycle but the first, and never in the steady state.
pub proof fn law_timing_cycles_measure_the_reclaim_alone(o: Options, n: u64, i: int)
    requires
        0 <= i < timing_cycle_of(o, n).len(),
        timing_cycle_of(o, n)[i] == TimingStep::Reclaim,
    ensures
        ({
            let c = timing_cycle_of(o, n);
            &&& i >= 2 && c.len() == i + 5
            &&& c[i - 2] == TimingStep::Touch
            &&& c[i - 1] == TimingStep::ReadBefore
            &&& c[i + 1] == (TimingStep::Rest { millis: 200 })
            &&& c[i + 2] == TimingStep::ReadAfter
            &&& c[i + 3] == TimingStep::FaultBack
            &&& c[i + 4] == (TimingStep::Report { cycle: n })
            &&& i == 3 <==> n > 1 && !o.steady_state
            &&& i == 3 ==> c[0] == TimingStep::Reset
            &&& i == 2 || i == 3
        }),
{
}

/// There is one reclaim in every timing cycle.
pub proof fn law_timing_cycles_reclaim_once(o: Options, n: u64)
    ensures
        timing_cycle_of(o, n).contains(TimingStep::Reclaim),
        forall|i: int, j: int|
            0 <= i < timing_cycle_of(o, n).len() && 0 <= j < timing_cycle_of(o, n).len()
                && #[trigger] timing_cycle_of(o, n)[i] == TimingStep::Reclaim
                && #[trigger] timing_cycle_of(o, n)[j] == TimingStep::Reclaim ==> i == j,
{
    let c = timing_cycle_of(o, n);
    if n > 1 && !o.steady_state {
        assert(c[3] == TimingStep::Reclaim);
    } else {
        assert(c[2] == TimingStep::Reclaim);
    }
}

/// Nanoseconds added up.
pub open spec fn sum_of(ns: Seq<u128>) -> int
    decreases ns.len(),
{
    if ns.len() == 0 {
        0
    } else {
        sum_of(ns.drop_last()) + ns.last()
    }
}

/// Of the operations of a reclaim, in either mode, only the stage-2 unmap moves
/// the unmap total and only the stage-2 map moves the remap total; everything
/// between them moves the release total, each by the time it took. `totals[i]`
/// stands before operation `i`, which took `ns[i]`.
pub proof fn law_time_is_booked_where_it_was_spent(
    off: u64,
    len: u64,
    mode: ReclaimMode,
    advice: Advice,
    ns: Seq<u128>,
    totals: Seq<Phases>,
)
    requires
        ({
            let ops = reclaim_ops(off, len, mode, advice);
            &&& ns.len() == ops.len()
            &&& totals.len() == ops.len() + 1
            &&& forall|i: int|
                0 <= i < ops.len() ==> booked_as(
                    #[trigger] totals[i],
                    ops[i],
                    ns[i],
                    totals[i + 1],
                )
        }),
    ensures
        ({
            let start = totals[0];
            let end = totals.last();
            &&& end.unmap == start.unmap + ns[0]
            &&& end.remap == start.remap + ns.last()
            &&& end.release == start.release + sum_of(ns.subrange(1, ns.len() - 1))
        }),
{
    let ops = reclaim_ops(off, len, mode, advice);
    let between = ns.subrange(1, ns.len() - 1);
    lemma_booked(totals[0], ops[0], ns[0], totals[1]);
    lemma_booked(totals[1], ops[1], ns[1], totals[2]);
    lemma_booked(totals[2], ops[2], ns[2], totals[3]);
    reveal_with_fuel(sum_of, 3);
    match mode {
        ReclaimMode::Reusable => {
            assert(between =~= seq![ns[1]]);
            assert(between.drop_last() =~= Seq::<u128>::empty());
        },
        ReclaimMode::Munmap => {
            lemma_booked(totals[3], ops[3], ns[3], totals[4]);
            assert(between =~= seq![ns[1], ns[2]]);
            assert(between.drop_last() =~= seq![ns[1]]);
            assert(seq![ns[1]].drop_last() =~= Seq::<u128>::empty());
        },
    }
}

/// What booking does to the three totals.
proof fn lemma_booked(before: Phases, op: HostOp, ns: u128, after: Phases)
    requires
        booked_as(before, op, ns, after),
    ensures
        after.unmap == before.unmap + if op is Stage2Unmap {
            ns as int
        } else {
            0
        },
        after.remap == before.remap + if op is Stage2Map {
            ns as int
        } else {
            0
        },
        after.release == before.release + if op is Stage2Unmap || op is Stage2Map {
            0
        } else {
            ns as int
        },
{
    assert(after.booked(TimedPhase::Unmap) == after.unmap && before.booked(TimedPhase::Unmap)
        == before.unmap);
    assert(after.booked(TimedPhase::Remap) == after.remap && before.booked(TimedPhase::Remap)
        == before.remap);
    assert(after.booked(TimedPhase::Release) == after.release && before.booked(TimedPhase::Release)
        == before.release);
}

/// The extents of a plan, put together, are guest RAM, each of them as large as
/// was asked for; there is a plan exactly where the extent fits.
pub proof fn law_plans_are_guest_ram_in_pieces(o: Options)
    ensures
        match cut_up(o) {
            Some(p) => extent_fits(o) && p.extents * p.extent == o.ram_bytes() && p.extent % 16384
                == 0 && (o.extent_kb != 0 ==> p.extent == 1024 * o.extent_kb) && (o.extent_kb == 0
                ==> p.extents == 1),
            None => !extent_fits(o),
        },
{
    if extent_fits(o) {
        law_extents_tile_guest_ram(o);
        let extent = extent_bytes(o);
        let extents = o.ram_bytes() / extent;
        assert(0 <= extents <= extents * extent) by (nonlinear_arith)
            requires
                extent > 0,
                extents * extent >= 0,
        ;
    }
}

}
