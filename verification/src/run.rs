//! What a plain run does: dirty, reclaim and measure, then probe.

use crate::guest::RAM_GPA;
use crate::options::{separate_modes, Options};
use vstd::prelude::*;

verus! {

/// The modes of a run.
#[derive(Clone, Copy, PartialEq, Eq, Structural, Debug)]
pub enum Mode {
    Plain,
    TimeReclaim,
    FleetSim,
    Soak,
}

/// The mode the options select.
pub open spec fn mode_of(o: Options) -> Mode {
    if o.soak {
        Mode::Soak
    } else if o.time_reclaim {
        Mode::TimeReclaim
    } else if o.fleet_sim {
        Mode::FleetSim
    } else {
        Mode::Plain
    }
}

pub fn mode(opts: &Options) -> (r: Mode)
    ensures
        r == mode_of(*opts),
{
    if opts.soak {
        Mode::Soak
    } else if opts.time_reclaim {
        Mode::TimeReclaim
    } else if opts.fleet_sim {
        Mode::FleetSim
    } else {
        Mode::Plain
    }
}

pub open spec fn shows_banner(o: Options) -> bool {
    !o.time_reclaim && !o.fleet_sim
}

/// Whether the run opens with a banner and a baseline: the modes that print
/// tables for machines do not.
pub fn has_banner(opts: &Options) -> (r: bool)
    ensures
        r == shows_banner(*opts),
{
    !opts.time_reclaim && !opts.fleet_sim
}

/// Who touches guest RAM.
#[derive(Clone, Copy, PartialEq, Eq, Structural, Debug)]
pub enum DirtiedBy {
    /// The host, as a control.
    Host,
    /// The guest, with loads only.
    GuestReads,
    /// The guest, with stores.
    GuestWrites,
}

pub open spec fn dirtied_by(o: Options) -> DirtiedBy {
    if o.host_touch {
        DirtiedBy::Host
    } else if o.guest_read {
        DirtiedBy::GuestReads
    } else {
        DirtiedBy::GuestWrites
    }
}

/// One step of a plain run.
#[derive(Clone, Copy, PartialEq, Eq, Structural, Debug)]
pub enum RunStep {
    /// Give guest RAM fresh memory.
    Reset,
    ReadBefore,
    Dirty { by: DirtiedBy },
    ReadDirtied,
    Reclaim,
    Rest { millis: u64 },
    ReadReclaimed,
    /// Print the cycle with its number, at length when it is the only one.
    Report { cycle: u64, single: bool },
    /// Print what all cycles gave back.
    Summary,
    /// Let the guest fault everything back in.
    Retouch,
    ParkedCheck,
    HammerCheck,
}

/// How long the ledger rests after a reclaim.
pub const RECLAIM_REST_MILLIS: u64 = 200;

/// The steps of cycle `n`, counted from one.
pub open spec fn cycle_of(o: Options, n: u64) -> Seq<RunStep> {
    (if n > 1 {
        seq![RunStep::Reset]
    } else {
        Seq::empty()
    }) + seq![
        RunStep::ReadBefore,
        RunStep::Dirty { by: dirtied_by(o) },
        RunStep::ReadDirtied,
        RunStep::Reclaim,
        RunStep::Rest { millis: RECLAIM_REST_MILLIS },
        RunStep::ReadReclaimed,
        RunStep::Report { cycle: n, single: o.repeat == 1 },
    ]
}

/// The steps of cycle `n`. Each cycle after the first starts on fresh memory:
/// reclaimed pages that are touched again stay in an accounting state where
/// neither the touch nor the next reclaim moves the ledger.
pub fn cycle(opts: &Options, n: u64) -> (r: Vec<RunStep>)
    ensures
        r@ == cycle_of(*opts, n),
{
    let by = if opts.host_touch {
        DirtiedBy::Host
    } else if opts.guest_read {
        DirtiedBy::GuestReads
    } else {
        DirtiedBy::GuestWrites
    };
    let mut steps: Vec<RunStep> = Vec::new();
    if n > 1 {
        steps.push(RunStep::Reset);
    }
    steps.push(RunStep::ReadBefore);
    steps.push(RunStep::Dirty { by });
    steps.push(RunStep::ReadDirtied);
    steps.push(RunStep::Reclaim);
    steps.push(RunStep::Rest { millis: RECLAIM_REST_MILLIS });
    steps.push(RunStep::ReadReclaimed);
    steps.push(RunStep::Report { cycle: n, single: opts.repeat == 1 });
    assert(steps@ =~= cycle_of(*opts, n));
    steps
}

/// The steps after the last cycle.
pub open spec fn tail_of(o: Options) -> Seq<RunStep> {
    (if o.repeat > 1 {
        seq![RunStep::Summary]
    } else {
        Seq::empty()
    }) + (if !o.host_touch && o.repeat == 1 {
        seq![RunStep::Retouch] + (if o.pressure_check {
            seq![RunStep::ParkedCheck]
        } else {
            Seq::empty()
        }) + (if o.hammer {
            seq![RunStep::HammerCheck]
        } else {
            Seq::empty()
        })
    } else {
        Seq::empty()
    })
}

/// The steps after the last cycle.
pub fn tail(opts: &Options) -> (r: Vec<RunStep>)
    ensures
        r@ == tail_of(*opts),
{
    let mut steps: Vec<RunStep> = Vec::new();
    if opts.repeat > 1 {
        steps.push(RunStep::Summary);
    }
    if !opts.host_touch && opts.repeat == 1 {
        steps.push(RunStep::Retouch);
        if opts.pressure_check {
            steps.push(RunStep::ParkedCheck);
        }
        if opts.hammer {
            steps.push(RunStep::HammerCheck);
        }
    }
    assert(steps@ =~= tail_of(*opts));
    steps
}

/// The cycles from `n` on.
pub open spec fn all_cycles(o: Options, n: int) -> Seq<RunStep>
    decreases o.repeat - n + 1,
{
    if 1 <= n <= o.repeat {
        cycle_of(o, n as u64) + all_cycles(o, n + 1)
    } else {
        Seq::empty()
    }
}

/// The whole run: its cycles, and what follows them.
pub open spec fn whole_run(o: Options) -> Seq<RunStep> {
    all_cycles(o, 1) + tail_of(o)
}

/// A plain run under way.
pub struct PlainRun {
    opts: Options,
    /// The cycle that is under way or was last.
    cycle: u64,
    /// Whether the cycles are over.
    tailed: bool,
    steps: Vec<RunStep>,
    next: usize,
}

impl PlainRun {
    /// The steps still to come.
    pub closed spec fn remaining(self) -> Seq<RunStep> {
        self.steps@.skip(self.next as int) + if self.tailed {
            Seq::empty()
        } else {
            all_cycles(self.opts, self.cycle + 1) + tail_of(self.opts)
        }
    }

    pub closed spec fn wf(self) -> bool {
        &&& self.next <= self.steps@.len()
        &&& self.cycle <= self.opts.repeat
    }

    /// A run about to start.
    pub fn new(opts: &Options) -> (r: PlainRun)
        ensures
            r.wf(),
            r.remaining() == whole_run(*opts),
    {
        let r = PlainRun { opts: *opts, cycle: 0, tailed: false, steps: Vec::new(), next: 0 };
        assert(r.remaining() =~= whole_run(*opts));
        r
    }

    /// The next step, if any is left.
    pub fn advance(&mut self) -> (r: Option<RunStep>)
        requires
            old(self).wf(),
        ensures
            final(self).wf(),
            match r {
                Some(step) => old(self).remaining().len() > 0 && step == old(self).remaining()[0]
                    && final(self).remaining() == old(self).remaining().drop_first(),
                None => old(self).remaining().len() == 0 && final(self).remaining() == old(
                    self,
                ).remaining(),
            },
    {
        if self.next == self.steps.len() && !self.tailed {
            self.next = 0;
            if self.cycle < self.opts.repeat {
                self.cycle = self.cycle + 1;
                self.steps = cycle(&self.opts, self.cycle);
            } else {
                self.tailed = true;
                self.steps = tail(&self.opts);
            }
        }
        assert(self.remaining() =~= old(self).remaining());
        if self.next == self.steps.len() {
            return None;
        }
        let step = self.steps[self.next];
        self.next = self.next + 1;
        assert(self.remaining() =~= old(self).remaining().drop_first());
        Some(step)
    }
}

/// How many of the steps give guest RAM fresh memory.
pub open spec fn resets_in(steps: Seq<RunStep>) -> nat
    decreases steps.len(),
{
    if steps.len() == 0 {
        0
    } else {
        resets_in(steps.drop_last()) + if steps.last() == RunStep::Reset {
            1nat
        } else {
            0nat
        }
    }
}

/// The cycles that the steps report, by their numbers.
pub open spec fn reported_in(steps: Seq<RunStep>) -> Seq<u64>
    decreases steps.len(),
{
    if steps.len() == 0 {
        Seq::empty()
    } else {
        match steps.last() {
            RunStep::Report { cycle, single: _ } => reported_in(steps.drop_last()).push(cycle),
            _ => reported_in(steps.drop_last()),
        }
    }
}

proof fn lemma_counts_add(a: Seq<RunStep>, b: Seq<RunStep>)
    ensures
        resets_in(a + b) == resets_in(a) + resets_in(b),
        reported_in(a + b) == reported_in(a) + reported_in(b),
    decreases b.len(),
{
    if b.len() == 0 {
        assert(a + b =~= a);
        assert(reported_in(a) + reported_in(b) =~= reported_in(a));
    } else {
        lemma_counts_add(a, b.drop_last());
        assert((a + b).drop_last() =~= a + b.drop_last());
        assert(reported_in(a + b) =~= reported_in(a) + reported_in(b));
    }
}

proof fn lemma_counts_of_others(steps: Seq<RunStep>)
    ensures
        (forall|i: int| 0 <= i < steps.len() ==> #[trigger] steps[i] != RunStep::Reset)
            ==> resets_in(steps) == 0,
        (forall|i: int| 0 <= i < steps.len() ==> !(#[trigger] steps[i] is Report))
            ==> reported_in(steps) == Seq::<u64>::empty(),
    decreases steps.len(),
{
    if steps.len() > 0 {
        let before = steps.drop_last();
        lemma_counts_of_others(before);
        assert(forall|i: int| 0 <= i < before.len() ==> before[i] == #[trigger] steps[i]);
        assert(steps.last() == steps[steps.len() - 1]);
    }
}

/// The numbers from `n` up to and with `last`.
pub open spec fn numbers(n: int, last: int) -> Seq<u64> {
    Seq::new((last - n + 1) as nat, |i: int| (n + i) as u64)
}

proof fn lemma_counts_of_cycles(o: Options, n: int)
    requires
        1 <= n <= o.repeat + 1,
    ensures
        reported_in(all_cycles(o, n)) == numbers(n, o.repeat as int),
        resets_in(all_cycles(o, n)) == o.repeat - n + 1 - if n == 1 && o.repeat >= 1 {
            1int
        } else {
            0int
        },
    decreases o.repeat - n + 1,
{
    if n <= o.repeat {
        let c = cycle_of(o, n as u64);
        let head = c.take(1);
        lemma_counts_of_cycles(o, n + 1);
        lemma_counts_add(c, all_cycles(o, n + 1));
        lemma_counts_of_others(c.drop_last());
        assert(c == head + c.skip(1));
        lemma_counts_add(head, c.skip(1));
        lemma_counts_of_others(c.skip(1));
        assert(head.drop_last() =~= Seq::<RunStep>::empty());
        reveal_with_fuel(resets_in, 2);
        assert(resets_in(head) == if n > 1 {
            1nat
        } else {
            0nat
        });
        assert(reported_in(c) =~= seq![n as u64]);
        assert(seq![n as u64] + numbers(n + 1, o.repeat as int) =~= numbers(n, o.repeat as int));
    } else {
        assert(reported_in(all_cycles(o, n)) =~= numbers(n, o.repeat as int));
    }
}

/// One operation of giving guest RAM fresh memory.
#[derive(Clone, Copy, PartialEq, Eq, Structural, Debug)]
pub enum ResetOp {
    /// Take guest RAM out of stage 2.
    Stage2Unmap { gpa: u64, len: u64 },
    /// Give the host mapping back.
    Munmap { len: u64 },
    /// Make another host mapping, wherever there is room.
    MmapFresh { len: u64 },
    /// Map it in stage 2.
    Stage2Map { gpa: u64, len: u64 },
}

pub open spec fn reset_ops_of(ram_size: u64) -> Seq<ResetOp> {
    seq![
        ResetOp::Stage2Unmap { gpa: RAM_GPA, len: ram_size },
        ResetOp::Munmap { len: ram_size },
        ResetOp::MmapFresh { len: ram_size },
        ResetOp::Stage2Map { gpa: RAM_GPA, len: ram_size },
    ]
}

/// The operations that give guest RAM of `ram_size` bytes fresh memory.
pub fn reset_ops(ram_size: u64) -> (r: Vec<ResetOp>)
    ensures
        r@ == reset_ops_of(ram_size),
{
    let mut r: Vec<ResetOp> = Vec::new();
    r.push(ResetOp::Stage2Unmap { gpa: RAM_GPA, len: ram_size });
    r.push(ResetOp::Munmap { len: ram_size });
    r.push(ResetOp::MmapFresh { len: ram_size });
    r.push(ResetOp::Stage2Map { gpa: RAM_GPA, len: ram_size });
    assert(r@ =~= reset_ops_of(ram_size));
    r
}

/// The host mappings of guest RAM, numbered as they are made.
#[verifier::ext_equal]
pub struct Mappings {
    /// Those that were not given back, each with its length.
    pub live: Map<int, u64>,
    /// The last one made.
    pub current: int,
    /// Which is mapped in stage 2, where, and how long.
    pub stage2: Option<(int, u64, u64)>,
}

impl Mappings {
    /// The mappings after an operation of a reset.
    pub open spec fn after(self, op: ResetOp) -> Mappings {
        match op {
            ResetOp::Stage2Unmap { gpa: _, len: _ } => Mappings { stage2: None, ..self },
            ResetOp::Munmap { len: _ } => Mappings { live: self.live.remove(self.current), ..self },
            ResetOp::MmapFresh { len } => Mappings {
                live: self.live.insert(self.current + 1, len),
                current: self.current + 1,
                ..self
            },
            ResetOp::Stage2Map { gpa, len } => Mappings {
                stage2: Some((self.current, gpa, len)),
                ..self
            },
        }
    }

    pub open spec fn after_all(self, ops: Seq<ResetOp>) -> Mappings
        decreases ops.len(),
    {
        if ops.len() == 0 {
            self
        } else {
            self.after_all(ops.drop_last()).after(ops.last())
        }
    }

    /// The mappings after `n` resets.
    pub open spec fn after_resets(self, n: nat, ram_size: u64) -> Mappings
        decreases n,
    {
        if n == 0 {
            self
        } else {
            self.after_resets((n - 1) as nat, ram_size).after_all(reset_ops_of(ram_size))
        }
    }

    /// One mapping is there, and it is guest RAM.
    pub open spec fn sound(self, ram_size: u64) -> bool {
        &&& self.live == map![self.current => ram_size]
        &&& self.stage2 == Some((self.current, RAM_GPA, ram_size))
    }
}

/// Every reset replaces the mapping of guest RAM by the next one, which is
/// mapped in stage 2, and the one it replaces has been given back: however
/// many there were, one mapping is left.
pub proof fn law_resets_leave_one_mapping(m: Mappings, n: nat, ram_size: u64)
    requires
        m.sound(ram_size),
    ensures
        m.after_resets(n, ram_size).sound(ram_size),
        m.after_resets(n, ram_size).current == m.current + n,
    decreases n,
{
    if n > 0 {
        law_resets_leave_one_mapping(m, (n - 1) as nat, ram_size);
        let b = m.after_resets((n - 1) as nat, ram_size);
        let ops = reset_ops_of(ram_size);
        let o3 = ops.drop_last();
        let o2 = o3.drop_last();
        let o1 = o2.drop_last();
        assert(o1.drop_last() =~= Seq::<ResetOp>::empty());
        reveal_with_fuel(Mappings::after_all, 5);
        assert(b.after_all(ops) == b.after(ops[0]).after(ops[1]).after(ops[2]).after(ops[3]));
        assert(b.after_all(ops).live =~= map![b.current + 1 => ram_size]);
    }
}

/// A plain run reports every cycle once and in order. It replaces the mapping of
/// guest RAM before each but the first; in the end one mapping is there, mapped
/// in stage 2, and every one that was replaced has been given back.
pub proof fn law_every_cycle_is_reported_once(o: Options, m: Mappings, ram_size: u64)
    requires
        m.sound(ram_size),
    ensures
        reported_in(whole_run(o)) == numbers(1, o.repeat as int),
        resets_in(whole_run(o)) == if o.repeat <= 1 {
            0
        } else {
            o.repeat - 1
        },
        ({
            let end = m.after_resets(resets_in(whole_run(o)), ram_size);
            &&& end.sound(ram_size)
            &&& end.current == m.current + resets_in(whole_run(o))
            &&& o.repeat <= 1 ==> end == m
        }),
{
    lemma_counts_of_cycles(o, 1);
    lemma_counts_add(all_cycles(o, 1), tail_of(o));
    lemma_counts_of_others(tail_of(o));
    assert(reported_in(whole_run(o)) =~= numbers(1, o.repeat as int));
    law_resets_leave_one_mapping(m, resets_in(whole_run(o)), ram_size);
}

/// A probe runs only on memory that was reclaimed and that the guest has
/// taken back: the step before the first probe is the re-touch.
pub proof fn law_probes_follow_the_retouch(o: Options, i: int)
    requires
        0 <= i < tail_of(o).len(),
        tail_of(o)[i] == RunStep::ParkedCheck || tail_of(o)[i] == RunStep::HammerCheck,
    ensures
        tail_of(o)[0] == RunStep::Retouch,
        o.repeat == 1 && !o.host_touch,
{
}

/// Every cycle measures its reclaim alone: the ledger is read right before
/// the reclaim, and again after it with only the rest between.
pub proof fn law_reclaim_is_measured_alone(o: Options, n: u64)
    ensures
        exists|i: int|
            #![trigger cycle_of(o, n)[i]]
            0 < i < cycle_of(o, n).len() - 2 && cycle_of(o, n)[i] == RunStep::Reclaim && cycle_of(
                o,
                n,
            )[i - 1] == RunStep::ReadDirtied && cycle_of(o, n)[i + 1] is Rest && cycle_of(o, n)[i
                + 2] == RunStep::ReadReclaimed,
        n > 1 ==> cycle_of(o, n)[0] == RunStep::Reset,
{
    let i: int = if n > 1 {
        4
    } else {
        3
    };
    assert(cycle_of(o, n)[i] == RunStep::Reclaim);
}

/// In every cycle the pages are dirtied once, by whom the switches say: by the
/// host exactly if `--host-touch` is on, whatever else is; else by guest loads
/// exactly if `--guest-read` is on, and by guest stores otherwise.
pub proof fn law_pages_are_dirtied_by_whom_was_asked(o: Options, n: u64, i: int)
    requires
        0 <= i < cycle_of(o, n).len(),
    ensures
        cycle_of(o, n)[i] matches RunStep::Dirty { by } ==> {
            &&& by == DirtiedBy::Host <==> o.host_touch
            &&& by == DirtiedBy::GuestReads <==> o.guest_read && !o.host_touch
            &&& by == DirtiedBy::GuestWrites <==> !o.guest_read && !o.host_touch
            &&& forall|j: int|
                0 <= j < cycle_of(o, n).len() && #[trigger] cycle_of(o, n)[j] is Dirty ==> j == i
        },
{
}

/// Every cycle has one reclaim. Before it the ledger is read, the pages are
/// dirtied and the ledger is read again; after it comes the rest, a last
/// reading and the report under the cycle's own number, at length exactly if it
/// is the only cycle. Fresh memory comes first in every cycle but the first.
pub proof fn law_cycles_dirty_reclaim_and_report(o: Options, n: u64, i: int)
    requires
        0 <= i < cycle_of(o, n).len(),
        cycle_of(o, n)[i] == RunStep::Reclaim,
    ensures
        ({
            let c = cycle_of(o, n);
            &&& i >= 3 && c.len() == i + 4
            &&& c[i - 3] == RunStep::ReadBefore
            &&& c[i - 2] is Dirty
            &&& c[i - 1] == RunStep::ReadDirtied
            &&& c[i + 1] == (RunStep::Rest { millis: 200 })
            &&& c[i + 2] == RunStep::ReadReclaimed
            &&& c[i + 3] matches RunStep::Report { cycle, single } && cycle == n && (single
                <==> o.repeat == 1)
            &&& i == 4 <==> n > 1
            &&& i == 4 ==> c[0] == RunStep::Reset
            &&& i == 3 || i == 4
        }),
{
}

/// What follows the cycles: a summary exactly if there were several; and where
/// there was one that the guest dirtied, the re-touch and then the probes that
/// were asked for, each once.
pub proof fn law_the_tail_is_what_was_asked_for(o: Options, i: int, j: int)
    requires
        0 <= i < tail_of(o).len(),
        0 <= j < tail_of(o).len(),
    ensures
        tail_of(o)[i] == tail_of(o)[j] ==> i == j,
        tail_of(o)[i] == RunStep::ParkedCheck && tail_of(o)[j] == RunStep::HammerCheck ==> i < j,
        tail_of(o)[i] == RunStep::Summary || tail_of(o)[i] == RunStep::Retouch || tail_of(o)[i]
            == RunStep::ParkedCheck || tail_of(o)[i] == RunStep::HammerCheck,
{
}

/// Which steps follow the cycles.
pub proof fn law_the_tail_holds_what_was_asked_for(o: Options)
    ensures
        tail_of(o).contains(RunStep::Summary) <==> o.repeat > 1,
        tail_of(o).contains(RunStep::Retouch) <==> o.repeat == 1 && !o.host_touch,
        tail_of(o).contains(RunStep::ParkedCheck) <==> o.repeat == 1 && !o.host_touch
            && o.pressure_check,
        tail_of(o).contains(RunStep::HammerCheck) <==> o.repeat == 1 && !o.host_touch && o.hammer,
{
    let t = tail_of(o);
    if o.repeat > 1 {
        assert(t[0] == RunStep::Summary);
    }
    if o.repeat == 1 && !o.host_touch {
        assert(t[0] == RunStep::Retouch);
        if o.pressure_check {
            assert(t[1] == RunStep::ParkedCheck);
            if o.hammer {
                assert(t[2] == RunStep::HammerCheck);
            }
        } else if o.hammer {
            assert(t[1] == RunStep::HammerCheck);
        }
    }
}

/// The mode is the one whose switch is on, and plain where none is; only the
/// modes that print tables for machines have no banner. Accepted options never
/// have two of the switches on.
pub proof fn law_the_mode_is_the_one_switched_on(o: Options)
    requires
        separate_modes(o) <= 1,
    ensures
        mode_of(o) == Mode::Soak <==> o.soak,
        mode_of(o) == Mode::TimeReclaim <==> o.time_reclaim,
        mode_of(o) == Mode::FleetSim <==> o.fleet_sim,
        mode_of(o) == Mode::Plain <==> separate_modes(o) == 0,
        shows_banner(o) <==> mode_of(o) == Mode::Plain || mode_of(o) == Mode::Soak,
{
}

/// At no point of a reset does the guest reach a mapping that was given back:
/// guest RAM leaves stage 2 before its memory goes, and comes back once there is
/// new memory.
pub proof fn law_resets_never_leave_the_guest_on_lost_memory(m: Mappings, ram_size: u64, k: int)
    requires
        m.sound(ram_size),
        0 <= k <= reset_ops_of(ram_size).len(),
    ensures
        ({
            let now = m.after_all(reset_ops_of(ram_size).take(k));
            now.stage2 matches Some(mapped) ==> now.live.dom().contains(mapped.0)
                && now.live[mapped.0] == mapped.2
        }),
{
    let ops = reset_ops_of(ram_size);
    reveal_with_fuel(Mappings::after_all, 5);
    assert(ops.take(0) =~= Seq::<ResetOp>::empty());
    assert(ops.take(1).drop_last() =~= ops.take(0));
    assert(ops.take(2).drop_last() =~= ops.take(1));
    assert(ops.take(3).drop_last() =~= ops.take(2));
    assert(ops.take(4).drop_last() =~= ops.take(3));
    if k >= 1 {
        assert(ops.take(k).last() == ops[k - 1]);
    }
}

}
