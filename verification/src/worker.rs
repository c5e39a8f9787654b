//! One vCPU of the soak: what it does next, and what it keeps count of.

use crate::guest::{fill_drive, sweep_drive, verify_drive, with_programs, Reply, RAM_GPA};
use crate::ledger::PAGE;
use crate::machine::Cpu;
use crate::programs::{
    filled, in_range, incremented, law_clean_means_every_page_matches,
    law_filled_range_verifies_clean, law_one_corrupt_page_counts_once, lemma_same_mismatches,
    mismatches, visits,
};
use crate::session::{
    ended, final_cpu, law_fill_range_ends, law_sweep_range_ends,
    law_verify_range_returns_the_mismatches,
};
use crate::soak::{law_halves_are_disjoint, SoakPlan, DAMAGE, HOT_SWEEPS_PER_CYCLE, REST_MILLIS};
use vstd::prelude::*;

verus! {

/// What a worker has counted.
#[derive(Clone, Copy, PartialEq, Eq, Structural, Debug)]
pub struct Stats {
    pub sweeps: u64,
    pub page_checks: u64,
    pub mismatches: u64,
    pub reclaims: u64,
}

impl Stats {
    pub open spec fn none() -> Stats {
        Stats { sweeps: 0, page_checks: 0, mismatches: 0, reclaims: 0 }
    }

    pub open spec fn swept(self) -> Stats {
        Stats { sweeps: self.sweeps.wrapping_add(1), ..self }
    }

    pub open spec fn checked(self, pages: u64, bad: u64) -> Stats {
        Stats {
            page_checks: self.page_checks.wrapping_add(pages),
            mismatches: self.mismatches.wrapping_add(bad),
            ..self
        }
    }

    pub open spec fn reclaimed(self) -> Stats {
        Stats { reclaims: self.reclaims.wrapping_add(1), ..self }
    }

    pub open spec fn plus(self, other: Stats) -> Stats {
        Stats {
            sweeps: self.sweeps.wrapping_add(other.sweeps),
            page_checks: self.page_checks.wrapping_add(other.page_checks),
            mismatches: self.mismatches.wrapping_add(other.mismatches),
            reclaims: self.reclaims.wrapping_add(other.reclaims),
        }
    }
}

/// The counts of all workers together.
pub open spec fn summed(all: Seq<Stats>) -> Stats
    decreases all.len(),
{
    if all.len() == 0 {
        Stats::none()
    } else {
        summed(all.drop_last()).plus(all.last())
    }
}

/// Adds the counts of all workers up.
pub fn total(all: &Vec<Stats>) -> (r: Stats)
    ensures
        r == summed(all@),
{
    let mut r = Stats { sweeps: 0, page_checks: 0, mismatches: 0, reclaims: 0 };
    let n: usize = all.len();
    let mut i: usize = 0;
    assert(all@.take(0) =~= Seq::<Stats>::empty());
    while i < n
        invariant
            n == all@.len(),
            i <= n,
            r == summed(all@.take(i as int)),
        decreases n - i,
    {
        let s = all[i];
        assert(all@.take(i + 1).drop_last() =~= all@.take(i as int));
        r = Stats {
            sweeps: r.sweeps.wrapping_add(s.sweeps),
            page_checks: r.page_checks.wrapping_add(s.page_checks),
            mismatches: r.mismatches.wrapping_add(s.mismatches),
            reclaims: r.reclaims.wrapping_add(s.reclaims),
        };
        i = i + 1;
    }
    assert(all@.take(n as int) =~= all@);
    r
}

/// What is known of the detector self-test, which the first worker runs.
#[derive(Clone, Copy, PartialEq, Eq, Structural, Debug)]
pub enum SelfTest {
    NotRun,
    Passed,
    Failed,
}

/// How a soak ended.
#[derive(Clone, Copy, PartialEq, Eq, Structural, Debug)]
pub enum SoakOutcome {
    /// No check failed; the bound on the defect rate is three over `checks`.
    Clean { checks: u64 },
    Corrupt { bad: u64 },
    /// The detector was not seen to find planted damage: the soak proves
    /// nothing, whatever was counted.
    Unproven { bad: u64 },
}

/// What the counts of a soak amount to. A soak that cannot see planted damage
/// proves nothing; one that can is judged by its counts.
pub open spec fn judged(stats: Stats, test: SelfTest) -> SoakOutcome {
    if test != SelfTest::Passed {
        SoakOutcome::Unproven { bad: stats.mismatches }
    } else if stats.mismatches == 0 {
        SoakOutcome::Clean { checks: stats.page_checks }
    } else {
        SoakOutcome::Corrupt { bad: stats.mismatches }
    }
}

/// Judges the counts of a finished soak, with what came of the detector
/// self-test.
pub fn outcome(stats: &Stats, test: SelfTest) -> (r: SoakOutcome)
    ensures
        r == judged(*stats, test),
{
    if test != SelfTest::Passed {
        SoakOutcome::Unproven { bad: stats.mismatches }
    } else if stats.mismatches == 0 {
        SoakOutcome::Clean { checks: stats.page_checks }
    } else {
        SoakOutcome::Corrupt { bad: stats.mismatches }
    }
}

/// The mismatches of all workers, in a sum that does not wrap.
pub open spec fn mismatches_in(all: Seq<Stats>) -> int
    decreases all.len(),
{
    if all.len() == 0 {
        0
    } else {
        mismatches_in(all.drop_last()) + all.last().mismatches
    }
}

/// The page checks of all workers, in a sum that does not wrap.
pub open spec fn checks_in(all: Seq<Stats>) -> int
    decreases all.len(),
{
    if all.len() == 0 {
        0
    } else {
        checks_in(all.drop_last()) + all.last().page_checks
    }
}

/// The sweeps of all workers, in a sum that does not wrap.
pub open spec fn sweeps_in(all: Seq<Stats>) -> int
    decreases all.len(),
{
    if all.len() == 0 {
        0
    } else {
        sweeps_in(all.drop_last()) + all.last().sweeps
    }
}

/// The reclaims of all workers, in a sum that does not wrap.
pub open spec fn reclaims_in(all: Seq<Stats>) -> int
    decreases all.len(),
{
    if all.len() == 0 {
        0
    } else {
        reclaims_in(all.drop_last()) + all.last().reclaims
    }
}

/// The totals are the sums of what the workers counted, as long as those have
/// 64-bit numbers: no mismatch of any worker is lost on the way, and where no
/// worker has one there is none.
pub proof fn law_totals_follow_the_workers(all: Seq<Stats>)
    ensures
        mismatches_in(all) <= u64::MAX ==> summed(all).mismatches == mismatches_in(all),
        checks_in(all) <= u64::MAX ==> summed(all).page_checks == checks_in(all),
        sweeps_in(all) <= u64::MAX ==> summed(all).sweeps == sweeps_in(all),
        reclaims_in(all) <= u64::MAX ==> summed(all).reclaims == reclaims_in(all),
        (forall|i: int| 0 <= i < all.len() ==> #[trigger] all[i].mismatches == 0)
            ==> mismatches_in(all) == 0 && summed(all).mismatches == 0,
        (exists|i: int| 0 <= i < all.len() && #[trigger] all[i].mismatches != 0)
            ==> mismatches_in(all) > 0,
        0 <= mismatches_in(all),
        0 <= checks_in(all),
        0 <= sweeps_in(all),
        0 <= reclaims_in(all),
    decreases all.len(),
{
    if all.len() > 0 {
        let before = all.drop_last();
        law_totals_follow_the_workers(before);
        assert(forall|i: int| 0 <= i < before.len() ==> before[i] == all[i]);
        assert(all.last() == all[all.len() - 1]);
        if exists|i: int| 0 <= i < all.len() && #[trigger] all[i].mismatches != 0 {
            let i = choose|i: int| 0 <= i < all.len() && #[trigger] all[i].mismatches != 0;
            if i < before.len() {
                assert(before[i].mismatches != 0);
            }
        }
        if forall|i: int| 0 <= i < all.len() ==> #[trigger] all[i].mismatches == 0 {
            assert forall|i: int| 0 <= i < before.len() implies #[trigger] before[i].mismatches
                == 0 by {
                assert(all[i].mismatches == 0);
            }
        }
    }
}

/// What a soak is judged to be: nothing proven exactly where the self-test did
/// not pass; else clean where no worker has a mismatch, and corrupt where one
/// has, as long as the mismatches have a 64-bit number.
pub proof fn law_outcome_follows_the_workers(all: Seq<Stats>, test: SelfTest)
    ensures
        judged(summed(all), test) is Unproven <==> test != SelfTest::Passed,
        test == SelfTest::Passed && (forall|i: int|
            0 <= i < all.len() ==> #[trigger] all[i].mismatches == 0) ==> judged(summed(all), test)
            == (SoakOutcome::Clean { checks: summed(all).page_checks }),
        test == SelfTest::Passed && mismatches_in(all) <= u64::MAX && (exists|i: int|
            0 <= i < all.len() && #[trigger] all[i].mismatches != 0) ==> judged(summed(all), test)
            == (SoakOutcome::Corrupt { bad: mismatches_in(all) as u64 }),
{
    law_totals_follow_the_workers(all);
}

/// The workers that may start now, as a range of their numbers: the first
/// alone at the start, the others once the self-test has passed, and none
/// where it failed.
pub open spec fn may_start(vcpus: u64, test: SelfTest) -> (u64, u64) {
    match test {
        SelfTest::NotRun => (0, 1),
        SelfTest::Passed => (1, vcpus),
        SelfTest::Failed => (0, 0),
    }
}

/// The workers to start: those from the first number up to the second.
pub fn to_start(plan: &SoakPlan, test: SelfTest) -> (r: (u64, u64))
    ensures
        r == may_start(plan.vcpus, test),
{
    match test {
        SelfTest::NotRun => (0, 1),
        SelfTest::Passed => (1, plan.vcpus),
        SelfTest::Failed => (0, 0),
    }
}

/// No worker but the one that runs the self-test starts before it has passed,
/// and every worker starts once over a soak whose self-test passes.
pub proof fn law_the_self_test_comes_first(vcpus: u64, k: u64)
    requires
        k < vcpus,
    ensures
        ({
            let (first, end) = may_start(vcpus, SelfTest::NotRun);
            let (next, last) = may_start(vcpus, SelfTest::Passed);
            let (none, at_all) = may_start(vcpus, SelfTest::Failed);
            &&& first <= k < end <==> k == 0
            &&& next <= k < last <==> k != 0
            &&& !(none <= k < at_all)
        }),
{
}

/// Where a worker stands.
#[derive(Clone, Copy, PartialEq, Eq, Structural, Debug)]
pub enum WorkerPhase {
    /// The first sweep of the hot half.
    Establish,
    /// The detector self-test: read the victim's word,
    TestPeek,
    /// damage it,
    TestDamage { saved: u64 },
    /// have the guest look,
    TestLook { saved: u64 },
    /// put it back,
    TestRestore { saved: u64, found: u64 },
    /// have the guest look again,
    TestLookAgain,
    /// and say that it passed.
    TestReport,
    AskTime,
    HotSweep { round: u64 },
    HotVerify { round: u64 },
    ColdSweep,
    ColdReclaim,
    ColdFill,
    ColdVerify,
    ColdRest,
    ColdReverify,
    Finished,
}

/// What a worker asks for. Ranges are offsets into guest RAM.
#[derive(Clone, Copy, PartialEq, Eq, Structural, Debug)]
pub enum WorkerAction {
    /// One increment sweep in the guest.
    Sweep { from: u64, to: u64 },
    /// Count the pages that do not hold `expected`, in the guest.
    Verify { from: u64, to: u64, expected: u64 },
    /// Stamp `value` over the range, in the guest.
    Fill { from: u64, to: u64, value: u64 },
    /// Reclaim the range on the host.
    Reclaim { from: u64, to: u64 },
    /// Read the word at `off` through the host mapping.
    Peek { off: u64 },
    /// Write the word at `off` through the host mapping.
    Poke { off: u64, value: u64 },
    /// Whether the deadline has passed.
    AskTime,
    Rest { millis: u64 },
    ReportSelfTest,
    Finished,
}

/// What came of an action.
#[derive(Clone, Copy, PartialEq, Eq, Structural, Debug)]
pub enum WorkerReply {
    Done,
    Count { bad: u64 },
    Word { value: u64 },
    Time { expired: bool },
}

/// Why a worker stops early.
#[derive(Clone, Copy, PartialEq, Eq, Structural, Debug)]
pub enum WorkerFault {
    /// One page was damaged and the detector reported `found`.
    DetectorMissed { found: u64 },
    /// The detector reported mismatches on clean memory.
    DetectorNoisy { clean: u64 },
    /// The reply does not fit the action.
    OutOfTurn,
}

/// One vCPU of the soak.
#[derive(Clone, Copy, PartialEq, Eq, Structural, Debug)]
pub struct Worker {
    pub k: u64,
    /// Where the worker's slot starts.
    pub base: u64,
    pub half: u64,
    /// Sweeps of the hot half so far: what its words must hold.
    pub hot_sweeps: u64,
    /// Reclaim cycles of the cold half so far.
    pub cycle: u64,
    pub phase: WorkerPhase,
    pub stats: Stats,
}

/// The stamp of worker `k` in its reclaim cycle `cycle`.
pub open spec fn stamp_of(k: u64, cycle: u64) -> u64 {
    (k << 32) | cycle
}

impl Worker {
    /// The slot has addresses, and room for the victim of the self-test.
    pub open spec fn wf(self) -> bool {
        &&& self.base + 2 * self.half <= u64::MAX
        &&& self.half >= 2 * PAGE
    }

    pub open spec fn hot_end(self) -> u64 {
        (self.base + self.half) as u64
    }

    pub open spec fn cold_end(self) -> u64 {
        (self.base + 2 * self.half) as u64
    }

    /// Not the first page, to catch a detector that starts one page late.
    pub open spec fn victim(self) -> u64 {
        (self.base + PAGE) as u64
    }

    pub open spec fn stamp(self) -> u64 {
        stamp_of(self.k, self.cycle)
    }

    /// What the worker asks for.
    pub open spec fn asks(self) -> WorkerAction {
        match self.phase {
            WorkerPhase::Establish | WorkerPhase::HotSweep { round: _ } => WorkerAction::Sweep {
                from: self.base,
                to: self.hot_end(),
            },
            WorkerPhase::TestPeek => WorkerAction::Peek { off: self.victim() },
            WorkerPhase::TestDamage { saved } => WorkerAction::Poke {
                off: self.victim(),
                value: saved ^ DAMAGE,
            },
            WorkerPhase::TestRestore { saved, found: _ } => WorkerAction::Poke {
                off: self.victim(),
                value: saved,
            },
            WorkerPhase::TestLook { saved: _ }
            | WorkerPhase::TestLookAgain
            | WorkerPhase::HotVerify { round: _ } => WorkerAction::Verify {
                from: self.base,
                to: self.hot_end(),
                expected: self.hot_sweeps,
            },
            WorkerPhase::TestReport => WorkerAction::ReportSelfTest,
            WorkerPhase::AskTime => WorkerAction::AskTime,
            WorkerPhase::ColdSweep => WorkerAction::Sweep {
                from: self.hot_end(),
                to: self.cold_end(),
            },
            WorkerPhase::ColdReclaim => WorkerAction::Reclaim {
                from: self.hot_end(),
                to: self.cold_end(),
            },
            WorkerPhase::ColdFill => WorkerAction::Fill {
                from: self.hot_end(),
                to: self.cold_end(),
                value: self.stamp(),
            },
            WorkerPhase::ColdVerify | WorkerPhase::ColdReverify => WorkerAction::Verify {
                from: self.hot_end(),
                to: self.cold_end(),
                expected: self.stamp(),
            },
            WorkerPhase::ColdRest => WorkerAction::Rest { millis: REST_MILLIS },
            WorkerPhase::Finished => WorkerAction::Finished,
        }
    }

    /// The worker in another phase.
    pub open spec fn at(self, phase: WorkerPhase) -> Worker {
        Worker { phase, ..self }
    }

    /// The worker after a verification that found `bad` pages.
    pub open spec fn with_check(self, bad: u64) -> Worker {
        Worker { stats: self.stats.checked(self.half / PAGE, bad), ..self }
    }

    /// The worker after a reply.
    pub open spec fn after(self, reply: WorkerReply) -> Result<Worker, WorkerFault> {
        match (self.phase, reply) {
            (WorkerPhase::Establish, WorkerReply::Done) => {
                let w = Worker { hot_sweeps: self.hot_sweeps.wrapping_add(1), ..self };
                if self.k == 0 {
                    Ok(w.at(WorkerPhase::TestPeek))
                } else {
                    Ok(w.at(WorkerPhase::AskTime))
                }
            },
            (WorkerPhase::TestPeek, WorkerReply::Word { value }) => Ok(
                self.at(WorkerPhase::TestDamage { saved: value }),
            ),
            (WorkerPhase::TestDamage { saved }, WorkerReply::Done) => Ok(
                self.at(WorkerPhase::TestLook { saved }),
            ),
            (WorkerPhase::TestLook { saved }, WorkerReply::Count { bad }) => Ok(
                self.at(WorkerPhase::TestRestore { saved, found: bad }),
            ),
            (WorkerPhase::TestRestore { saved: _, found }, WorkerReply::Done) => if found == 1 {
                Ok(self.at(WorkerPhase::TestLookAgain))
            } else {
                Err(WorkerFault::DetectorMissed { found })
            },
            (WorkerPhase::TestLookAgain, WorkerReply::Count { bad }) => if bad == 0 {
                Ok(self.at(WorkerPhase::TestReport))
            } else {
                Err(WorkerFault::DetectorNoisy { clean: bad })
            },
            (WorkerPhase::TestReport, WorkerReply::Done) => Ok(self.at(WorkerPhase::AskTime)),
            (WorkerPhase::AskTime, WorkerReply::Time { expired }) => if expired {
                Ok(self.at(WorkerPhase::Finished))
            } else {
                Ok(self.at(WorkerPhase::HotSweep { round: 0 }))
            },
            (WorkerPhase::HotSweep { round }, WorkerReply::Done) => Ok(
                Worker {
                    hot_sweeps: self.hot_sweeps.wrapping_add(1),
                    stats: self.stats.swept(),
                    ..self
                }.at(WorkerPhase::HotVerify { round }),
            ),
            (WorkerPhase::HotVerify { round }, WorkerReply::Count { bad }) => if round + 1
                < HOT_SWEEPS_PER_CYCLE {
                Ok(self.with_check(bad).at(WorkerPhase::HotSweep { round: (round + 1) as u64 }))
            } else {
                Ok(
                    Worker { cycle: self.cycle.wrapping_add(1), ..self.with_check(bad) }.at(
                        WorkerPhase::ColdSweep,
                    ),
                )
            },
            (WorkerPhase::ColdSweep, WorkerReply::Done) => Ok(
                Worker { stats: self.stats.swept(), ..self }.at(WorkerPhase::ColdReclaim),
            ),
            (WorkerPhase::ColdReclaim, WorkerReply::Done) => Ok(
                Worker { stats: self.stats.reclaimed(), ..self }.at(WorkerPhase::ColdFill),
            ),
            (WorkerPhase::ColdFill, WorkerReply::Done) => Ok(self.at(WorkerPhase::ColdVerify)),
            (WorkerPhase::ColdVerify, WorkerReply::Count { bad }) => Ok(
                self.with_check(bad).at(WorkerPhase::ColdRest),
            ),
            (WorkerPhase::ColdRest, WorkerReply::Done) => Ok(self.at(WorkerPhase::ColdReverify)),
            (WorkerPhase::ColdReverify, WorkerReply::Count { bad }) => Ok(
                self.with_check(bad).at(WorkerPhase::AskTime),
            ),
            _ => Err(WorkerFault::OutOfTurn),
        }
    }

    /// Worker `k` of a plan as it starts.
    pub open spec fn starting(plan: SoakPlan, k: u64) -> Worker {
        Worker {
            k,
            base: (k * plan.slot) as u64,
            half: plan.half,
            hot_sweeps: 0,
            cycle: 0,
            phase: WorkerPhase::Establish,
            stats: Stats::none(),
        }
    }

    /// Worker `k` of a plan, about to start.
    pub fn new(plan: &SoakPlan, k: u64) -> (r: Worker)
        requires
            k * plan.slot + 2 * plan.half <= u64::MAX,
            plan.half >= 2 * PAGE,
        ensures
            r.wf(),
            r == Worker::starting(*plan, k),
    {
        assert(0 <= k * plan.slot) by (nonlinear_arith)
            requires
                k >= 0,
                plan.slot >= 0,
        ;
        Worker {
            k,
            base: k * plan.slot,
            half: plan.half,
            hot_sweeps: 0,
            cycle: 0,
            phase: WorkerPhase::Establish,
            stats: Stats { sweeps: 0, page_checks: 0, mismatches: 0, reclaims: 0 },
        }
    }

    /// What to do next.
    pub fn action(&self) -> (r: WorkerAction)
        requires
            self.wf(),
        ensures
            r == self.asks(),
    {
        let hot_end: u64 = self.base + self.half;
        let cold_end: u64 = self.base + self.half + self.half;
        let victim: u64 = self.base + PAGE;
        let stamp: u64 = (self.k << 32) | self.cycle;
        match self.phase {
            WorkerPhase::Establish | WorkerPhase::HotSweep { round: _ } => WorkerAction::Sweep {
                from: self.base,
                to: hot_end,
            },
            WorkerPhase::TestPeek => WorkerAction::Peek { off: victim },
            WorkerPhase::TestDamage { saved } => WorkerAction::Poke {
                off: victim,
                value: saved ^ DAMAGE,
            },
            WorkerPhase::TestRestore { saved, found: _ } => WorkerAction::Poke {
                off: victim,
                value: saved,
            },
            WorkerPhase::TestLook { saved: _ }
            | WorkerPhase::TestLookAgain
            | WorkerPhase::HotVerify { round: _ } => WorkerAction::Verify {
                from: self.base,
                to: hot_end,
                expected: self.hot_sweeps,
            },
            WorkerPhase::TestReport => WorkerAction::ReportSelfTest,
            WorkerPhase::AskTime => WorkerAction::AskTime,
            WorkerPhase::ColdSweep => WorkerAction::Sweep { from: hot_end, to: cold_end },
            WorkerPhase::ColdReclaim => WorkerAction::Reclaim { from: hot_end, to: cold_end },
            WorkerPhase::ColdFill => WorkerAction::Fill { from: hot_end, to: cold_end, value: stamp },
            WorkerPhase::ColdVerify | WorkerPhase::ColdReverify => WorkerAction::Verify {
                from: hot_end,
                to: cold_end,
                expected: stamp,
            },
            WorkerPhase::ColdRest => WorkerAction::Rest { millis: REST_MILLIS },
            WorkerPhase::Finished => WorkerAction::Finished,
        }
    }

    fn book_check(&mut self, bad: u64)
        ensures
            *final(self) == old(self).with_check(bad),
    {
        self.stats.page_checks = self.stats.page_checks.wrapping_add(self.half / PAGE);
        self.stats.mismatches = self.stats.mismatches.wrapping_add(bad);
    }

    fn book_sweep(&mut self)
        ensures
            *final(self) == (Worker { stats: old(self).stats.swept(), ..*old(self) }),
    {
        self.stats.sweeps = self.stats.sweeps.wrapping_add(1);
    }

    /// Takes what came of the action that stands. On a fault the worker stays
    /// where it was.
    pub fn reply(&mut self, reply: WorkerReply) -> (r: Result<(), WorkerFault>)
        ensures
            match old(self).after(reply) {
                Ok(w) => r is Ok && *final(self) == w,
                Err(e) => r == Err::<(), WorkerFault>(e) && *final(self) == *old(self),
            },
    {
        match (self.phase, reply) {
            (WorkerPhase::Establish, WorkerReply::Done) => {
                self.hot_sweeps = self.hot_sweeps.wrapping_add(1);
                self.phase = if self.k == 0 {
                    WorkerPhase::TestPeek
                } else {
                    WorkerPhase::AskTime
                };
            },
            (WorkerPhase::TestPeek, WorkerReply::Word { value }) => {
                self.phase = WorkerPhase::TestDamage { saved: value };
            },
            (WorkerPhase::TestDamage { saved }, WorkerReply::Done) => {
                self.phase = WorkerPhase::TestLook { saved };
            },
            (WorkerPhase::TestLook { saved }, WorkerReply::Count { bad }) => {
                self.phase = WorkerPhase::TestRestore { saved, found: bad };
            },
            (WorkerPhase::TestRestore { saved: _, found }, WorkerReply::Done) => {
                if found != 1 {
                    return Err(WorkerFault::DetectorMissed { found });
                }
                self.phase = WorkerPhase::TestLookAgain;
            },
            (WorkerPhase::TestLookAgain, WorkerReply::Count { bad }) => {
                if bad != 0 {
                    return Err(WorkerFault::DetectorNoisy { clean: bad });
                }
                self.phase = WorkerPhase::TestReport;
            },
            (WorkerPhase::TestReport, WorkerReply::Done) => {
                self.phase = WorkerPhase::AskTime;
            },
            (WorkerPhase::AskTime, WorkerReply::Time { expired }) => {
                self.phase = if expired {
                    WorkerPhase::Finished
                } else {
                    WorkerPhase::HotSweep { round: 0 }
                };
            },
            (WorkerPhase::HotSweep { round }, WorkerReply::Done) => {
                self.hot_sweeps = self.hot_sweeps.wrapping_add(1);
                self.book_sweep();
                self.phase = WorkerPhase::HotVerify { round };
            },
            (WorkerPhase::HotVerify { round }, WorkerReply::Count { bad }) => {
                self.book_check(bad);
                if round < HOT_SWEEPS_PER_CYCLE - 1 {
                    self.phase = WorkerPhase::HotSweep { round: round + 1 };
                } else {
                    self.cycle = self.cycle.wrapping_add(1);
                    self.phase = WorkerPhase::ColdSweep;
                }
            },
            (WorkerPhase::ColdSweep, WorkerReply::Done) => {
                self.book_sweep();
                self.phase = WorkerPhase::ColdReclaim;
            },
            (WorkerPhase::ColdReclaim, WorkerReply::Done) => {
                self.stats.reclaims = self.stats.reclaims.wrapping_add(1);
                self.phase = WorkerPhase::ColdFill;
            },
            (WorkerPhase::ColdFill, WorkerReply::Done) => {
                self.phase = WorkerPhase::ColdVerify;
            },
            (WorkerPhase::ColdVerify, WorkerReply::Count { bad }) => {
                self.book_check(bad);
                self.phase = WorkerPhase::ColdRest;
            },
            (WorkerPhase::ColdRest, WorkerReply::Done) => {
                self.phase = WorkerPhase::ColdReverify;
            },
            (WorkerPhase::ColdReverify, WorkerReply::Count { bad }) => {
                self.book_check(bad);
                self.phase = WorkerPhase::AskTime;
            },
            _ => {
                return Err(WorkerFault::OutOfTurn);
            },
        }
        Ok(())
    }
}

/// Whether two memories agree on the worker's slot.
pub open spec fn agree(w: Worker, m: Map<int, int>, n: Map<int, int>) -> bool {
    forall|a: int|
        RAM_GPA + w.base <= a < RAM_GPA + w.base + 2 * w.half ==> #[trigger] n[a] == m[a]
}

/// Whether memory `m` may have become `n`, with the reply that came, on a
/// machine that keeps what the guest wrote: each action does to the worker's
/// slot what it says and nothing else does, except that a reclaimed range may
/// come back holding anything. Outside the slot anything may happen.
pub open spec fn kept(w: Worker, m: Map<int, int>, reply: WorkerReply, n: Map<int, int>) -> bool {
    match w.asks() {
        WorkerAction::Sweep { from, to } => {
            &&& reply == WorkerReply::Done
            &&& agree(w, incremented(m, RAM_GPA + from, RAM_GPA + to), n)
        },
        WorkerAction::Fill { from, to, value } => {
            &&& reply == WorkerReply::Done
            &&& agree(w, filled(m, RAM_GPA + from, RAM_GPA + to, value as int), n)
        },
        WorkerAction::Verify { from, to, expected } => {
            &&& reply matches WorkerReply::Count { bad } && bad == mismatches(
                m,
                RAM_GPA + from,
                RAM_GPA + to,
                expected as int,
            )
            &&& agree(w, m, n)
        },
        WorkerAction::Reclaim { from, to } => {
            &&& reply == WorkerReply::Done
            &&& forall|a: int|
                RAM_GPA + w.base <= a < RAM_GPA + w.base + 2 * w.half && !(RAM_GPA + from <= a
                    < RAM_GPA + to) ==> #[trigger] n[a] == m[a]
        },
        WorkerAction::Peek { off } => {
            &&& reply matches WorkerReply::Word { value } && value == m[RAM_GPA + off]
            &&& agree(w, m, n)
        },
        WorkerAction::Poke { off, value } => {
            &&& reply == WorkerReply::Done
            &&& agree(w, m.insert(RAM_GPA + off, value as int), n)
        },
        WorkerAction::AskTime => {
            &&& reply is Time
            &&& agree(w, m, n)
        },
        WorkerAction::Rest { millis: _ } | WorkerAction::ReportSelfTest => {
            &&& reply == WorkerReply::Done
            &&& agree(w, m, n)
        },
        WorkerAction::Finished => false,
    }
}

/// The guest's sweep does what is kept of it: a worker that asks for a sweep,
/// and whose vCPU serves it to its end, finds its slot swept once.
pub proof fn law_served_sweeps_are_kept(
    w: Worker,
    page: Seq<u32>,
    c: Cpu,
    from: u64,
    to: u64,
    log: Seq<(Reply, Cpu)>,
    count: u64,
)
    requires
        w.asks() == (WorkerAction::Sweep { from, to }),
        page.len() >= 0x1000,
        c.wf(),
        in_range(RAM_GPA + from, RAM_GPA + to),
        ended(with_programs(page), sweep_drive(from, to), c, log, count),
    ensures
        kept(
            w,
            c.mem,
            WorkerReply::Done,
            final_cpu(with_programs(page), sweep_drive(from, to), c, log).mem,
        ),
{
    law_sweep_range_ends(page, c, from, to, log, count);
}

/// The guest's fill does what is kept of it: a worker that asks for a fill,
/// and whose vCPU serves it to its end, finds the range stamped.
pub proof fn law_served_fills_are_kept(
    w: Worker,
    page: Seq<u32>,
    c: Cpu,
    from: u64,
    to: u64,
    value: u64,
    log: Seq<(Reply, Cpu)>,
    count: u64,
)
    requires
        w.asks() == (WorkerAction::Fill { from, to, value }),
        page.len() >= 0x1000,
        c.wf(),
        in_range(RAM_GPA + from, RAM_GPA + to),
        ended(with_programs(page), fill_drive(from, to, value), c, log, count),
    ensures
        kept(
            w,
            c.mem,
            WorkerReply::Done,
            final_cpu(with_programs(page), fill_drive(from, to, value), c, log).mem,
        ),
{
    law_fill_range_ends(page, c, from, to, value, log, count);
}

/// The guest's verification does what is kept of it: a worker that asks for
/// one, and whose vCPU serves it to its end, gets the exact count, and its
/// slot is as it was.
pub proof fn law_served_verifications_are_kept(
    w: Worker,
    page: Seq<u32>,
    c: Cpu,
    from: u64,
    to: u64,
    expected: u64,
    log: Seq<(Reply, Cpu)>,
    count: u64,
)
    requires
        w.asks() == (WorkerAction::Verify { from, to, expected }),
        page.len() >= 0x1000,
        c.wf(),
        in_range(RAM_GPA + from, RAM_GPA + to),
        ended(with_programs(page), verify_drive(from, to, expected), c, log, count),
    ensures
        kept(
            w,
            c.mem,
            WorkerReply::Count { bad: count },
            final_cpu(with_programs(page), verify_drive(from, to, expected), c, log).mem,
        ),
{
    law_verify_range_returns_the_mismatches(page, c, from, to, expected, log, count);
}

/// Whether every page of the hot half holds `value`, but for `except`.
pub open spec fn hot_holds(w: Worker, m: Map<int, int>, value: int, except: int) -> bool {
    forall|a: int|
        visits(RAM_GPA + w.base, RAM_GPA + w.hot_end(), a) && a != except ==> #[trigger] m[a]
            == value
}

/// Whether every page of the cold half holds `value`.
pub open spec fn cold_holds(w: Worker, m: Map<int, int>, value: int) -> bool {
    forall|a: int|
        visits(RAM_GPA + w.hot_end(), RAM_GPA + w.cold_end(), a) ==> #[trigger] m[a] == value
}

/// What holds between actions as long as nothing was lost: the hot half
/// counts its sweeps, a cold half taken back holds the stamp of its last
/// cycle, and no check has failed.
pub open spec fn healthy(w: Worker, m: Map<int, int>) -> bool {
    let victim = RAM_GPA + w.victim();
    let sweeps = w.hot_sweeps as int;
    let stamped = cold_holds(w, m, w.stamp() as int);
    &&& w.wf()
    &&& w.stats.mismatches == 0
    &&& match w.phase {
        WorkerPhase::TestDamage { saved } => saved == sweeps && hot_holds(w, m, sweeps, -1),
        WorkerPhase::TestLook { saved } => {
            &&& saved == sweeps
            &&& hot_holds(w, m, sweeps, victim)
            &&& m[victim] == saved ^ DAMAGE
        },
        WorkerPhase::TestRestore { saved, found } => {
            &&& saved == sweeps
            &&& found == 1
            &&& hot_holds(w, m, sweeps, victim)
        },
        _ => hot_holds(w, m, sweeps, -1),
    }
    &&& match w.phase {
        WorkerPhase::ColdVerify | WorkerPhase::ColdRest | WorkerPhase::ColdReverify => stamped,
        WorkerPhase::ColdSweep | WorkerPhase::ColdReclaim | WorkerPhase::ColdFill => true,
        _ => w.cycle > 0 ==> stamped,
    }
}

/// A worker starts healthy on fresh memory, which reads zero, with its counts
/// in order.
pub proof fn law_workers_start_healthy(plan: SoakPlan, k: u64, w: Worker, m: Map<int, int>)
    requires
        w.wf(),
        w == Worker::starting(plan, k),
        forall|a: int| #[trigger] m[a] == 0,
    ensures
        healthy(w, m),
        tallied(w),
{
    let pages = w.half / PAGE;
    assert(0 * pages == 0) by (nonlinear_arith);
}

/// As long as nothing is lost, every verification is clean, the detector
/// self-test passes, and the worker stays healthy: a mismatch or a fault is
/// never a false alarm.
pub proof fn law_no_loss_no_alarm(w: Worker, m: Map<int, int>, reply: WorkerReply, n: Map<int, int>)
    requires
        healthy(w, m),
        kept(w, m, reply, n),
    ensures
        w.after(reply) is Ok,
        healthy(w.after(reply)->Ok_0, n),
{
    let from = RAM_GPA + w.base;
    let mid = RAM_GPA + w.hot_end();
    let to = RAM_GPA + w.cold_end();
    let sweeps = w.hot_sweeps as int;
    match w.phase {
        WorkerPhase::TestDamage { saved } => {
            assert(saved ^ 0xDEAD_BEEFu64 != saved) by (bit_vector);
        },
        WorkerPhase::TestLook { saved } => {
            assert(saved ^ 0xDEAD_BEEFu64 != saved) by (bit_vector);
            let victim = RAM_GPA + w.victim();
            let clean = m.insert(victim, sweeps);
            lemma_clean(clean, from, mid, sweeps);
            law_one_corrupt_page_counts_once(clean, from, mid, sweeps, victim, m[victim]);
            lemma_same_mismatches(clean.insert(victim, m[victim]), m, from, mid, sweeps);
        },
        WorkerPhase::TestLookAgain | WorkerPhase::HotVerify { round: _ } => {
            lemma_clean(m, from, mid, sweeps);
        },
        WorkerPhase::ColdVerify | WorkerPhase::ColdReverify => {
            lemma_clean(m, mid, to, w.stamp() as int);
        },
        _ => {},
    }
}

/// A range whose pages all hold what is expected has no mismatch.
proof fn lemma_clean(m: Map<int, int>, from: int, to: int, expected: int)
    requires
        forall|a: int| visits(from, to, a) ==> #[trigger] m[a] == expected,
    ensures
        mismatches(m, from, to, expected) == 0,
{
    law_filled_range_verifies_clean(m, from, to, expected);
    lemma_same_mismatches(filled(m, from, to, expected), m, from, to, expected);
}

/// A verification in the run proper that finds bad pages is never lost: the
/// count moves, whatever it was.
pub proof fn law_loss_is_counted(w: Worker, bad: u64)
    requires
        w.asks() is Verify,
        w.phase is HotVerify || w.phase is ColdVerify || w.phase is ColdReverify,
        bad != 0,
    ensures
        w.after(WorkerReply::Count { bad }) is Ok,
        w.after(WorkerReply::Count { bad })->Ok_0.stats.mismatches != w.stats.mismatches,
{
}

/// The stamp rotates and is never zero, so a page left over from the cycle
/// before is as much a failure as a zeroed one; and no two workers share a
/// stamp.
pub proof fn law_stamps_are_distinct(j: u64, c: u64, k: u64, d: u64)
    requires
        1 <= c < 0x1_0000_0000,
        1 <= d < 0x1_0000_0000,
        j < 0x1_0000_0000,
        k < 0x1_0000_0000,
    ensures
        stamp_of(j, c) != 0,
        stamp_of(j, c) == stamp_of(k, d) ==> j == k && c == d,
{
    assert((j << 32) | c != 0) by (bit_vector)
        requires
            c >= 1,
    ;
    assert((j << 32) | c == (k << 32) | d ==> j == k && c == d) by (bit_vector)
        requires
            c < 0x1_0000_0000,
            d < 0x1_0000_0000,
            j < 0x1_0000_0000,
            k < 0x1_0000_0000,
    ;
}

/// A worker and the memory it works on.
pub struct Scene {
    pub worker: Worker,
    pub memory: Map<int, int>,
}

/// Where a worker and its memory stand after the exchanges in `log`, each a
/// reply and the memory then, if the machine kept what the guest wrote and no
/// fault came up.
pub open spec fn played(w: Worker, m: Map<int, int>, log: Seq<(WorkerReply, Map<int, int>)>) -> Option<
    Scene,
>
    decreases log.len(),
{
    if log.len() == 0 {
        Some(Scene { worker: w, memory: m })
    } else {
        match played(w, m, log.drop_last()) {
            None => None,
            Some(before) => {
                let (reply, n) = log.last();
                match before.worker.after(reply) {
                    Ok(next) => if kept(before.worker, before.memory, reply, n) {
                        Some(Scene { worker: next, memory: n })
                    } else {
                        None
                    },
                    Err(_) => None,
                }
            },
        }
    }
}

/// A worker's run on a machine that loses nothing has no mismatch, however long
/// it lasts.
pub proof fn law_soak_without_loss_is_clean(
    w: Worker,
    m: Map<int, int>,
    log: Seq<(WorkerReply, Map<int, int>)>,
)
    requires
        healthy(w, m),
        played(w, m, log) is Some,
    ensures
        healthy(played(w, m, log)->Some_0.worker, played(w, m, log)->Some_0.memory),
        played(w, m, log)->Some_0.worker.stats.mismatches == 0,
    decreases log.len(),
{
    if log.len() > 0 {
        law_soak_without_loss_is_clean(w, m, log.drop_last());
        let before = played(w, m, log.drop_last())->Some_0;
        law_no_loss_no_alarm(before.worker, before.memory, log.last().0, log.last().1);
    }
}

/// A worker, the memory it started on, and the exchanges of its run.
pub struct WorkerRun {
    pub worker: Worker,
    pub memory: Map<int, int>,
    pub log: Seq<(WorkerReply, Map<int, int>)>,
}

impl WorkerRun {
    /// Whether the worker started healthy and the machine lost nothing.
    pub open spec fn lossless(self) -> bool {
        &&& healthy(self.worker, self.memory)
        &&& played(self.worker, self.memory, self.log) is Some
    }

    /// What the worker has counted in the end.
    pub open spec fn counted(self) -> Stats {
        played(self.worker, self.memory, self.log)->Some_0.worker.stats
    }
}

/// A soak on a machine that loses nothing is judged clean, however many
/// workers it has and however long they run.
pub proof fn law_soak_of_lossless_runs_is_judged_clean(runs: Seq<WorkerRun>)
    requires
        forall|i: int| 0 <= i < runs.len() ==> #[trigger] runs[i].lossless(),
    ensures
        ({
            let all = runs.map_values(|r: WorkerRun| r.counted());
            judged(summed(all), SelfTest::Passed) == (SoakOutcome::Clean {
                checks: summed(all).page_checks,
            })
        }),
{
    let all = runs.map_values(|r: WorkerRun| r.counted());
    assert forall|i: int| 0 <= i < all.len() implies #[trigger] all[i].mismatches == 0 by {
        assert(runs[i].lossless());
        law_soak_without_loss_is_clean(runs[i].worker, runs[i].memory, runs[i].log);
    }
    law_outcome_follows_the_workers(all, SelfTest::Passed);
}

/// A page of the range that a worker verifies, and that does not hold what is
/// expected, makes the count of that verification at least one.
pub proof fn law_lost_page_is_reported(
    w: Worker,
    m: Map<int, int>,
    reply: WorkerReply,
    n: Map<int, int>,
    a: int,
)
    requires
        kept(w, m, reply, n),
        w.asks() matches WorkerAction::Verify { from, to, expected } && visits(
            RAM_GPA + from,
            RAM_GPA + to,
            a,
        ) && m[a] != expected,
    ensures
        reply matches WorkerReply::Count { bad } && bad >= 1,
{
    match w.asks() {
        WorkerAction::Verify { from, to, expected } => {
            if mismatches(m, RAM_GPA + from, RAM_GPA + to, expected as int) == 0 {
                law_clean_means_every_page_matches(
                    m,
                    RAM_GPA + from,
                    RAM_GPA + to,
                    expected as int,
                    a,
                );
            }
        },
        _ => {},
    }
}

/// How many verifications a worker has counted.
pub open spec fn verifications(w: Worker) -> int {
    match w.phase {
        WorkerPhase::HotSweep { round } | WorkerPhase::HotVerify { round } => 6 * w.cycle + round,
        WorkerPhase::ColdSweep
        | WorkerPhase::ColdReclaim
        | WorkerPhase::ColdFill
        | WorkerPhase::ColdVerify => 6 * w.cycle - 2,
        WorkerPhase::ColdRest | WorkerPhase::ColdReverify => 6 * w.cycle - 1,
        _ => 6 * w.cycle,
    }
}

/// How many sweeps a worker has counted.
pub open spec fn counted_sweeps(w: Worker) -> int {
    match w.phase {
        WorkerPhase::HotSweep { round } => 5 * w.cycle + round,
        WorkerPhase::HotVerify { round } => 5 * w.cycle + round + 1,
        WorkerPhase::ColdSweep => 5 * w.cycle - 1,
        _ => 5 * w.cycle,
    }
}

/// How many reclaims a worker has counted.
pub open spec fn counted_reclaims(w: Worker) -> int {
    match w.phase {
        WorkerPhase::ColdSweep | WorkerPhase::ColdReclaim => w.cycle - 1,
        _ => w.cycle as int,
    }
}

/// How often a worker has swept its hot half: once at the start, and four
/// times in every cycle.
pub open spec fn swept_hot(w: Worker) -> int {
    match w.phase {
        WorkerPhase::Establish => 0,
        WorkerPhase::HotSweep { round } => 1 + 4 * w.cycle + round,
        WorkerPhase::HotVerify { round } => 2 + 4 * w.cycle + round,
        _ => 1 + 4 * w.cycle,
    }
}

/// The counts are what the cycles make them, and every verification counts
/// every page of its half.
pub open spec fn tallied(w: Worker) -> bool {
    &&& w.hot_sweeps == swept_hot(w)
    &&& w.stats.page_checks == verifications(w) * (w.half / PAGE)
    &&& w.stats.sweeps == counted_sweeps(w)
    &&& w.stats.reclaims == counted_reclaims(w)
    &&& match w.phase {
        WorkerPhase::HotSweep { round } | WorkerPhase::HotVerify { round } => round
            < HOT_SWEEPS_PER_CYCLE,
        WorkerPhase::ColdSweep
        | WorkerPhase::ColdReclaim
        | WorkerPhase::ColdFill
        | WorkerPhase::ColdVerify
        | WorkerPhase::ColdRest
        | WorkerPhase::ColdReverify => w.cycle >= 1,
        WorkerPhase::AskTime | WorkerPhase::Finished => true,
        _ => w.cycle == 0,
    }
}

/// The page checks a soak reports are its cycles, six verifications each,
/// times the pages of a half: the denominator of the bound on the defect rate
/// is exact. This holds at the start and over every step, as long as the
/// counts have 64-bit numbers.
pub proof fn law_counts_follow_the_cycles(w: Worker, reply: WorkerReply)
    requires
        tallied(w),
        w.after(reply) is Ok,
        6 * (w.cycle + 1) * (w.half / PAGE) <= u64::MAX,
        6 * (w.cycle + 1) <= u64::MAX,
    ensures
        tallied(w.after(reply)->Ok_0),
{
    let pages = w.half / PAGE;
    let v = verifications(w);
    assert((v + 1) * pages == v * pages + pages) by (nonlinear_arith);
    assert((v + 1) * pages <= 6 * (w.cycle + 1) * pages) by (nonlinear_arith)
        requires
            v + 1 <= 6 * (w.cycle + 1),
            pages >= 0,
    ;
}

proof fn lemma_played_tallies(w: Worker, m: Map<int, int>, log: Seq<(WorkerReply, Map<int, int>)>)
    requires
        tallied(w),
        w.phase == WorkerPhase::Establish,
        w.half >= PAGE,
        played(w, m, log) is Some,
        6 * (log.len() + 1) * (w.half / PAGE) <= u64::MAX,
    ensures
        tallied(played(w, m, log)->Some_0.worker),
        played(w, m, log)->Some_0.worker.cycle <= log.len(),
        played(w, m, log)->Some_0.worker.half == w.half,
        played(w, m, log)->Some_0.worker.base == w.base,
        played(w, m, log)->Some_0.worker.k == w.k,
    decreases log.len(),
{
    if log.len() > 0 {
        let pages = w.half / PAGE;
        let n = log.drop_last().len();
        assert(pages >= 1);
        assert(6 * (n + 1) * pages <= 6 * (log.len() + 1) * pages) by (nonlinear_arith)
            requires
                n + 1 == log.len(),
                pages >= 1,
        ;
        lemma_played_tallies(w, m, log.drop_last());
        let before = played(w, m, log.drop_last())->Some_0.worker;
        assert(6 * (before.cycle + 1) * pages <= 6 * (log.len() + 1) * pages) by (nonlinear_arith)
            requires
                before.cycle + 1 <= log.len(),
                pages >= 1,
        ;
        assert(6 * (before.cycle + 1) <= 6 * (before.cycle + 1) * pages) by (nonlinear_arith)
            requires
                pages >= 1,
        ;
        law_counts_follow_the_cycles(before, log.last().0);
    }
}

/// After `n` whole cycles on a machine that loses nothing, every page of the
/// hot half holds `1 + 4n`, every page of the cold half the stamp of the last
/// cycle, and the counts are five sweeps, six verifications and one reclaim
/// for each cycle. The counts must have 64-bit numbers.
pub proof fn law_words_after_whole_cycles(
    w: Worker,
    m: Map<int, int>,
    log: Seq<(WorkerReply, Map<int, int>)>,
)
    requires
        healthy(w, m),
        tallied(w),
        w.phase == WorkerPhase::Establish,
        played(w, m, log) is Some,
        played(w, m, log)->Some_0.worker.phase == WorkerPhase::AskTime || played(
            w,
            m,
            log,
        )->Some_0.worker.phase == WorkerPhase::Finished,
        6 * (log.len() + 1) * (w.half / PAGE) <= u64::MAX,
    ensures
        ({
            let end = played(w, m, log)->Some_0;
            let n = end.worker.cycle;
            &&& forall|a: int|
                visits(RAM_GPA + w.base, RAM_GPA + w.hot_end(), a) ==> #[trigger] end.memory[a] == 1
                    + 4 * n
            &&& n > 0 ==> forall|a: int|
                visits(RAM_GPA + w.hot_end(), RAM_GPA + w.cold_end(), a)
                    ==> #[trigger] end.memory[a] == stamp_of(w.k, n)
            &&& end.worker.stats.sweeps == 5 * n
            &&& end.worker.stats.page_checks == 6 * n * (w.half / PAGE)
            &&& end.worker.stats.reclaims == n
            &&& end.worker.stats.mismatches == 0
        }),
{
    law_soak_without_loss_is_clean(w, m, log);
    lemma_played_tallies(w, m, log);
}

/// The worker after a reply that it takes.
pub open spec fn moved(w: Worker, reply: WorkerReply) -> Worker {
    w.after(reply)->Ok_0
}

/// The worker after replies, if it took every one of them.
pub open spec fn replied(w: Worker, replies: Seq<WorkerReply>) -> Option<Worker>
    decreases replies.len(),
{
    if replies.len() == 0 {
        Some(w)
    } else {
        match replied(w, replies.drop_last()) {
            Some(before) => match before.after(replies.last()) {
                Ok(next) => Some(next),
                Err(_) => None,
            },
            None => None,
        }
    }
}

/// Whether the worker waits for a verification that belongs to the run, not to
/// the self-test.
pub open spec fn awaits_check(w: Worker) -> bool {
    w.asks() is Verify && !(w.phase is TestLook) && !(w.phase is TestLookAgain)
}

/// What the run's verifications returned, added up.
pub open spec fn bad_returned(w: Worker, replies: Seq<WorkerReply>) -> int
    decreases replies.len(),
{
    if replies.len() == 0 {
        0
    } else {
        bad_returned(w, replies.drop_last()) + match (
            replied(w, replies.drop_last()),
            replies.last(),
        ) {
            (Some(before), WorkerReply::Count { bad }) => if awaits_check(before) {
                bad as int
            } else {
                0
            },
            _ => 0,
        }
    }
}

/// How many of the replies answered an action of the run that `kind` picks.
pub open spec fn answered(
    w: Worker,
    replies: Seq<WorkerReply>,
    kind: spec_fn(Worker) -> bool,
) -> int
    decreases replies.len(),
{
    if replies.len() == 0 {
        0
    } else {
        answered(w, replies.drop_last(), kind) + match replied(w, replies.drop_last()) {
            Some(before) => if kind(before) {
                1int
            } else {
                0
            },
            None => 0,
        }
    }
}

/// The verifications of the run.
pub open spec fn run_checks() -> spec_fn(Worker) -> bool {
    |w: Worker| awaits_check(w)
}

/// The sweeps of the run: all but the first, which only brings the hot half in.
pub open spec fn run_sweeps() -> spec_fn(Worker) -> bool {
    |w: Worker| w.asks() is Sweep && w.phase != WorkerPhase::Establish
}

/// The reclaims.
pub open spec fn run_reclaims() -> spec_fn(Worker) -> bool {
    |w: Worker| w.asks() is Reclaim
}

/// A verification of the run that finds `bad` pages adds exactly `bad` to the
/// mismatches, and every page of the half to the page checks; no other reply
/// moves either.
pub proof fn law_mismatches_grow_by_the_bad_pages(w: Worker, reply: WorkerReply)
    requires
        w.after(reply) is Ok,
        awaits_check(w) ==> (reply matches WorkerReply::Count { bad } && w.stats.mismatches + bad
            <= u64::MAX),
        w.stats.page_checks + w.half / PAGE <= u64::MAX,
    ensures
        awaits_check(w) <==> w.phase is HotVerify || w.phase is ColdVerify || w.phase
            is ColdReverify,
        awaits_check(w) ==> (reply matches WorkerReply::Count { bad } && moved(
            w,
            reply,
        ).stats.mismatches == w.stats.mismatches + bad && moved(w, reply).stats.page_checks
            == w.stats.page_checks + w.half / PAGE),
        !awaits_check(w) ==> moved(w, reply).stats.mismatches == w.stats.mismatches && moved(
            w,
            reply,
        ).stats.page_checks == w.stats.page_checks,
{
}

/// A sweep of the run counts once, a reclaim counts once, and nothing else
/// moves their counts.
pub proof fn law_sweeps_and_reclaims_count_once(w: Worker, reply: WorkerReply)
    requires
        w.after(reply) is Ok,
        w.stats.sweeps < u64::MAX,
        w.stats.reclaims < u64::MAX,
    ensures
        moved(w, reply).stats.sweeps == w.stats.sweeps + if w.asks() is Sweep && w.phase
            != WorkerPhase::Establish {
            1int
        } else {
            0
        },
        moved(w, reply).stats.reclaims == w.stats.reclaims + if w.asks() is Reclaim {
            1int
        } else {
            0
        },
{
}

proof fn lemma_counts_fit(w: Worker, replies: Seq<WorkerReply>)
    ensures
        0 <= answered(w, replies, run_sweeps()) <= replies.len(),
        0 <= answered(w, replies, run_reclaims()) <= replies.len(),
        0 <= answered(w, replies, run_checks()) <= replies.len(),
        0 <= bad_returned(w, replies),
    decreases replies.len(),
{
    if replies.len() > 0 {
        lemma_counts_fit(w, replies.drop_last());
    }
}

/// Over a whole run a worker's mismatches are the sum of what its verifications
/// returned, its page checks are its verifications times the pages of a half,
/// and its sweeps and reclaims are as many as it made; as long as these have
/// 64-bit numbers.
pub proof fn law_counts_are_of_what_was_done(w: Worker, replies: Seq<WorkerReply>)
    requires
        replied(w, replies) is Some,
        w.stats.mismatches + bad_returned(w, replies) <= u64::MAX,
        w.stats.page_checks + replies.len() * (w.half / PAGE) <= u64::MAX,
        w.stats.sweeps + replies.len() <= u64::MAX,
        w.stats.reclaims + replies.len() <= u64::MAX,
    ensures
        ({
            let end = replied(w, replies)->Some_0;
            &&& end.stats.mismatches == w.stats.mismatches + bad_returned(w, replies)
            &&& end.stats.page_checks == w.stats.page_checks + answered(w, replies, run_checks())
                * (w.half / PAGE)
            &&& end.stats.sweeps == w.stats.sweeps + answered(w, replies, run_sweeps())
            &&& end.stats.reclaims == w.stats.reclaims + answered(w, replies, run_reclaims())
            &&& end.half == w.half && end.base == w.base && end.k == w.k
        }),
    decreases replies.len(),
{
    let pages = w.half / PAGE;
    if replies.len() == 0 {
        assert(0 * pages == 0) by (nonlinear_arith);
    } else {
        let first = replies.drop_last();
        let n = first.len() as int;
        assert(n * pages + pages == replies.len() * pages) by (nonlinear_arith)
            requires
                n + 1 == replies.len(),
        ;
        lemma_counts_fit(w, first);
        law_counts_are_of_what_was_done(w, first);
        let before = replied(w, first)->Some_0;
        let checks = answered(w, first, run_checks());
        assert(checks * pages <= n * pages) by (nonlinear_arith)
            requires
                checks <= n,
                pages >= 0,
        ;
        assert((checks + 1) * pages == checks * pages + pages) by (nonlinear_arith);
        law_mismatches_grow_by_the_bad_pages(before, replies.last());
        law_sweeps_and_reclaims_count_once(before, replies.last());
    }
}

/// One cycle of a worker, action by action: four times the hot half is swept
/// and must then count one sweep more; the cold half is swept, reclaimed,
/// filled with a stamp that no cycle before had, verified, left alone, and
/// verified again. `bad` is what the six verifications return.
pub proof fn law_a_cycle_action_by_action(w: Worker, bad: Seq<u64>)
    requires
        w.wf(),
        w.phase == WorkerPhase::AskTime,
        bad.len() == 6,
        w.hot_sweeps + 4 <= u64::MAX,
        w.cycle < u64::MAX,
    ensures
        ({
            let done = WorkerReply::Done;
            let hot = (w.base, (w.base + w.half) as u64);
            let cold = ((w.base + w.half) as u64, (w.base + 2 * w.half) as u64);
            let stamp = stamp_of(w.k, (w.cycle + 1) as u64);
            let sweep_hot = WorkerAction::Sweep { from: hot.0, to: hot.1 };
            let look = WorkerAction::Verify { from: cold.0, to: cold.1, expected: stamp };
            let look_hot = |n: int|
                WorkerAction::Verify {
                    from: hot.0,
                    to: hot.1,
                    expected: (w.hot_sweeps + n) as u64,
                };
            let s1 = moved(w, WorkerReply::Time { expired: false });
            let v1 = moved(s1, done);
            let s2 = moved(v1, WorkerReply::Count { bad: bad[0] });
            let v2 = moved(s2, done);
            let s3 = moved(v2, WorkerReply::Count { bad: bad[1] });
            let v3 = moved(s3, done);
            let s4 = moved(v3, WorkerReply::Count { bad: bad[2] });
            let v4 = moved(s4, done);
            let cs = moved(v4, WorkerReply::Count { bad: bad[3] });
            let cr = moved(cs, done);
            let cf = moved(cr, done);
            let cv = moved(cf, done);
            let rest = moved(cv, WorkerReply::Count { bad: bad[4] });
            let again = moved(rest, done);
            let end = moved(again, WorkerReply::Count { bad: bad[5] });
            &&& w.asks() == WorkerAction::AskTime
            &&& s1.asks() == sweep_hot && v1.asks() == look_hot(1)
            &&& s2.asks() == sweep_hot && v2.asks() == look_hot(2)
            &&& s3.asks() == sweep_hot && v3.asks() == look_hot(3)
            &&& s4.asks() == sweep_hot && v4.asks() == look_hot(4)
            &&& cs.asks() == (WorkerAction::Sweep { from: cold.0, to: cold.1 })
            &&& cr.asks() == (WorkerAction::Reclaim { from: cold.0, to: cold.1 })
            &&& cf.asks() == (WorkerAction::Fill { from: cold.0, to: cold.1, value: stamp })
            &&& cv.asks() == look
            &&& rest.asks() == (WorkerAction::Rest { millis: 250 })
            &&& again.asks() == look
            &&& end.phase == WorkerPhase::AskTime && end.cycle == w.cycle + 1
            &&& end.hot_sweeps == w.hot_sweeps + 4
            &&& moved(w, WorkerReply::Time { expired: true }).asks() == WorkerAction::Finished
        }),
{
}

/// The self-test of the first worker, action by action: after the first sweep
/// one word of the hot half, not the first, is changed and put back, and the
/// guest looks at the half while it is changed and again after. The worker goes
/// on exactly if the guest then found one page and later none; nothing is
/// counted. The other workers have no such test.
pub proof fn law_the_self_test_action_by_action(w: Worker, word: u64, found: u64, clean: u64)
    requires
        w.wf(),
        w.phase == WorkerPhase::Establish,
        w.hot_sweeps < u64::MAX,
    ensures
        ({
            let done = WorkerReply::Done;
            let sweep = WorkerAction::Sweep { from: w.base, to: (w.base + w.half) as u64 };
            let look = WorkerAction::Verify {
                from: w.base,
                to: (w.base + w.half) as u64,
                expected: (w.hot_sweeps + 1) as u64,
            };
            let peek = moved(w, done);
            let damage = moved(peek, WorkerReply::Word { value: word });
            let first_look = moved(damage, done);
            let restore = moved(first_look, WorkerReply::Count { bad: found });
            let second_look = moved(restore, done);
            let report = moved(second_look, WorkerReply::Count { bad: clean });
            &&& w.asks() == sweep
            &&& w.k != 0 ==> peek.phase == WorkerPhase::AskTime
            &&& w.k == 0 ==> {
                &&& peek.asks() matches WorkerAction::Peek { off } && w.base < off && off + 8
                    <= w.base + w.half && (off - w.base) % (PAGE as int) == 0 && (damage.asks()
                    matches WorkerAction::Poke { off: at, value } && at == off && value != word)
                    && restore.asks() == (WorkerAction::Poke { off, value: word })
                &&& first_look.asks() == look
                &&& restore.after(done) is Ok <==> found == 1
                &&& found != 1 ==> restore.after(done) == Err::<Worker, WorkerFault>(
                    WorkerFault::DetectorMissed { found },
                )
                &&& found == 1 ==> {
                    &&& second_look.asks() == look
                    &&& second_look.after(WorkerReply::Count { bad: clean }) is Ok <==> clean == 0
                    &&& clean != 0 ==> second_look.after(WorkerReply::Count { bad: clean }) == Err::<
                        Worker,
                        WorkerFault,
                    >(WorkerFault::DetectorNoisy { clean })
                    &&& clean == 0 ==> report.asks() == WorkerAction::ReportSelfTest && moved(
                        report,
                        done,
                    ).phase == WorkerPhase::AskTime && moved(report, done).stats == w.stats
                        && moved(report, done).hot_sweeps == w.hot_sweeps + 1
                }
            }
        }),
{
    assert(word ^ 0xDEAD_BEEFu64 != word) by (bit_vector);
}

/// A worker's halves are the plan's: those of different workers share no byte.
pub proof fn law_workers_keep_to_their_slots(plan: SoakPlan, ram_size: int, j: u64, k: u64)
    requires
        plan.wf(ram_size),
        ram_size <= u64::MAX,
        j < k < plan.vcpus,
    ensures
        ({
            let a = Worker::starting(plan, j);
            let b = Worker::starting(plan, k);
            &&& a.wf() && b.wf()
            &&& (a.base as int, a.hot_end() as int) == plan.hot(j as int)
            &&& (a.hot_end() as int, a.cold_end() as int) == plan.cold(j as int)
            &&& a.cold_end() <= b.base
            &&& b.cold_end() <= ram_size
            &&& a.hot_end() - a.base == plan.half && a.cold_end() - a.hot_end() == plan.half
            &&& a.stats == Stats::none() && a.phase == WorkerPhase::Establish
            &&& a.hot_sweeps == 0 && a.cycle == 0 && a.k == j
        }),
{
    law_halves_are_disjoint(plan, ram_size, j as int, k as int);
    law_halves_are_disjoint(plan, ram_size, k as int, j as int);
}

/// A reply that does not fit what the worker asked for is refused.
pub proof fn law_replies_must_fit(w: Worker, reply: WorkerReply)
    ensures
        w.asks() is Verify && !(reply is Count) ==> w.after(reply) is Err,
        w.asks() is Peek && !(reply is Word) ==> w.after(reply) is Err,
        w.asks() is AskTime && !(reply is Time) ==> w.after(reply) is Err,
        (w.asks() is Sweep || w.asks() is Fill || w.asks() is Reclaim || w.asks() is Poke || w.asks()
            is Rest || w.asks() is ReportSelfTest) && reply != WorkerReply::Done ==> w.after(reply)
            is Err,
        w.asks() is Finished ==> w.after(reply) is Err,
{
}

}
