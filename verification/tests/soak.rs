use memory_ratchet::options::{defaults, Options};
use memory_ratchet::soak::{
    is_over, plan, BurstAction, Bursts, SoakError, DAMAGE, NANOS_PER_SEC,
};
use memory_ratchet::worker::{
    outcome, to_start, total, SelfTest, SoakOutcome, Stats, Worker, WorkerAction, WorkerFault, WorkerPhase,
    WorkerReply,
};
use std::collections::HashMap;

const PAGE: u64 = 0x4000;

fn small() -> Options {
    Options { size_gb: 1, vcpus: 4, soak_minutes: 2, ..defaults() }
}

/// Memory that does what it is asked to, and may lose a page.
struct Memory {
    words: HashMap<u64, u64>,
    polls: u64,
}

impl Memory {
    fn new() -> Memory {
        Memory { words: HashMap::new(), polls: 0 }
    }

    fn word(&self, off: u64) -> u64 {
        *self.words.get(&off).unwrap_or(&0)
    }

    fn perform(&mut self, action: WorkerAction, cycles: u64) -> Option<WorkerReply> {
        Some(match action {
            WorkerAction::Sweep { from, to } => {
                for off in (from..to).step_by(PAGE as usize) {
                    let w = self.word(off);
                    self.words.insert(off, w.wrapping_add(1));
                }
                WorkerReply::Done
            }
            WorkerAction::Fill { from, to, value } => {
                for off in (from..to).step_by(PAGE as usize) {
                    self.words.insert(off, value);
                }
                WorkerReply::Done
            }
            WorkerAction::Verify { from, to, expected } => {
                let bad = (from..to).step_by(PAGE as usize).filter(|o| self.word(*o) != expected);
                WorkerReply::Count { bad: bad.count() as u64 }
            }
            WorkerAction::Reclaim { from, to } => {
                for off in (from..to).step_by(PAGE as usize) {
                    self.words.insert(off, 0x6A6A_6A6A);
                }
                WorkerReply::Done
            }
            WorkerAction::Peek { off } => WorkerReply::Word { value: self.word(off) },
            WorkerAction::Poke { off, value } => {
                self.words.insert(off, value);
                WorkerReply::Done
            }
            WorkerAction::AskTime => {
                self.polls += 1;
                WorkerReply::Time { expired: self.polls > cycles }
            }
            WorkerAction::Rest { .. } | WorkerAction::ReportSelfTest => WorkerReply::Done,
            WorkerAction::Finished => return None,
        })
    }
}

#[test]
fn memory_is_shared_out_in_halves() {
    let p = plan(&small()).unwrap();
    assert_eq!(p.vcpus, 4);
    assert_eq!(p.slot, 1 << 28);
    assert_eq!(p.half, 1 << 27);
    assert_eq!(p.seconds, 120);
    let odd = plan(&Options { vcpus: 3, ..small() }).unwrap();
    assert_eq!(odd.slot, (1 << 30) / 3);
    assert_eq!(odd.half % PAGE, 0);
    assert_eq!(odd.half, (odd.slot / 2) & !(PAGE - 1));
}

#[test]
fn slots_must_not_be_too_small() {
    assert_eq!(plan(&Options { size_gb: 0, ..small() }), Err(SoakError::TooSmall));
    assert_eq!(plan(&Options { vcpus: 2049, ..small() }), Err(SoakError::TooSmall));
    assert!(plan(&Options { vcpus: 2048, ..small() }).is_ok());
    assert_eq!(plan(&Options { soak_minutes: u64::MAX, ..small() }), Err(SoakError::TooLong));
}

#[test]
fn a_soak_without_loss_is_clean() {
    let p = plan(&Options { vcpus: 1024, ..small() }).unwrap();
    let mut all = Vec::new();
    for k in 0..2u64 {
        let mut w = Worker::new(&p, k);
        let mut m = Memory::new();
        while let Some(reply) = m.perform(w.action(), 3) {
            w.reply(reply).unwrap();
        }
        let pages = p.half / PAGE;
        assert_eq!(w.stats.sweeps, 3 * 5);
        assert_eq!(w.stats.page_checks, 3 * 6 * pages);
        assert_eq!(w.stats.reclaims, 3);
        assert_eq!(w.stats.mismatches, 0);
        assert_eq!(w.hot_sweeps, 1 + 3 * 4);
        all.push(w.stats);
    }
    let sum = total(&all);
    assert_eq!(sum.reclaims, 6);
    assert_eq!(outcome(&sum, SelfTest::Passed), SoakOutcome::Clean { checks: sum.page_checks });
}

#[test]
fn a_lost_page_is_counted_until_the_end() {
    let p = plan(&Options { vcpus: 1024, ..small() }).unwrap();
    let mut w = Worker::new(&p, 1);
    let mut m = Memory::new();
    while let Some(reply) = m.perform(w.action(), 1) {
        w.reply(reply).unwrap();
        if w.phase == (WorkerPhase::HotVerify { round: 2 }) {
            m.words.insert(w.base + 3 * PAGE, 0);
        }
        if w.phase == WorkerPhase::ColdReverify {
            m.words.insert(w.base + w.half, 0);
        }
    }
    assert_eq!(w.stats.mismatches, 3);
    assert_eq!(outcome(&w.stats, SelfTest::Passed), SoakOutcome::Corrupt { bad: 3 });
}

#[test]
fn a_stale_stamp_is_a_mismatch() {
    let p = plan(&Options { vcpus: 1024, ..small() }).unwrap();
    let mut w = Worker::new(&p, 5);
    let mut m = Memory::new();
    let mut stamps = Vec::new();
    loop {
        let action = w.action();
        if let WorkerAction::Fill { value, .. } = action {
            stamps.push(value);
        }
        match m.perform(action, 2) {
            Some(reply) => w.reply(reply).unwrap(),
            None => break,
        }
    }
    assert_eq!(stamps, vec![5 << 32 | 1, 5 << 32 | 2]);
}

#[test]
fn the_detector_is_tried_on_damage_first() {
    let p = plan(&Options { vcpus: 1024, ..small() }).unwrap();
    let mut w = Worker::new(&p, 0);
    let end = p.half;
    assert_eq!(w.action(), WorkerAction::Sweep { from: 0, to: end });
    w.reply(WorkerReply::Done).unwrap();
    assert_eq!(w.action(), WorkerAction::Peek { off: PAGE });
    w.reply(WorkerReply::Word { value: 1 }).unwrap();
    assert_eq!(w.action(), WorkerAction::Poke { off: PAGE, value: 1 ^ DAMAGE });
    w.reply(WorkerReply::Done).unwrap();
    assert_eq!(w.action(), WorkerAction::Verify { from: 0, to: end, expected: 1 });
    w.reply(WorkerReply::Count { bad: 1 }).unwrap();
    assert_eq!(w.action(), WorkerAction::Poke { off: PAGE, value: 1 });
    w.reply(WorkerReply::Done).unwrap();
    assert_eq!(w.action(), WorkerAction::Verify { from: 0, to: end, expected: 1 });
    w.reply(WorkerReply::Count { bad: 0 }).unwrap();
    assert_eq!(w.action(), WorkerAction::ReportSelfTest);
    w.reply(WorkerReply::Done).unwrap();
    assert_eq!(w.action(), WorkerAction::AskTime);
    assert_eq!(w.stats, Stats { sweeps: 0, page_checks: 0, mismatches: 0, reclaims: 0 });
}

#[test]
fn a_blind_or_noisy_detector_ends_the_soak() {
    let p = plan(&Options { vcpus: 1024, ..small() }).unwrap();
    for (first, second, fault) in [
        (0, 0, WorkerFault::DetectorMissed { found: 0 }),
        (2, 0, WorkerFault::DetectorMissed { found: 2 }),
        (1, 4, WorkerFault::DetectorNoisy { clean: 4 }),
    ] {
        let mut w = Worker::new(&p, 0);
        w.reply(WorkerReply::Done).unwrap();
        w.reply(WorkerReply::Word { value: 1 }).unwrap();
        w.reply(WorkerReply::Done).unwrap();
        w.reply(WorkerReply::Count { bad: first }).unwrap();
        let restored = w.reply(WorkerReply::Done);
        if first == 1 {
            restored.unwrap();
            assert_eq!(w.reply(WorkerReply::Count { bad: second }), Err(fault));
        } else {
            assert_eq!(restored, Err(fault));
        }
    }
    let mut w = Worker::new(&p, 3);
    assert_eq!(w.reply(WorkerReply::Count { bad: 0 }), Err(WorkerFault::OutOfTurn));
    w.reply(WorkerReply::Done).unwrap();
    assert_eq!(w.action(), WorkerAction::AskTime);
}

#[test]
fn pressure_comes_in_bursts() {
    let mut b = Bursts::Begin;
    let s = NANOS_PER_SEC;
    assert_eq!(b.step(false, 0), BurstAction::Apply);
    assert_eq!(b.step(false, 3 * s), BurstAction::Sleep);
    assert_eq!(b.step(false, 22 * s), BurstAction::Sleep);
    assert_eq!(b.step(false, 23 * s), BurstAction::Release);
    assert_eq!(b.step(false, 24 * s), BurstAction::Sleep);
    assert_eq!(b.step(false, 43 * s), BurstAction::Sleep);
    assert_eq!(b.step(false, 44 * s), BurstAction::Apply);
    assert_eq!(b.step(true, 45 * s), BurstAction::Release);
    assert_eq!(b.step(true, 45 * s), BurstAction::Finish);
    assert_eq!(Bursts::Begin.step(true, 0), BurstAction::Finish);
}

#[test]
fn slots_lie_side_by_side_inside_the_memory() {
    let o = Options { vcpus: 7, ..small() };
    let p = plan(&o).unwrap();
    let mut end = 0;
    for k in 0..p.vcpus {
        let w = Worker::new(&p, k);
        assert!(w.base >= end);
        end = w.base + 2 * w.half;
    }
    assert!(end <= o.ram_size());
}

#[test]
fn a_soak_whose_detector_failed_proves_nothing() {
    let p = plan(&Options { vcpus: 1, ..small() }).unwrap();
    let mut w = Worker::new(&p, 0);
    w.reply(WorkerReply::Done).unwrap();
    w.reply(WorkerReply::Word { value: 1 }).unwrap();
    w.reply(WorkerReply::Done).unwrap();
    w.reply(WorkerReply::Count { bad: 0 }).unwrap();
    let fault = w.reply(WorkerReply::Done).unwrap_err();
    assert_eq!(fault, WorkerFault::DetectorMissed { found: 0 });
    let sum = total(&vec![w.stats]);
    assert_eq!(outcome(&sum, SelfTest::Failed), SoakOutcome::Unproven { bad: 0 });
    assert_eq!(outcome(&sum, SelfTest::NotRun), SoakOutcome::Unproven { bad: 0 });
    assert_eq!(outcome(&sum, SelfTest::Passed), SoakOutcome::Clean { checks: 0 });
}

#[test]
fn soaks_are_judged_by_what_all_workers_counted() {
    let one = Stats { sweeps: 5, page_checks: 60, mismatches: 0, reclaims: 1 };
    // A worker that died early has counted little.
    let other = Stats { sweeps: 1, page_checks: 10, mismatches: 0, reclaims: 0 };
    let clean = total(&vec![one, other]);
    assert_eq!(outcome(&clean, SelfTest::Passed), SoakOutcome::Clean { checks: 70 });
    let bad = total(&vec![one, Stats { mismatches: 2, ..other }, Stats { mismatches: 3, ..one }]);
    assert_eq!(outcome(&bad, SelfTest::Passed), SoakOutcome::Corrupt { bad: 5 });
    assert_eq!(outcome(&bad, SelfTest::Failed), SoakOutcome::Unproven { bad: 5 });
}

#[test]
fn soaks_last_as_long_as_planned() {
    let p = plan(&Options { soak_minutes: 2, ..small() }).unwrap();
    let end = 120 * 1_000_000_000;
    assert!(!is_over(&p, 9, 9));
    assert!(!is_over(&p, 9, 0));
    assert!(!is_over(&p, 9, end + 8));
    assert!(is_over(&p, 9, end + 9));
}

#[test]
fn the_self_test_comes_first() {
    let p = plan(&small()).unwrap();
    assert_eq!(to_start(&p, SelfTest::NotRun), (0, 1));
    assert_eq!(to_start(&p, SelfTest::Passed), (1, 4));
    assert_eq!(to_start(&p, SelfTest::Failed), (0, 0));
}

#[test]
fn words_after_whole_cycles() {
    let p = plan(&Options { vcpus: 1024, ..small() }).unwrap();
    let mut w = Worker::new(&p, 3);
    let mut m = Memory::new();
    while let Some(reply) = m.perform(w.action(), 5) {
        w.reply(reply).unwrap();
    }
    for off in (w.base..w.base + w.half).step_by(PAGE as usize) {
        assert_eq!(m.word(off), 1 + 4 * 5);
        assert_eq!(m.word(off + w.half), 3 << 32 | 5);
    }
}
