use memory_ratchet::guest::RAM_GPA;
use memory_ratchet::options::{defaults, Advice, Options, ReclaimMode};
use memory_ratchet::probe::{hammer_probe, parked_probe, ProbeStep};
use memory_ratchet::reclaim::{reclaim, reclaim_range, HostOp, HostRun, OpFailed};
use memory_ratchet::run::{cycle, has_banner, mode, reset_ops, tail, DirtiedBy, Mode, PlainRun, ResetOp, RunStep};
use memory_ratchet::stride::Strides;
use memory_ratchet::timing::{plan, reclaim_extents, timing_cycle, Phases, TimingRun, TimingStep};

/// Makes every operation of a run, successfully.
fn all_of(mut run: HostRun) -> Vec<HostOp> {
    let mut ops = Vec::new();
    while let Some(op) = run.request() {
        ops.push(op);
        run.reply(0).unwrap();
    }
    ops
}

#[test]
fn the_fix_unmaps_advises_and_remaps() {
    let size = 3u64 << 30;
    assert_eq!(
        all_of(reclaim(&defaults(), size)),
        vec![
            HostOp::Stage2Unmap { gpa: RAM_GPA, len: size },
            HostOp::Advise { off: 0, len: size, advice: Advice::Reusable },
            HostOp::Stage2Map { off: 0, gpa: RAM_GPA, len: size },
        ]
    );
}

#[test]
fn the_trap_only_advises() {
    let o = Options { naive: true, advice: Advice::Free, ..defaults() };
    assert_eq!(
        all_of(reclaim(&o, 0x8000)),
        vec![HostOp::Advise { off: 0, len: 0x8000, advice: Advice::Free }]
    );
}

#[test]
fn munmap_replaces_the_mapping() {
    assert_eq!(
        all_of(reclaim_range(0x4000, 0x8000, ReclaimMode::Munmap, Advice::Reusable)),
        vec![
            HostOp::Stage2Unmap { gpa: RAM_GPA + 0x4000, len: 0x8000 },
            HostOp::Munmap { off: 0x4000, len: 0x8000 },
            HostOp::MmapFixed { off: 0x4000, len: 0x8000 },
            HostOp::Stage2Map { off: 0x4000, gpa: RAM_GPA + 0x4000, len: 0x8000 },
        ]
    );
}

#[test]
fn extents_follow_one_another() {
    let mut r = reclaim_extents(0xC000, 0x4000, ReclaimMode::Reusable, Advice::DontNeed);
    for off in [0u64, 0x4000, 0x8000] {
        for op in [
            HostOp::Stage2Unmap { gpa: RAM_GPA + off, len: 0x4000 },
            HostOp::Advise { off, len: 0x4000, advice: Advice::DontNeed },
            HostOp::Stage2Map { off, gpa: RAM_GPA + off, len: 0x4000 },
        ] {
            assert_eq!(r.request(), Some(op));
            r.reply(0).unwrap();
        }
    }
    assert_eq!(r.request(), None);
}

#[test]
fn nothing_follows_a_failed_operation() {
    let mut run = reclaim(&defaults(), 0x8000);
    run.reply(0).unwrap();
    let op = HostOp::Advise { off: 0, len: 0x8000, advice: Advice::Reusable };
    assert_eq!(run.request(), Some(op));
    assert_eq!(run.reply(-1), Err(OpFailed { op, ret: -1 }));
    assert_eq!(run.request(), None);

    let mut extents = reclaim_extents(0xC000, 0x4000, ReclaimMode::Reusable, Advice::Reusable);
    for _ in 0..4 {
        extents.reply(0).unwrap();
    }
    let op = HostOp::Advise { off: 0x4000, len: 0x4000, advice: Advice::Reusable };
    assert_eq!(extents.reply(7), Err(OpFailed { op, ret: 7 }));
    assert_eq!(extents.request(), None);
}

#[test]
fn extents_must_be_whole_pages_that_divide_the_memory() {
    let o = Options { size_gb: 1, ..defaults() };
    let whole = plan(&o).unwrap();
    assert_eq!((whole.extent, whole.extents), (1 << 30, 1));
    let cut = plan(&Options { extent_kb: 16, ..o }).unwrap();
    assert_eq!((cut.extent, cut.extents), (0x4000, 65536));
    assert!(plan(&Options { extent_kb: 8, ..o }).is_none());
    assert!(plan(&Options { extent_kb: 48, ..o }).is_none());
    assert!(plan(&Options { extent_kb: 1 << 60, ..o }).is_none());
    assert!(plan(&Options { size_gb: 0, ..o }).is_none());
}

#[test]
fn time_is_booked_by_phase() {
    let mut p = Phases::zero();
    for op in all_of(reclaim_range(0, 0x4000, ReclaimMode::Munmap, Advice::Reusable)) {
        p.book(&op, 10);
    }
    assert_eq!((p.unmap, p.release, p.remap), (10, 20, 10));
}

#[test]
fn timing_cycles_reset_unless_steady() {
    let o = defaults();
    let body = |n: u64| vec![
        TimingStep::Touch,
        TimingStep::ReadBefore,
        TimingStep::Reclaim,
        TimingStep::Rest { millis: 200 },
        TimingStep::ReadAfter,
        TimingStep::FaultBack,
        TimingStep::Report { cycle: n },
    ];
    assert_eq!(timing_cycle(&o, 1), body(1));
    assert_eq!(timing_cycle(&o, 2)[0], TimingStep::Reset);
    assert_eq!(timing_cycle(&o, 2)[1..], body(2)[..]);
    assert_eq!(timing_cycle(&Options { steady_state: true, ..o }, 2), body(2));
}

#[test]
fn plain_cycles_measure_the_reclaim() {
    let o = defaults();
    let body = vec![
        RunStep::ReadBefore,
        RunStep::Dirty { by: DirtiedBy::GuestWrites },
        RunStep::ReadDirtied,
        RunStep::Reclaim,
        RunStep::Rest { millis: 200 },
        RunStep::ReadReclaimed,
        RunStep::Report { cycle: 1, single: true },
    ];
    assert_eq!(cycle(&o, 1), body);
    let many = Options { repeat: 5, guest_read: true, ..o };
    let second = cycle(&many, 2);
    assert_eq!(second[0], RunStep::Reset);
    assert_eq!(second[2], RunStep::Dirty { by: DirtiedBy::GuestReads });
    assert_eq!(second[7], RunStep::Report { cycle: 2, single: false });
    let host = Options { host_touch: true, guest_read: true, ..o };
    assert_eq!(cycle(&host, 1)[1], RunStep::Dirty { by: DirtiedBy::Host });
}

#[test]
fn probes_come_after_the_retouch() {
    let o = defaults();
    assert_eq!(tail(&o), vec![RunStep::Retouch]);
    let parked = Options { pressure_check: true, ..o };
    assert_eq!(tail(&parked), vec![RunStep::Retouch, RunStep::ParkedCheck]);
    let hammer = Options { hammer: true, ..o };
    assert_eq!(tail(&hammer), vec![RunStep::Retouch, RunStep::HammerCheck]);
    assert_eq!(tail(&Options { repeat: 3, ..o }), vec![RunStep::Summary]);
    assert_eq!(tail(&Options { host_touch: true, pressure_check: true, ..o }), vec![]);
}

#[test]
fn modes_follow_the_switches() {
    let o = defaults();
    assert_eq!(mode(&o), Mode::Plain);
    assert_eq!(mode(&Options { soak: true, ..o }), Mode::Soak);
    assert_eq!(mode(&Options { time_reclaim: true, ..o }), Mode::TimeReclaim);
    assert_eq!(mode(&Options { fleet_sim: true, ..o }), Mode::FleetSim);
    assert!(has_banner(&Options { soak: true, ..o }));
    assert!(!has_banner(&Options { fleet_sim: true, ..o }));
    assert!(!has_banner(&Options { time_reclaim: true, ..o }));
}

#[test]
fn walks_agree_with_step_by() {
    for (start, end, stride) in [(0u64, 0x10000u64, 0x4000u64), (5, 17, 4), (9, 9, 1), (7, 3, 2)] {
        let mut w = Strides::over(start, end, stride);
        let mut seen = Vec::new();
        while let Some(off) = w.advance() {
            seen.push(off);
        }
        let expected: Vec<u64> = (start..end).step_by(stride as usize).collect();
        assert_eq!(seen, expected);
    }
    let mut last = Strides::over(u64::MAX - 1, u64::MAX, 8);
    assert_eq!(last.advance(), Some(u64::MAX - 1));
    assert_eq!(last.advance(), None);
}

#[test]
fn probes_read_the_ledger_before_surveying() {
    let o = Options { pressure_gb: 12, ..defaults() };
    assert_eq!(
        parked_probe(&o),
        vec![
            ProbeStep::ArmCanary,
            ProbeStep::ApplyPressure { gb: 12 },
            ProbeStep::Sleep { secs: 8 },
            ProbeStep::ReleasePressure,
            ProbeStep::Sleep { secs: 2 },
            ProbeStep::ReadLedger,
            ProbeStep::SurveyCanary,
            ProbeStep::ReadRam,
            ProbeStep::Report,
        ]
    );
    assert_eq!(
        hammer_probe(&o),
        vec![
            ProbeStep::ArmCanary,
            ProbeStep::Hammer { gb: 12 },
            ProbeStep::ReadLedger,
            ProbeStep::SurveyCanary,
            ProbeStep::ReadRam,
            ProbeStep::Report,
        ]
    );
}

/// The cycles a timing run prints a line for, and how often it resets.
fn timed(o: &Options) -> (Vec<u64>, usize) {
    let mut run = TimingRun::new(o);
    let (mut lines, mut resets) = (Vec::new(), 0);
    while let Some(step) = run.advance() {
        match step {
            TimingStep::Report { cycle } => lines.push(cycle),
            TimingStep::Reset => resets += 1,
            _ => {}
        }
    }
    assert_eq!(run.advance(), None);
    (lines, resets)
}

#[test]
fn timing_runs_print_a_line_per_cycle() {
    let o = Options { repeat: 4, ..defaults() };
    assert_eq!(timed(&o), (vec![1, 2, 3, 4], 3));
    assert_eq!(timed(&Options { steady_state: true, ..o }), (vec![1, 2, 3, 4], 0));
    assert_eq!(timed(&Options { repeat: 1, ..o }), (vec![1], 0));
}

#[test]
fn plain_runs_are_their_cycles_and_the_tail() {
    for o in [defaults(), Options { repeat: 3, ..defaults() }] {
        let mut run = PlainRun::new(&o);
        let mut trace = Vec::new();
        while let Some(step) = run.advance() {
            trace.push(step);
        }
        let mut whole = Vec::new();
        for n in 1..=o.repeat {
            whole.extend(cycle(&o, n));
        }
        whole.extend(tail(&o));
        assert_eq!(trace, whole);
        assert_eq!(trace.iter().filter(|s| **s == RunStep::Reset).count() as u64, o.repeat - 1);
    }
}

#[test]
fn resets_unmap_before_they_replace() {
    assert_eq!(
        reset_ops(0x8000),
        vec![
            ResetOp::Stage2Unmap { gpa: RAM_GPA, len: 0x8000 },
            ResetOp::Munmap { len: 0x8000 },
            ResetOp::MmapFresh { len: 0x8000 },
            ResetOp::Stage2Map { gpa: RAM_GPA, len: 0x8000 },
        ]
    );
}
