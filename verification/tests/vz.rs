use memory_ratchet::fleet::{plan, Event, FleetOptions, FleetRun, FleetSimPlan, FleetStep};
use memory_ratchet::guest_init::{
    answer, answer_line, mem_available_kib, parse_command, touch_size, unknown_line, Command, Fleet, MemInfoError,
    Reply, WorkingSet,
};
use memory_ratchet::harness::{
    clean_line, is_shown, parse_mem, wait_step, HarnessCommand, Signal, WaitEvent, WaitOutcome,
};
use memory_ratchet::helper::{
    keep_searching, look, new_helper, parse_pids, sample, HelperLedger, Look, SampleError,
};
use memory_ratchet::options::{defaults, Advice, Options};
use memory_ratchet::reclaim::HostOp;
use memory_ratchet::survey::Verdict;
use memory_ratchet::vz::{
    balloon_settled, guest_mib, keep_watching, parse_vz_args, pressure_report, steps,
    PressureReport, Reading, VzArgError, VzFlag, VzStep,
};

fn args(words: &[&str]) -> Vec<String> {
    words.iter().map(|w| w.to_string()).collect()
}

const PATHS: [&str; 6] = ["--harness", "h", "--kernel", "k", "--initramfs", "i"];

fn with_paths(words: &[&str]) -> Vec<String> {
    let mut all = args(&PATHS);
    all.extend(args(words));
    all
}

#[test]
fn lines_ask_for_what_they_say() {
    let cases = [
        ("", Command::Blank),
        ("   \r", Command::Blank),
        ("touch 4", Command::Touch { gib: 4 }),
        ("  touch   4 \r\n", Command::Touch { gib: 4 }),
        ("touch four", Command::Touch { gib: 0 }),
        ("touch", Command::Unknown),
        ("touch4", Command::Unknown),
        ("free", Command::Free),
        ("free now", Command::Unknown),
        ("mem", Command::Mem),
        ("fleet start 3 256", Command::FleetStart { count: 3, mib: 256 }),
        ("fleet start 3", Command::FleetStart { count: 3, mib: 0 }),
        ("fleet start x 8 9", Command::FleetStart { count: 0, mib: 8 }),
        ("fleet start", Command::Unknown),
        ("fleet stop-one", Command::FleetStopOne),
        ("fleet stop", Command::FleetStop),
        ("fleet stop all", Command::Unknown),
    ];
    for (line, command) in cases {
        assert_eq!(parse_command(line), command, "{:?}", line);
    }
}

#[test]
fn replies_are_written_out() {
    assert_eq!(Reply::Ready.line(), "RATCHET READY");
    assert_eq!(Reply::Touched { gib: 4 }.line(), "RATCHET TOUCHED 4");
    assert_eq!(Reply::Freed.line(), "RATCHET FREED");
    assert_eq!(Reply::Mem { kib: 654321 }.line(), "RATCHET MEM 654321");
    assert_eq!(Reply::FleetStarted { count: 2 }.line(), "RATCHET FLEET-STARTED 2");
    assert_eq!(Reply::FleetStopped { left: 0 }.line(), "RATCHET FLEET-STOPPED 0");
    assert_eq!(unknown_line(" dance \n"), "RATCHET ERR unknown command: dance");
}

#[test]
fn fleets_stop_oldest_first() {
    let mut f = Fleet::new();
    assert_eq!(f.stop_one(), None);
    for pid in [11, 12, 13] {
        f.started(pid);
    }
    assert_eq!(f.running(), 3);
    assert_eq!(f.stop_one(), Some(11));
    assert_eq!(f.running(), 2);
    assert_eq!(f.stop(), vec![12, 13]);
    assert_eq!(f.running(), 0);
}

#[test]
fn available_memory_is_found() {
    let text = "MemTotal: 8 kB\nMemFree:  1 kB\nMemAvailable:    4321 kB\nMemAvailable: 7 kB\n";
    assert_eq!(mem_available_kib(text), Ok(4321));
    assert_eq!(mem_available_kib("MemAvailable: 5"), Ok(5));
    assert_eq!(mem_available_kib("MemAvailable: 5kB"), Ok(5));
    assert_eq!(mem_available_kib("MemTotal: 8 kB\n"), Err(MemInfoError::Missing));
    assert_eq!(mem_available_kib(" MemAvailable: 8 kB\n"), Err(MemInfoError::Missing));
    assert_eq!(mem_available_kib("MemAvailable: lots\n"), Err(MemInfoError::BadNumber));
}

#[test]
fn services_keep_an_eighth_warm() {
    let mut w = WorkingSet::of_mib(1);
    assert_eq!(w.size, 1 << 20);
    let mut all = w.dirtied();
    let mut pages = 0;
    while all.advance().is_some() {
        pages += 1;
    }
    assert_eq!(pages, 256);
    for round in 0..9u64 {
        let mut warm = w.warm();
        let mut offs = Vec::new();
        while let Some(off) = warm.advance() {
            offs.push(off);
        }
        let start = (round % 8) * (1 << 17);
        assert_eq!((offs.len(), offs[0]), (32, start));
    }
    assert_eq!(touch_size(4), Some(4 << 30));
    assert_eq!(touch_size(1 << 34), None);
}

#[test]
fn commands_reach_the_guest_as_meant() {
    let cases = [
        (HarnessCommand::Touch { gib: 4 }, Command::Touch { gib: 4 }),
        (HarnessCommand::Free, Command::Free),
        (HarnessCommand::Mem, Command::Mem),
        (HarnessCommand::FleetStart { mib: 256 }, Command::FleetStart { count: 1, mib: 256 }),
        (HarnessCommand::FleetStopOne, Command::FleetStopOne),
    ];
    for (sent, meant) in cases {
        let text = sent.text();
        let rest = text.strip_prefix("guest ").unwrap();
        assert_eq!(parse_command(rest), meant);
    }
    assert_eq!(HarnessCommand::Balloon { mib: 2048 }.text(), "balloon 2048");
    assert_eq!(HarnessCommand::Quit.text(), "quit");
    assert_eq!(HarnessCommand::FleetStart { mib: 9 }.text(), "guest fleet start 1 9");
}

#[test]
fn replies_are_found_under_their_signal() {
    let cases = [
        (Signal::Ready, Reply::Ready, ""),
        (Signal::Touched, Reply::Touched { gib: 3 }, "3"),
        (Signal::Freed, Reply::Freed, ""),
        (Signal::Mem, Reply::Mem { kib: 99 }, "99"),
        (Signal::FleetStarted, Reply::FleetStarted { count: 5 }, "5"),
        (Signal::FleetStopped, Reply::FleetStopped { left: 4 }, "4"),
    ];
    for (signal, reply, number) in cases {
        let event = WaitEvent::Line { line: reply.line() };
        match wait_step(signal.prefix(), &event) {
            WaitOutcome::Found { rest } => assert_eq!(rest, number),
            _ => panic!("{:?} was not found", reply),
        }
        assert!(is_shown(reply.line().as_str(), false));
    }
    assert_eq!(parse_mem("99"), Some(99));
    assert_eq!(parse_mem(""), None);
}

#[test]
fn waiting_ends_in_one_of_four_ways() {
    let other = WaitEvent::Line { line: "[ 0.1] kernel".to_string() };
    assert!(matches!(wait_step("RATCHET MEM", &other), WaitOutcome::Again));
    assert!(matches!(wait_step("RATCHET MEM", &WaitEvent::TimedOut), WaitOutcome::TimedOut));
    assert!(matches!(wait_step("RATCHET MEM", &WaitEvent::Exited), WaitOutcome::Exited));
    assert_eq!(Signal::Touched.timeout_secs(), 300);
    assert_eq!(Signal::Mem.timeout_secs(), 15);
    assert_eq!(Signal::BalloonTarget.timeout_secs(), 10);
    assert_eq!(Signal::Ready.timeout_secs(), 60);
}

#[test]
fn kernel_messages_are_shown_on_demand() {
    assert!(!is_shown("[ 0.1] kernel", false));
    assert!(is_shown("[ 0.1] kernel", true));
    assert!(is_shown("HARNESS started", false));
    assert!(!is_shown("RATCHETED", false));
    assert_eq!(clean_line("RATCHET READY\r\r"), "RATCHET READY");
    assert_eq!(clean_line("a\rb"), "a\rb");
}

#[test]
fn helpers_are_told_apart() {
    assert_eq!(parse_pids("12\n 34 \nnone\n\n-5\n"), vec![12, 34, -5]);
    assert_eq!(new_helper(&vec![12, 34, 56], &vec![34, 12]), Some(56));
    assert_eq!(new_helper(&vec![12, 34], &vec![34, 12]), None);
    assert_eq!(new_helper(&vec![], &vec![]), None);
    assert_eq!(sample(0, 7, 9), Ok(HelperLedger { phys_footprint: 7, resident: 9 }));
    assert_eq!(sample(-1, 7, 9), Err(SampleError { rc: -1 }));
}

#[test]
fn vz_defaults_stand() {
    let o = parse_vz_args(&with_paths(&[])).ok().unwrap();
    assert_eq!((o.harness.as_str(), o.kernel.as_str(), o.initramfs.as_str()), ("h", "k", "i"));
    assert_eq!((o.guest_gb, o.touch_gb, o.pressure_gb, o.verbose), (6, 4, 0, false));
    assert_eq!(guest_mib(&o), Some(6144));
}

#[test]
fn vz_flags_are_read() {
    let words = ["--guest-gb", "4", "--touch-gb", "3", "--pressure-gb", "12", "--verbose"];
    let o = parse_vz_args(&with_paths(&words)).ok().unwrap();
    assert_eq!((o.guest_gb, o.touch_gb, o.pressure_gb, o.verbose), (4, 3, 12, true));
}

#[test]
fn vz_refusals_are_told_apart() {
    let cases = vec![
        (with_paths(&["--fast"]), VzArgError::UnknownArgument { at: 6 }),
        (args(&["--kernel"]), VzArgError::MissingValue { flag: VzFlag::Kernel }),
        (with_paths(&["--guest-gb", "x"]), VzArgError::BadNumber { flag: VzFlag::GuestGb, at: 7 }),
        (args(&[]), VzArgError::MissingPath),
        (with_paths(&["--kernel", ""]), VzArgError::MissingPath),
        (with_paths(&["--touch-gb", "6"]), VzArgError::NoRoom),
    ];
    for (words, error) in cases {
        assert_eq!(parse_vz_args(&words).err(), Some(error), "{:?}", words);
    }
}

#[test]
fn vz_runs_touch_free_and_balloon() {
    let o = parse_vz_args(&with_paths(&[])).ok().unwrap();
    let plain = steps(&o);
    assert_eq!(plain.len(), 21);
    assert_eq!(plain[4], VzStep::Send { command: HarnessCommand::Touch { gib: 4 } });
    assert_eq!(plain[14], VzStep::Send { command: HarnessCommand::Balloon { mib: 2048 } });
    assert_eq!(plain[20], VzStep::Send { command: HarnessCommand::Quit });
    let p = parse_vz_args(&with_paths(&["--pressure-gb", "12"])).ok().unwrap();
    let pressed = steps(&p);
    assert_eq!(pressed.len(), 28);
    assert_eq!(pressed[..20], plain[..20]);
    assert_eq!(pressed[21], VzStep::ApplyPressure { gb: 12 });
    assert_eq!(pressed[25], VzStep::Read { reading: Reading::Pressed });
}

#[test]
fn balloons_settle_below_half() {
    assert!(balloon_settled(3705, 639));
    assert!(!balloon_settled(100, 50));
    assert!(balloon_settled(100, 49));
    assert!(!balloon_settled(1, 0));
}

#[test]
fn fleets_come_up_and_go_down() {
    let mut run = FleetRun::new(2, false);
    let mut trace = Vec::new();
    while let Some(step) = run.advance() {
        trace.push(step);
    }
    let mark = |event| FleetStep::Mark { event };
    assert_eq!(
        trace,
        vec![
            mark(Event::Boot),
            FleetStep::Sleep { secs: 10 },
            FleetStep::Start { service: 0 },
            mark(Event::Started { number: 1 }),
            FleetStep::Sleep { secs: 2 },
            FleetStep::Start { service: 1 },
            mark(Event::Started { number: 2 }),
            FleetStep::Sleep { secs: 2 },
            mark(Event::Hold),
            FleetStep::Sleep { secs: 30 },
            FleetStep::Stop { service: 0 },
            mark(Event::Stopped { number: 1 }),
            FleetStep::Sleep { secs: 2 },
            FleetStep::Stop { service: 1 },
            mark(Event::Stopped { number: 2 }),
            FleetStep::Sleep { secs: 2 },
            mark(Event::Tail),
            FleetStep::Sleep { secs: 30 },
            mark(Event::End),
        ]
    );
}

#[test]
fn empty_fleets_and_balloons_run_too() {
    let mut run = FleetRun::new(0, true);
    let mut trace = Vec::new();
    while let Some(step) = run.advance() {
        trace.push(step);
    }
    assert_eq!(trace.len(), 11);
    assert_eq!(trace[6], FleetStep::Balloon);
    assert_eq!(trace[7], FleetStep::Mark { event: Event::Balloon });
    assert_eq!(trace[9], FleetStep::Mark { event: Event::End });
    assert_eq!(trace[10], FleetStep::Quit);
}

#[test]
fn events_have_names() {
    assert_eq!(Event::Boot.name(), "boot");
    assert_eq!(Event::Started { number: 10 }.name(), "service-start-10");
    assert_eq!(Event::Stopped { number: 1 }.name(), "service-stop-1");
    assert_eq!(Event::Hold.name(), "hold");
    assert_eq!(Event::Tail.name(), "tail");
    assert_eq!(Event::Balloon.name(), "balloon");
    assert_eq!(Event::End.name(), "end");
}

#[test]
fn simulated_fleets_must_fit() {
    let o = defaults();
    assert_eq!(plan(&o), Some(FleetSimPlan { region: 256 << 20, services: 8 }));
    assert_eq!(plan(&Options { services: 12, ..o }), Some(FleetSimPlan { region: 256 << 20, services: 12 }));
    assert_eq!(plan(&Options { services: 13, ..o }), None);
    assert_eq!(plan(&Options { services: u64::MAX, ..o }), None);
}

#[test]
fn services_stop_by_reclaim() {
    let p = FleetSimPlan { region: 0x10_0000, services: 3 };
    assert_eq!(p.range(1), (0x10_0000, 0x20_0000));
    let mut run = p.stop_ops(2);
    let mut ops = Vec::new();
    while let Some(op) = run.request() {
        ops.push(op);
        run.reply(0).unwrap();
    }
    assert_eq!(ops.len(), 3);
    assert_eq!(ops[0], HostOp::Stage2Unmap { gpa: 0x8020_0000, len: 0x10_0000 });
    assert_eq!(
        ops[1],
        HostOp::Advise { off: 0x20_0000, len: 0x10_0000, advice: Advice::Reusable }
    );
}

#[test]
fn balloon_targets_leave_the_fleet_out() {
    let o = FleetOptions { services: 8, service_mib: 256, guest_gb: 6 };
    assert_eq!(o.balloon_target_mib(), Some(4096));
    assert_eq!(FleetOptions { guest_gb: 1, ..o }.balloon_target_mib(), None);
    assert_eq!(FleetOptions { services: 0, ..o }.balloon_target_mib(), Some(6144));
}

#[test]
fn vz_flags_given_twice_take_the_second() {
    let words = ["--guest-gb", "8", "--guest-gb", "9", "--harness", "other"];
    let o = parse_vz_args(&with_paths(&words)).ok().unwrap();
    assert_eq!((o.guest_gb, o.harness.as_str()), (9, "other"));
}

#[test]
fn simulated_services_share_no_memory() {
    let p = plan(&defaults()).unwrap();
    for i in 1..p.services {
        assert_eq!(p.range(i - 1).1, p.range(i).0);
    }
    assert!(p.range(p.services - 1).1 <= defaults().ram_size());
}

#[test]
fn every_command_has_its_answer() {
    let cases = [
        (Command::Blank, None),
        (Command::Unknown, None),
        (Command::Touch { gib: 4 }, Some(Reply::Touched { gib: 4 })),
        (Command::Free, Some(Reply::Freed)),
        (Command::Mem, Some(Reply::Mem { kib: 77 })),
        (Command::FleetStart { count: 3, mib: 5 }, Some(Reply::FleetStarted { count: 3 })),
        (Command::FleetStopOne, Some(Reply::FleetStopped { left: 2 })),
        (Command::FleetStop, Some(Reply::FleetStopped { left: 0 })),
    ];
    for (command, reply) in cases {
        assert_eq!(answer(&command, 77, 2), reply);
    }
    assert_eq!(answer_line(&Command::Blank, "", 0, 0), None);
    assert_eq!(
        answer_line(&Command::Unknown, " dance ", 0, 0).unwrap(),
        "RATCHET ERR unknown command: dance"
    );
    assert_eq!(answer_line(&Command::Mem, "mem", 9, 0).unwrap(), "RATCHET MEM 9");
}

#[test]
fn fleet_steps_are_performed_by_commands() {
    let o = FleetOptions { services: 8, service_mib: 256, guest_gb: 6 };
    assert_eq!(
        o.command(&FleetStep::Start { service: 3 }),
        Some(HarnessCommand::FleetStart { mib: 256 })
    );
    assert_eq!(o.command(&FleetStep::Stop { service: 3 }), Some(HarnessCommand::FleetStopOne));
    assert_eq!(o.command(&FleetStep::Balloon), Some(HarnessCommand::Balloon { mib: 4096 }));
    assert_eq!(o.command(&FleetStep::Quit), Some(HarnessCommand::Quit));
    assert_eq!(o.command(&FleetStep::Sleep { secs: 1 }), None);
    assert_eq!(o.command(&FleetStep::Mark { event: Event::Boot }), None);
    assert_eq!(FleetOptions { guest_gb: 1, ..o }.command(&FleetStep::Balloon), None);
    assert_eq!(HarnessCommand::FleetStopOne.awaits(), Some(Signal::FleetStopped));
    assert_eq!(HarnessCommand::Balloon { mib: 1 }.awaits(), Some(Signal::BalloonTarget));
    assert_eq!(HarnessCommand::Quit.awaits(), None);
}

#[test]
fn nothing_is_said_of_the_helper_where_the_canary_lived() {
    let before = HelperLedger { phys_footprint: 7, resident: 1 };
    let after = HelperLedger { phys_footprint: 9, resident: 2 };
    let alive = Verdict { discarded: 1, total: 4 };
    assert_eq!(pressure_report(&alive, &before, &after), PressureReport::Inconclusive);
    let dead = Verdict { discarded: 4, total: 4 };
    assert_eq!(
        pressure_report(&dead, &before, &after),
        PressureReport::Footprint { before: 7, after: 9 }
    );
}

#[test]
fn fleet_runs_send_and_mark_in_order() {
    let o = FleetOptions { services: 2, service_mib: 256, guest_gb: 4 };
    let mut run = FleetRun::new(o.services, true);
    let (mut lines, mut marks) = (Vec::new(), Vec::new());
    while let Some(step) = run.advance() {
        if let Some(command) = o.command(&step) {
            lines.push(command.text());
        }
        if let FleetStep::Mark { event } = step {
            marks.push(event.name());
        }
    }
    assert_eq!(
        lines,
        args(&[
            "guest fleet start 1 256",
            "guest fleet start 1 256",
            "guest fleet stop-one",
            "guest fleet stop-one",
            "balloon 3584",
            "quit",
        ])
    );
    assert_eq!(
        marks,
        args(&[
            "boot",
            "service-start-1",
            "service-start-2",
            "hold",
            "service-stop-1",
            "service-stop-2",
            "tail",
            "balloon",
            "end",
        ])
    );
}

#[test]
fn searches_look_until_their_time_is_over() {
    let second = 1_000_000_000;
    assert!(keep_searching(5, 5));
    assert!(keep_searching(5, 4));
    assert!(keep_searching(5, 10 * second + 4));
    assert!(!keep_searching(5, 10 * second + 5));
    assert_eq!(look(&vec![3, 9], &vec![3]), Look::Found { pid: 9 });
    assert_eq!(look(&vec![3], &vec![3]), Look::Rest { millis: 250 });
}

#[test]
fn waits_have_their_deadlines() {
    let second = 1_000_000_000;
    assert_eq!(Signal::Mem.time_left(7, 7), Some(15 * second));
    assert_eq!(Signal::Mem.time_left(7, 3), Some(15 * second));
    assert_eq!(Signal::BalloonTarget.time_left(0, 4 * second), Some(6 * second));
    assert_eq!(Signal::BalloonTarget.time_left(0, 10 * second), Some(0));
    assert_eq!(Signal::BalloonTarget.time_left(0, 10 * second + 1), None);
}

#[test]
fn balloons_are_watched_until_they_settle() {
    let second = 1_000_000_000;
    assert!(keep_watching(100, 100, 0, 0));
    assert!(keep_watching(100, 50, 0, 30 * second - 1));
    assert!(!keep_watching(100, 50, 0, 30 * second));
    assert!(!keep_watching(100, 49, 0, second));
}
