use memory_ratchet::options::{
    defaults, find_conflict, find_flag, gib, mib_bytes, parse_args, Advice, ArgError, Flag,
    ReclaimMode,
};

fn args(words: &[&str]) -> Vec<String> {
    words.iter().map(|w| w.to_string()).collect()
}

#[test]
fn no_arguments_give_the_defaults() {
    let o = parse_args(&args(&[])).unwrap();
    assert_eq!(o, defaults());
    assert_eq!(o.advice, Advice::Reusable);
    assert_eq!((o.size_gb, o.pressure_gb, o.repeat), (3, 48, 1));
    assert_eq!((o.extent_kb, o.services, o.service_mib), (0, 8, 256));
    assert_eq!((o.soak_minutes, o.vcpus), (60, 4));
    assert_eq!(o.reclaim_mode, ReclaimMode::Reusable);
    assert_eq!(o.ram_size(), 3 << 30);
}

#[test]
fn every_value_flag_is_read() {
    let o = parse_args(&args(&[
        "--soak", "--advice", "dontneed", "--size-gb", "5", "--pressure-gb", "12", "--repeat",
        "7", "--extent-kb", "64", "--reclaim-mode", "munmap", "--soak-minutes", "90", "--vcpus",
        "2", "--services", "3", "--service-mib", "128", "--steady-state",
    ]))
    .unwrap();
    assert_eq!(o.advice, Advice::DontNeed);
    assert_eq!((o.size_gb, o.pressure_gb, o.repeat, o.extent_kb), (5, 12, 7, 64));
    assert_eq!(o.reclaim_mode, ReclaimMode::Munmap);
    assert_eq!((o.soak_minutes, o.vcpus, o.services, o.service_mib), (90, 2, 3, 128));
    assert!(o.soak && o.steady_state);
}

#[test]
fn every_switch_is_read() {
    let plain = parse_args(&args(&["--naive", "--host-touch", "--guest-read", "--pressure-check"]));
    let o = plain.unwrap();
    assert!(o.naive && o.host_touch && o.guest_read && o.pressure_check && !o.hammer);
    assert!(parse_args(&args(&["--hammer"])).unwrap().hammer);
    assert!(parse_args(&args(&["--time-reclaim"])).unwrap().time_reclaim);
    assert!(parse_args(&args(&["--fleet-sim"])).unwrap().fleet_sim);
}

#[test]
fn the_last_value_counts() {
    let o = parse_args(&args(&["--size-gb", "1", "--size-gb", "2"])).unwrap();
    assert_eq!(o.size_gb, 2);
}

#[test]
fn bad_arguments_are_told_apart() {
    let cases: Vec<(Vec<&str>, ArgError)> = vec![
        (vec!["--naive", "--frob"], ArgError::UnknownArgument { at: 1 }),
        (vec!["--advice", "maybe"], ArgError::UnknownAdvice { at: 1 }),
        (vec!["--advice"], ArgError::UnknownAdvice { at: 1 }),
        (vec!["--reclaim-mode", "free"], ArgError::UnknownReclaimMode { at: 1 }),
        (vec!["--reclaim-mode"], ArgError::UnknownReclaimMode { at: 1 }),
        (vec!["--size-gb"], ArgError::MissingValue { flag: Flag::SizeGb }),
        (vec!["--vcpus", "four"], ArgError::BadNumber { flag: Flag::Vcpus, at: 1 }),
        (vec!["--services", "-1"], ArgError::BadNumber { flag: Flag::Services, at: 1 }),
        (vec!["--repeat", "0"], ArgError::Zero { flag: Flag::Repeat }),
        (vec!["--vcpus", "0"], ArgError::Zero { flag: Flag::Vcpus }),
        (vec!["--hammer", "--naive"], ArgError::HammerExcludes),
        (vec!["--hammer", "--host-touch"], ArgError::HammerExcludes),
        (vec!["--hammer", "--pressure-check"], ArgError::HammerExcludes),
        (vec!["--repeat", "2", "--hammer"], ArgError::RepeatExcludes),
        (vec!["--repeat", "2", "--pressure-check"], ArgError::RepeatExcludes),
        (vec!["--soak", "--fleet-sim"], ArgError::SeparateModes),
        (vec!["--soak", "--naive"], ArgError::ModeExcludes),
        (vec!["--time-reclaim", "--host-touch"], ArgError::ModeExcludes),
        (vec!["--extent-kb", "16"], ArgError::TimingOnly),
        (vec!["--steady-state"], ArgError::TimingOnly),
        (vec!["--reclaim-mode", "munmap"], ArgError::TimingOnly),
    ];
    for (words, error) in cases {
        assert_eq!(parse_args(&args(&words)), Err(error), "{:?}", words);
    }
}

#[test]
fn guest_read_goes_with_a_mode() {
    let o = parse_args(&args(&["--fleet-sim", "--guest-read"])).unwrap();
    assert_eq!(find_conflict(&o), None);
}

#[test]
fn names_are_those_of_the_advice() {
    assert_eq!(Advice::Reusable.name(), "MADV_FREE_REUSABLE");
    assert_eq!(Advice::Free.name(), "MADV_FREE");
    assert_eq!(Advice::DontNeed.name(), "MADV_DONTNEED");
    assert_eq!(Advice::parse("free"), Some(Advice::Free));
    assert_eq!(Advice::parse("MADV_FREE"), None);
    assert_eq!(ReclaimMode::Reusable.name(), "reusable");
    assert_eq!(ReclaimMode::Munmap.name(), "munmap");
    assert_eq!(ReclaimMode::parse("munmap"), Some(ReclaimMode::Munmap));
    assert_eq!(ReclaimMode::parse(""), None);
    assert_eq!(find_flag("--vcpus"), Some(Flag::Vcpus));
    assert_eq!(find_flag("vcpus"), None);
}

#[test]
fn sizes_are_shifts() {
    assert_eq!(gib(1), 0x4000_0000);
    assert_eq!(gib(3), 3 << 30);
    assert_eq!(gib(1 << 34), 0);
    assert_eq!(mib_bytes(256), 0x1000_0000);
    assert_eq!(mib_bytes(u64::MAX), u64::MAX << 20);
}

#[test]
fn the_order_of_flags_does_not_matter() {
    let groups: [&[&str]; 4] = [&["--soak"], &["--vcpus", "2"], &["--size-gb", "5"], &["--advice", "free"]];
    let line = |order: [usize; 4]| -> Vec<String> {
        args(&order.iter().flat_map(|i| groups[*i].to_vec()).collect::<Vec<&str>>())
    };
    let first = parse_args(&line([0, 1, 2, 3])).unwrap();
    for order in [[3, 2, 1, 0], [1, 0, 3, 2], [2, 3, 0, 1], [0, 2, 1, 3]] {
        assert_eq!(parse_args(&line(order)), Ok(first));
    }
}
