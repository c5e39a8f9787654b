use memory_ratchet::hammer::{AfterSweep, Hammer, HammerFault, Poll};
use memory_ratchet::ledger::{
    assert_host_page_size, Ledger, PageSizeMismatch, ReadError, TaskVmInfo, TASK_VM_INFO_WORDS,
};
use memory_ratchet::options::Advice;
use memory_ratchet::pressure::{
    calibrated_advices, chunk_pages, dirt, parse_pressure, reached_holding, Generator,
    GeneratorAction,
};
use memory_ratchet::probe::{probe_report, ProbeReport};
use memory_ratchet::survey::{marker, survey, survey_ram, touch_word, Canary, Verdict};

const RAM: u64 = 0x8000_0000;

const SEC: u64 = 1_000_000_000;

fn info() -> TaskVmInfo {
    TaskVmInfo {
        virtual_size: 1,
        region_count: 2,
        page_size: 3,
        resident_size: 4,
        resident_size_peak: 5,
        device: 6,
        device_peak: 7,
        internal: 8,
        internal_peak: 9,
        external: 10,
        external_peak: 11,
        reusable: 12,
        reusable_peak: 13,
        purgeable_volatile_pmap: 14,
        purgeable_volatile_resident: 15,
        purgeable_volatile_virtual: 16,
        compressed: 17,
        compressed_peak: 18,
        compressed_lifetime: 19,
        phys_footprint: 20,
    }
}

#[test]
fn readings_are_whole_or_refused() {
    let l = Ledger::read(0, TASK_VM_INFO_WORDS, &info()).unwrap();
    assert_eq!((l.phys_footprint, l.resident, l.reusable), (20, 4, 12));
    assert_eq!((l.compressed, l.regions), (17, 2));
    assert_eq!(Ledger::read(5, 38, &info()), Err(ReadError::Failed { kr: 5 }));
    assert_eq!(Ledger::read(0, 37, &info()), Err(ReadError::Short { count: 37 }));
}

#[test]
fn page_size_is_pinned() {
    assert_eq!(assert_host_page_size(16384), Ok(()));
    assert_eq!(assert_host_page_size(4096), Err(PageSizeMismatch { sys: 4096 }));
    assert_eq!(assert_host_page_size(-1), Err(PageSizeMismatch { sys: -1 }));
}

fn marked(pages: usize) -> Vec<u64> {
    (0..pages).map(|i| 0xC0DE_D00D_FEED_FACE ^ (i as u64 * 0x4000)).collect()
}

#[test]
fn canary_tells_whether_pressure_came() {
    let canary = Canary::arm(1);
    assert_eq!(canary.size, 1 << 30);
    let mut words = marked(65536);
    let alive = canary.survey(&words);
    assert_eq!(alive, Verdict { discarded: 0, total: 65536 });
    assert!(!alive.conclusive());
    assert!(alive.reading().contains("INCONCLUSIVE"));
    for w in words.iter_mut().take(32768) {
        *w = 0;
    }
    let half = canary.survey(&words);
    assert_eq!(half.discarded, 32768);
    assert!(half.conclusive());
    assert!(half.reading().ends_with("the run is conclusive"));
    words = vec![0; 65536];
    assert_eq!(canary.survey(&words).discarded, 65536);
}

#[test]
fn half_is_enough_and_less_is_not() {
    assert!(Verdict { discarded: 2, total: 4 }.conclusive());
    assert!(!Verdict { discarded: 1, total: 3 }.conclusive());
    assert!(Verdict { discarded: 0, total: 0 }.conclusive());
    assert!(Verdict { discarded: usize::MAX, total: 1 }.conclusive());
    assert!(!Verdict { discarded: 1, total: usize::MAX }.conclusive());
}

#[test]
fn canary_pages_are_walked_in_order() {
    let mut walk = Canary::arm(1).pages();
    assert_eq!(walk.advance(), Some(0));
    assert_eq!(walk.advance(), Some(0x4000));
    let mut count = 2;
    while walk.advance().is_some() {
        count += 1;
    }
    assert_eq!(count, 65536);
    assert_eq!(marker(0x4000), 0xC0DE_D00D_FEED_BACE);
    assert_eq!(touch_word(0x4000), 0xA5A5_A5A5_A5A5_E5A5);
}

#[test]
fn discard_survey_tells_zero_from_other_damage() {
    let mut words = marked(8);
    words[1] = 0;
    words[5] = 0;
    words[6] = 77;
    let s = survey(&words);
    assert_eq!((s.intact, s.zeroed), (5, 2));
    assert_eq!(survey(&vec![]).intact, 0);
}

#[test]
fn ram_survey_counts_and_shows_the_first_losses() {
    let sweeps = 9;
    let mut words: Vec<u64> = (0..10).map(|i| RAM + i * 0x4000 + sweeps).collect();
    let clean = survey_ram(&words, sweeps);
    assert_eq!((clean.intact, clean.lost, clean.examples.len()), (10, 0, 0));
    for i in [2usize, 4, 6, 8] {
        words[i] = i as u64;
    }
    let s = survey_ram(&words, sweeps);
    assert_eq!((s.intact, s.lost), (6, 4));
    assert_eq!(s.examples, vec![(0x8000, 2), (0x1_0000, 4), (0x1_8000, 6)]);
    let parked: Vec<u64> = (0..3).map(|i| RAM + i * 0x4000).collect();
    assert_eq!(survey_ram(&parked, 0).intact, 3);
    assert_eq!(survey_ram(&parked, 1).intact, 0);
}

#[test]
fn generator_holds_all_of_it_or_gives_up() {
    let mut g = Generator::parse("3").unwrap();
    for held in 1..=3 {
        assert_eq!(g.action(), GeneratorAction::Grow);
        g.grown(true);
        assert_eq!(g.held, held);
    }
    assert_eq!(g.action(), GeneratorAction::Hold);
    let mut poor = Generator::parse("3").unwrap();
    poor.grown(true);
    poor.grown(false);
    assert_eq!((poor.held, poor.action()), (1, GeneratorAction::GiveUp));
    assert_eq!(Generator::parse("0").unwrap().action(), GeneratorAction::Hold);
    assert_eq!(Generator::parse("lots"), None);
}

#[test]
fn generator_dirties_whole_chunks() {
    let mut pages = chunk_pages();
    let mut last = 0;
    let mut count = 0;
    while let Some(off) = pages.advance() {
        last = off;
        count += 1;
    }
    assert_eq!((count, last), (65536, (1 << 30) - 0x4000));
    assert_eq!(dirt(0x4000), 0xDEAD_4000);
}

#[test]
fn only_the_right_line_means_holding() {
    assert!(reached_holding(&Some("HOLDING".to_string())));
    assert!(!reached_holding(&Some("HOLDING ".to_string())));
    assert!(!reached_holding(&Some("".to_string())));
    assert!(!reached_holding(&None));
}

#[test]
fn pressure_is_read_off_the_command_line() {
    let args = |ws: &[&str]| -> Vec<String> { ws.iter().map(|w| w.to_string()).collect() };
    assert_eq!(parse_pressure(&args(&["discard"])), Some(48));
    assert_eq!(parse_pressure(&args(&["discard", "--pressure-gb", "12"])), Some(12));
    assert_eq!(parse_pressure(&args(&["discard", "x", "--pressure-gb"])), Some(48));
    assert_eq!(parse_pressure(&args(&["discard", "--pressure-gb", "many"])), None);
    assert_eq!(
        parse_pressure(&args(&["discard", "--pressure-gb", "1", "--pressure-gb", "2"])),
        Some(1)
    );
}

#[test]
fn advices_are_calibrated_in_order() {
    assert_eq!(calibrated_advices(), vec![Advice::DontNeed, Advice::Free, Advice::Reusable]);
}

#[test]
fn hammer_holds_then_releases_then_tails() {
    let mut h = Hammer::new();
    let on = AfterSweep { release: false, go_on: true };
    assert!(h.wants_poll());
    assert_eq!(h.swept(Poll::Pending, SEC), Ok(on));
    assert_eq!(h.swept(Poll::Ready, 2 * SEC), Ok(on));
    assert!(!h.wants_poll());
    assert_eq!(h.swept(Poll::Skipped, 10 * SEC - 1), Ok(on));
    assert_eq!(h.swept(Poll::Skipped, 10 * SEC), Ok(AfterSweep { release: true, go_on: true }));
    assert!(!h.wants_poll());
    assert_eq!(h.swept(Poll::Skipped, 12 * SEC - 1), Ok(on));
    assert_eq!(h.swept(Poll::Skipped, 12 * SEC), Ok(AfterSweep { release: false, go_on: false }));
}

#[test]
fn hammer_reports_a_dead_generator() {
    let mut h = Hammer::new();
    assert_eq!(h.swept(Poll::Failed, 0), Err(HammerFault::GeneratorFailed));
    assert_eq!(h.swept(Poll::Dead, 0), Err(HammerFault::GeneratorThreadDied));
    assert_eq!(h.swept(Poll::Skipped, 0), Err(HammerFault::OutOfTurn));
    h.swept(Poll::Ready, 0).unwrap();
    assert_eq!(h.swept(Poll::Ready, 0), Err(HammerFault::OutOfTurn));
}

#[test]
fn markers_are_distinct_and_never_zero() {
    let mut seen: Vec<u64> = (0..1000u64).map(|i| marker(i * 0x4000)).collect();
    assert!(seen.iter().all(|m| *m != 0));
    seen.sort();
    seen.dedup();
    assert_eq!(seen.len(), 1000);
}

#[test]
fn a_page_discarded_once_never_catches_up() {
    for discarded_after in 0..5u64 {
        let mut word = RAM;
        for sweep in 0..5u64 {
            if sweep == discarded_after {
                word = 0;
            }
            word += 1;
        }
        assert_eq!(survey_ram(&vec![word], 5).lost, 1);
    }
    assert_eq!(survey_ram(&vec![RAM + 5], 5).lost, 0);
}

#[test]
fn nothing_is_said_of_guest_data_where_the_canary_lived() {
    let words = vec![RAM + 2, 0];
    let alive = Verdict { discarded: 1, total: 3 };
    assert!(matches!(probe_report(&alive, &words, 2), ProbeReport::Inconclusive));
    let dead = Verdict { discarded: 2, total: 3 };
    match probe_report(&dead, &words, 2) {
        ProbeReport::GuestData { survey } => {
            assert_eq!((survey.intact, survey.lost), (1, 1));
            assert_eq!(survey.examples, vec![(0x4000, 0)]);
        }
        ProbeReport::Inconclusive => panic!("the canary died"),
    }
}
