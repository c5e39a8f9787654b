use memory_ratchet::alloc_shape::{
    alloc_failed_line, cell_steps, find, host_word, is_fatal, matrix, read_result, result_head,
    verdict, AdviceStatus, Cell, CellError, CellStep, Judged, Release, ResultError, Sequence, Shape,
    ShapeVerdict, Toucher,
};
use memory_ratchet::guest::RAM_GPA;
use memory_ratchet::options::Advice;
use memory_ratchet::reclaim::HostOp;

#[test]
fn names_and_tags_stand() {
    assert_eq!(Shape::MmapPrivate.name(), "mmap(PRIVATE)");
    assert_eq!(Shape::MmapShared.name(), "mmap(SHARED)");
    assert_eq!(Shape::HvAllocate.name(), "hv_vm_allocate");
    assert_eq!(Shape::parse("hvalloc"), Some(Shape::HvAllocate));
    assert_eq!(Shape::parse("mmap(PRIVATE)"), None);
    assert_eq!(Toucher::parse("guest"), Some(Toucher::Guest));
    assert_eq!(Toucher::parse("Guest"), None);
    assert_eq!(Sequence::InPlace.name(), "in-place");
    assert_eq!(Sequence::UnmapFirst.name(), "unmap-first");
    assert_eq!(Sequence::UnmapOnly.name(), "unmap-only");
    assert_eq!(Sequence::parse("unmap-only"), None);
    for s in [Sequence::InPlace, Sequence::UnmapFirst, Sequence::UnmapOnly] {
        assert_eq!(Sequence::parse(s.tag()), Some(s));
    }
}

#[test]
fn the_matrix_is_run_in_order() {
    let cells = matrix(2);
    assert_eq!(cells.len(), 18);
    let mut expected = Vec::new();
    for shape in [Shape::MmapPrivate, Shape::MmapShared, Shape::HvAllocate] {
        for toucher in [Toucher::Host, Toucher::Guest] {
            for sequence in [Sequence::InPlace, Sequence::UnmapFirst, Sequence::UnmapOnly] {
                expected.push(Cell { shape, toucher, sequence, size_gb: 2 });
            }
        }
    }
    assert_eq!(cells, expected);
}

#[test]
fn cells_read_back() {
    for cell in matrix(3) {
        assert_eq!(Cell::parse(cell.text().as_str()), Ok(cell));
    }
    assert_eq!(matrix(3)[17].text(), "hvalloc:guest:unmaponly:3");
    assert_eq!(matrix(3)[0].size(), 3 << 30);
}

#[test]
fn bad_cells_are_told_apart() {
    assert_eq!(Cell::parse(""), Err(CellError::Parts { count: 1 }));
    assert_eq!(Cell::parse("private:host:inplace:1:2"), Err(CellError::Parts { count: 5 }));
    assert_eq!(Cell::parse("x:y:z:w"), Err(CellError::UnknownShape));
    assert_eq!(Cell::parse("private:y:z:w"), Err(CellError::UnknownToucher));
    assert_eq!(Cell::parse("private:host:z:w"), Err(CellError::UnknownSequence));
    assert_eq!(Cell::parse("private:host:unmap:w"), Err(CellError::BadSize));
}

#[test]
fn cells_release_as_they_are_called() {
    let steps = |i: usize| -> Vec<CellStep> { cell_steps(&matrix(1)[i], true) };
    let size = 1u64 << 30;
    let unmap = CellStep::Release { op: HostOp::Stage2Unmap { gpa: RAM_GPA, len: size } };
    let advise = CellStep::Release {
        op: HostOp::Advise { off: 0, len: size, advice: Advice::Reusable },
    };
    let remap = CellStep::Release { op: HostOp::Stage2Map { off: 0, gpa: RAM_GPA, len: size } };
    assert_eq!(
        steps(0),
        vec![
            CellStep::CreateVm,
            CellStep::Touch { by: Toucher::Host },
            CellStep::ReadBefore,
            advise,
            CellStep::ReadAfter,
            CellStep::Report,
            CellStep::DestroyVm,
        ]
    );
    assert_eq!(
        steps(4)[1..7],
        [
            CellStep::Touch { by: Toucher::Guest },
            CellStep::ReadBefore,
            unmap,
            advise,
            remap,
            CellStep::ReadAfter,
        ]
    );
    assert_eq!(steps(17)[3..6], [unmap, remap, CellStep::ReadAfter]);
    assert_eq!(host_word(0x4000), 0xA5A5_4000);
}

#[test]
fn cells_without_memory_only_say_so() {
    let cell = matrix(1)[15];
    assert_eq!(cell_steps(&cell, false), vec![CellStep::ReportAllocFailed]);
    assert_eq!(alloc_failed_line(&cell), "CELL hvalloc guest inplace alloc-failed 0 0 0 0");
}

#[test]
fn only_rejected_advice_is_a_result() {
    let advise = HostOp::Advise { off: 0, len: 1, advice: Advice::Reusable };
    let unmap = HostOp::Stage2Unmap { gpa: 0, len: 1 };
    assert!(!is_fatal(&advise, -1));
    assert!(is_fatal(&unmap, -1));
    assert!(!is_fatal(&unmap, 0));
}

#[test]
fn statuses_are_written_out() {
    assert_eq!(AdviceStatus::of(Sequence::UnmapOnly, -1, 5).text(), "none");
    assert_eq!(AdviceStatus::of(Sequence::InPlace, 0, 5).text(), "ok");
    assert_eq!(AdviceStatus::of(Sequence::UnmapFirst, -1, 22).text(), "errno22");
    assert_eq!(AdviceStatus::of(Sequence::UnmapFirst, -1, -1).text(), "errno-1");
    assert_eq!(AdviceStatus::AllocFailed.text(), "alloc-failed");
    assert_eq!(
        result_head(&matrix(1)[4], &AdviceStatus::Accepted),
        "CELL private guest unmap ok"
    );
}

#[test]
fn results_are_found_in_the_output() {
    let out = "noise\nCELL private guest unmap ok -1024.0 1030.5 6.2 0.0\nCELL x\n";
    let r = read_result(out).ok().unwrap();
    assert_eq!(r.status, "ok");
    assert_eq!(r.numbers, vec!["-1024.0", "1030.5", "6.2", "0.0"]);
    assert_eq!(read_result("noise\n").err(), Some(ResultError::Missing));
    assert_eq!(read_result(" CELL a b c d 1\n").err(), Some(ResultError::Missing));
    assert_eq!(read_result("CELL a b c d\n").err(), Some(ResultError::Short));
}

#[test]
fn releases_are_judged() {
    assert_eq!(Release::judge(false, true).label(), "n/a");
    assert_eq!(Release::judge(true, true).label(), "YES");
    assert_eq!(Release::judge(true, false).label(), "no");
}

fn judged(released: &[(Shape, Toucher, Sequence)]) -> Vec<Judged> {
    matrix(1)
        .into_iter()
        .map(|c| Judged {
            shape: c.shape,
            toucher: c.toucher,
            sequence: c.sequence,
            release: Release::judge(true, released.contains(&(c.shape, c.toucher, c.sequence))),
        })
        .collect()
}

#[test]
fn the_verdict_reads_the_matrix() {
    let private = Shape::MmapPrivate;
    let nothing = judged(&[]);
    assert_eq!(
        verdict(&nothing),
        Some(ShapeVerdict { shape_matters: false, hv_releases: false, advice_is_idle: false })
    );
    let idle = judged(&[
        (private, Toucher::Guest, Sequence::UnmapOnly),
        (private, Toucher::Guest, Sequence::UnmapFirst),
    ]);
    assert_eq!(
        verdict(&idle),
        Some(ShapeVerdict { shape_matters: false, hv_releases: false, advice_is_idle: true })
    );
    let control_fails = judged(&[
        (private, Toucher::Guest, Sequence::UnmapOnly),
        (private, Toucher::Guest, Sequence::UnmapFirst),
        (private, Toucher::Host, Sequence::UnmapOnly),
    ]);
    assert!(!verdict(&control_fails).unwrap().advice_is_idle);
    let hv = judged(&[(Shape::HvAllocate, Toucher::Guest, Sequence::InPlace)]);
    assert_eq!(
        verdict(&hv),
        Some(ShapeVerdict { shape_matters: true, hv_releases: true, advice_is_idle: false })
    );
    let host_in_place = judged(&[(private, Toucher::Host, Sequence::InPlace)]);
    assert!(!verdict(&host_in_place).unwrap().shape_matters);
}

#[test]
fn the_verdict_needs_its_cells() {
    let mut rows = judged(&[]);
    assert_eq!(find(&rows, Shape::HvAllocate, Toucher::Guest, Sequence::InPlace), Some(15));
    rows.truncate(15);
    assert_eq!(find(&rows, Shape::HvAllocate, Toucher::Guest, Sequence::InPlace), None);
    assert_eq!(verdict(&rows), None);
}
