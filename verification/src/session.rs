//! What comes of a drive when a vCPU serves it: the guest programs, the
//! register protocol and the exits taken together.

use crate::guest::{
    exit_meaning, fill_drive, hammer_drive, read_drive, sweep_drive, touch_drive, verify_drive,
    with_programs, DriveState, Goal, GuestExit, Phase, RegWrite, Reply, Request, RAM_GPA,
};
use crate::hvf::{HV_REG_PC, HV_REG_X4};
use crate::ledger::PAGE;
use crate::machine::{
    law_guest_is_deterministic, lemma_rings_after, lemma_steps_add, rings, steps, two64, Cpu,
};
use crate::programs::{
    filled, in_range, incremented, law_fill_range_stamps_the_value, law_hammer_counts_its_sweeps,
    law_read_pass_changes_nothing, law_sweep_range_increments_once,
    law_filled_range_verifies_clean, law_other_values_mismatch_everywhere,
    law_touch_range_stamps_addresses, law_verify_range_counts_mismatches, lemma_hammer_stops,
    lemma_same_mismatches, mismatches, pages_visited, raised, resumed, rings_times, started, visits,
};
use vstd::prelude::*;

verus! {

/// The value of a register as the host reads it.
pub open spec fn host_reads(c: Cpu, reg: u32) -> int {
    if reg == HV_REG_PC {
        c.pc
    } else {
        c.x[reg as int]
    }
}

/// Whether a vCPU in state `c` that runs the code page may answer a request
/// with `reply` and be in state `d` then. A run ends at the doorbell, or is
/// canceled anywhere before it.
pub open spec fn serves(page: Seq<u32>, request: Request, c: Cpu, reply: Reply, d: Cpu) -> bool {
    match request {
        Request::Write(w) => reply == (Reply::Wrote { ret: 0 }) && d == c.written(w),
        Request::Run => reply matches Reply::Ran { ret, info } && ret == 0 && match exit_meaning(
            info,
        ) {
            GuestExit::Doorbell => rings(page, c, d),
            GuestExit::Canceled => exists|n: nat| #[trigger] steps(page, c, n) == Some(d),
            GuestExit::Unexpected { ec: _ } => false,
        },
        Request::Read { reg } => reply matches Reply::Value { ret, value } && ret == 0 && value
            == host_reads(c, reg) && d == c,
        Request::KeepGoing { sweeps: _ } => d == c && reply is Keep,
        Request::Finished { count: _ } => false,
    }
}

/// A drive that is served never faults.
pub proof fn law_served_drives_never_fault(
    page: Seq<u32>,
    s: DriveState,
    c: Cpu,
    reply: Reply,
    d: Cpu,
)
    requires
        serves(page, s.asks(), c, reply, d),
    ensures
        s.after(reply) is Ok,
{
}

/// Where a drive and the vCPU that serves it stand.
pub struct Session {
    pub drive: DriveState,
    pub cpu: Cpu,
}

/// Where a drive and the vCPU stand after the exchanges in `log`, each a reply
/// and the vCPU's state then, if the vCPU served every one of them.
pub open spec fn served(page: Seq<u32>, s: DriveState, c: Cpu, log: Seq<(Reply, Cpu)>) -> Option<
    Session,
>
    decreases log.len(),
{
    if log.len() == 0 {
        Some(Session { drive: s, cpu: c })
    } else {
        match served(page, s, c, log.drop_last()) {
            None => None,
            Some(before) => {
                let (reply, d) = log.last();
                match before.drive.after(reply) {
                    Ok(phase) => if serves(page, before.drive.asks(), before.cpu, reply, d) {
                        Some(Session { drive: DriveState { phase, ..before.drive }, cpu: d })
                    } else {
                        None
                    },
                    Err(_) => None,
                }
            },
        }
    }
}

/// Whether a drive that was served ended, and with which count.
pub open spec fn ended(
    page: Seq<u32>,
    s: DriveState,
    c: Cpu,
    log: Seq<(Reply, Cpu)>,
    count: u64,
) -> bool {
    match served(page, s, c, log) {
        Some(end) => end.drive.phase == (Phase::Finished { count }),
        None => false,
    }
}

/// The vCPU when the drive ended.
pub open spec fn final_cpu(page: Seq<u32>, s: DriveState, c: Cpu, log: Seq<(Reply, Cpu)>) -> Cpu {
    served(page, s, c, log)->Some_0.cpu
}

/// A drive that starts finished is asked nothing.
proof fn lemma_nothing_to_do(page: Seq<u32>, s: DriveState, c: Cpu, log: Seq<(Reply, Cpu)>)
    requires
        s.phase is Finished,
        served(page, s, c, log) is Some,
    ensures
        log.len() == 0,
        served(page, s, c, log) == Some(Session { drive: s, cpu: c }),
    decreases log.len(),
{
    if log.len() > 0 {
        lemma_nothing_to_do(page, s, c, log.drop_last());
        assert(s.after(log.last().0) is Err);
    }
}

/// Whether state `d` is reached from `c` without leaving the guest.
spec fn reaches(page: Seq<u32>, c: Cpu, d: Cpu) -> bool {
    exists|n: nat| #[trigger] steps(page, c, n) == Some(d)
}

proof fn lemma_reaches_further(page: Seq<u32>, c: Cpu, d: Cpu, e: Cpu)
    requires
        reaches(page, c, d),
    ensures
        reaches(page, d, e) ==> reaches(page, c, e),
        rings(page, d, e) ==> rings(page, c, e),
{
    let n = choose|n: nat| #[trigger] steps(page, c, n) == Some(d);
    if reaches(page, d, e) {
        let m = choose|m: nat| #[trigger] steps(page, d, m) == Some(e);
        lemma_steps_add(page, c, n, m);
        assert(steps(page, c, n + m) == Some(e));
    }
    if rings(page, d, e) {
        lemma_rings_after(page, c, n, d, e);
    }
}

/// One more register write.
proof fn lemma_one_more_write(c: Cpu, ws: Seq<RegWrite>, i: int)
    requires
        0 <= i < ws.len(),
    ensures
        c.all_written(ws.take(i + 1)) == c.all_written(ws.take(i)).written(ws[i]),
{
    assert(ws.take(i + 1).drop_last() =~= ws.take(i));
}

/// What holds between exchanges of a drive that runs to the doorbell once.
spec fn on_course(page: Seq<u32>, s: DriveState, c: Cpu, now: Session) -> bool {
    let t = now.drive;
    let b = now.cpu;
    let entry = started(c, s);
    &&& t.writes == s.writes
    &&& t.goal == s.goal
    &&& match t.phase {
        Phase::Arming { next } => next <= s.writes.len() && b == c.all_written(
            s.writes.take(next as int),
        ),
        Phase::Entering => reaches(page, entry, b),
        Phase::Counting => s.goal == Goal::Mismatches && rings(page, entry, b),
        Phase::Finished { count } => rings(page, entry, b) && (s.goal == Goal::Mismatches ==> count
            == b.x[HV_REG_X4 as int]),
        _ => false,
    }
}

proof fn lemma_on_course(page: Seq<u32>, s: DriveState, c: Cpu, log: Seq<(Reply, Cpu)>)
    requires
        s.goal != Goal::Sweeps,
        s.writes.len() <= usize::MAX,
        s.phase == (Phase::Arming { next: 0 }),
        served(page, s, c, log) is Some,
    ensures
        on_course(page, s, c, served(page, s, c, log)->Some_0),
    decreases log.len(),
{
    let entry = started(c, s);
    assert(s.writes.take(s.writes.len() as int) =~= s.writes);
    if log.len() == 0 {
        assert(s.writes.take(0) =~= Seq::<RegWrite>::empty());
    } else {
        lemma_on_course(page, s, c, log.drop_last());
        let before = served(page, s, c, log.drop_last())->Some_0;
        let t = before.drive;
        let b = before.cpu;
        let (reply, d) = log.last();
        assert(serves(page, t.asks(), b, reply, d));
        assert(steps(page, entry, 0) == Some(entry));
        match t.phase {
            Phase::Arming { next } => {
                if next < s.writes.len() {
                    lemma_one_more_write(c, s.writes, next as int);
                } else {
                    assert(reaches(page, entry, b));
                    lemma_reaches_further(page, entry, b, d);
                }
            },
            Phase::Entering => {
                lemma_reaches_further(page, entry, b, d);
            },
            _ => {},
        }
    }
}

/// A touch pass over a range, served to its end, leaves every visited page
/// holding its own guest address, and the rest of memory as it was.
pub proof fn law_touch_range_ends(
    page: Seq<u32>,
    c: Cpu,
    start_off: u64,
    end_off: u64,
    log: Seq<(Reply, Cpu)>,
    count: u64,
)
    requires
        page.len() >= 0x1000,
        c.wf(),
        in_range(RAM_GPA + start_off, RAM_GPA + end_off),
        ended(
            with_programs(page),
            touch_drive(start_off, end_off),
            c,
            log,
            count,
        ),
    ensures
        ({
            let s = touch_drive(start_off, end_off);
            let d = final_cpu(with_programs(page), s, c, log);
            forall|a: int| #[trigger]
                d.mem[a] == if visits(RAM_GPA + start_off, RAM_GPA + end_off, a) {
                    a
                } else {
                    c.mem[a]
                }
        }),
{
    let p = with_programs(page);
    let s = touch_drive(start_off, end_off);
    if start_off >= end_off {
        lemma_nothing_to_do(p, s, c, log);
    } else {
        lemma_on_course(p, s, c, log);
        law_touch_range_stamps_addresses(page, c, start_off, end_off);
        let e = choose|e: Cpu| #[trigger]
            rings(p, started(c, s), e) && forall|a: int| #[trigger]
                e.mem[a] == if visits(RAM_GPA + start_off, RAM_GPA + end_off, a) {
                    a
                } else {
                    c.mem[a]
                };
        law_guest_is_deterministic(p, started(c, s), final_cpu(p, s, c, log), e);
    }
}

/// A read pass, served to its end, changes no memory.
pub proof fn law_read_pass_ends(
    page: Seq<u32>,
    c: Cpu,
    ram_size: u64,
    log: Seq<(Reply, Cpu)>,
    count: u64,
)
    requires
        page.len() >= 0x1000,
        c.wf(),
        in_range(RAM_GPA as int, RAM_GPA + ram_size),
        ended(
            with_programs(page),
            read_drive(ram_size),
            c,
            log,
            count,
        ),
    ensures
        ({
            let s = read_drive(ram_size);
            final_cpu(with_programs(page), s, c, log).mem == c.mem
        }),
{
    let p = with_programs(page);
    let s = read_drive(ram_size);
    if ram_size == 0 {
        lemma_nothing_to_do(p, s, c, log);
    } else {
        lemma_on_course(p, s, c, log);
        law_read_pass_changes_nothing(page, c, ram_size);
        let e = choose|e: Cpu| #[trigger] rings(p, started(c, s), e) && e.mem == c.mem;
        law_guest_is_deterministic(p, started(c, s), final_cpu(p, s, c, log), e);
    }
}

/// A fill, served to its end, leaves the value in every visited page and the
/// rest of memory as it was.
pub proof fn law_fill_range_ends(
    page: Seq<u32>,
    c: Cpu,
    start_off: u64,
    end_off: u64,
    value: u64,
    log: Seq<(Reply, Cpu)>,
    count: u64,
)
    requires
        page.len() >= 0x1000,
        c.wf(),
        in_range(RAM_GPA + start_off, RAM_GPA + end_off),
        ended(with_programs(page), fill_drive(start_off, end_off, value), c, log, count),
    ensures
        final_cpu(with_programs(page), fill_drive(start_off, end_off, value), c, log).mem == filled(
            c.mem,
            RAM_GPA + start_off,
            RAM_GPA + end_off,
            value as int,
        ),
{
    let p = with_programs(page);
    let s = fill_drive(start_off, end_off, value);
    if start_off >= end_off {
        lemma_nothing_to_do(p, s, c, log);
        assert(filled(c.mem, RAM_GPA + start_off, RAM_GPA + end_off, value as int) =~= c.mem);
    } else {
        lemma_on_course(p, s, c, log);
        law_fill_range_stamps_the_value(page, c, start_off, end_off, value);
        let e = choose|e: Cpu| #[trigger]
            rings(p, started(c, s), e) && e.mem == filled(
                c.mem,
                RAM_GPA + start_off,
                RAM_GPA + end_off,
                value as int,
            );
        law_guest_is_deterministic(p, started(c, s), final_cpu(p, s, c, log), e);
    }
}

/// A verify pass, served to its end, returns how many pages of the range did
/// not hold what was expected, and changes no memory.
pub proof fn law_verify_range_returns_the_mismatches(
    page: Seq<u32>,
    c: Cpu,
    start_off: u64,
    end_off: u64,
    expected: u64,
    log: Seq<(Reply, Cpu)>,
    count: u64,
)
    requires
        page.len() >= 0x1000,
        c.wf(),
        in_range(RAM_GPA + start_off, RAM_GPA + end_off),
        ended(with_programs(page), verify_drive(start_off, end_off, expected), c, log, count),
    ensures
        count == mismatches(c.mem, RAM_GPA + start_off, RAM_GPA + end_off, expected as int),
        final_cpu(with_programs(page), verify_drive(start_off, end_off, expected), c, log).mem
            == c.mem,
{
    let p = with_programs(page);
    let s = verify_drive(start_off, end_off, expected);
    if start_off >= end_off {
        lemma_nothing_to_do(p, s, c, log);
    } else {
        lemma_on_course(p, s, c, log);
        law_verify_range_counts_mismatches(page, c, start_off, end_off, expected);
        let e = choose|e: Cpu| #[trigger]
            rings(p, started(c, s), e) && e.mem == c.mem && e.x[HV_REG_X4 as int] == mismatches(
                c.mem,
                RAM_GPA + start_off,
                RAM_GPA + end_off,
                expected as int,
            );
        law_guest_is_deterministic(p, started(c, s), final_cpu(p, s, c, log), e);
    }
}

/// Once a fill was served to its end, and as long as the range has not
/// changed since, a verify pass over it returns zero for the value that was
/// filled in and every page for any other, whatever the range held before.
pub proof fn law_verify_tells_what_was_filled(
    page: Seq<u32>,
    c: Cpu,
    start_off: u64,
    end_off: u64,
    value: u64,
    filling: Seq<(Reply, Cpu)>,
    done: u64,
    d: Cpu,
    expected: u64,
    verifying: Seq<(Reply, Cpu)>,
    count: u64,
)
    requires
        page.len() >= 0x1000,
        c.wf(),
        d.wf(),
        in_range(RAM_GPA + start_off, RAM_GPA + end_off),
        ended(with_programs(page), fill_drive(start_off, end_off, value), c, filling, done),
        ({
            let after = final_cpu(
                with_programs(page),
                fill_drive(start_off, end_off, value),
                c,
                filling,
            );
            forall|a: int|
                visits(RAM_GPA + start_off, RAM_GPA + end_off, a) ==> #[trigger] d.mem[a]
                    == after.mem[a]
        }),
        ended(with_programs(page), verify_drive(start_off, end_off, expected), d, verifying, count),
    ensures
        expected == value ==> count == 0,
        expected != value ==> count == pages_visited(start_off as int, end_off as int),
        expected != value && start_off <= end_off && (end_off - start_off) % (PAGE as int) == 0
            ==> count == (end_off - start_off) / (PAGE as int),
{
    let from = RAM_GPA + start_off;
    let to = RAM_GPA + end_off;
    let stamped = filled(c.mem, from, to, value as int);
    law_fill_range_ends(page, c, start_off, end_off, value, filling, done);
    law_verify_range_returns_the_mismatches(
        page,
        d,
        start_off,
        end_off,
        expected,
        verifying,
        count,
    );
    lemma_same_mismatches(d.mem, stamped, from, to, expected as int);
    if expected == value {
        law_filled_range_verifies_clean(c.mem, from, to, value as int);
    } else {
        law_other_values_mismatch_everywhere(c.mem, from, to, value as int, expected as int);
    }
}

/// One sweep over a range, served to its end, increments every visited page
/// once and leaves the rest of memory as it was.
pub proof fn law_sweep_range_ends(
    page: Seq<u32>,
    c: Cpu,
    start_off: u64,
    end_off: u64,
    log: Seq<(Reply, Cpu)>,
    count: u64,
)
    requires
        page.len() >= 0x1000,
        c.wf(),
        in_range(RAM_GPA + start_off, RAM_GPA + end_off),
        ended(with_programs(page), sweep_drive(start_off, end_off), c, log, count),
    ensures
        final_cpu(with_programs(page), sweep_drive(start_off, end_off), c, log).mem == incremented(
            c.mem,
            RAM_GPA + start_off,
            RAM_GPA + end_off,
        ),
{
    let p = with_programs(page);
    let s = sweep_drive(start_off, end_off);
    if start_off >= end_off {
        lemma_nothing_to_do(p, s, c, log);
        assert(incremented(c.mem, RAM_GPA + start_off, RAM_GPA + end_off) =~= c.mem);
    } else {
        lemma_on_course(p, s, c, log);
        law_sweep_range_increments_once(page, c, start_off, end_off);
        let e = choose|e: Cpu| #[trigger]
            rings(p, started(c, s), e) && e.mem == incremented(
                c.mem,
                RAM_GPA + start_off,
                RAM_GPA + end_off,
            );
        law_guest_is_deterministic(p, started(c, s), final_cpu(p, s, c, log), e);
    }
}

proof fn lemma_rings_times_once(page: Seq<u32>, c: Cpu, n: nat, d: Cpu, e: Cpu)
    requires
        rings_times(page, c, n, d),
        rings_times(page, c, n, e),
    ensures
        d == e,
    decreases n,
{
    if n == 1 {
        law_guest_is_deterministic(page, c, d, e);
    } else {
        let d1 = choose|d1: Cpu|
            rings_times(page, c, (n - 1) as nat, d1) && #[trigger] rings(page, resumed(d1), d);
        let e1 = choose|e1: Cpu|
            rings_times(page, c, (n - 1) as nat, e1) && #[trigger] rings(page, resumed(e1), e);
        lemma_rings_times_once(page, c, (n - 1) as nat, d1, e1);
        law_guest_is_deterministic(page, resumed(d1), d, e);
    }
}

/// Where the guest is entered after `k` rings.
spec fn entered(page: Seq<u32>, entry: Cpu, k: nat, r: Cpu) -> bool {
    if k == 0 {
        r == entry
    } else {
        exists|e: Cpu| #[trigger] rings_times(page, entry, k, e) && r == resumed(e)
    }
}

proof fn lemma_next_ring(page: Seq<u32>, entry: Cpu, k: nat, r: Cpu, b: Cpu, d: Cpu)
    requires
        entered(page, entry, k, r),
        reaches(page, r, b),
        rings(page, b, d),
    ensures
        rings_times(page, entry, k + 1, d),
{
    lemma_reaches_further(page, r, b, d);
    if k > 0 {
        let e = choose|e: Cpu| #[trigger] rings_times(page, entry, k, e) && r == resumed(e);
        assert(rings_times(page, entry, ((k + 1) - 1) as nat, e) && rings(page, resumed(e), d));
    }
}

/// How often the caller was asked whether to go on.
pub open spec fn keeps(log: Seq<(Reply, Cpu)>) -> nat
    decreases log.len(),
{
    if log.len() == 0 {
        0
    } else {
        keeps(log.drop_last()) + if log.last().0 is Keep {
            1nat
        } else {
            0nat
        }
    }
}

proof fn lemma_keeps_bounded(log: Seq<(Reply, Cpu)>)
    ensures
        keeps(log) <= log.len(),
    decreases log.len(),
{
    if log.len() > 0 {
        lemma_keeps_bounded(log.drop_last());
    }
}

/// What holds between exchanges of a hammer run whose caller was asked `k`
/// times.
spec fn hammering(page: Seq<u32>, s: DriveState, c: Cpu, now: Session, k: nat) -> bool {
    let t = now.drive;
    let b = now.cpu;
    let entry = started(c, s);
    &&& t.writes == s.writes
    &&& t.goal == s.goal
    &&& match t.phase {
        Phase::Arming { next } => k == 0 && next <= s.writes.len() && b == c.all_written(
            s.writes.take(next as int),
        ),
        Phase::Entering => exists|r: Cpu| #[trigger]
            entered(page, entry, k, r) && reaches(page, r, b),
        Phase::Counting => rings_times(page, entry, k + 1, b),
        Phase::Deciding { sweeps } => rings_times(page, entry, k + 1, b) && sweeps
            == b.x[HV_REG_X4 as int],
        Phase::ReadingPc => rings_times(page, entry, k, b),
        Phase::Advancing { pc } => rings_times(page, entry, k, b) && pc == b.pc,
        Phase::Finished { count } => rings_times(page, entry, k, b) && count
            == b.x[HV_REG_X4 as int],
    }
}

proof fn lemma_hammering(page: Seq<u32>, ram_size: u64, c: Cpu, log: Seq<(Reply, Cpu)>)
    requires
        page.len() >= 0x1000,
        c.wf(),
        in_range(RAM_GPA as int, RAM_GPA + ram_size),
        ram_size > 0,
        log.len() < two64(),
        served(with_programs(page), hammer_drive(ram_size), c, log) is Some,
    ensures
        ({
            let p = with_programs(page);
            let s = hammer_drive(ram_size);
            hammering(p, s, c, served(p, s, c, log)->Some_0, keeps(log))
        }),
    decreases log.len(),
{
    let p = with_programs(page);
    let s = hammer_drive(ram_size);
    let entry = started(c, s);
    assert(s.writes.take(s.writes.len() as int) =~= s.writes);
    if log.len() == 0 {
        assert(s.writes.take(0) =~= Seq::<RegWrite>::empty());
    } else {
        lemma_hammering(page, ram_size, c, log.drop_last());
        lemma_keeps_bounded(log.drop_last());
        let k = keeps(log.drop_last());
        let before = served(p, s, c, log.drop_last())->Some_0;
        let t = before.drive;
        let b = before.cpu;
        let (reply, d) = log.last();
        assert(serves(p, t.asks(), b, reply, d));
        match t.phase {
            Phase::Arming { next } => {
                if next < s.writes.len() {
                    lemma_one_more_write(c, s.writes, next as int);
                } else {
                    assert(steps(p, entry, 0) == Some(entry));
                    assert(entered(p, entry, 0, entry));
                    lemma_run(p, entry, 0, entry, b, reply, d);
                }
            },
            Phase::Entering => {
                let r = choose|r: Cpu| #[trigger] entered(p, entry, k, r) && reaches(p, r, b);
                lemma_run(p, entry, k, r, b, reply, d);
            },
            Phase::Advancing { pc } => {
                assert(k > 0);
                lemma_hammer_stops(page, c, ram_size, k);
                let e = choose|e: Cpu| #[trigger]
                    rings_times(p, entry, k, e) && e.pc + 4 < two64();
                lemma_rings_times_once(p, entry, k, b, e);
                assert(d == resumed(b));
                assert(entered(p, entry, k, d));
                assert(steps(p, d, 0) == Some(d));
            },
            _ => {},
        }
    }
}

/// A run of the guest after `k` rings: canceled, or the next ring.
proof fn lemma_run(page: Seq<u32>, entry: Cpu, k: nat, r: Cpu, b: Cpu, reply: Reply, d: Cpu)
    requires
        entered(page, entry, k, r),
        reaches(page, r, b),
        serves(page, Request::Run, b, reply, d),
    ensures
        reply matches Reply::Ran { ret, info } && match exit_meaning(info) {
            GuestExit::Doorbell => rings_times(page, entry, k + 1, d),
            _ => reaches(page, r, d),
        },
{
    match reply {
        Reply::Ran { ret: _, info } => match exit_meaning(info) {
            GuestExit::Doorbell => {
                lemma_next_ring(page, entry, k, r, b, d);
            },
            _ => {
                lemma_reaches_further(page, r, b, d);
            },
        },
        _ => {},
    }
}

/// The vCPU of a hammer run after its `k`-th ring.
proof fn lemma_after_rings(page: Seq<u32>, c: Cpu, ram_size: u64, k: nat, d: Cpu)
    requires
        page.len() >= 0x1000,
        c.wf(),
        in_range(RAM_GPA as int, RAM_GPA + ram_size),
        ram_size > 0,
        1 <= k < two64(),
        rings_times(with_programs(page), started(c, hammer_drive(ram_size)), k, d),
    ensures
        d.mem == raised(c.mem, RAM_GPA as int, RAM_GPA + ram_size, k),
        d.x[HV_REG_X4 as int] == k,
{
    let p = with_programs(page);
    let s = hammer_drive(ram_size);
    law_hammer_counts_its_sweeps(page, c, ram_size, k);
    let e = choose|e: Cpu| #[trigger]
        rings_times(p, started(c, s), k, e) && e.mem == raised(
            c.mem,
            RAM_GPA as int,
            RAM_GPA + ram_size,
            k,
        ) && e.x[HV_REG_X4 as int] == k;
    lemma_rings_times_once(p, started(c, s), k, d, e);
}

/// A hammer run asks its caller after every sweep, with one, two, three and so
/// on: the question that stands after `n` answers is about sweep `n + 1`, and
/// by then every page of guest RAM has grown by exactly that.
pub proof fn law_hammer_asks_after_every_sweep(
    page: Seq<u32>,
    c: Cpu,
    ram_size: u64,
    log: Seq<(Reply, Cpu)>,
    sweeps: u64,
)
    requires
        page.len() >= 0x1000,
        c.wf(),
        in_range(RAM_GPA as int, RAM_GPA + ram_size),
        log.len() < two64() - 1,
        served(with_programs(page), hammer_drive(ram_size), c, log) is Some,
        served(with_programs(page), hammer_drive(ram_size), c, log)->Some_0.drive.asks() == (
        Request::KeepGoing { sweeps }),
    ensures
        sweeps == keeps(log) + 1,
        final_cpu(with_programs(page), hammer_drive(ram_size), c, log).mem == raised(
            c.mem,
            RAM_GPA as int,
            RAM_GPA + ram_size,
            sweeps as nat,
        ),
{
    let p = with_programs(page);
    let s = hammer_drive(ram_size);
    if ram_size == 0 {
        lemma_nothing_to_do(p, s, c, log);
    } else {
        lemma_hammering(page, ram_size, c, log);
        lemma_keeps_bounded(log);
        lemma_after_rings(page, c, ram_size, keeps(log) + 1, final_cpu(p, s, c, log));
    }
}

/// A hammer run, served to its end, returns how many sweeps it completed: as
/// many as the caller was asked about, at least one where there is RAM. Every
/// page of guest RAM has grown by exactly that.
pub proof fn law_hammer_returns_its_sweeps(
    page: Seq<u32>,
    c: Cpu,
    ram_size: u64,
    log: Seq<(Reply, Cpu)>,
    count: u64,
)
    requires
        page.len() >= 0x1000,
        c.wf(),
        in_range(RAM_GPA as int, RAM_GPA + ram_size),
        log.len() < two64(),
        ended(with_programs(page), hammer_drive(ram_size), c, log, count),
    ensures
        count == keeps(log),
        ram_size > 0 ==> count >= 1,
        final_cpu(with_programs(page), hammer_drive(ram_size), c, log).mem == raised(
            c.mem,
            RAM_GPA as int,
            RAM_GPA + ram_size,
            count as nat,
        ),
{
    let p = with_programs(page);
    let s = hammer_drive(ram_size);
    if ram_size == 0 {
        lemma_nothing_to_do(p, s, c, log);
        assert(raised(c.mem, RAM_GPA as int, RAM_GPA + ram_size, 0) =~= c.mem);
    } else {
        lemma_hammering(page, ram_size, c, log);
        lemma_keeps_bounded(log);
        assert(keeps(log) > 0);
        lemma_after_rings(page, c, ram_size, keeps(log), final_cpu(p, s, c, log));
    }
}

}
