//! The helper process that owns the memory of a Linux guest: finding it among
//! the running ones, and reading its ledger.

use crate::soak::{elapsed, NANOS_PER_SEC};
use crate::text::{
    decimal_of, i32_value, is_digit, lemma_decimal_reads_back, lines, lines_of, parse_i32, texts,
    trim, trimmed, trimmed_start, white_space,
};
use vstd::prelude::*;

verus! {

/// How long the host looks for the helper process.
pub const HELPER_TIMEOUT_SECS: u64 = 10;

/// How long the search sleeps between looks.
pub const SEARCH_POLL_MILLIS: u64 = 250;

/// One footprint and resident reading of the helper, in bytes.
#[derive(Clone, Copy, PartialEq, Eq, Structural, Debug)]
pub struct HelperLedger {
    pub phys_footprint: u64,
    pub resident: u64,
}

/// The helper could not be read; it may be gone.
#[derive(Clone, Copy, PartialEq, Eq, Structural, Debug)]
pub struct SampleError {
    pub rc: i32,
}

pub open spec fn sampled(rc: i32, phys_footprint: u64, resident_size: u64) -> Result<
    HelperLedger,
    SampleError,
> {
    if rc == 0 {
        Ok::<HelperLedger, SampleError>(
            HelperLedger { phys_footprint, resident: resident_size },
        )
    } else {
        Err(SampleError { rc })
    }
}

/// The reading that `proc_pid_rusage` gave, with its return value `rc`.
pub fn sample(rc: i32, phys_footprint: u64, resident_size: u64) -> (r: Result<
    HelperLedger,
    SampleError,
>)
    ensures
        r == sampled(rc, phys_footprint, resident_size),
{
    if rc == 0 {
        Ok(HelperLedger { phys_footprint, resident: resident_size })
    } else {
        Err(SampleError { rc })
    }
}

/// The process numbers on the lines; a line that holds none is passed over.
pub open spec fn pids_on(ls: Seq<Seq<char>>) -> Seq<i32>
    decreases ls.len(),
{
    if ls.len() == 0 {
        Seq::empty()
    } else {
        let before = pids_on(ls.drop_last());
        match i32_value(trimmed(ls.last())) {
            Some(pid) => before.push(pid),
            None => before,
        }
    }
}

/// The process numbers that `pgrep` printed, in order.
pub fn parse_pids(out: &str) -> (r: Vec<i32>)
    ensures
        r@ == pids_on(lines_of(out@)),
{
    let ls = lines(out);
    let n: usize = ls.len();
    let ghost all = texts(ls@);
    let mut r: Vec<i32> = Vec::new();
    let mut i: usize = 0;
    assert(all.take(0) =~= Seq::<Seq<char>>::empty());
    while i < n
        invariant
            n == ls@.len(),
            i <= n,
            all == texts(ls@),
            r@ == pids_on(all.take(i as int)),
        decreases n - i,
    {
        assert(all.take(i + 1).drop_last() =~= all.take(i as int));
        assert(all.take(i + 1).last() == ls@[i as int]@);
        if let Some(pid) = parse_i32(trim(ls[i].as_str())) {
            r.push(pid);
        }
        i = i + 1;
    }
    assert(all.take(n as int) =~= all);
    r
}

fn holds(pids: &Vec<i32>, pid: i32) -> (r: bool)
    ensures
        r == pids@.contains(pid),
{
    let n: usize = pids.len();
    let mut i: usize = 0;
    while i < n
        invariant
            n == pids@.len(),
            i <= n,
            forall|j: int| 0 <= j < i ==> pids@[j] != pid,
        decreases n - i,
    {
        if pids[i] == pid {
            return true;
        }
        i = i + 1;
    }
    false
}

/// The first process number that is running now and was not before.
pub open spec fn first_new(running: Seq<i32>, before: Seq<i32>) -> Option<i32>
    decreases running.len(),
{
    if running.len() == 0 {
        None
    } else if !before.contains(running[0]) {
        Some(running[0])
    } else {
        first_new(running.drop_first(), before)
    }
}

/// A helper that did not run before, if there is one.
pub fn new_helper(running: &Vec<i32>, before: &Vec<i32>) -> (r: Option<i32>)
    ensures
        r == first_new(running@, before@),
{
    let n: usize = running.len();
    let mut i: usize = 0;
    assert(running@.skip(0) =~= running@);
    while i < n
        invariant
            n == running@.len(),
            i <= n,
            first_new(running@, before@) == first_new(running@.skip(i as int), before@),
        decreases n - i,
    {
        let pid: i32 = running[i];
        if !holds(before, pid) {
            return Some(pid);
        }
        assert(running@.skip(i as int).drop_first() =~= running@.skip(i + 1));
        i = i + 1;
    }
    None
}

pub open spec fn searches_on(since: u64, now: u64) -> bool {
    elapsed(since, now) < HELPER_TIMEOUT_SECS * NANOS_PER_SEC
}

/// Whether a search that began at `since` looks once more at time `now`. Times
/// are nanoseconds on one clock.
pub fn keep_searching(since: u64, now: u64) -> (r: bool)
    ensures
        r == searches_on(since, now),
{
    now < since || now - since < HELPER_TIMEOUT_SECS * NANOS_PER_SEC
}

/// What a look amounts to.
#[derive(Clone, Copy, PartialEq, Eq, Structural, Debug)]
pub enum Look {
    Found { pid: i32 },
    /// Look again after this long.
    Rest { millis: u64 },
}

pub open spec fn looked(running: Seq<i32>, before: Seq<i32>) -> Look {
    match first_new(running, before) {
        Some(pid) => Look::Found { pid },
        None => Look::Rest { millis: SEARCH_POLL_MILLIS },
    }
}

/// Holds the helpers that run now against those that ran before.
pub fn look(running: &Vec<i32>, before: &Vec<i32>) -> (r: Look)
    ensures
        r == looked(running@, before@),
{
    match new_helper(running, before) {
        Some(pid) => Look::Found { pid },
        None => Look::Rest { millis: SEARCH_POLL_MILLIS },
    }
}

/// A helper is found exactly when one runs that did not before, and what is
/// found is such a one.
pub proof fn law_found_helpers_are_new(running: Seq<i32>, before: Seq<i32>)
    ensures
        match first_new(running, before) {
            Some(pid) => running.contains(pid) && !before.contains(pid),
            None => forall|pid: i32| running.contains(pid) ==> before.contains(pid),
        },
    decreases running.len(),
{
    if running.len() > 0 {
        let rest = running.drop_first();
        law_found_helpers_are_new(rest, before);
        assert(running =~= seq![running[0]] + rest);
        assert(running.contains(running[0]));
        assert forall|pid: i32| running.contains(pid) && pid != running[0] implies rest.contains(
            pid,
        ) by {
            let i = choose|i: int| 0 <= i < running.len() && running[i] == pid;
            assert(rest[i - 1] == pid);
        }
        assert forall|pid: i32| rest.contains(pid) implies running.contains(pid) by {
            let i = choose|i: int| 0 <= i < rest.len() && rest[i] == pid;
            assert(running[i + 1] == pid);
        }
    }
}

/// There is a sample exactly if the call succeeded, and it holds both counters
/// as they were read.
pub proof fn law_samples_are_whole_or_refused(rc: i32, phys_footprint: u64, resident_size: u64)
    ensures
        match sampled(rc, phys_footprint, resident_size) {
            Ok(l) => rc == 0 && l.phys_footprint == phys_footprint && l.resident == resident_size,
            Err(e) => rc != 0 && e.rc == rc,
        },
{
}

/// The numbers on some lines and on more are those on the first and then those
/// on the rest; a line with a process number on it, blanks around it or not, is
/// that number, and a line without one is none.
pub proof fn law_pids_are_read_line_by_line(a: Seq<Seq<char>>, b: Seq<Seq<char>>, n: u64)
    requires
        n <= i32::MAX,
    ensures
        pids_on(a + b) == pids_on(a) + pids_on(b),
        pids_on(seq![decimal_of(n as nat)]) == seq![n as i32],
        pids_on(seq![" "@ + decimal_of(n as nat)]) == seq![n as i32],
        a.len() == 1 && i32_value(trimmed(a[0])) is None ==> pids_on(a).len() == 0,
    decreases b.len(),
{
    if b.len() == 0 {
        assert(a + b =~= a);
        assert(pids_on(a) + pids_on(b) =~= pids_on(a));
    } else {
        law_pids_are_read_line_by_line(a, b.drop_last(), n);
        assert((a + b).drop_last() =~= a + b.drop_last());
        assert(pids_on(a + b) =~= pids_on(a) + pids_on(b));
    }
    let d = decimal_of(n as nat);
    lemma_decimal_reads_back(n as nat);
    assert(is_digit(d[0]) && is_digit(d[d.len() - 1]));
    assert(!white_space(d[0]) && !white_space(d.last()));
    assert(trimmed(d) == d);
    reveal_strlit(" ");
    assert((" "@ + d).drop_first() =~= d);
    reveal_with_fuel(trimmed_start, 2);
    assert(trimmed(" "@ + d) == d);
    reveal_with_fuel(pids_on, 2);
    let none = Seq::<Seq<char>>::empty();
    assert(seq![d].drop_last() =~= none);
    assert(seq![" "@ + d].drop_last() =~= none);
    assert(a.len() == 1 ==> a.drop_last() =~= none);
    assert(pids_on(seq![d]) =~= seq![n as i32]);
    assert(pids_on(seq![" "@ + d]) =~= seq![n as i32]);
}

/// The search looks for ten seconds and no longer.
pub proof fn law_the_search_keeps_its_time(since: u64, now: u64)
    requires
        since <= now,
    ensures
        searches_on(since, now) <==> now - since < 10_000_000_000,
{
}

/// Among several new helpers the first is found, and a look that finds none
/// rests a quarter of a second.
pub proof fn law_the_first_new_helper_is_found(a: Seq<i32>, b: Seq<i32>, before: Seq<i32>)
    ensures
        looked(a + b, before) == if looked(a, before) is Found {
            looked(a, before)
        } else {
            looked(b, before)
        },
        match looked(a, before) {
            Look::Found { pid } => a.contains(pid) && !before.contains(pid),
            Look::Rest { millis } => 4 * millis == 1000 && forall|pid: i32|
                a.contains(pid) ==> before.contains(pid),
        },
    decreases a.len(),
{
    law_found_helpers_are_new(a, before);
    if a.len() == 0 {
        assert(a + b =~= b);
    } else {
        law_the_first_new_helper_is_found(a.drop_first(), b, before);
        assert((a + b).drop_first() =~= a.drop_first() + b);
        assert((a + b)[0] == a[0]);
    }
}

}
