//! The command server of the Linux guest: what each line asks for, and what
//! is answered.
//!
//! ```text
//! touch N          ->  RATCHET TOUCHED N
//! free             ->  RATCHET FREED
//! mem              ->  RATCHET MEM <kib>
//! fleet start K M  ->  RATCHET FLEET-STARTED K
//! fleet stop-one   ->  RATCHET FLEET-STOPPED <left>
//! fleet stop       ->  RATCHET FLEET-STOPPED 0
//! ```

use crate::harness::Signal;
use crate::options::{mib_bytes, shifted};
use crate::stride::{law_walk_misses_nothing, offsets, Strides};
use crate::text::{
    all_white, decimal, decimal_of, is_digit, joined, law_stripped_and_put_back,
    law_suffixes_come_off, law_trimming_takes_off_white_space, lemma_decimal_reads_back, lines,
    lines_of, parse_u64, same, strip_prefix, stripped, texts, trim, trim_suffix, trimmed,
    trimmed_end, trimmed_start, trimmed_suffix, u64_value, white_space, words, words_of,
};
use vstd::prelude::*;

verus! {

/// One byte in this many is written: it covers every host page for any guest
/// page size.
pub const STRIDE: u64 = 4096;

pub const GIB: u64 = 0x4000_0000;

/// How many slices a service rotates through.
pub const SLICES: u64 = 8;

/// What a line asks for.
#[derive(Clone, Copy, PartialEq, Eq, Structural, Debug)]
pub enum Command {
    /// Nothing: the line is blank.
    Blank,
    /// Map this many GiB and dirty them.
    Touch { gib: u64 },
    /// Unmap everything held.
    Free,
    /// Report the available memory.
    Mem,
    /// Start `count` services of `mib` MiB each.
    FleetStart { count: u64, mib: u64 },
    FleetStopOne,
    FleetStop,
    Unknown,
}

/// The number a word stands for, and zero where it stands for none.
pub open spec fn number_or_zero(s: Seq<char>) -> u64 {
    match u64_value(s) {
        Some(n) => n,
        None => 0,
    }
}

/// The number at word `i`, and zero where there is none.
pub open spec fn word_number(ws: Seq<Seq<char>>, i: int) -> u64 {
    if i < ws.len() {
        number_or_zero(ws[i])
    } else {
        0
    }
}

/// What a line asks for.
pub open spec fn command_of(line: Seq<char>) -> Command {
    let l = trimmed(line);
    if l.len() == 0 {
        Command::Blank
    } else if stripped(l, "touch "@) is Some {
        Command::Touch { gib: number_or_zero(trimmed(stripped(l, "touch "@)->0)) }
    } else if l == "free"@ {
        Command::Free
    } else if l == "mem"@ {
        Command::Mem
    } else if stripped(l, "fleet start "@) is Some {
        let ws = words_of(stripped(l, "fleet start "@)->0);
        Command::FleetStart { count: word_number(ws, 0), mib: word_number(ws, 1) }
    } else if l == "fleet stop-one"@ {
        Command::FleetStopOne
    } else if l == "fleet stop"@ {
        Command::FleetStop
    } else {
        Command::Unknown
    }
}

fn parse_or_zero(s: &str) -> (r: u64)
    ensures
        r == number_or_zero(s@),
{
    match parse_u64(s) {
        Some(n) => n,
        None => 0,
    }
}

fn number_at(ws: &Vec<String>, i: usize) -> (r: u64)
    ensures
        r == word_number(texts(ws@), i as int),
{
    if i < ws.len() {
        assert(texts(ws@)[i as int] == ws@[i as int]@);
        parse_or_zero(ws[i].as_str())
    } else {
        0
    }
}

/// Reads a line of the console.
pub fn parse_command(line: &str) -> (r: Command)
    ensures
        r == command_of(line@),
{
    let l = trim(line);
    if l.is_empty() {
        return Command::Blank;
    }
    if let Some(n) = strip_prefix(l, "touch ") {
        return Command::Touch { gib: parse_or_zero(trim(n)) };
    }
    if same(l, "free") {
        return Command::Free;
    }
    if same(l, "mem") {
        return Command::Mem;
    }
    if let Some(rest) = strip_prefix(l, "fleet start ") {
        let ws = words(rest);
        return Command::FleetStart { count: number_at(&ws, 0), mib: number_at(&ws, 1) };
    }
    if same(l, "fleet stop-one") {
        return Command::FleetStopOne;
    }
    if same(l, "fleet stop") {
        return Command::FleetStop;
    }
    Command::Unknown
}

/// What is answered.
#[derive(Clone, Copy, PartialEq, Eq, Structural, Debug)]
pub enum Reply {
    Ready,
    Touched { gib: u64 },
    Freed,
    Mem { kib: u64 },
    FleetStarted { count: u64 },
    FleetStopped { left: u64 },
}

impl Reply {
    /// The line that carries the reply.
    pub open spec fn line_of(self) -> Seq<char> {
        match self {
            Reply::Ready => "RATCHET READY"@,
            Reply::Touched { gib } => "RATCHET TOUCHED "@ + decimal_of(gib as nat),
            Reply::Freed => "RATCHET FREED"@,
            Reply::Mem { kib } => "RATCHET MEM "@ + decimal_of(kib as nat),
            Reply::FleetStarted { count } => "RATCHET FLEET-STARTED "@ + decimal_of(count as nat),
            Reply::FleetStopped { left } => "RATCHET FLEET-STOPPED "@ + decimal_of(left as nat),
        }
    }

    pub fn line(&self) -> (r: String)
        ensures
            r@ == self.line_of(),
    {
        match *self {
            Reply::Ready => "RATCHET READY".to_owned(),
            Reply::Touched { gib } => joined("RATCHET TOUCHED ", decimal(gib).as_str()),
            Reply::Freed => "RATCHET FREED".to_owned(),
            Reply::Mem { kib } => joined("RATCHET MEM ", decimal(kib).as_str()),
            Reply::FleetStarted { count } => joined(
                "RATCHET FLEET-STARTED ",
                decimal(count).as_str(),
            ),
            Reply::FleetStopped { left } => joined("RATCHET FLEET-STOPPED ", decimal(left).as_str()),
        }
    }
}

pub open spec fn unknown_answer(line: Seq<char>) -> Seq<char> {
    "RATCHET ERR unknown command: "@ + trimmed(line)
}

/// What is answered to a line that asks for nothing known.
pub fn unknown_line(line: &str) -> (r: String)
    ensures
        r@ == unknown_answer(line@),
{
    joined("RATCHET ERR unknown command: ", trim(line))
}

/// The reply that answers a command, once it is carried out, where `kib` is the
/// available memory and `left` the number of services still running.
pub open spec fn answer_to(c: Command, kib: u64, left: u64) -> Option<Reply> {
    match c {
        Command::Blank | Command::Unknown => None,
        Command::Touch { gib } => Some(Reply::Touched { gib }),
        Command::Free => Some(Reply::Freed),
        Command::Mem => Some(Reply::Mem { kib }),
        Command::FleetStart { count, mib: _ } => Some(Reply::FleetStarted { count }),
        Command::FleetStopOne => Some(Reply::FleetStopped { left }),
        Command::FleetStop => Some(Reply::FleetStopped { left: 0 }),
    }
}

pub fn answer(c: &Command, kib: u64, left: u64) -> (r: Option<Reply>)
    ensures
        r == answer_to(*c, kib, left),
{
    match *c {
        Command::Blank | Command::Unknown => None,
        Command::Touch { gib } => Some(Reply::Touched { gib }),
        Command::Free => Some(Reply::Freed),
        Command::Mem => Some(Reply::Mem { kib }),
        Command::FleetStart { count, mib: _ } => Some(Reply::FleetStarted { count }),
        Command::FleetStopOne => Some(Reply::FleetStopped { left }),
        Command::FleetStop => Some(Reply::FleetStopped { left: 0 }),
    }
}

pub open spec fn answered_with(c: Command, line: Seq<char>, kib: u64, left: u64) -> Option<
    Seq<char>,
> {
    match answer_to(c, kib, left) {
        Some(reply) => Some(reply.line_of()),
        None => if c == Command::Unknown {
            Some(unknown_answer(line))
        } else {
            None
        },
    }
}

/// The line that answers `line`, which asked for `c`: none where it is blank,
/// and an error where it asks for nothing known.
pub fn answer_line(c: &Command, line: &str, kib: u64, left: u64) -> (r: Option<String>)
    ensures
        match answered_with(*c, line@, kib, left) {
            Some(text) => r is Some && r->0@ == text,
            None => r is None,
        },
{
    match answer(c, kib, left) {
        Some(reply) => Some(reply.line()),
        None => match *c {
            Command::Unknown => Some(unknown_line(line)),
            _ => None,
        },
    }
}

pub open spec fn bytes_to_touch(gib: u64) -> Option<u64> {
    if gib * GIB <= u64::MAX {
        Some((gib * GIB) as u64)
    } else {
        None
    }
}

/// The bytes of `gib` GiB, if there is such a number.
pub fn touch_size(gib: u64) -> (r: Option<u64>)
    ensures
        r == bytes_to_touch(gib),
{
    gib.checked_mul(GIB)
}

/// The services that run, oldest first, by process number.
pub struct Fleet {
    pub pids: Vec<i32>,
}

impl Fleet {
    pub fn new() -> (r: Fleet)
        ensures
            r.pids@ == Seq::<i32>::empty(),
    {
        Fleet { pids: Vec::new() }
    }

    /// Takes a started service in.
    pub fn started(&mut self, pid: i32)
        ensures
            final(self).pids@ == joined_by(old(self).pids@, pid),
    {
        self.pids.push(pid);
    }

    pub fn running(&self) -> (r: u64)
        ensures
            r == self.pids@.len(),
    {
        self.pids.len() as u64
    }

    /// Takes the oldest `count` services out, in order.
    fn take_out(&mut self, count: usize) -> (r: Vec<i32>)
        requires
            count <= old(self).pids@.len(),
        ensures
            r@ == old(self).pids@.take(count as int),
            final(self).pids@ == old(self).pids@.skip(count as int),
    {
        let mut stopped: Vec<i32> = Vec::new();
        let mut kept: Vec<i32> = Vec::new();
        let total: usize = self.pids.len();
        let mut i: usize = 0;
        while i < total
            invariant
                self.pids@ == old(self).pids@,
                total == self.pids@.len(),
                count <= total,
                i <= total,
                i <= count ==> stopped@ == self.pids@.take(i as int) && kept@ == Seq::<
                    i32,
                >::empty(),
                i > count ==> stopped@ == self.pids@.take(count as int) && kept@
                    == self.pids@.subrange(count as int, i as int),
            decreases total - i,
        {
            if i < count {
                stopped.push(self.pids[i]);
                assert(stopped@ =~= self.pids@.take(i + 1));
            } else {
                kept.push(self.pids[i]);
                assert(kept@ =~= self.pids@.subrange(count as int, i + 1));
            }
            i = i + 1;
        }
        assert(kept@ =~= self.pids@.skip(count as int));
        self.pids = kept;
        stopped
    }

    /// Takes the oldest service out, if any runs.
    pub fn stop_one(&mut self) -> (r: Option<i32>)
        ensures
            match r {
                Some(pid) => old(self).pids@.len() > 0 && pid == old(self).pids@[0]
                    && final(self).pids@ == old(self).pids@.skip(1),
                None => old(self).pids@.len() == 0 && final(self).pids@ == old(self).pids@,
            },
            one_by_one(old(self).pids@, 1) == (
                match r {
                    Some(pid) => seq![pid],
                    None => Seq::empty(),
                },
                final(self).pids@,
            ),
    {
        proof {
            reveal_with_fuel(one_by_one, 2);
            assert(self.pids@.len() > 0 ==> seq![self.pids@[0]] + Seq::<i32>::empty()
                =~= seq![self.pids@[0]]);
        }
        if self.pids.len() == 0 {
            None
        } else {
            let stopped = self.take_out(1);
            Some(stopped[0])
        }
    }

    /// Takes every service out, oldest first.
    pub fn stop(&mut self) -> (r: Vec<i32>)
        ensures
            r@ == old(self).pids@,
            final(self).pids@ == Seq::<i32>::empty(),
            one_by_one(old(self).pids@, old(self).pids@.len()) == (r@, final(self).pids@),
    {
        let count: usize = self.pids.len();
        let r = self.take_out(count);
        assert(r@ =~= old(self).pids@);
        assert(self.pids@ =~= Seq::<i32>::empty());
        proof {
            law_fleet_leaves_in_order(old(self).pids@, old(self).pids@.len());
        }
        r
    }
}

/// The services once one more has started.
pub open spec fn joined_by(pids: Seq<i32>, pid: i32) -> Seq<i32> {
    pids.push(pid)
}

/// The services that leave, and those that are left, when the oldest is taken
/// out `k` times.
pub open spec fn one_by_one(pids: Seq<i32>, k: nat) -> (Seq<i32>, Seq<i32>)
    decreases k,
{
    if k == 0 || pids.len() == 0 {
        (Seq::empty(), pids)
    } else {
        let (left, rest) = one_by_one(pids.skip(1), (k - 1) as nat);
        (seq![pids[0]] + left, rest)
    }
}

/// Services leave in the order they came: stopping one by one takes out what
/// stopping all at once would have taken out first.
pub proof fn law_fleet_leaves_in_order(pids: Seq<i32>, k: nat)
    requires
        k <= pids.len(),
    ensures
        one_by_one(pids, k) == (pids.take(k as int), pids.skip(k as int)),
    decreases k,
{
    if k == 0 {
        assert(pids.take(0) =~= Seq::<i32>::empty());
        assert(pids.skip(0) =~= pids);
    } else {
        law_fleet_leaves_in_order(pids.skip(1), (k - 1) as nat);
        assert(seq![pids[0]] + pids.skip(1).take(k - 1) =~= pids.take(k as int));
        assert(pids.skip(1).skip(k - 1) =~= pids.skip(k as int));
    }
}

/// Why `/proc/meminfo` tells nothing.
#[derive(Clone, Copy, PartialEq, Eq, Structural, Debug)]
pub enum MemInfoError {
    Missing,
    BadNumber,
}

/// The number in what follows the name of a meminfo line.
pub open spec fn kib_of(rest: Seq<char>) -> Option<u64> {
    u64_value(trimmed(trimmed_suffix(trimmed(rest), "kB"@)))
}

/// The available memory that the lines name: the first line with the name
/// decides.
pub open spec fn available_in(ls: Seq<Seq<char>>) -> Result<u64, MemInfoError>
    decreases ls.len(),
{
    if ls.len() == 0 {
        Err(MemInfoError::Missing)
    } else {
        match stripped(ls[0], "MemAvailable:"@) {
            Some(rest) => match kib_of(rest) {
                Some(kib) => Ok(kib),
                None => Err(MemInfoError::BadNumber),
            },
            None => available_in(ls.drop_first()),
        }
    }
}

/// The available memory in KiB, from the text of `/proc/meminfo`.
pub fn mem_available_kib(meminfo: &str) -> (r: Result<u64, MemInfoError>)
    ensures
        r == available_in(lines_of(meminfo@)),
{
    let ls = lines(meminfo);
    let n: usize = ls.len();
    let ghost all = texts(ls@);
    let mut i: usize = 0;
    assert(all.skip(0) =~= all);
    while i < n
        invariant
            n == ls@.len(),
            i <= n,
            all == texts(ls@),
            all == lines_of(meminfo@),
            available_in(all) == available_in(all.skip(i as int)),
        decreases n - i,
    {
        assert(all.skip(i as int)[0] == ls@[i as int]@);
        if let Some(rest) = strip_prefix(ls[i].as_str(), "MemAvailable:") {
            proof {
                reveal_strlit("kB");
            }
            return match parse_u64(trim(trim_suffix(trim(rest), "kB"))) {
                Some(kib) => Ok(kib),
                None => Err(MemInfoError::BadNumber),
            };
        }
        assert(all.skip(i as int).drop_first() =~= all.skip(i + 1));
        i = i + 1;
    }
    Err(MemInfoError::Missing)
}

/// A service's working set: all of it dirtied once, then one eighth at a time
/// kept warm.
#[derive(Clone, Copy, PartialEq, Eq, Structural, Debug)]
pub struct WorkingSet {
    pub size: u64,
    pub slot: u64,
}

impl WorkingSet {
    /// The slot is one of the slices.
    pub open spec fn wf(self) -> bool {
        self.slot < SLICES
    }

    /// The slice that slot `k` stands for.
    pub open spec fn slice_of(self, k: int) -> (int, int) {
        (k * (self.size / SLICES), k * (self.size / SLICES) + self.size / SLICES)
    }

    pub open spec fn fresh(mib: u64) -> WorkingSet {
        WorkingSet { size: shifted(mib, 0x10_0000) as u64, slot: 0 }
    }

    /// What is dirtied at the start.
    pub open spec fn dirt(self) -> Seq<int> {
        offsets(0, self.size as int, STRIDE as int)
    }

    /// What is kept warm now.
    pub open spec fn warmth(self) -> Seq<int> {
        let (from, to) = self.slice_of(self.slot as int);
        offsets(from, to, STRIDE as int)
    }

    /// The working set once the slice that is due has been kept warm.
    pub open spec fn warmed(self) -> WorkingSet {
        WorkingSet { slot: ((self.slot + 1) % (SLICES as int)) as u64, ..self }
    }

    /// The working set once `n` slices have been kept warm.
    pub open spec fn warmed_times(self, n: nat) -> WorkingSet
        decreases n,
    {
        if n == 0 {
            self
        } else {
            self.warmed_times((n - 1) as nat).warmed()
        }
    }

    /// A working set of `mib` MiB.
    pub fn of_mib(mib: u64) -> (r: WorkingSet)
        ensures
            r.wf(),
            r == WorkingSet::fresh(mib),
    {
        WorkingSet { size: mib_bytes(mib), slot: 0 }
    }

    /// The offsets that are dirtied at the start.
    pub fn dirtied(&self) -> (r: Strides)
        ensures
            r.wf(),
            r.remaining() == self.dirt(),
    {
        Strides::over(0, self.size, STRIDE)
    }

    /// The offsets to keep warm now; the next slice is next.
    pub fn warm(&mut self) -> (r: Strides)
        requires
            old(self).wf(),
        ensures
            final(self).wf(),
            *final(self) == old(self).warmed(),
            r.wf(),
            r.remaining() == old(self).warmth(),
    {
        let slice: u64 = self.size / SLICES;
        assert(self.slot * slice + slice <= 8 * slice) by (nonlinear_arith)
            requires
                self.slot < 8,
        ;
        assert(0 <= self.slot * slice) by (nonlinear_arith);
        let start: u64 = self.slot * slice;
        self.slot = (self.slot + 1) % SLICES;
        Strides::over(start, start + slice, STRIDE)
    }
}

/// The slices lie side by side inside the working set, and after the last
/// comes the first again.
pub proof fn law_slices_tile_the_working_set(w: WorkingSet, k: int)
    requires
        0 <= k < SLICES,
    ensures
        w.slice_of(0).0 == 0,
        w.slice_of(k).1 == w.slice_of(k + 1).0,
        w.slice_of(k).1 <= w.size,
        (k + 1) % (SLICES as int) == 0 <==> k == SLICES - 1,
{
    let s = w.size / SLICES;
    assert(0 * s == 0);
    assert(k * s + s == (k + 1) * s) by (nonlinear_arith);
    assert((k + 1) * s <= 8 * s) by (nonlinear_arith)
        requires
            k + 1 <= 8,
            s >= 0,
    ;
}

/// A line is read without the white space around it, and asks for nothing
/// exactly where there is nothing else.
pub proof fn law_white_space_around_a_command_does_not_matter(line: Seq<char>)
    ensures
        command_of(line) == command_of(trimmed(line)),
        command_of(line) is Blank <==> trimmed(line).len() == 0,
{
    law_trimming_takes_off_white_space(line);
}

/// Whether the line, without white space around it, begins with this.
pub open spec fn begins(line: Seq<char>, prefix: Seq<char>) -> bool {
    exists|rest: Seq<char>| trimmed(line) == #[trigger] (prefix + rest)
}

/// A command was read from a line that says so: the words themselves where
/// there is no number in it, and where there are numbers, the words and then
/// the numbers, with a zero for each that is missing. What says nothing of this
/// kind is unknown.
pub proof fn law_commands_were_written(line: Seq<char>, rest: Seq<char>)
    ensures
        command_of(line) is Free <==> trimmed(line) == "free"@,
        command_of(line) is Mem <==> trimmed(line) == "mem"@,
        command_of(line) is FleetStopOne <==> trimmed(line) == "fleet stop-one"@,
        command_of(line) is FleetStop <==> trimmed(line) == "fleet stop"@,
        command_of(line) is Touch <==> begins(line, "touch "@),
        command_of(line) is FleetStart <==> begins(line, "fleet start "@),
        trimmed(line) == "touch "@ + rest ==> command_of(line) == (Command::Touch {
            gib: number_or_zero(trimmed(rest)),
        }),
        trimmed(line) == "fleet start "@ + rest ==> command_of(line) == (Command::FleetStart {
            count: word_number(words_of(rest), 0),
            mib: word_number(words_of(rest), 1),
        }),
{
    let l = trimmed(line);
    let touch = "touch "@;
    let start = "fleet start "@;
    reveal_strlit("touch ");
    reveal_strlit("fleet start ");
    reveal_strlit("free");
    reveal_strlit("mem");
    reveal_strlit("fleet stop-one");
    reveal_strlit("fleet stop");
    assert(begins(line, touch) <==> stripped(l, touch) is Some) by {
        if begins(line, touch) {
            let r = choose|r: Seq<char>| l == #[trigger] (touch + r);
            law_stripped_and_put_back(l, touch, r);
        }
        law_stripped_and_put_back(l, touch, rest);
    }
    assert(begins(line, start) <==> stripped(l, start) is Some) by {
        if begins(line, start) {
            let r = choose|r: Seq<char>| l == #[trigger] (start + r);
            law_stripped_and_put_back(l, start, r);
        }
        law_stripped_and_put_back(l, start, rest);
    }
    law_stripped_and_put_back(l, touch, rest);
    law_stripped_and_put_back(l, start, rest);
    if stripped(l, touch) is Some {
        assert(l.take(6)[0] == 't');
    }
    if stripped(l, start) is Some {
        assert(l.take(12)[0] == 'f' && l.take(12)[1] == 'l' && l.take(12)[8] == 'a');
    }
}

/// A number is read as it stands, and what is no number counts as zero.
pub proof fn law_missing_numbers_are_zero(n: u64, s: Seq<char>, ws: Seq<Seq<char>>, i: int)
    ensures
        number_or_zero(decimal_of(n as nat)) == n,
        u64_value(s) is None ==> number_or_zero(s) == 0,
        0 <= i < ws.len() && ws[i] == decimal_of(n as nat) ==> word_number(ws, i) == n,
        i >= ws.len() ==> word_number(ws, i) == 0,
{
    lemma_decimal_reads_back(n as nat);
}

/// Only a blank line goes without an answer. The answer to a line that asks for
/// nothing known names the line, and wakes no one who waits for a signal.
pub proof fn law_errors_wake_no_one(c: Command, line: Seq<char>, kib: u64, left: u64, s: Signal)
    ensures
        answered_with(c, line, kib, left) is None <==> c is Blank,
        c is Unknown ==> answered_with(c, line, kib, left) == Some(
            "RATCHET ERR unknown command: "@ + trimmed(line),
        ),
        c is Unknown ==> stripped(answered_with(c, line, kib, left)->0, s.prefix_of()) is None,
        !(c is Blank || c is Unknown) ==> answer_to(c, kib, left) is Some && answered_with(
            c,
            line,
            kib,
            left,
        ) == Some(answer_to(c, kib, left)->0.line_of()),
{
    if c is Unknown {
        let text = answered_with(c, line, kib, left)->0;
        let p = s.prefix_of();
        reveal_strlit("RATCHET ERR unknown command: ");
        reveal_strlit("HARNESS started");
        reveal_strlit("RATCHET READY");
        reveal_strlit("RATCHET TOUCHED");
        reveal_strlit("RATCHET FREED");
        reveal_strlit("RATCHET MEM");
        reveal_strlit("RATCHET FLEET-STARTED");
        reveal_strlit("RATCHET FLEET-STOPPED");
        reveal_strlit("HARNESS balloon-target");
        if stripped(text, p) is Some {
            let head = text.take(p.len() as int);
            assert(head[0] == text[0] && head[8] == text[8]);
        }
    }
}

/// Touching `gib` GiB is touching that many times 1024 * 1024 * 1024 bytes, and
/// only what sixty-four bits cannot count is refused.
pub proof fn law_gibs_are_touched_whole(gib: u64)
    ensures
        match bytes_to_touch(gib) {
            Some(bytes) => bytes == gib * (1024 * 1024 * 1024),
            None => gib * (1024 * 1024 * 1024) > u64::MAX,
        },
{
}

/// Who came last leaves last.
pub proof fn law_the_last_to_come_leaves_last(pids: Seq<i32>, pid: i32)
    ensures
        one_by_one(joined_by(pids, pid), pids.len()) == (pids, seq![pid]),
{
    let all = joined_by(pids, pid);
    law_fleet_leaves_in_order(all, pids.len());
    assert(all.take(pids.len() as int) =~= pids);
    assert(all.skip(pids.len() as int) =~= seq![pid]);
}

proof fn lemma_white_start(w: Seq<char>, s: Seq<char>)
    requires
        all_white(w),
    ensures
        trimmed_start(w + s) == trimmed_start(s),
    decreases w.len(),
{
    if w.len() == 0 {
        assert(w + s =~= s);
    } else {
        let rest = w.drop_first();
        assert(white_space(w[0]));
        assert forall|i: int| 0 <= i < rest.len() implies white_space(#[trigger] rest[i]) by {
            assert(rest[i] == w[i + 1]);
        }
        lemma_white_start(rest, s);
        assert((w + s).drop_first() =~= rest + s);
    }
}

/// The first line that names the available memory decides, whatever stands
/// before and behind it. Its number is read, with any white space before it and
/// the unit behind it; where no line names the available memory, it is missing.
pub proof fn law_the_first_line_that_names_it_decides(
    before: Seq<Seq<char>>,
    line: Seq<char>,
    behind: Seq<Seq<char>>,
    w: Seq<char>,
    n: u64,
)
    requires
        forall|i: int|
            0 <= i < before.len() ==> stripped(#[trigger] before[i], "MemAvailable:"@) is None,
        all_white(w),
    ensures
        available_in(before) == Err::<u64, MemInfoError>(MemInfoError::Missing),
        stripped(line, "MemAvailable:"@) is Some ==> available_in(before + seq![line] + behind)
            == available_in(seq![line]) && available_in(seq![line]) != Err::<u64, MemInfoError>(
            MemInfoError::Missing,
        ),
        line == "MemAvailable:"@ + (w + (decimal_of(n as nat) + " kB"@)) ==> available_in(
            seq![line],
        ) == Ok::<u64, MemInfoError>(n),
    decreases before.len(),
{
    let all = before + seq![line] + behind;
    if before.len() == 0 {
        assert(all[0] == line);
    } else {
        let rest = before.drop_first();
        assert forall|i: int| 0 <= i < rest.len() implies stripped(
            #[trigger] rest[i],
            "MemAvailable:"@,
        ) is None by {
            assert(rest[i] == before[i + 1]);
        }
        assert(stripped(before[0], "MemAvailable:"@) is None);
        law_the_first_line_that_names_it_decides(rest, line, behind, w, n);
        assert(all.drop_first() =~= rest + seq![line] + behind);
        assert(all[0] == before[0]);
    }
    assert(seq![line][0] == line);
    if line == "MemAvailable:"@ + (w + (decimal_of(n as nat) + " kB"@)) {
        law_stripped_and_put_back(line, "MemAvailable:"@, w + (decimal_of(n as nat) + " kB"@));
        lemma_kib_read(w, n);
    }
}

proof fn lemma_kib_read(w: Seq<char>, n: u64)
    requires
        all_white(w),
    ensures
        kib_of(w + (decimal_of(n as nat) + " kB"@)) == Some(n),
{
    let d = decimal_of(n as nat);
    let spaced = d + seq![' '];
    lemma_decimal_reads_back(n as nat);
    assert(is_digit(d[0]) && is_digit(d[d.len() - 1]));
    reveal_strlit(" kB");
    reveal_strlit("kB");
    lemma_white_start(w, d + " kB"@);
    let t = d + " kB"@;
    assert(t =~= spaced + "kB"@);
    assert(t[0] == d[0] && t.last() == 'B');
    assert(trimmed(w + t) == t);
    law_suffixes_come_off(spaced, "kB"@);
    assert forall|x: Seq<char>| spaced == #[trigger] (x + "kB"@) implies false by {
        assert((x + "kB"@).last() == 'B');
        assert(spaced.last() == ' ');
    }
    assert(trimmed_suffix(t, "kB"@) == spaced);
    assert(spaced.drop_last() =~= d);
    assert(spaced[0] == d[0]);
    reveal_with_fuel(trimmed_end, 2);
    assert(trimmed(spaced) == d);
}

/// A service is as large as it was asked to be: `mib` times 1024 * 1024 bytes.
/// What is kept warm first is its beginning.
pub proof fn law_services_are_as_large_as_asked(mib: u64)
    requires
        mib * (1024 * 1024) <= u64::MAX,
    ensures
        WorkingSet::fresh(mib).size == mib * (1024 * 1024),
        WorkingSet::fresh(mib).wf(),
        mib > 0 ==> WorkingSet::fresh(mib).warmth()[0] == 0,
{
    let w = WorkingSet::fresh(mib);
    let to = w.slice_of(0).1;
    assert(0 * (w.size / SLICES) == 0);
    law_walk_misses_nothing(0, to, STRIDE as int, 0);
    assert(0 * (STRIDE as int) == 0);
    assert(w.size == mib * 0x10_0000);
    assert(w.slice_of(0) == (0int, to));
    if mib > 0 {
        assert(to > 0);
    }
}

/// Every byte of the working set is dirtied at the start: a write falls into
/// each 4096 of them, and none outside.
pub proof fn law_all_of_the_working_set_is_dirtied(w: WorkingSet, b: int, k: int)
    ensures
        0 <= b < w.size ==> b / 4096 < w.dirt().len() && w.dirt()[b / 4096] <= b
            < w.dirt()[b / 4096] + 4096,
        0 <= k < w.dirt().len() ==> 0 <= w.dirt()[k] < w.size,
{
    if 0 <= b < w.size {
        law_walk_misses_nothing(0, w.size as int, STRIDE as int, b / 4096);
    }
    if 0 <= k {
        law_walk_misses_nothing(0, w.size as int, STRIDE as int, k);
    }
}

/// A slice is an eighth of the working set, and all of it is kept warm.
pub proof fn law_a_slice_is_kept_warm(w: WorkingSet, b: int, k: int)
    requires
        w.wf(),
    ensures
        ({
            let from = w.slot * (w.size / 8);
            let i = (b - from) / 4096;
            &&& from <= b < from + w.size / 8 ==> i < w.warmth().len() && w.warmth()[i] <= b
                < w.warmth()[i] + 4096
            &&& 0 <= k < w.warmth().len() ==> from <= w.warmth()[k] < from + w.size / 8
        }),
{
    let (from, to) = w.slice_of(w.slot as int);
    if from <= b < to {
        law_walk_misses_nothing(from, to, STRIDE as int, (b - from) / 4096);
    }
    if 0 <= k {
        law_walk_misses_nothing(from, to, STRIDE as int, k);
        assert(k * STRIDE >= 0);
    }
}

/// Each slice has its turn: within eight turns every slot comes up once, the
/// next one after each, and the eighth turn is followed by the first again.
pub proof fn law_every_slice_has_its_turn(w: WorkingSet, n: nat)
    requires
        w.wf(),
    ensures
        w.warmed_times(n).wf(),
        w.warmed_times(n).size == w.size,
        (w.warmed_times(n).slot - w.slot - n) % 8 == 0,
        w.warmed_times(8) == w,
        forall|i: nat, j: nat|
            i < j < 8 ==> (#[trigger] w.warmed_times(i)).slot != (#[trigger] w.warmed_times(j)).slot,
{
    lemma_turns(w, n);
    lemma_turns(w, 8);
    assert forall|i: nat, j: nat| i < j < 8 implies (#[trigger] w.warmed_times(i)).slot != (
    #[trigger] w.warmed_times(j)).slot by {
        lemma_turns(w, i);
        lemma_turns(w, j);
    }
}

proof fn lemma_turns(w: WorkingSet, n: nat)
    requires
        w.wf(),
    ensures
        w.warmed_times(n).wf(),
        w.warmed_times(n).size == w.size,
        w.warmed_times(n).slot == (w.slot + n) % 8,
    decreases n,
{
    if n > 0 {
        lemma_turns(w, (n - 1) as nat);
    }
}

}
