//! The line protocol between the host and the harness that runs the Linux
//! guest.

use crate::soak::{elapsed, NANOS_PER_SEC};
use crate::text::{
    decimal, decimal_of, joined, law_stripped_and_put_back, lemma_decimal_reads_back, parse_u64,
    strip_prefix, stripped, trim, trim_end_of, trimmed, trimmed_end_of, u64_value,
};
use vstd::prelude::*;

verus! {

/// What the host tells the harness.
#[derive(Clone, Copy, PartialEq, Eq, Structural, Debug)]
pub enum HarnessCommand {
    /// Have the guest touch this many GiB.
    Touch { gib: u64 },
    /// Have the guest free everything.
    Free,
    /// Have the guest report its available memory.
    Mem,
    /// Have the guest start one service of this many MiB.
    FleetStart { mib: u64 },
    /// Have the guest stop one service.
    FleetStopOne,
    /// Leave the guest this many MiB.
    Balloon { mib: u64 },
    Quit,
}

impl HarnessCommand {
    pub open spec fn text_of(self) -> Seq<char> {
        match self {
            HarnessCommand::Touch { gib } => "guest touch "@ + decimal_of(gib as nat),
            HarnessCommand::Free => "guest free"@,
            HarnessCommand::Mem => "guest mem"@,
            HarnessCommand::FleetStart { mib } => "guest fleet start 1 "@ + decimal_of(mib as nat),
            HarnessCommand::FleetStopOne => "guest fleet stop-one"@,
            HarnessCommand::Balloon { mib } => "balloon "@ + decimal_of(mib as nat),
            HarnessCommand::Quit => "quit"@,
        }
    }

    /// The signal that says it is done.
    pub open spec fn done_by(self) -> Option<Signal> {
        match self {
            HarnessCommand::Touch { gib: _ } => Some(Signal::Touched),
            HarnessCommand::Free => Some(Signal::Freed),
            HarnessCommand::Mem => Some(Signal::Mem),
            HarnessCommand::FleetStart { mib: _ } => Some(Signal::FleetStarted),
            HarnessCommand::FleetStopOne => Some(Signal::FleetStopped),
            HarnessCommand::Balloon { mib: _ } => Some(Signal::BalloonTarget),
            HarnessCommand::Quit => None,
        }
    }

    /// The signal to wait for once it is sent.
    pub fn awaits(&self) -> (r: Option<Signal>)
        ensures
            r == self.done_by(),
    {
        match *self {
            HarnessCommand::Touch { gib: _ } => Some(Signal::Touched),
            HarnessCommand::Free => Some(Signal::Freed),
            HarnessCommand::Mem => Some(Signal::Mem),
            HarnessCommand::FleetStart { mib: _ } => Some(Signal::FleetStarted),
            HarnessCommand::FleetStopOne => Some(Signal::FleetStopped),
            HarnessCommand::Balloon { mib: _ } => Some(Signal::BalloonTarget),
            HarnessCommand::Quit => None,
        }
    }

    pub fn text(&self) -> (r: String)
        ensures
            r@ == self.text_of(),
    {
        match *self {
            HarnessCommand::Touch { gib } => joined("guest touch ", decimal(gib).as_str()),
            HarnessCommand::Free => "guest free".to_owned(),
            HarnessCommand::Mem => "guest mem".to_owned(),
            HarnessCommand::FleetStart { mib } => joined(
                "guest fleet start 1 ",
                decimal(mib).as_str(),
            ),
            HarnessCommand::FleetStopOne => "guest fleet stop-one".to_owned(),
            HarnessCommand::Balloon { mib } => joined("balloon ", decimal(mib).as_str()),
            HarnessCommand::Quit => "quit".to_owned(),
        }
    }
}

/// What the host waits for.
#[derive(Clone, Copy, PartialEq, Eq, Structural, Debug)]
pub enum Signal {
    Started,
    Ready,
    Touched,
    Freed,
    Mem,
    FleetStarted,
    FleetStopped,
    BalloonTarget,
}

impl Signal {
    /// What a line that carries the signal starts with.
    pub open spec fn prefix_of(self) -> Seq<char> {
        match self {
            Signal::Started => "HARNESS started"@,
            Signal::Ready => "RATCHET READY"@,
            Signal::Touched => "RATCHET TOUCHED"@,
            Signal::Freed => "RATCHET FREED"@,
            Signal::Mem => "RATCHET MEM"@,
            Signal::FleetStarted => "RATCHET FLEET-STARTED"@,
            Signal::FleetStopped => "RATCHET FLEET-STOPPED"@,
            Signal::BalloonTarget => "HARNESS balloon-target"@,
        }
    }

    pub fn prefix(&self) -> (r: &'static str)
        ensures
            r@ == self.prefix_of(),
    {
        match *self {
            Signal::Started => "HARNESS started",
            Signal::Ready => "RATCHET READY",
            Signal::Touched => "RATCHET TOUCHED",
            Signal::Freed => "RATCHET FREED",
            Signal::Mem => "RATCHET MEM",
            Signal::FleetStarted => "RATCHET FLEET-STARTED",
            Signal::FleetStopped => "RATCHET FLEET-STOPPED",
            Signal::BalloonTarget => "HARNESS balloon-target",
        }
    }

    /// How long the host waits for it.
    pub open spec fn patience(self) -> u64 {
        match self {
            Signal::Touched => 300,
            Signal::Mem => 15,
            Signal::BalloonTarget => 10,
            _ => 60,
        }
    }

    pub fn timeout_secs(&self) -> (r: u64)
        ensures
            r == self.patience(),
    {
        match *self {
            Signal::Touched => 300,
            Signal::Mem => 15,
            Signal::BalloonTarget => 10,
            _ => 60,
        }
    }

    /// What is left of its time.
    pub open spec fn left_of(self, since: u64, now: u64) -> Option<u64> {
        if elapsed(since, now) <= self.patience() * NANOS_PER_SEC {
            Some((self.patience() * NANOS_PER_SEC - elapsed(since, now)) as u64)
        } else {
            None
        }
    }

    /// How long a wait for it that began at `since` goes on at time `now`, or
    /// `None` once its time is over. Times are nanoseconds on one clock.
    pub fn time_left(&self, since: u64, now: u64) -> (r: Option<u64>)
        ensures
            r == self.left_of(since, now),
    {
        let all: u64 = self.timeout_secs() * NANOS_PER_SEC;
        let gone: u64 = if now >= since {
            now - since
        } else {
            0
        };
        if gone <= all {
            Some(all - gone)
        } else {
            None
        }
    }
}

/// A line of the harness without the carriage returns a serial line ends in.
pub fn clean_line(line: &str) -> (r: String)
    ensures
        r@ == trimmed_end_of(line@, '\r'),
{
    trim_end_of(line, '\r').to_owned()
}

pub open spec fn shown(line: Seq<char>, verbose: bool) -> bool {
    verbose || stripped(line, "RATCHET "@) is Some || stripped(line, "HARNESS "@) is Some
}

/// Whether a line is shown: protocol lines always are, kernel messages only
/// when asked for.
pub fn is_shown(line: &str, verbose: bool) -> (r: bool)
    ensures
        r == shown(line@, verbose),
{
    verbose || strip_prefix(line, "RATCHET ").is_some() || strip_prefix(line, "HARNESS ").is_some()
}

/// What happened while the host waited.
pub enum WaitEvent {
    Line { line: String },
    /// The time is up.
    TimedOut,
    /// The harness is gone.
    Exited,
}

/// What comes of it.
pub enum WaitOutcome {
    /// The signal came, with this after it.
    Found { rest: String },
    Again,
    TimedOut,
    Exited,
}

/// What a line holds behind the prefix that is waited for, if it starts with it.
pub open spec fn found_in(line: Seq<char>, prefix: Seq<char>) -> Option<Seq<char>> {
    match stripped(line, prefix) {
        Some(rest) => Some(trimmed(rest)),
        None => None,
    }
}

/// Holds what happened against the signal that is waited for.
pub fn wait_step(prefix: &str, event: &WaitEvent) -> (r: WaitOutcome)
    ensures
        match *event {
            WaitEvent::Line { line } => match found_in(line@, prefix@) {
                Some(rest) => r matches WaitOutcome::Found { rest: found } && found@ == rest,
                None => r == WaitOutcome::Again,
            },
            WaitEvent::TimedOut => r == WaitOutcome::TimedOut,
            WaitEvent::Exited => r == WaitOutcome::Exited,
        },
{
    match event {
        WaitEvent::Line { line } => match strip_prefix(line.as_str(), prefix) {
            Some(rest) => WaitOutcome::Found { rest: trim(rest).to_owned() },
            None => WaitOutcome::Again,
        },
        WaitEvent::TimedOut => WaitOutcome::TimedOut,
        WaitEvent::Exited => WaitOutcome::Exited,
    }
}

/// The guest's available memory in KiB, from what followed the signal.
pub fn parse_mem(rest: &str) -> (r: Option<u64>)
    ensures
        r == u64_value(rest@),
{
    parse_u64(rest)
}

/// What has passed of a wait and what is left of it are the signal's time, until
/// that is over: five minutes for memory to be touched, a quarter of a minute
/// for a number, ten seconds for the balloon, and a minute for all else.
pub proof fn law_waits_last_their_time(s: Signal, since: u64, now: u64)
    requires
        since <= now,
    ensures
        ({
            let secs = match s {
                Signal::Touched => 300int,
                Signal::Mem => 15,
                Signal::BalloonTarget => 10,
                _ => 60,
            };
            match s.left_of(since, now) {
                Some(left) => left + (now - since) == secs * 1_000_000_000,
                None => now - since > secs * 1_000_000_000,
            }
        }),
{
}

/// Two prefixes that differ somewhere are never the start of the same line.
proof fn lemma_told_apart(p: Seq<char>, q: Seq<char>, i: int, rest: Seq<char>)
    requires
        0 <= i < p.len(),
        i < q.len(),
        p[i] != q[i],
    ensures
        stripped(p + rest, q) is None,
{
    let line = p + rest;
    if q.len() <= line.len() && line.take(q.len() as int) == q {
        assert(line.take(q.len() as int)[i] == p[i]);
    }
}

/// A line that carries one signal never passes for another: whoever waits is
/// woken by what they wait for and nothing else.
pub proof fn law_signals_are_told_apart(a: Signal, b: Signal, rest: Seq<char>)
    ensures
        stripped(a.prefix_of() + rest, b.prefix_of()) is Some <==> a == b,
        found_in(a.prefix_of() + rest, a.prefix_of()) == Some(trimmed(rest)),
{
    reveal_strlit("HARNESS started");
    reveal_strlit("RATCHET READY");
    reveal_strlit("RATCHET TOUCHED");
    reveal_strlit("RATCHET FREED");
    reveal_strlit("RATCHET MEM");
    reveal_strlit("RATCHET FLEET-STARTED");
    reveal_strlit("RATCHET FLEET-STOPPED");
    reveal_strlit("HARNESS balloon-target");
    let (p, q) = (a.prefix_of(), b.prefix_of());
    law_stripped_and_put_back(p + rest, p, rest);
    if a != b {
        let i: int = if p[0] != q[0] {
            0
        } else if p[8] != q[8] {
            8
        } else if p[9] != q[9] {
            9
        } else {
            16
        };
        lemma_told_apart(p, q, i, rest);
    }
}

/// Lines of the protocol are shown, and others exactly if they were asked for.
pub proof fn law_other_lines_are_shown_when_asked_for(line: Seq<char>, rest: Seq<char>)
    ensures
        shown(line, true),
        shown("RATCHET "@ + rest, false),
        shown("HARNESS "@ + rest, false),
        shown(line, false) ==> line.len() >= 8 && (line.take(8) == "RATCHET "@ || line.take(8)
            == "HARNESS "@),
{
    reveal_strlit("RATCHET ");
    reveal_strlit("HARNESS ");
    law_stripped_and_put_back("RATCHET "@ + rest, "RATCHET "@, rest);
    law_stripped_and_put_back("HARNESS "@ + rest, "HARNESS "@, rest);
}

/// The balloon's target reads back from its command.
pub proof fn law_balloon_targets_read_back(mib: u64)
    ensures
        ({
            let text = (HarnessCommand::Balloon { mib }).text_of();
            &&& stripped(text, "balloon "@) is Some
            &&& u64_value(stripped(text, "balloon "@)->0) == Some(mib)
        }),
{
    law_stripped_and_put_back("balloon "@, "balloon "@, decimal_of(mib as nat));
    lemma_decimal_reads_back(mib as nat);
}

}
