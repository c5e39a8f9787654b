//! The concurrent safety probe: the guest keeps sweeping while pressure
//! builds, holds and is released. This decides after each sweep whether to
//! look for the generator, to release it, and to go on.

use crate::pressure::{HOLD_SECS, SETTLE_SECS};
use crate::soak::{elapsed, NANOS_PER_SEC};
use vstd::prelude::*;

verus! {

/// What came of looking for the pressure generator.
#[derive(Clone, Copy, PartialEq, Eq, Structural, Debug)]
pub enum Poll {
    /// Nobody looked.
    Skipped,
    /// It is still building up.
    Pending,
    /// It holds its memory.
    Ready,
    /// It could not be started.
    Failed,
    /// The thread that starts it is gone.
    Dead,
}

/// Why the probe ends early.
#[derive(Clone, Copy, PartialEq, Eq, Structural, Debug)]
pub enum HammerFault {
    GeneratorFailed,
    GeneratorThreadDied,
    /// Somebody looked when it was not asked for, or did not when it was.
    OutOfTurn,
}

/// What to do after a sweep.
#[derive(Clone, Copy, PartialEq, Eq, Structural, Debug)]
pub struct AfterSweep {
    /// Kill the generator now.
    pub release: bool,
    /// Sweep again.
    pub go_on: bool,
}

/// Where the probe stands. Times are nanoseconds on one clock.
#[derive(Clone, Copy, PartialEq, Eq, Structural, Debug)]
pub struct Hammer {
    /// When the generator reported that it holds its memory.
    pub hold_since: Option<u64>,
    /// When it was released.
    pub released_at: Option<u64>,
}

impl Hammer {
    pub fn new() -> (r: Hammer)
        ensures
            r == (Hammer { hold_since: None, released_at: None }),
            r.wf(),
    {
        Hammer { hold_since: None, released_at: None }
    }

    /// The generator is released only after it held for the full time.
    pub open spec fn wf(self) -> bool {
        match self.released_at {
            Some(released) => self.hold_since is Some && elapsed(self.hold_since->0, released)
                >= HOLD_SECS * NANOS_PER_SEC,
            None => true,
        }
    }

    /// Whether the generator has not been heard of yet.
    pub open spec fn polls(self) -> bool {
        self.hold_since is None && self.released_at is None
    }

    pub fn wants_poll(&self) -> (r: bool)
        ensures
            r == self.polls(),
    {
        self.hold_since.is_none() && self.released_at.is_none()
    }

    /// The probe after a poll at time `now`.
    pub open spec fn polled(self, poll: Poll, now: u64) -> Result<Hammer, HammerFault> {
        if self.polls() {
            match poll {
                Poll::Skipped => Err(HammerFault::OutOfTurn),
                Poll::Pending => Ok(self),
                Poll::Ready => Ok(Hammer { hold_since: Some(now), ..self }),
                Poll::Failed => Err(HammerFault::GeneratorFailed),
                Poll::Dead => Err(HammerFault::GeneratorThreadDied),
            }
        } else if poll == Poll::Skipped {
            Ok(self)
        } else {
            Err(HammerFault::OutOfTurn)
        }
    }

    /// Whether the hold is over at time `now`.
    pub open spec fn held_enough(self, now: u64) -> bool {
        &&& self.released_at is None
        &&& self.hold_since is Some
        &&& elapsed(self.hold_since->0, now) >= HOLD_SECS * NANOS_PER_SEC
    }

    /// The probe, and what to do, after a sweep that ended at time `now`.
    pub open spec fn after(self, poll: Poll, now: u64) -> Result<
        (Hammer, AfterSweep),
        HammerFault,
    > {
        match self.polled(poll, now) {
            Err(e) => Err(e),
            Ok(p) => {
                let release = p.held_enough(now);
                let q = if release {
                    Hammer { released_at: Some(now), ..p }
                } else {
                    p
                };
                let go_on = match q.released_at {
                    Some(released) => elapsed(released, now) < SETTLE_SECS * NANOS_PER_SEC,
                    None => true,
                };
                Ok((q, AfterSweep { release, go_on }))
            },
        }
    }

    /// Decides what to do after a sweep.
    pub fn swept(&mut self, poll: Poll, now: u64) -> (r: Result<AfterSweep, HammerFault>)
        ensures
            match old(self).after(poll, now) {
                Ok((next, todo)) => r == Ok::<AfterSweep, HammerFault>(todo) && *final(self)
                    == next,
                Err(e) => r == Err::<AfterSweep, HammerFault>(e) && *final(self) == *old(self),
            },
    {
        if self.wants_poll() {
            match poll {
                Poll::Skipped => {
                    return Err(HammerFault::OutOfTurn);
                },
                Poll::Pending => {},
                Poll::Ready => {
                    self.hold_since = Some(now);
                },
                Poll::Failed => {
                    return Err(HammerFault::GeneratorFailed);
                },
                Poll::Dead => {
                    return Err(HammerFault::GeneratorThreadDied);
                },
            }
        } else if poll != Poll::Skipped {
            return Err(HammerFault::OutOfTurn);
        }
        let mut release = false;
        if self.released_at.is_none() {
            if let Some(since) = self.hold_since {
                if now >= since && now - since >= HOLD_SECS * NANOS_PER_SEC {
                    self.released_at = Some(now);
                    release = true;
                }
            }
        }
        let go_on = match self.released_at {
            Some(released) => now < released || now - released < SETTLE_SECS * NANOS_PER_SEC,
            None => true,
        };
        Ok(AfterSweep { release, go_on })
    }
}

/// The probe only stops once pressure was held for the full time and the
/// guest kept sweeping for the full tail after release; and it releases
/// exactly once.
pub proof fn law_hammer_outlasts_the_pressure(h: Hammer, poll: Poll, now: u64)
    requires
        h.wf(),
        h.after(poll, now) is Ok,
    ensures
        ({
            let (next, todo) = h.after(poll, now)->Ok_0;
            &&& next.wf()
            &&& !todo.go_on ==> next.released_at is Some && elapsed(next.released_at->0, now)
                >= SETTLE_SECS * NANOS_PER_SEC
            &&& todo.release ==> h.released_at is None && next.released_at == Some(now)
            &&& h.released_at is Some ==> !todo.release && next.released_at == h.released_at
        }),
{
}

/// The probe asks after the generator until it is heard of; the hold begins
/// when it reports, and a generator that failed or is gone ends the probe.
/// Whoever answers out of turn is refused.
pub proof fn law_the_hold_begins_when_the_generator_reports(h: Hammer, poll: Poll, now: u64)
    ensures
        h.polls() <==> h.hold_since is None && h.released_at is None,
        h.polls() ==> match poll {
            Poll::Ready => h.after(poll, now) is Ok && h.after(poll, now)->Ok_0.0.hold_since == Some(
                now,
            ),
            Poll::Pending => h.after(poll, now) is Ok && h.after(poll, now)->Ok_0.0 == h && h.after(
                poll,
                now,
            )->Ok_0.1.go_on,
            Poll::Failed => h.after(poll, now) == Err::<(Hammer, AfterSweep), HammerFault>(
                HammerFault::GeneratorFailed,
            ),
            Poll::Dead => h.after(poll, now) == Err::<(Hammer, AfterSweep), HammerFault>(
                HammerFault::GeneratorThreadDied,
            ),
            Poll::Skipped => h.after(poll, now) == Err::<(Hammer, AfterSweep), HammerFault>(
                HammerFault::OutOfTurn,
            ),
        },
        !h.polls() ==> (h.after(poll, now) is Ok <==> poll == Poll::Skipped),
        !h.polls() && h.after(poll, now) is Ok ==> h.after(poll, now)->Ok_0.0.hold_since
            == h.hold_since,
{
}

/// Pressure is released at the first sweep that ends eight seconds or more
/// after the hold began, and not before; the guest goes on sweeping for two
/// more seconds and no longer. Times are nanoseconds.
pub proof fn law_the_hammer_keeps_its_times(h: Hammer, since: u64, now: u64)
    requires
        h.hold_since == Some(since),
        since <= now,
    ensures
        h.after(Poll::Skipped, now) is Ok,
        ({
            let (next, todo) = h.after(Poll::Skipped, now)->Ok_0;
            &&& h.released_at is None ==> (todo.release <==> now - since >= 8_000_000_000)
            &&& h.released_at is None ==> todo.go_on
            &&& todo.release ==> next.released_at == Some(now)
            &&& h.released_at is None && !todo.release ==> next == h
            &&& h.released_at matches Some(released) ==> (released <= now ==> (todo.go_on <==> now
                - released < 2_000_000_000)) && next == h && !todo.release
        }),
{
}

}
