//! The long-duration, multi-vCPU integrity test.
//!
//! Guest RAM is split into one slot per vCPU, each half hot and half cold.
//! The hot half is written by its vCPU only and must never change otherwise.
//! The cold half is handed back to the host while the other vCPUs run, then
//! taken again, stamped and verified, twice. Verification runs inside the
//! guest, and the detector is tried on planted damage before the run starts.

use crate::ledger::PAGE;
use crate::options::Options;
use vstd::arithmetic::div_mod::{lemma_div_is_ordered_by_denominator, lemma_fundamental_div_mod};
use vstd::prelude::*;

verus! {

/// Sweeps of the hot half between reclaim cycles of the cold half.
pub const HOT_SWEEPS_PER_CYCLE: u64 = 4;

/// Pressure is applied in bursts: this many seconds on, then as many off.
pub const PRESSURE_ON_SECS: u64 = 20;

pub const PRESSURE_OFF_SECS: u64 = 20;

/// The smallest slot the soak runs on: sixteen pages in each half.
pub const MIN_SLOT: u64 = 0x8_0000;

/// How long a cold half rests between its two verifications.
pub const REST_MILLIS: u64 = 250;

/// What the detector self-test flips in its victim page.
pub const DAMAGE: u64 = 0xDEAD_BEEF;

/// How guest RAM is shared out.
#[derive(Clone, Copy, PartialEq, Eq, Structural, Debug)]
pub struct SoakPlan {
    pub vcpus: u64,
    /// Bytes per vCPU.
    pub slot: u64,
    /// Bytes in each half that is used; whole pages.
    pub half: u64,
    /// How long the soak runs.
    pub seconds: u64,
}

/// Why a soak cannot be planned.
#[derive(Clone, Copy, PartialEq, Eq, Structural, Debug)]
pub enum SoakError {
    /// The slots would be smaller than [`MIN_SLOT`].
    TooSmall,
    /// The run time has no 64-bit number of seconds.
    TooLong,
}

/// How many vCPUs share guest RAM: at least one.
pub open spec fn sharers(o: Options) -> u64 {
    if o.vcpus >= 1 {
        o.vcpus
    } else {
        1
    }
}

/// The bytes of guest RAM each vCPU gets.
pub open spec fn slot_bytes(o: Options) -> int {
    o.ram_bytes() / (sharers(o) as int)
}

/// How guest RAM is shared out, or why it cannot be.
pub open spec fn planned(o: Options) -> Result<SoakPlan, SoakError> {
    let middle = slot_bytes(o) / 2;
    if slot_bytes(o) < MIN_SLOT {
        Err(SoakError::TooSmall)
    } else if o.soak_minutes * 60 > u64::MAX {
        Err(SoakError::TooLong)
    } else {
        Ok(
            SoakPlan {
                vcpus: sharers(o),
                slot: slot_bytes(o) as u64,
                half: (middle - middle % (PAGE as int)) as u64,
                seconds: (o.soak_minutes * 60) as u64,
            },
        )
    }
}

/// Shares guest RAM out among the vCPUs.
pub fn plan(opts: &Options) -> (r: Result<SoakPlan, SoakError>)
    ensures
        r == planned(*opts),
        match r {
            Ok(p) => {
                &&& slot_bytes(*opts) >= MIN_SLOT
                &&& opts.soak_minutes * 60 <= u64::MAX
                &&& p.vcpus == sharers(*opts)
                &&& p.slot == slot_bytes(*opts)
                &&& p.half == slot_bytes(*opts) / 2 - slot_bytes(*opts) / 2 % (PAGE as int)
                &&& p.seconds == opts.soak_minutes * 60
            },
            Err(SoakError::TooSmall) => slot_bytes(*opts) < MIN_SLOT,
            Err(SoakError::TooLong) => slot_bytes(*opts) >= MIN_SLOT && opts.soak_minutes * 60
                > u64::MAX,
        },
{
    let ram_size: u64 = opts.ram_size();
    let vcpus: u64 = if opts.vcpus >= 1 {
        opts.vcpus
    } else {
        1
    };
    let slot: u64 = ram_size / vcpus;
    if slot < MIN_SLOT {
        return Err(SoakError::TooSmall);
    }
    let middle: u64 = slot / 2;
    let half: u64 = middle - middle % PAGE;
    match opts.soak_minutes.checked_mul(60) {
        Some(seconds) => Ok(SoakPlan { vcpus, slot, half, seconds }),
        None => Err(SoakError::TooLong),
    }
}

impl SoakPlan {
    /// What a plan made from options keeps: slots fit guest RAM of `ram_size`
    /// bytes, and two halves of at least sixteen whole pages fit a slot.
    pub open spec fn wf(self, ram_size: int) -> bool {
        &&& self.vcpus >= 1
        &&& self.vcpus * self.slot <= ram_size
        &&& 2 * self.half <= self.slot
        &&& self.half % PAGE == 0
        &&& self.half >= 16 * PAGE
    }

    /// The hot half of worker `k`, as offsets into guest RAM.
    pub open spec fn hot(self, k: int) -> (int, int) {
        (k * self.slot, k * self.slot + self.half)
    }

    /// The cold half of worker `k`.
    pub open spec fn cold(self, k: int) -> (int, int) {
        (k * self.slot + self.half, k * self.slot + 2 * self.half)
    }
}

/// Every plan keeps its shares inside guest RAM, in whole pages.
pub proof fn law_plans_are_well_formed(o: Options, p: SoakPlan)
    requires
        slot_bytes(o) >= MIN_SLOT,
        p.vcpus == sharers(o),
        p.slot == slot_bytes(o),
        p.half == slot_bytes(o) / 2 - slot_bytes(o) / 2 % (PAGE as int),
    ensures
        p.wf(o.ram_bytes()),
{
    lemma_fundamental_div_mod(o.ram_bytes(), p.vcpus as int);
}

/// No two halves share a byte, whoever owns them, and all lie inside guest
/// RAM.
pub proof fn law_halves_are_disjoint(p: SoakPlan, ram_size: int, j: int, k: int)
    requires
        p.wf(ram_size),
        0 <= j < p.vcpus,
        0 <= k < p.vcpus,
    ensures
        0 <= p.hot(k).0 < p.hot(k).1 == p.cold(k).0 < p.cold(k).1 <= ram_size,
        j < k ==> p.cold(j).1 <= p.hot(k).0,
{
    assert(k * p.slot >= 0) by (nonlinear_arith)
        requires
            k >= 0,
            p.slot >= 0,
    ;
    assert(k * p.slot + p.slot <= p.vcpus * p.slot) by (nonlinear_arith)
        requires
            k + 1 <= p.vcpus,
            p.slot >= 0,
    ;
    if j < k {
        assert(j * p.slot + p.slot <= k * p.slot) by (nonlinear_arith)
            requires
                j + 1 <= k,
                p.slot >= 0,
        ;
    }
}

/// A second, in the nanoseconds that clocks are read in.
pub const NANOS_PER_SEC: u64 = 1_000_000_000;

/// How long a burst step sleeps before it looks again.
pub const BURST_POLL_MILLIS: u64 = 200;

/// Where the pressure bursts stand. Times are nanoseconds on one clock.
#[derive(Clone, Copy, PartialEq, Eq, Structural, Debug)]
pub enum Bursts {
    Begin,
    /// Pressure was asked for and has just come.
    Applied,
    On { since: u64 },
    /// Pressure has just been released.
    Released,
    Off { since: u64 },
}

/// What the burst loop does next.
#[derive(Clone, Copy, PartialEq, Eq, Structural, Debug)]
pub enum BurstAction {
    Apply,
    Sleep,
    Release,
    Finish,
}

/// The time from `since` to `now`, and none if the clock went back.
pub open spec fn elapsed(since: u64, now: u64) -> int {
    if now >= since {
        now - since
    } else {
        0
    }
}

pub open spec fn over_at(plan: SoakPlan, since: u64, now: u64) -> bool {
    elapsed(since, now) >= plan.seconds * NANOS_PER_SEC
}

/// Whether a soak that began at `since` is over at time `now`. Times are
/// nanoseconds on one clock.
pub fn is_over(plan: &SoakPlan, since: u64, now: u64) -> (r: bool)
    ensures
        r == over_at(*plan, since, now),
{
    let gone: u64 = if now >= since {
        now - since
    } else {
        0
    };
    gone / NANOS_PER_SEC >= plan.seconds
}

impl Bursts {
    /// The next state and what to do on the way, when the soak is or is not
    /// being stopped and the clock reads `now`.
    pub open spec fn next(self, stop: bool, now: u64) -> (Bursts, BurstAction) {
        match self {
            Bursts::Begin => if stop {
                (self, BurstAction::Finish)
            } else {
                (Bursts::Applied, BurstAction::Apply)
            },
            Bursts::Applied => if stop {
                (Bursts::Released, BurstAction::Release)
            } else {
                (Bursts::On { since: now }, BurstAction::Sleep)
            },
            Bursts::On { since } => if stop || elapsed(since, now) >= PRESSURE_ON_SECS
                * NANOS_PER_SEC {
                (Bursts::Released, BurstAction::Release)
            } else {
                (self, BurstAction::Sleep)
            },
            Bursts::Released => if stop {
                (self, BurstAction::Finish)
            } else {
                (Bursts::Off { since: now }, BurstAction::Sleep)
            },
            Bursts::Off { since } => if stop {
                (self, BurstAction::Finish)
            } else if elapsed(since, now) >= PRESSURE_OFF_SECS * NANOS_PER_SEC {
                (Bursts::Applied, BurstAction::Apply)
            } else {
                (self, BurstAction::Sleep)
            },
        }
    }

    /// Whether the generator holds memory.
    pub open spec fn pressing(self) -> bool {
        self is Applied || self is On
    }

    /// Takes one step of the burst loop.
    pub fn step(&mut self, stop: bool, now: u64) -> (r: BurstAction)
        ensures
            (*final(self), r) == old(self).next(stop, now),
    {
        match *self {
            Bursts::Begin => {
                if stop {
                    BurstAction::Finish
                } else {
                    *self = Bursts::Applied;
                    BurstAction::Apply
                }
            },
            Bursts::Applied => {
                if stop {
                    *self = Bursts::Released;
                    BurstAction::Release
                } else {
                    *self = Bursts::On { since: now };
                    BurstAction::Sleep
                }
            },
            Bursts::On { since } => {
                if stop || (now >= since && now - since >= PRESSURE_ON_SECS * NANOS_PER_SEC) {
                    *self = Bursts::Released;
                    BurstAction::Release
                } else {
                    BurstAction::Sleep
                }
            },
            Bursts::Released => {
                if stop {
                    BurstAction::Finish
                } else {
                    *self = Bursts::Off { since: now };
                    BurstAction::Sleep
                }
            },
            Bursts::Off { since } => {
                if stop {
                    BurstAction::Finish
                } else if now >= since && now - since >= PRESSURE_OFF_SECS * NANOS_PER_SEC {
                    *self = Bursts::Applied;
                    BurstAction::Apply
                } else {
                    BurstAction::Sleep
                }
            },
        }
    }
}

/// The burst loop never holds pressure twice, never releases what it does not
/// hold, and holds none when it finishes.
pub proof fn law_bursts_pair_up(b: Bursts, stop: bool, now: u64)
    ensures
        match b.next(stop, now).1 {
            BurstAction::Apply => !b.pressing() && b.next(stop, now).0.pressing(),
            BurstAction::Release => b.pressing() && !b.next(stop, now).0.pressing(),
            BurstAction::Finish => !b.pressing() && stop,
            BurstAction::Sleep => b.pressing() == b.next(stop, now).0.pressing(),
        },
{
}

/// Once the soak is being stopped the loop ends within two steps.
pub proof fn law_bursts_stop_promptly(b: Bursts, now: u64, later: u64)
    ensures
        b.next(true, now).1 == BurstAction::Finish || b.next(true, now).0.next(true, later).1
            == BurstAction::Finish,
{
}

/// A plan gives every vCPU that was asked for, and at least one, an equal slot
/// that is as large as guest RAM allows, and splits it into two halves of as
/// many whole pages as it allows; it lasts as many minutes as were asked for.
/// It is refused exactly if a slot would be under thirty-two pages, or the
/// seconds have no 64-bit number.
pub proof fn law_plans_share_out_what_there_is(o: Options)
    ensures
        ({
            let vcpus = if o.vcpus == 0 {
                1
            } else {
                o.vcpus as int
            };
            let ram = o.ram_bytes();
            match planned(o) {
                Ok(p) => {
                    &&& p.vcpus == vcpus
                    &&& p.vcpus * p.slot <= ram < p.vcpus * p.slot + p.vcpus
                    &&& 2 * p.half <= p.slot < 2 * p.half + 2 * 16384
                    &&& p.half % 16384 == 0
                    &&& p.half >= 16 * 16384
                    &&& p.seconds == 60 * o.soak_minutes
                    &&& p.wf(ram)
                },
                Err(SoakError::TooSmall) => ram < vcpus * (32 * 16384),
                Err(SoakError::TooLong) => ram >= vcpus * (32 * 16384) && 60 * o.soak_minutes
                    > u64::MAX,
            }
        }),
{
    let n = sharers(o) as int;
    let ram = o.ram_bytes();
    let slot = slot_bytes(o);
    lemma_fundamental_div_mod(ram, n);
    assert(0 <= slot <= ram) by {
        lemma_div_is_ordered_by_denominator(ram, 1, n);
    }
    assert(n * slot == slot * n) by (nonlinear_arith);
    if slot < MIN_SLOT {
        assert(ram < n * 0x8_0000) by (nonlinear_arith)
            requires
                ram == n * slot + ram % n,
                ram % n < n,
                slot + 1 <= 0x8_0000,
                n >= 1,
        ;
    } else {
        assert(ram >= n * 0x8_0000) by (nonlinear_arith)
            requires
                ram == n * slot + ram % n,
                ram % n >= 0,
                slot >= 0x8_0000,
                n >= 1,
        ;
    }
}

/// Pressure stays on for twenty seconds and then off for twenty, unless the
/// soak is being stopped; a burst is applied as soon as the last pause is over.
pub proof fn law_bursts_keep_their_times(since: u64, now: u64, stop: bool)
    requires
        since <= now,
    ensures
        ({
            let over = now - since >= 20_000_000_000;
            let on = Bursts::On { since };
            let off = Bursts::Off { since };
            &&& on.next(stop, now).1 == BurstAction::Release <==> stop || over
            &&& on.next(stop, now).1 == BurstAction::Sleep <==> !stop && !over
            &&& off.next(stop, now).1 == BurstAction::Apply <==> !stop && over
            &&& off.next(stop, now).1 == BurstAction::Sleep <==> !stop && !over
            &&& off.next(stop, now).1 == BurstAction::Finish <==> stop
            &&& on.next(stop, now).1 == BurstAction::Sleep ==> on.next(stop, now).0 == on
            &&& off.next(stop, now).1 == BurstAction::Sleep ==> off.next(stop, now).0 == off
            &&& Bursts::Begin.next(stop, now).1 == if stop {
                BurstAction::Finish
            } else {
                BurstAction::Apply
            }
            &&& !stop ==> Bursts::Applied.next(stop, now).0 == (Bursts::On { since: now })
            &&& !stop ==> Bursts::Released.next(stop, now).0 == (Bursts::Off { since: now })
            &&& !stop ==> Bursts::Applied.next(stop, now).1 == BurstAction::Sleep
            &&& !stop ==> Bursts::Released.next(stop, now).1 == BurstAction::Sleep
        }),
{
}

/// A planned soak is over once as many minutes have passed as were asked for,
/// and not before.
pub proof fn law_soaks_last_as_long_as_asked(o: Options, since: u64, now: u64)
    requires
        planned(o) is Ok,
        since <= now,
    ensures
        over_at(planned(o)->Ok_0, since, now) <==> now - since >= o.soak_minutes * 60_000_000_000,
{
}

}
