//! The safety probes: in which order pressure is applied and things are read.

use crate::options::Options;
use crate::pressure::{HOLD_SECS, SETTLE_SECS};
use crate::survey::{
    counts, first_of, losses, offsets_fit, survey_ram, tally, RamSurvey, Verdict, EXAMPLES,
};
use vstd::prelude::*;

verus! {

/// One step of a safety probe.
#[derive(Clone, Copy, PartialEq, Eq, Structural, Debug)]
pub enum ProbeStep {
    ArmCanary,
    ApplyPressure { gb: u64 },
    Sleep { secs: u64 },
    ReleasePressure,
    /// The guest sweeps while pressure builds, holds and is released.
    Hammer { gb: u64 },
    ReadLedger,
    SurveyCanary,
    /// Read the first word of every page of guest RAM.
    ReadRam,
    /// Print what the probe found, as far as the canary lets it.
    Report,
}

/// The probe of a parked guest.
pub open spec fn parked_probe_of(o: Options) -> Seq<ProbeStep> {
    seq![
        ProbeStep::ArmCanary,
        ProbeStep::ApplyPressure { gb: o.pressure_gb },
        ProbeStep::Sleep { secs: HOLD_SECS },
        ProbeStep::ReleasePressure,
        ProbeStep::Sleep { secs: SETTLE_SECS },
        ProbeStep::ReadLedger,
        ProbeStep::SurveyCanary,
        ProbeStep::ReadRam,
        ProbeStep::Report,
    ]
}

/// The probe of a guest that keeps writing.
pub open spec fn hammer_probe_of(o: Options) -> Seq<ProbeStep> {
    seq![
        ProbeStep::ArmCanary,
        ProbeStep::Hammer { gb: o.pressure_gb },
        ProbeStep::ReadLedger,
        ProbeStep::SurveyCanary,
        ProbeStep::ReadRam,
        ProbeStep::Report,
    ]
}

pub fn parked_probe(opts: &Options) -> (r: Vec<ProbeStep>)
    ensures
        r@ == parked_probe_of(*opts),
{
    vec![
        ProbeStep::ArmCanary,
        ProbeStep::ApplyPressure { gb: opts.pressure_gb },
        ProbeStep::Sleep { secs: HOLD_SECS },
        ProbeStep::ReleasePressure,
        ProbeStep::Sleep { secs: SETTLE_SECS },
        ProbeStep::ReadLedger,
        ProbeStep::SurveyCanary,
        ProbeStep::ReadRam,
        ProbeStep::Report,
    ]
}

pub fn hammer_probe(opts: &Options) -> (r: Vec<ProbeStep>)
    ensures
        r@ == hammer_probe_of(*opts),
{
    vec![
        ProbeStep::ArmCanary,
        ProbeStep::Hammer { gb: opts.pressure_gb },
        ProbeStep::ReadLedger,
        ProbeStep::SurveyCanary,
        ProbeStep::ReadRam,
        ProbeStep::Report,
    ]
}

/// Whether a step reads memory through the host mapping.
pub open spec fn surveys(s: ProbeStep) -> bool {
    s == ProbeStep::SurveyCanary || s == ProbeStep::ReadRam
}

/// Every probe has its positive control in place before pressure comes, and
/// reads the ledger before the surveys, which read through the host mapping
/// and disturb it.
pub proof fn law_probes_read_before_they_survey(o: Options, parked: bool, i: int)
    requires
        0 <= i < (if parked {
            parked_probe_of(o)
        } else {
            hammer_probe_of(o)
        }).len(),
    ensures
        ({
            let steps = if parked {
                parked_probe_of(o)
            } else {
                hammer_probe_of(o)
            };
            let read = if parked {
                5int
            } else {
                2int
            };
            &&& steps[0] == ProbeStep::ArmCanary
            &&& steps[read] == ProbeStep::ReadLedger
            &&& surveys(steps[i]) ==> i > read
            &&& steps[i] is ApplyPressure || steps[i] is Hammer ==> 0 < i < read
        }),
{
}

/// What a probe has to say.
pub enum ProbeReport {
    /// Pressure never reached anonymous memory: the run proves nothing, and
    /// nothing is said of guest data.
    Inconclusive,
    GuestData { survey: RamSurvey },
}

/// Whether a probe with this canary says anything of guest data.
pub open spec fn speaks_of_guest(v: Verdict) -> bool {
    v.discarded * 2 >= v.total
}

/// Judges a probe by its canary first: guest data, given by the first words of
/// its pages after `sweeps` sweeps, is spoken of only where the canary died.
pub fn probe_report(v: &Verdict, words: &Vec<u64>, sweeps: u64) -> (r: ProbeReport)
    requires
        offsets_fit(words@.len()),
    ensures
        !speaks_of_guest(*v) ==> r is Inconclusive,
        speaks_of_guest(*v) ==> (r matches ProbeReport::GuestData { survey }
            && survey.intact == tally(words@, counts(sweeps)) && survey.lost == words@.len()
            - survey.intact && survey.examples@ == first_of(
            losses(words@, sweeps),
            EXAMPLES as int,
        )),
{
    if v.conclusive() {
        ProbeReport::GuestData { survey: survey_ram(words, sweeps) }
    } else {
        ProbeReport::Inconclusive
    }
}

/// Guest data is spoken of exactly if no more of the canary is left than is
/// gone.
pub proof fn law_guest_data_is_spoken_of_where_the_canary_died(v: Verdict)
    ensures
        speaks_of_guest(v) <==> v.total - v.discarded <= v.discarded,
{
}

/// Every probe applies the pressure that was asked for, once; that of a parked
/// guest is held for eight seconds, released, and followed by two to settle.
/// The canary is surveyed before guest RAM is read, and the report comes last.
pub proof fn law_probes_apply_the_pressure_asked_for(o: Options, parked: bool, i: int, j: int)
    requires
        ({
            let steps = if parked {
                parked_probe_of(o)
            } else {
                hammer_probe_of(o)
            };
            0 <= i < steps.len() && 0 <= j < steps.len()
        }),
    ensures
        ({
            let steps = if parked {
                parked_probe_of(o)
            } else {
                hammer_probe_of(o)
            };
            let pressing = |s: ProbeStep| s is ApplyPressure || s is Hammer;
            &&& pressing(steps[1])
            &&& pressing(steps[i]) ==> i == 1
            &&& steps[i] matches ProbeStep::ApplyPressure { gb } ==> parked && gb == o.pressure_gb
                && steps[i + 1] == (ProbeStep::Sleep { secs: 8 }) && steps[i + 2]
                == ProbeStep::ReleasePressure && steps[i + 3] == (ProbeStep::Sleep { secs: 2 })
            &&& steps[i] matches ProbeStep::Hammer { gb } ==> !parked && gb == o.pressure_gb
            &&& steps[i] == ProbeStep::Report <==> i == steps.len() - 1
            &&& steps.contains(ProbeStep::SurveyCanary) && steps.contains(ProbeStep::ReadRam)
            &&& steps[i] == ProbeStep::SurveyCanary && steps[j] == ProbeStep::ReadRam ==> i < j
            &&& steps[i] == ProbeStep::ReadLedger && (steps[j] == ProbeStep::SurveyCanary
                || steps[j] == ProbeStep::ReadRam) ==> i < j
            &&& steps.contains(ProbeStep::ReadLedger)
        }),
{
    let steps = if parked {
        parked_probe_of(o)
    } else {
        hammer_probe_of(o)
    };
    let read: int = if parked {
        5
    } else {
        2
    };
    assert(steps[read] == ProbeStep::ReadLedger);
    assert(steps[read + 1] == ProbeStep::SurveyCanary);
    assert(steps[read + 2] == ProbeStep::ReadRam);
}

}
