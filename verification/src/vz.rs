//! The run on Apple's own stack: a Linux guest touches memory, frees it, and
//! the balloon inflates over it.

use crate::harness::{HarnessCommand, Signal};
use crate::helper::HelperLedger;
use crate::pressure::{HOLD_SECS, SETTLE_SECS};
use crate::soak::{elapsed, NANOS_PER_SEC};
use crate::survey::Verdict;
use crate::text::{parse_u64, same, texts, u64_value};
use vstd::prelude::*;

verus! {

/// How long the balloon is watched.
pub const BALLOON_TIMEOUT_SECS: u64 = 30;

/// What the command line asks for.
pub struct VzOptions {
    pub harness: String,
    pub kernel: String,
    pub initramfs: String,
    pub guest_gb: u64,
    pub touch_gb: u64,
    /// Zero for no pressure.
    pub pressure_gb: u64,
    pub verbose: bool,
}

/// The same, in texts.
#[verifier::ext_equal]
pub struct VzModel {
    pub harness: Seq<char>,
    pub kernel: Seq<char>,
    pub initramfs: Seq<char>,
    pub guest_gb: u64,
    pub touch_gb: u64,
    pub pressure_gb: u64,
    pub verbose: bool,
}

impl View for VzOptions {
    type V = VzModel;

    open spec fn view(&self) -> VzModel {
        VzModel {
            harness: self.harness@,
            kernel: self.kernel@,
            initramfs: self.initramfs@,
            guest_gb: self.guest_gb,
            touch_gb: self.touch_gb,
            pressure_gb: self.pressure_gb,
            verbose: self.verbose,
        }
    }
}

/// The flags.
#[derive(Clone, Copy, PartialEq, Eq, Structural, Debug)]
pub enum VzFlag {
    Harness,
    Kernel,
    Initramfs,
    GuestGb,
    TouchGb,
    PressureGb,
    Verbose,
}

/// Why a command line is refused. Positions count from zero.
#[derive(Clone, Copy, PartialEq, Eq, Structural, Debug)]
pub enum VzArgError {
    UnknownArgument { at: usize },
    MissingValue { flag: VzFlag },
    BadNumber { flag: VzFlag, at: usize },
    /// The harness, the kernel and the initial file system must all be named.
    MissingPath,
    /// The guest would touch all its memory.
    NoRoom,
}

pub open spec fn vz_flag_of(s: Seq<char>) -> Option<VzFlag> {
    if s == "--harness"@ {
        Some(VzFlag::Harness)
    } else if s == "--kernel"@ {
        Some(VzFlag::Kernel)
    } else if s == "--initramfs"@ {
        Some(VzFlag::Initramfs)
    } else if s == "--guest-gb"@ {
        Some(VzFlag::GuestGb)
    } else if s == "--touch-gb"@ {
        Some(VzFlag::TouchGb)
    } else if s == "--pressure-gb"@ {
        Some(VzFlag::PressureGb)
    } else if s == "--verbose"@ {
        Some(VzFlag::Verbose)
    } else {
        None
    }
}

fn find_vz_flag(s: &str) -> (r: Option<VzFlag>)
    ensures
        r == vz_flag_of(s@),
{
    if same(s, "--harness") {
        Some(VzFlag::Harness)
    } else if same(s, "--kernel") {
        Some(VzFlag::Kernel)
    } else if same(s, "--initramfs") {
        Some(VzFlag::Initramfs)
    } else if same(s, "--guest-gb") {
        Some(VzFlag::GuestGb)
    } else if same(s, "--touch-gb") {
        Some(VzFlag::TouchGb)
    } else if same(s, "--pressure-gb") {
        Some(VzFlag::PressureGb)
    } else if same(s, "--verbose") {
        Some(VzFlag::Verbose)
    } else {
        None
    }
}

/// The options before the command line is read.
pub open spec fn vz_defaults() -> VzModel {
    VzModel {
        harness: Seq::empty(),
        kernel: Seq::empty(),
        initramfs: Seq::empty(),
        guest_gb: 6,
        touch_gb: 4,
        pressure_gb: 0,
        verbose: false,
    }
}

/// The options after a flag was given the value `v`, or `None` if that is no
/// number where one is needed.
pub open spec fn vz_given(o: VzModel, flag: VzFlag, v: Seq<char>) -> Option<VzModel> {
    match flag {
        VzFlag::Harness => Some(VzModel { harness: v, ..o }),
        VzFlag::Kernel => Some(VzModel { kernel: v, ..o }),
        VzFlag::Initramfs => Some(VzModel { initramfs: v, ..o }),
        VzFlag::Verbose => Some(VzModel { verbose: true, ..o }),
        VzFlag::GuestGb => match u64_value(v) {
            Some(n) => Some(VzModel { guest_gb: n, ..o }),
            None => None,
        },
        VzFlag::TouchGb => match u64_value(v) {
            Some(n) => Some(VzModel { touch_gb: n, ..o }),
            None => None,
        },
        VzFlag::PressureGb => match u64_value(v) {
            Some(n) => Some(VzModel { pressure_gb: n, ..o }),
            None => None,
        },
    }
}

/// The options after the arguments from position `i` on.
pub open spec fn vz_scanned(args: Seq<Seq<char>>, i: int, o: VzModel) -> Result<VzModel, VzArgError>
    decreases args.len() - i,
{
    if i < 0 || i >= args.len() {
        Ok(o)
    } else {
        match vz_flag_of(args[i]) {
            None => Err(VzArgError::UnknownArgument { at: i as usize }),
            Some(VzFlag::Verbose) => vz_scanned(args, i + 1, VzModel { verbose: true, ..o }),
            Some(flag) => if i + 1 >= args.len() {
                Err(VzArgError::MissingValue { flag })
            } else {
                match vz_given(o, flag, args[i + 1]) {
                    Some(p) => vz_scanned(args, i + 2, p),
                    None => Err(VzArgError::BadNumber { flag, at: (i + 1) as usize }),
                }
            },
        }
    }
}

/// What is wrong with options that were read.
pub open spec fn vz_conflict(o: VzModel) -> Option<VzArgError> {
    if o.harness.len() == 0 || o.kernel.len() == 0 || o.initramfs.len() == 0 {
        Some(VzArgError::MissingPath)
    } else if o.touch_gb >= o.guest_gb {
        Some(VzArgError::NoRoom)
    } else {
        None
    }
}

/// The options a command line stands for, without the program's name.
pub open spec fn vz_parsed(args: Seq<Seq<char>>) -> Result<VzModel, VzArgError> {
    match vz_scanned(args, 0, vz_defaults()) {
        Ok(o) => match vz_conflict(o) {
            Some(e) => Err(e),
            None => Ok(o),
        },
        Err(e) => Err(e),
    }
}

/// Gives a flag its value; whether it could be read.
fn give(opts: &mut VzOptions, flag: VzFlag, v: &String) -> (r: bool)
    ensures
        match vz_given(old(opts)@, flag, v@) {
            Some(o) => r && final(opts)@ == o,
            None => !r && final(opts)@ == old(opts)@,
        },
{
    match flag {
        VzFlag::Harness => {
            opts.harness = v.as_str().to_owned();
            true
        },
        VzFlag::Kernel => {
            opts.kernel = v.as_str().to_owned();
            true
        },
        VzFlag::Initramfs => {
            opts.initramfs = v.as_str().to_owned();
            true
        },
        VzFlag::Verbose => {
            opts.verbose = true;
            true
        },
        VzFlag::GuestGb => match parse_u64(v.as_str()) {
            Some(n) => {
                opts.guest_gb = n;
                true
            },
            None => false,
        },
        VzFlag::TouchGb => match parse_u64(v.as_str()) {
            Some(n) => {
                opts.touch_gb = n;
                true
            },
            None => false,
        },
        VzFlag::PressureGb => match parse_u64(v.as_str()) {
            Some(n) => {
                opts.pressure_gb = n;
                true
            },
            None => false,
        },
    }
}

/// Reads a command line, without the program's name.
pub fn parse_vz_args(args: &Vec<String>) -> (r: Result<VzOptions, VzArgError>)
    ensures
        match vz_parsed(texts(args@)) {
            Ok(o) => r is Ok && r->Ok_0@ == o,
            Err(e) => r is Err && r->Err_0 == e,
        },
{
    let mut opts = VzOptions {
        harness: "".to_owned(),
        kernel: "".to_owned(),
        initramfs: "".to_owned(),
        guest_gb: 6,
        touch_gb: 4,
        pressure_gb: 0,
        verbose: false,
    };
    proof {
        reveal_strlit("");
        assert(opts@ =~= vz_defaults());
    }
    let ghost all = texts(args@);
    let n: usize = args.len();
    let mut i: usize = 0;
    while i < n
        invariant
            n == args@.len(),
            i <= n,
            all == texts(args@),
            vz_scanned(all, 0, vz_defaults()) == vz_scanned(all, i as int, opts@),
        decreases n - i,
    {
        assert(all[i as int] == args@[i as int]@);
        match find_vz_flag(args[i].as_str()) {
            None => {
                return Err(VzArgError::UnknownArgument { at: i });
            },
            Some(VzFlag::Verbose) => {
                opts.verbose = true;
                i = i + 1;
            },
            Some(flag) => {
                if n - i < 2 {
                    return Err(VzArgError::MissingValue { flag });
                }
                assert(all[i + 1] == args@[i + 1]@);
                if !give(&mut opts, flag, &args[i + 1]) {
                    return Err(VzArgError::BadNumber { flag, at: i + 1 });
                }
                i = i + 2;
            },
        }
    }
    if opts.harness.as_str().is_empty() || opts.kernel.as_str().is_empty()
        || opts.initramfs.as_str().is_empty() {
        return Err(VzArgError::MissingPath);
    }
    if opts.touch_gb >= opts.guest_gb {
        return Err(VzArgError::NoRoom);
    }
    Ok(opts)
}

/// The memory of the guest in MiB, if there is such a number.
pub open spec fn guest_mib_of(o: VzModel) -> Option<u64> {
    if o.guest_gb * 1024 <= u64::MAX {
        Some((o.guest_gb * 1024) as u64)
    } else {
        None
    }
}

pub fn guest_mib(opts: &VzOptions) -> (r: Option<u64>)
    ensures
        r == guest_mib_of(opts@),
{
    opts.guest_gb.checked_mul(1024)
}

/// Whether available memory that was `before_kib` and is `now_kib` has more
/// than halved.
pub open spec fn more_than_halved(before_kib: u64, now_kib: u64) -> bool {
    now_kib < before_kib / 2
}

/// Whether the balloon has visibly inflated: the guest's available memory has
/// more than halved.
pub fn balloon_settled(before_kib: u64, now_kib: u64) -> (r: bool)
    ensures
        r == more_than_halved(before_kib, now_kib),
{
    now_kib < before_kib / 2
}

/// How long the host rests between two looks at the guest's memory.
pub const BALLOON_POLL_SECS: u64 = 1;

/// Whether the balloon is watched on.
pub open spec fn watched_on(before_kib: u64, now_kib: u64, since: u64, now: u64) -> bool {
    elapsed(since, now) < BALLOON_TIMEOUT_SECS * NANOS_PER_SEC && !more_than_halved(
        before_kib,
        now_kib,
    )
}

/// Whether the balloon is watched on at time `now`, when the watch began at
/// `since`: its time is not over and it has not visibly inflated. Times are
/// nanoseconds on one clock.
pub fn keep_watching(before_kib: u64, now_kib: u64, since: u64, now: u64) -> (r: bool)
    ensures
        r == watched_on(before_kib, now_kib, since, now),
{
    (now < since || now - since < BALLOON_TIMEOUT_SECS * NANOS_PER_SEC) && !balloon_settled(
        before_kib,
        now_kib,
    )
}

/// A reading of the helper's ledger.
#[derive(Clone, Copy, PartialEq, Eq, Structural, Debug)]
pub enum Reading {
    Baseline,
    Touched,
    Freed,
    Ballooned,
    Pressed,
}

/// One step of the run.
#[derive(Clone, Copy, PartialEq, Eq, Structural, Debug)]
pub enum VzStep {
    Send { command: HarnessCommand },
    Wait { signal: Signal },
    FindHelper,
    Sleep { secs: u64 },
    Read { reading: Reading },
    /// Print what touching and freeing did.
    ReportRatchet,
    /// Ask the guest for its available memory.
    ReadMem,
    /// Watch it fall.
    WatchBalloon,
    /// Print what the balloon did.
    ReportPlacebo,
    ArmCanary,
    ApplyPressure { gb: u64 },
    ReleasePressure,
    /// Print what pressure did, as far as the canary lets it.
    ReportPressure,
}

/// The steps of a run, whose guest touches `touch_gb` GiB of its `guest_gb`.
pub open spec fn vz_steps(guest_gb: u64, touch_gb: u64, pressure_gb: u64) -> Seq<VzStep> {
    let target = ((guest_gb - touch_gb) * 1024) as u64;
    seq![
        VzStep::Wait { signal: Signal::Started },
        VzStep::Wait { signal: Signal::Ready },
        VzStep::FindHelper,
        VzStep::Read { reading: Reading::Baseline },
        VzStep::Send { command: HarnessCommand::Touch { gib: touch_gb } },
        VzStep::Wait { signal: Signal::Touched },
        VzStep::Sleep { secs: 1 },
        VzStep::Read { reading: Reading::Touched },
        VzStep::Send { command: HarnessCommand::Free },
        VzStep::Wait { signal: Signal::Freed },
        VzStep::Sleep { secs: 2 },
        VzStep::Read { reading: Reading::Freed },
        VzStep::ReportRatchet,
        VzStep::ReadMem,
        VzStep::Send { command: HarnessCommand::Balloon { mib: target } },
        VzStep::Wait { signal: Signal::BalloonTarget },
        VzStep::WatchBalloon,
        VzStep::Sleep { secs: 2 },
        VzStep::Read { reading: Reading::Ballooned },
        VzStep::ReportPlacebo,
    ] + (if pressure_gb > 0 {
        seq![
            VzStep::ArmCanary,
            VzStep::ApplyPressure { gb: pressure_gb },
            VzStep::Sleep { secs: HOLD_SECS },
            VzStep::ReleasePressure,
            VzStep::Sleep { secs: SETTLE_SECS },
            VzStep::Read { reading: Reading::Pressed },
            VzStep::ReportPressure,
        ]
    } else {
        Seq::empty()
    }) + seq![VzStep::Send { command: HarnessCommand::Quit }]
}

/// The steps of a run.
pub fn steps(opts: &VzOptions) -> (r: Vec<VzStep>)
    requires
        opts.touch_gb <= opts.guest_gb,
        (opts.guest_gb - opts.touch_gb) * 1024 <= u64::MAX,
    ensures
        r@ == vz_steps(opts.guest_gb, opts.touch_gb, opts.pressure_gb),
{
    let target: u64 = (opts.guest_gb - opts.touch_gb) * 1024;
    let mut r: Vec<VzStep> = vec![
        VzStep::Wait { signal: Signal::Started },
        VzStep::Wait { signal: Signal::Ready },
        VzStep::FindHelper,
        VzStep::Read { reading: Reading::Baseline },
        VzStep::Send { command: HarnessCommand::Touch { gib: opts.touch_gb } },
        VzStep::Wait { signal: Signal::Touched },
        VzStep::Sleep { secs: 1 },
        VzStep::Read { reading: Reading::Touched },
        VzStep::Send { command: HarnessCommand::Free },
        VzStep::Wait { signal: Signal::Freed },
        VzStep::Sleep { secs: 2 },
        VzStep::Read { reading: Reading::Freed },
        VzStep::ReportRatchet,
        VzStep::ReadMem,
        VzStep::Send { command: HarnessCommand::Balloon { mib: target } },
        VzStep::Wait { signal: Signal::BalloonTarget },
        VzStep::WatchBalloon,
        VzStep::Sleep { secs: 2 },
        VzStep::Read { reading: Reading::Ballooned },
        VzStep::ReportPlacebo,
    ];
    if opts.pressure_gb > 0 {
        r.push(VzStep::ArmCanary);
        r.push(VzStep::ApplyPressure { gb: opts.pressure_gb });
        r.push(VzStep::Sleep { secs: HOLD_SECS });
        r.push(VzStep::ReleasePressure);
        r.push(VzStep::Sleep { secs: SETTLE_SECS });
        r.push(VzStep::Read { reading: Reading::Pressed });
        r.push(VzStep::ReportPressure);
    }
    r.push(VzStep::Send { command: HarnessCommand::Quit });
    assert(r@ =~= vz_steps(opts.guest_gb, opts.touch_gb, opts.pressure_gb));
    r
}

/// What the run has to say of pressure.
#[derive(Clone, Copy, PartialEq, Eq, Structural, Debug)]
pub enum PressureReport {
    /// Pressure never reached anonymous memory: nothing is said of the
    /// helper.
    Inconclusive,
    /// The helper's footprint before and after.
    Footprint { before: u64, after: u64 },
}

/// What is said of pressure.
pub open spec fn pressure_said(
    v: Verdict,
    ballooned: HelperLedger,
    pressed: HelperLedger,
) -> PressureReport {
    if v.discarded * 2 < v.total {
        PressureReport::Inconclusive
    } else {
        PressureReport::Footprint {
            before: ballooned.phys_footprint,
            after: pressed.phys_footprint,
        }
    }
}

/// Judges the run by its canary first: the helper's footprint under pressure
/// is spoken of only where the canary died.
pub fn pressure_report(v: &Verdict, ballooned: &HelperLedger, pressed: &HelperLedger) -> (r:
    PressureReport)
    ensures
        r == pressure_said(*v, *ballooned, *pressed),
{
    if v.conclusive() {
        PressureReport::Footprint {
            before: ballooned.phys_footprint,
            after: pressed.phys_footprint,
        }
    } else {
        PressureReport::Inconclusive
    }
}

/// Accepted options name all three files and leave the guest room, so the
/// balloon has a target, and it is less than the guest's memory when the
/// guest touches any.
pub proof fn law_accepted_runs_have_a_balloon_target(args: Seq<Seq<char>>)
    requires
        vz_parsed(args) is Ok,
    ensures
        ({
            let o = vz_parsed(args)->Ok_0;
            &&& o.harness.len() > 0 && o.kernel.len() > 0 && o.initramfs.len() > 0
            &&& o.touch_gb < o.guest_gb
            &&& 0 < (o.guest_gb - o.touch_gb) * 1024 <= o.guest_gb * 1024
        }),
{
}

/// The last of two equal flags decides: its value replaces the one before.
pub proof fn law_later_values_replace_earlier_ones(
    o: VzModel,
    flag: VzFlag,
    v: Seq<char>,
    w: Seq<char>,
)
    requires
        vz_given(o, flag, v) is Some,
        vz_given(o, flag, w) is Some,
    ensures
        vz_given(vz_given(o, flag, v)->0, flag, w) == vz_given(o, flag, w),
{
}

/// Whether both steps are there, and every `a` stands before every `b`.
pub open spec fn precedes(steps: Seq<VzStep>, a: VzStep, b: VzStep) -> bool {
    &&& steps.contains(a)
    &&& steps.contains(b)
    &&& forall|i: int, j: int|
        0 <= i < steps.len() && 0 <= j < steps.len() && #[trigger] steps[i] == a
            && #[trigger] steps[j] == b ==> i < j
}

/// The place in a run that each step has, where it has one of its own.
spec fn place(s: VzStep) -> int {
    match s {
        VzStep::Wait { signal: Signal::Started } => 0,
        VzStep::Wait { signal: Signal::Ready } => 1,
        VzStep::FindHelper => 2,
        VzStep::Read { reading: Reading::Baseline } => 3,
        VzStep::Send { command: HarnessCommand::Touch { gib: _ } } => 4,
        VzStep::Wait { signal: Signal::Touched } => 5,
        VzStep::Read { reading: Reading::Touched } => 7,
        VzStep::Send { command: HarnessCommand::Free } => 8,
        VzStep::Wait { signal: Signal::Freed } => 9,
        VzStep::Read { reading: Reading::Freed } => 11,
        VzStep::ReportRatchet => 12,
        VzStep::ReadMem => 13,
        VzStep::Send { command: HarnessCommand::Balloon { mib: _ } } => 14,
        VzStep::Wait { signal: Signal::BalloonTarget } => 15,
        VzStep::WatchBalloon => 16,
        VzStep::Read { reading: Reading::Ballooned } => 18,
        VzStep::ReportPlacebo => 19,
        VzStep::ArmCanary => 20,
        VzStep::ApplyPressure { gb: _ } => 21,
        VzStep::ReleasePressure => 23,
        VzStep::Read { reading: Reading::Pressed } => 25,
        VzStep::ReportPressure => 26,
        _ => -1,
    }
}

proof fn lemma_places(guest_gb: u64, touch_gb: u64, pressure_gb: u64)
    ensures
        ({
            let steps = vz_steps(guest_gb, touch_gb, pressure_gb);
            forall|i: int|
                0 <= i < steps.len() ==> place(#[trigger] steps[i]) == -1 || place(steps[i]) == i
        }),
{
}

proof fn lemma_precedes(guest_gb: u64, touch_gb: u64, pressure_gb: u64, i: int, j: int)
    requires
        0 <= i < j < vz_steps(guest_gb, touch_gb, pressure_gb).len(),
        place(vz_steps(guest_gb, touch_gb, pressure_gb)[i]) == i,
        place(vz_steps(guest_gb, touch_gb, pressure_gb)[j]) == j,
    ensures
        ({
            let steps = vz_steps(guest_gb, touch_gb, pressure_gb);
            precedes(steps, steps[i], steps[j])
        }),
{
    lemma_places(guest_gb, touch_gb, pressure_gb);
}

/// A reading is taken once what it is named after has happened, and before
/// anything undoes it. The helper is found when the guest is ready, and read
/// before the guest touches anything. The reading of touched memory lies
/// between the signal that it is touched and the command to free it; that of
/// freed memory follows the command and its signal; that of the balloon follows
/// its target, the signal and the watch. What is reported was read before.
pub proof fn law_readings_follow_what_they_are_named_after(
    guest_gb: u64,
    touch_gb: u64,
    pressure_gb: u64,
)
    requires
        touch_gb <= guest_gb,
    ensures
        ({
            let steps = vz_steps(guest_gb, touch_gb, pressure_gb);
            let touch = VzStep::Send { command: HarnessCommand::Touch { gib: touch_gb } };
            let free = VzStep::Send { command: HarnessCommand::Free };
            let balloon = VzStep::Send {
                command: HarnessCommand::Balloon { mib: ((guest_gb - touch_gb) * 1024) as u64 },
            };
            let wait = |signal: Signal| VzStep::Wait { signal };
            let read = |reading: Reading| VzStep::Read { reading };
            &&& precedes(steps, wait(Signal::Started), wait(Signal::Ready))
            &&& precedes(steps, wait(Signal::Ready), VzStep::FindHelper)
            &&& precedes(steps, VzStep::FindHelper, read(Reading::Baseline))
            &&& precedes(steps, read(Reading::Baseline), touch)
            &&& precedes(steps, touch, wait(Signal::Touched))
            &&& precedes(steps, wait(Signal::Touched), read(Reading::Touched))
            &&& precedes(steps, read(Reading::Touched), free)
            &&& precedes(steps, free, wait(Signal::Freed))
            &&& precedes(steps, wait(Signal::Freed), read(Reading::Freed))
            &&& precedes(steps, read(Reading::Freed), VzStep::ReportRatchet)
            &&& precedes(steps, read(Reading::Freed), balloon)
            &&& precedes(steps, wait(Signal::Freed), VzStep::ReadMem)
            &&& precedes(steps, VzStep::ReadMem, balloon)
            &&& precedes(steps, balloon, wait(Signal::BalloonTarget))
            &&& precedes(steps, wait(Signal::BalloonTarget), VzStep::WatchBalloon)
            &&& precedes(steps, VzStep::WatchBalloon, read(Reading::Ballooned))
            &&& precedes(steps, read(Reading::Ballooned), VzStep::ReportPlacebo)
        }),
{
    let (g, t, p) = (guest_gb, touch_gb, pressure_gb);
    lemma_precedes(g, t, p, 0, 1);
    lemma_precedes(g, t, p, 1, 2);
    lemma_precedes(g, t, p, 2, 3);
    lemma_precedes(g, t, p, 3, 4);
    lemma_precedes(g, t, p, 4, 5);
    lemma_precedes(g, t, p, 5, 7);
    lemma_precedes(g, t, p, 7, 8);
    lemma_precedes(g, t, p, 8, 9);
    lemma_precedes(g, t, p, 9, 11);
    lemma_precedes(g, t, p, 11, 12);
    lemma_precedes(g, t, p, 11, 14);
    lemma_precedes(g, t, p, 9, 13);
    lemma_precedes(g, t, p, 13, 14);
    lemma_precedes(g, t, p, 14, 15);
    lemma_precedes(g, t, p, 15, 16);
    lemma_precedes(g, t, p, 16, 18);
    lemma_precedes(g, t, p, 18, 19);
}

/// Pressure is applied exactly if it was asked for, and as much as was. The
/// canary is armed before, the pressure is held and released before the reading
/// under pressure, and the balloon's reading was taken before all of it.
pub proof fn law_pressure_is_applied_as_asked(guest_gb: u64, touch_gb: u64, pressure_gb: u64, i: int)
    requires
        touch_gb <= guest_gb,
        0 <= i < vz_steps(guest_gb, touch_gb, pressure_gb).len(),
    ensures
        ({
            let steps = vz_steps(guest_gb, touch_gb, pressure_gb);
            let apply = VzStep::ApplyPressure { gb: pressure_gb };
            let read = |reading: Reading| VzStep::Read { reading };
            &&& steps[i] is ApplyPressure ==> steps[i] == apply && steps[i + 1] == (VzStep::Sleep {
                secs: 8,
            }) && steps[i + 2] == VzStep::ReleasePressure
            &&& steps[i] == VzStep::ReleasePressure ==> steps[i + 1] == (VzStep::Sleep { secs: 2 })
            &&& pressure_gb == 0 ==> !(steps[i] is ApplyPressure || steps[i] is ArmCanary || steps[i]
                is ReleasePressure || steps[i] is ReportPressure || steps[i] == read(
                Reading::Pressed,
            ))
            &&& pressure_gb > 0 ==> {
                &&& precedes(steps, read(Reading::Ballooned), VzStep::ArmCanary)
                &&& precedes(steps, VzStep::ArmCanary, apply)
                &&& precedes(steps, apply, VzStep::ReleasePressure)
                &&& precedes(steps, VzStep::ReleasePressure, read(Reading::Pressed))
                &&& precedes(steps, read(Reading::Pressed), VzStep::ReportPressure)
            }
        }),
{
    let (g, t, p) = (guest_gb, touch_gb, pressure_gb);
    if p > 0 {
        lemma_precedes(g, t, p, 18, 20);
        lemma_precedes(g, t, p, 20, 21);
        lemma_precedes(g, t, p, 21, 23);
        lemma_precedes(g, t, p, 23, 25);
        lemma_precedes(g, t, p, 25, 26);
    }
}

/// Every command that is answered is awaited at once, by its own signal; the
/// guest is told to quit last and only then. Every reading but the first is
/// given time to settle.
pub proof fn law_commands_are_awaited(guest_gb: u64, touch_gb: u64, pressure_gb: u64, i: int)
    requires
        touch_gb <= guest_gb,
        0 <= i < vz_steps(guest_gb, touch_gb, pressure_gb).len(),
    ensures
        ({
            let steps = vz_steps(guest_gb, touch_gb, pressure_gb);
            &&& steps[i] matches VzStep::Send { command } ==> match command.done_by() {
                Some(signal) => i + 1 < steps.len() && steps[i + 1] == (VzStep::Wait { signal }),
                None => i + 1 == steps.len() && command == HarnessCommand::Quit,
            }
            &&& i + 1 == steps.len() ==> steps[i] is Send
            &&& steps[i] matches VzStep::Read { reading } ==> reading == Reading::Baseline || (
            steps[i - 1] matches VzStep::Sleep { secs } && i > 0 && secs > 0)
        }),
{
}

/// The guest touches what was asked for, and the balloon takes exactly that
/// back: its target and what the guest touched are all of the guest's memory.
pub proof fn law_the_balloon_takes_back_what_was_touched(
    guest_gb: u64,
    touch_gb: u64,
    pressure_gb: u64,
    i: int,
)
    requires
        touch_gb <= guest_gb,
        (guest_gb - touch_gb) * 1024 <= u64::MAX,
        0 <= i < vz_steps(guest_gb, touch_gb, pressure_gb).len(),
    ensures
        ({
            let step = vz_steps(guest_gb, touch_gb, pressure_gb)[i];
            &&& step matches VzStep::Send { command: HarnessCommand::Balloon { mib } } ==> mib
                + touch_gb * 1024 == guest_gb * 1024
            &&& step matches VzStep::Send { command: HarnessCommand::Touch { gib } } ==> gib
                == touch_gb
        }),
{
}

/// The balloon has settled exactly if twice what is available now, and two KiB
/// on top, is still no more than was available before; less available memory
/// never unsettles it. It is watched until then, and at most thirty seconds.
pub proof fn law_the_balloon_is_watched_until_it_settles(
    before_kib: u64,
    now_kib: u64,
    less_kib: u64,
    since: u64,
    now: u64,
)
    requires
        less_kib <= now_kib,
        since <= now,
    ensures
        more_than_halved(before_kib, now_kib) <==> 2 * now_kib + 2 <= before_kib,
        more_than_halved(before_kib, now_kib) ==> more_than_halved(before_kib, less_kib),
        !more_than_halved(before_kib, before_kib),
        more_than_halved(before_kib, now_kib) ==> !watched_on(before_kib, now_kib, since, now),
        !more_than_halved(before_kib, now_kib) ==> (watched_on(before_kib, now_kib, since, now)
            <==> now < since + 30_000_000_000),
        watched_on(before_kib, before_kib, now, now),
{
}

/// Pressure is spoken of exactly if at least as much of the canary is gone as
/// is left, and then with the helper's footprint before pressure and after.
pub proof fn law_pressure_is_spoken_of_where_the_canary_died(
    v: Verdict,
    ballooned: HelperLedger,
    pressed: HelperLedger,
)
    ensures
        match pressure_said(v, ballooned, pressed) {
            PressureReport::Inconclusive => v.total - v.discarded > v.discarded,
            PressureReport::Footprint { before, after } => v.total - v.discarded <= v.discarded
                && before == ballooned.phys_footprint && after == pressed.phys_footprint,
        },
{
}

/// The guest's memory in MiB is as many bytes as in GiB.
pub proof fn law_guest_memory_is_the_same_in_mib(o: VzModel)
    ensures
        match guest_mib_of(o) {
            Some(mib) => mib * 0x10_0000 == o.guest_gb * 0x4000_0000,
            None => o.guest_gb >= 0x40_0000_0000_0000,
        },
{
}

/// The text that a flag is given by.
pub open spec fn vz_spelling(flag: VzFlag) -> Seq<char> {
    match flag {
        VzFlag::Harness => "--harness"@,
        VzFlag::Kernel => "--kernel"@,
        VzFlag::Initramfs => "--initramfs"@,
        VzFlag::GuestGb => "--guest-gb"@,
        VzFlag::TouchGb => "--touch-gb"@,
        VzFlag::PressureGb => "--pressure-gb"@,
        VzFlag::Verbose => "--verbose"@,
    }
}

/// Every flag has one spelling, and nothing else is a flag.
pub proof fn law_vz_flags_have_one_spelling(s: Seq<char>, flag: VzFlag)
    ensures
        vz_flag_of(s) == Some(flag) ==> s == vz_spelling(flag),
        vz_flag_of(vz_spelling(flag)) is Some,
{
}

/// The text that options hold under a flag.
pub open spec fn text_under(o: VzModel, flag: VzFlag) -> Seq<char> {
    match flag {
        VzFlag::Harness => o.harness,
        VzFlag::Kernel => o.kernel,
        VzFlag::Initramfs => o.initramfs,
        _ => Seq::empty(),
    }
}

/// The number that options hold under a flag.
pub open spec fn number_under(o: VzModel, flag: VzFlag) -> u64 {
    match flag {
        VzFlag::GuestGb => o.guest_gb,
        VzFlag::TouchGb => o.touch_gb,
        VzFlag::PressureGb => o.pressure_gb,
        _ => 0,
    }
}

pub open spec fn names_path(flag: VzFlag) -> bool {
    flag == VzFlag::Harness || flag == VzFlag::Kernel || flag == VzFlag::Initramfs
}

pub open spec fn names_number(flag: VzFlag) -> bool {
    flag == VzFlag::GuestGb || flag == VzFlag::TouchGb || flag == VzFlag::PressureGb
}

/// Reading goes on where it stood when more arguments follow.
proof fn lemma_vz_read_on(args: Seq<Seq<char>>, more: Seq<Seq<char>>, i: int, o: VzModel)
    requires
        0 <= i <= args.len(),
        vz_scanned(args, i, o) is Ok,
    ensures
        vz_scanned(args + more, i, o) == vz_scanned(
            args + more,
            args.len() as int,
            vz_scanned(args, i, o)->Ok_0,
        ),
    decreases args.len() - i,
{
    if i < args.len() {
        assert((args + more)[i] == args[i]);
        match vz_flag_of(args[i]) {
            Some(VzFlag::Verbose) => {
                lemma_vz_read_on(args, more, i + 1, VzModel { verbose: true, ..o });
            },
            Some(flag) => {
                assert((args + more)[i + 1] == args[i + 1]);
                lemma_vz_read_on(args, more, i + 2, vz_given(o, flag, args[i + 1])->0);
            },
            None => {},
        }
    }
}

/// A flag at the end of a command line that can be read gives its own option
/// the value behind it, and changes no other; a number must be one, and a value
/// must be there. An argument that is no flag is refused by its position.
pub proof fn law_vz_flags_set_their_option(args: Seq<Seq<char>>, text: Seq<char>, value: Seq<char>)
    requires
        vz_scanned(args, 0, vz_defaults()) is Ok,
        args.len() + 2 <= usize::MAX,
    ensures
        ({
            let o = vz_scanned(args, 0, vz_defaults())->Ok_0;
            let alone = vz_scanned(args + seq![text], 0, vz_defaults());
            let r = vz_scanned(args + seq![text, value], 0, vz_defaults());
            match vz_flag_of(text) {
                None => alone == Err::<VzModel, VzArgError>(
                    VzArgError::UnknownArgument { at: args.len() as usize },
                ),
                Some(VzFlag::Verbose) => alone == Ok::<VzModel, VzArgError>(
                    VzModel { verbose: true, ..o },
                ),
                Some(flag) => {
                    &&& alone == Err::<VzModel, VzArgError>(VzArgError::MissingValue { flag })
                    &&& names_number(flag) && u64_value(value) is None ==> r == Err::<
                        VzModel,
                        VzArgError,
                    >(VzArgError::BadNumber { flag, at: (args.len() + 1) as usize })
                    &&& names_path(flag) || u64_value(value) is Some ==> r is Ok && {
                        let q = r->Ok_0;
                        &&& names_path(flag) ==> text_under(q, flag) == value
                        &&& names_number(flag) ==> Some(number_under(q, flag)) == u64_value(value)
                        &&& q.verbose == o.verbose
                        &&& forall|other: VzFlag|
                            other != flag ==> #[trigger] text_under(q, other) == text_under(
                                o,
                                other,
                            )
                        &&& forall|other: VzFlag|
                            other != flag ==> #[trigger] number_under(q, other) == number_under(
                                o,
                                other,
                            )
                    }
                },
            }
        }),
{
    let o = vz_scanned(args, 0, vz_defaults())->Ok_0;
    let n = args.len() as int;
    let one = args + seq![text];
    let two = args + seq![text, value];
    lemma_vz_read_on(args, seq![text], 0, vz_defaults());
    lemma_vz_read_on(args, seq![text, value], 0, vz_defaults());
    assert(one[n] == text);
    assert(two[n] == text);
    assert(two[n + 1] == value);
    reveal_with_fuel(vz_scanned, 3);
}

/// Options that can be read are refused exactly if a file is not named or the
/// guest would have no room.
pub proof fn law_vz_refusals_have_a_reason(args: Seq<Seq<char>>)
    requires
        vz_scanned(args, 0, vz_defaults()) is Ok,
    ensures
        ({
            let o = vz_scanned(args, 0, vz_defaults())->Ok_0;
            let named = o.harness.len() > 0 && o.kernel.len() > 0 && o.initramfs.len() > 0;
            match vz_parsed(args) {
                Ok(q) => named && o.touch_gb < o.guest_gb && q == o,
                Err(VzArgError::MissingPath) => !named,
                Err(VzArgError::NoRoom) => named && o.guest_gb <= o.touch_gb,
                Err(_) => false,
            }
        }),
{
}

/// An argument that is no flag is refused where a flag is due, the first one
/// included, and so is a flag whose value is not there.
pub proof fn law_vz_arguments_are_read_from_the_first(args: Seq<Seq<char>>)
    requires
        args.len() > 0,
    ensures
        vz_flag_of(args[0]) is None ==> vz_parsed(args) == Err::<VzModel, VzArgError>(
            VzArgError::UnknownArgument { at: 0 },
        ),
        vz_flag_of(args[0]) matches Some(flag) ==> flag != VzFlag::Verbose && args.len() == 1
            ==> vz_parsed(args) == Err::<VzModel, VzArgError>(VzArgError::MissingValue { flag }),
{
}

/// The guest has a second after touching before it is read, two after freeing
/// and two after the balloon; pressure is held for eight and has two to settle
/// before the last reading. Nothing else sleeps.
pub proof fn law_readings_wait_for_the_guest(
    guest_gb: u64,
    touch_gb: u64,
    pressure_gb: u64,
    i: int,
)
    requires
        0 <= i < vz_steps(guest_gb, touch_gb, pressure_gb).len() - 1,
    ensures
        ({
            let steps = vz_steps(guest_gb, touch_gb, pressure_gb);
            steps[i] matches VzStep::Sleep { secs } ==> match steps[i + 1] {
                VzStep::Read { reading: Reading::Touched } => secs == 1,
                VzStep::Read { reading: Reading::Freed } => secs == 2,
                VzStep::Read { reading: Reading::Ballooned } => secs == 2,
                VzStep::Read { reading: Reading::Pressed } => secs == 2 && steps[i - 1]
                    == VzStep::ReleasePressure,
                VzStep::ReleasePressure => secs == 8 && steps[i - 1] == (VzStep::ApplyPressure {
                    gb: pressure_gb,
                }),
                _ => false,
            }
        }),
        ({
            let steps = vz_steps(guest_gb, touch_gb, pressure_gb);
            steps[i + 1] is Read ==> steps[i] is Sleep || steps[i] is FindHelper
        }),
{
}

/// Giving a flag never takes anything back: what is verbose stays verbose, and
/// the flag that asks for it needs no value to do so.
pub proof fn law_verbose_is_not_taken_back(o: VzModel, flag: VzFlag, v: Seq<char>)
    ensures
        vz_given(o, flag, v) matches Some(p) ==> (p.verbose <==> o.verbose || flag
            == VzFlag::Verbose),
        flag == VzFlag::Verbose ==> vz_given(o, flag, v) is Some,
{
}

}
