//! Command-line options of the hypervisor reclaim tool.

use crate::text::{is_digit, parse_u64, same, texts, u64_value};
use vstd::arithmetic::div_mod::lemma_fundamental_div_mod;
use vstd::prelude::*;

verus! {

/// What the host tells the kernel about a range it gives back.
#[derive(Clone, Copy, PartialEq, Eq, Structural, Debug)]
pub enum Advice {
    /// Pages leave the footprint ledger at once.
    Reusable,
    /// Pages may be discarded under pressure; the ledger does not move.
    Free,
    /// A hint only; the ledger does not move.
    DontNeed,
}

impl Advice {
    /// The name of the advice as the system headers spell it.
    pub open spec fn name_of(self) -> Seq<char> {
        match self {
            Advice::Reusable => "MADV_FREE_REUSABLE"@,
            Advice::Free => "MADV_FREE"@,
            Advice::DontNeed => "MADV_DONTNEED"@,
        }
    }

    /// The advice an `--advice` value selects.
    pub open spec fn selected_by(s: Seq<char>) -> Option<Advice> {
        if s == "reusable"@ {
            Some(Advice::Reusable)
        } else if s == "free"@ {
            Some(Advice::Free)
        } else if s == "dontneed"@ {
            Some(Advice::DontNeed)
        } else {
            None
        }
    }

    pub fn name(self) -> (r: &'static str)
        ensures
            r@ == self.name_of(),
    {
        match self {
            Advice::Reusable => "MADV_FREE_REUSABLE",
            Advice::Free => "MADV_FREE",
            Advice::DontNeed => "MADV_DONTNEED",
        }
    }

    pub fn parse(s: &str) -> (r: Option<Advice>)
        ensures
            r == Advice::selected_by(s@),
    {
        if same(s, "reusable") {
            Some(Advice::Reusable)
        } else if same(s, "free") {
            Some(Advice::Free)
        } else if same(s, "dontneed") {
            Some(Advice::DontNeed)
        } else {
            None
        }
    }
}

/// How an extent is given back to the system.
#[derive(Clone, Copy, PartialEq, Eq, Structural, Debug)]
pub enum ReclaimMode {
    /// Advise the range; the host mapping stays.
    Reusable,
    /// Replace the host mapping with fresh zero-fill memory.
    Munmap,
}

impl ReclaimMode {
    pub open spec fn name_of(self) -> Seq<char> {
        match self {
            ReclaimMode::Reusable => "reusable"@,
            ReclaimMode::Munmap => "munmap"@,
        }
    }

    /// The mode a `--reclaim-mode` value selects.
    pub open spec fn selected_by(s: Seq<char>) -> Option<ReclaimMode> {
        if s == "reusable"@ {
            Some(ReclaimMode::Reusable)
        } else if s == "munmap"@ {
            Some(ReclaimMode::Munmap)
        } else {
            None
        }
    }

    pub fn name(self) -> (r: &'static str)
        ensures
            r@ == self.name_of(),
    {
        match self {
            ReclaimMode::Reusable => "reusable",
            ReclaimMode::Munmap => "munmap",
        }
    }

    pub fn parse(s: &str) -> (r: Option<ReclaimMode>)
        ensures
            r == ReclaimMode::selected_by(s@),
    {
        if same(s, "reusable") {
            Some(ReclaimMode::Reusable)
        } else if same(s, "munmap") {
            Some(ReclaimMode::Munmap)
        } else {
            None
        }
    }
}

/// What a run of the tool is asked to do.
#[derive(Clone, Copy, PartialEq, Eq, Structural, Debug)]
pub struct Options {
    pub advice: Advice,
    /// Guest RAM in GiB.
    pub size_gb: u64,
    /// Advise while the range is still stage-2 mapped (the trap) instead of
    /// unmap, advise, remap (the fix).
    pub naive: bool,
    /// Dirty the RAM from the host instead of running the guest.
    pub host_touch: bool,
    /// Have the guest only read its RAM.
    pub guest_read: bool,
    /// Parked-guest safety probe.
    pub pressure_check: bool,
    /// Concurrent-write safety probe.
    pub hammer: bool,
    /// GiB of dirty memory the pressure generator holds.
    pub pressure_gb: u64,
    /// Repetitions of the dirty and reclaim cycle.
    pub repeat: u64,
    /// Per-phase cost measurement.
    pub time_reclaim: bool,
    /// Extent size of the timing matrix in KiB; 0 is the whole range.
    pub extent_kb: u64,
    /// Which release step the timing and soak modes use.
    pub reclaim_mode: ReclaimMode,
    /// Reuse the same mapping across timing cycles.
    pub steady_state: bool,
    /// Workload-shaped run over per-service regions.
    pub fleet_sim: bool,
    pub services: u64,
    pub service_mib: u64,
    /// Long-duration multi-vCPU integrity soak.
    pub soak: bool,
    pub soak_minutes: u64,
    pub vcpus: u64,
}

/// `n` units of `unit` bytes as a 64-bit byte count: bits shifted out at
/// the top are lost.
pub open spec fn shifted(n: u64, unit: int) -> int {
    n * unit % 0x1_0000_0000_0000_0000
}

impl Options {
    /// Guest RAM in bytes.
    pub open spec fn ram_bytes(self) -> int {
        shifted(self.size_gb, 0x4000_0000)
    }

    pub fn ram_size(&self) -> (r: u64)
        ensures
            r == self.ram_bytes(),
    {
        gib(self.size_gb)
    }
}

/// `n` GiB in bytes.
pub fn gib(n: u64) -> (r: u64)
    ensures
        r == shifted(n, 0x4000_0000),
{
    assert((n << 30) as int == (n as int * 0x4000_0000) % 0x1_0000_0000_0000_0000) by (bit_vector);
    n << 30
}

/// `n` MiB in bytes.
pub fn mib_bytes(n: u64) -> (r: u64)
    ensures
        r == shifted(n, 0x10_0000),
{
    assert((n << 20) as int == (n as int * 0x10_0000) % 0x1_0000_0000_0000_0000) by (bit_vector);
    n << 20
}

/// The flags of the command line.
#[derive(Clone, Copy, PartialEq, Eq, Structural, Debug)]
pub enum Flag {
    Advice,
    SizeGb,
    Naive,
    HostTouch,
    GuestRead,
    PressureCheck,
    Hammer,
    PressureGb,
    Repeat,
    TimeReclaim,
    ExtentKb,
    ReclaimMode,
    SteadyState,
    FleetSim,
    Soak,
    SoakMinutes,
    Vcpus,
    Services,
    ServiceMib,
}

/// Why a command line is refused. `at` is the index of the argument in
/// question; a missing value has the index one past the last argument.
#[derive(Clone, Copy, PartialEq, Eq, Structural, Debug)]
pub enum ArgError {
    UnknownArgument { at: usize },
    UnknownAdvice { at: usize },
    UnknownReclaimMode { at: usize },
    MissingValue { flag: Flag },
    BadNumber { flag: Flag, at: usize },
    /// `--repeat` or `--vcpus` was given as zero.
    Zero { flag: Flag },
    /// `--hammer` with `--host-touch`, `--naive` or `--pressure-check`.
    HammerExcludes,
    /// `--repeat` above one with a safety probe.
    RepeatExcludes,
    /// More than one of `--time-reclaim`, `--fleet-sim` and `--soak`.
    SeparateModes,
    /// One of those three with an option of the plain run.
    ModeExcludes,
    /// Timing options outside the timing, fleet and soak modes.
    TimingOnly,
}

/// The flag that an argument spells.
pub open spec fn flag_of(s: Seq<char>) -> Option<Flag> {
    if s == "--advice"@ {
        Some(Flag::Advice)
    } else if s == "--size-gb"@ {
        Some(Flag::SizeGb)
    } else if s == "--naive"@ {
        Some(Flag::Naive)
    } else if s == "--host-touch"@ {
        Some(Flag::HostTouch)
    } else if s == "--guest-read"@ {
        Some(Flag::GuestRead)
    } else if s == "--pressure-check"@ {
        Some(Flag::PressureCheck)
    } else if s == "--hammer"@ {
        Some(Flag::Hammer)
    } else if s == "--pressure-gb"@ {
        Some(Flag::PressureGb)
    } else if s == "--repeat"@ {
        Some(Flag::Repeat)
    } else if s == "--time-reclaim"@ {
        Some(Flag::TimeReclaim)
    } else if s == "--extent-kb"@ {
        Some(Flag::ExtentKb)
    } else if s == "--reclaim-mode"@ {
        Some(Flag::ReclaimMode)
    } else if s == "--steady-state"@ {
        Some(Flag::SteadyState)
    } else if s == "--fleet-sim"@ {
        Some(Flag::FleetSim)
    } else if s == "--soak"@ {
        Some(Flag::Soak)
    } else if s == "--soak-minutes"@ {
        Some(Flag::SoakMinutes)
    } else if s == "--vcpus"@ {
        Some(Flag::Vcpus)
    } else if s == "--services"@ {
        Some(Flag::Services)
    } else if s == "--service-mib"@ {
        Some(Flag::ServiceMib)
    } else {
        None
    }
}

/// Looks an argument up among the flags.
pub fn find_flag(s: &str) -> (r: Option<Flag>)
    ensures
        r == flag_of(s@),
{
    if same(s, "--advice") {
        Some(Flag::Advice)
    } else if same(s, "--size-gb") {
        Some(Flag::SizeGb)
    } else if same(s, "--naive") {
        Some(Flag::Naive)
    } else if same(s, "--host-touch") {
        Some(Flag::HostTouch)
    } else if same(s, "--guest-read") {
        Some(Flag::GuestRead)
    } else if same(s, "--pressure-check") {
        Some(Flag::PressureCheck)
    } else if same(s, "--hammer") {
        Some(Flag::Hammer)
    } else if same(s, "--pressure-gb") {
        Some(Flag::PressureGb)
    } else if same(s, "--repeat") {
        Some(Flag::Repeat)
    } else if same(s, "--time-reclaim") {
        Some(Flag::TimeReclaim)
    } else if same(s, "--extent-kb") {
        Some(Flag::ExtentKb)
    } else if same(s, "--reclaim-mode") {
        Some(Flag::ReclaimMode)
    } else if same(s, "--steady-state") {
        Some(Flag::SteadyState)
    } else if same(s, "--fleet-sim") {
        Some(Flag::FleetSim)
    } else if same(s, "--soak") {
        Some(Flag::Soak)
    } else if same(s, "--soak-minutes") {
        Some(Flag::SoakMinutes)
    } else if same(s, "--vcpus") {
        Some(Flag::Vcpus)
    } else if same(s, "--services") {
        Some(Flag::Services)
    } else if same(s, "--service-mib") {
        Some(Flag::ServiceMib)
    } else {
        None
    }
}

/// Whether `f` takes a number.
pub open spec fn takes_number(f: Flag) -> bool {
    ||| f == Flag::SizeGb
    ||| f == Flag::PressureGb
    ||| f == Flag::Repeat
    ||| f == Flag::ExtentKb
    ||| f == Flag::SoakMinutes
    ||| f == Flag::Vcpus
    ||| f == Flag::Services
    ||| f == Flag::ServiceMib
}

/// The options before any argument is read.
pub open spec fn default_options() -> Options {
    Options {
        advice: Advice::Reusable,
        size_gb: 3,
        naive: false,
        host_touch: false,
        guest_read: false,
        pressure_check: false,
        hammer: false,
        pressure_gb: 48,
        repeat: 1,
        time_reclaim: false,
        extent_kb: 0,
        reclaim_mode: ReclaimMode::Reusable,
        steady_state: false,
        fleet_sim: false,
        services: 8,
        service_mib: 256,
        soak: false,
        soak_minutes: 60,
        vcpus: 4,
    }
}

/// `o` with the switch `f` turned on.
pub open spec fn switched_on(o: Options, f: Flag) -> Options {
    match f {
        Flag::Naive => Options { naive: true, ..o },
        Flag::HostTouch => Options { host_touch: true, ..o },
        Flag::GuestRead => Options { guest_read: true, ..o },
        Flag::PressureCheck => Options { pressure_check: true, ..o },
        Flag::Hammer => Options { hammer: true, ..o },
        Flag::TimeReclaim => Options { time_reclaim: true, ..o },
        Flag::SteadyState => Options { steady_state: true, ..o },
        Flag::FleetSim => Options { fleet_sim: true, ..o },
        Flag::Soak => Options { soak: true, ..o },
        _ => o,
    }
}

/// `o` with the number of flag `f` set to `n`.
pub open spec fn with_number(o: Options, f: Flag, n: u64) -> Options {
    match f {
        Flag::SizeGb => Options { size_gb: n, ..o },
        Flag::PressureGb => Options { pressure_gb: n, ..o },
        Flag::Repeat => Options { repeat: n, ..o },
        Flag::ExtentKb => Options { extent_kb: n, ..o },
        Flag::SoakMinutes => Options { soak_minutes: n, ..o },
        Flag::Vcpus => Options { vcpus: n, ..o },
        Flag::Services => Options { services: n, ..o },
        Flag::ServiceMib => Options { service_mib: n, ..o },
        _ => o,
    }
}

/// The options after reading the number flag `f` with its value at `at`.
pub open spec fn number_read(
    args: Seq<Seq<char>>,
    o: Options,
    f: Flag,
    at: int,
) -> Result<Options, ArgError> {
    if at >= args.len() {
        Err(ArgError::MissingValue { flag: f })
    } else {
        match u64_value(args[at]) {
            None => Err(ArgError::BadNumber { flag: f, at: at as usize }),
            Some(n) => if n == 0 && (f == Flag::Repeat || f == Flag::Vcpus) {
                Err(ArgError::Zero { flag: f })
            } else {
                Ok(with_number(o, f, n))
            },
        }
    }
}

/// The options after reading the advice at `at`.
pub open spec fn advice_read(args: Seq<Seq<char>>, o: Options, at: int) -> Result<Options, ArgError> {
    if at < args.len() && Advice::selected_by(args[at]) is Some {
        Ok(Options { advice: Advice::selected_by(args[at])->0, ..o })
    } else {
        Err(ArgError::UnknownAdvice { at: at as usize })
    }
}

/// The options after reading the reclaim mode at `at`.
pub open spec fn mode_read(args: Seq<Seq<char>>, o: Options, at: int) -> Result<Options, ArgError> {
    if at < args.len() && ReclaimMode::selected_by(args[at]) is Some {
        Ok(Options { reclaim_mode: ReclaimMode::selected_by(args[at])->0, ..o })
    } else {
        Err(ArgError::UnknownReclaimMode { at: at as usize })
    }
}

/// Reading the arguments from index `i` on, left to right, starting with `o`.
pub open spec fn scanned(args: Seq<Seq<char>>, i: int, o: Options) -> Result<Options, ArgError>
    decreases args.len() - i,
{
    if i >= args.len() {
        Ok(o)
    } else {
        match flag_of(args[i]) {
            None => Err(ArgError::UnknownArgument { at: i as usize }),
            Some(f) => if f == Flag::Advice || f == Flag::ReclaimMode || takes_number(f) {
                let read = if f == Flag::Advice {
                    advice_read(args, o, i + 1)
                } else if f == Flag::ReclaimMode {
                    mode_read(args, o, i + 1)
                } else {
                    number_read(args, o, f, i + 1)
                };
                match read {
                    Ok(p) => scanned(args, i + 2, p),
                    Err(e) => Err(e),
                }
            } else {
                scanned(args, i + 1, switched_on(o, f))
            },
        }
    }
}

/// How many of the three separate modes are selected.
pub open spec fn separate_modes(o: Options) -> int {
    (if o.time_reclaim { 1int } else { 0 }) + (if o.fleet_sim { 1int } else { 0 }) + (if o.soak {
        1int
    } else {
        0
    })
}

/// The first rule that a combination of options breaks.
pub open spec fn conflict(o: Options) -> Option<ArgError> {
    if o.hammer && (o.host_touch || o.naive || o.pressure_check) {
        Some(ArgError::HammerExcludes)
    } else if o.repeat > 1 && (o.pressure_check || o.hammer) {
        Some(ArgError::RepeatExcludes)
    } else if separate_modes(o) > 1 {
        Some(ArgError::SeparateModes)
    } else if separate_modes(o) == 1 && (o.naive || o.host_touch || o.pressure_check || o.hammer) {
        Some(ArgError::ModeExcludes)
    } else if separate_modes(o) == 0 && (o.extent_kb != 0 || o.steady_state || o.reclaim_mode
        != ReclaimMode::Reusable) {
        Some(ArgError::TimingOnly)
    } else {
        None
    }
}

/// What a command line asks for, or why it is refused.
pub open spec fn parsed(args: Seq<Seq<char>>) -> Result<Options, ArgError> {
    match scanned(args, 0, default_options()) {
        Err(e) => Err(e),
        Ok(o) => match conflict(o) {
            Some(e) => Err(e),
            None => Ok(o),
        },
    }
}

/// The options before any argument is read.
pub fn defaults() -> (r: Options)
    ensures
        r == default_options(),
{
    Options {
        advice: Advice::Reusable,
        size_gb: 3,
        naive: false,
        host_touch: false,
        guest_read: false,
        pressure_check: false,
        hammer: false,
        pressure_gb: 48,
        repeat: 1,
        time_reclaim: false,
        extent_kb: 0,
        reclaim_mode: ReclaimMode::Reusable,
        steady_state: false,
        fleet_sim: false,
        services: 8,
        service_mib: 256,
        soak: false,
        soak_minutes: 60,
        vcpus: 4,
    }
}

fn switch_on(o: Options, f: Flag) -> (r: Options)
    ensures
        r == switched_on(o, f),
{
    match f {
        Flag::Naive => Options { naive: true, ..o },
        Flag::HostTouch => Options { host_touch: true, ..o },
        Flag::GuestRead => Options { guest_read: true, ..o },
        Flag::PressureCheck => Options { pressure_check: true, ..o },
        Flag::Hammer => Options { hammer: true, ..o },
        Flag::TimeReclaim => Options { time_reclaim: true, ..o },
        Flag::SteadyState => Options { steady_state: true, ..o },
        Flag::FleetSim => Options { fleet_sim: true, ..o },
        Flag::Soak => Options { soak: true, ..o },
        _ => o,
    }
}

fn set_number(o: Options, f: Flag, n: u64) -> (r: Options)
    ensures
        r == with_number(o, f, n),
{
    match f {
        Flag::SizeGb => Options { size_gb: n, ..o },
        Flag::PressureGb => Options { pressure_gb: n, ..o },
        Flag::Repeat => Options { repeat: n, ..o },
        Flag::ExtentKb => Options { extent_kb: n, ..o },
        Flag::SoakMinutes => Options { soak_minutes: n, ..o },
        Flag::Vcpus => Options { vcpus: n, ..o },
        Flag::Services => Options { services: n, ..o },
        Flag::ServiceMib => Options { service_mib: n, ..o },
        _ => o,
    }
}

fn needs_number(f: Flag) -> (r: bool)
    ensures
        r == takes_number(f),
{
    match f {
        Flag::SizeGb
        | Flag::PressureGb
        | Flag::Repeat
        | Flag::ExtentKb
        | Flag::SoakMinutes
        | Flag::Vcpus
        | Flag::Services
        | Flag::ServiceMib => true,
        _ => false,
    }
}

fn read_number(args: &Vec<String>, o: Options, f: Flag, at: usize) -> (r: Result<Options, ArgError>)
    ensures
        r == number_read(texts(args@), o, f, at as int),
{
    if at >= args.len() {
        return Err(ArgError::MissingValue { flag: f });
    }
    assert(texts(args@)[at as int] == args@[at as int]@);
    match parse_u64(args[at].as_str()) {
        None => Err(ArgError::BadNumber { flag: f, at }),
        Some(n) => if n == 0 && (f == Flag::Repeat || f == Flag::Vcpus) {
            Err(ArgError::Zero { flag: f })
        } else {
            Ok(set_number(o, f, n))
        },
    }
}

fn read_advice(args: &Vec<String>, o: Options, at: usize) -> (r: Result<Options, ArgError>)
    ensures
        r == advice_read(texts(args@), o, at as int),
{
    if at < args.len() {
        assert(texts(args@)[at as int] == args@[at as int]@);
        if let Some(advice) = Advice::parse(args[at].as_str()) {
            return Ok(Options { advice, ..o });
        }
    }
    Err(ArgError::UnknownAdvice { at })
}

fn read_mode(args: &Vec<String>, o: Options, at: usize) -> (r: Result<Options, ArgError>)
    ensures
        r == mode_read(texts(args@), o, at as int),
{
    if at < args.len() {
        assert(texts(args@)[at as int] == args@[at as int]@);
        if let Some(reclaim_mode) = ReclaimMode::parse(args[at].as_str()) {
            return Ok(Options { reclaim_mode, ..o });
        }
    }
    Err(ArgError::UnknownReclaimMode { at })
}

/// The first rule that a combination of options breaks.
pub fn find_conflict(o: &Options) -> (r: Option<ArgError>)
    ensures
        r == conflict(*o),
{
    let modes: u8 = (if o.time_reclaim { 1u8 } else { 0u8 }) + (if o.fleet_sim { 1u8 } else { 0u8 })
        + (if o.soak { 1u8 } else { 0u8 });
    if o.hammer && (o.host_touch || o.naive || o.pressure_check) {
        Some(ArgError::HammerExcludes)
    } else if o.repeat > 1 && (o.pressure_check || o.hammer) {
        Some(ArgError::RepeatExcludes)
    } else if modes > 1 {
        Some(ArgError::SeparateModes)
    } else if modes == 1 {
        if o.naive || o.host_touch || o.pressure_check || o.hammer {
            Some(ArgError::ModeExcludes)
        } else {
            None
        }
    } else if o.extent_kb != 0 || o.steady_state || o.reclaim_mode != ReclaimMode::Reusable {
        Some(ArgError::TimingOnly)
    } else {
        None
    }
}

/// Reads the command line (without the program's name).
pub fn parse_args(args: &Vec<String>) -> (r: Result<Options, ArgError>)
    ensures
        r == parsed(texts(args@)),
{
    let mut opts = defaults();
    let n: usize = args.len();
    let mut i: usize = 0;
    while i < n
        invariant
            n == args@.len(),
            i <= n,
            scanned(texts(args@), 0, default_options()) == scanned(texts(args@), i as int, opts),
        decreases n - i,
    {
        assert(texts(args@)[i as int] == args@[i as int]@);
        let f = match find_flag(args[i].as_str()) {
            None => {
                return Err(ArgError::UnknownArgument { at: i });
            },
            Some(f) => f,
        };
        let takes_value = f == Flag::Advice || f == Flag::ReclaimMode || needs_number(f);
        if takes_value {
            let read = if f == Flag::Advice {
                read_advice(args, opts, i + 1)
            } else if f == Flag::ReclaimMode {
                read_mode(args, opts, i + 1)
            } else {
                read_number(args, opts, f, i + 1)
            };
            match read {
                Ok(o) => {
                    opts = o;
                },
                Err(e) => {
                    return Err(e);
                },
            }
            assert(i + 1 < n);
            i = i + 2;
        } else {
            opts = switch_on(opts, f);
            i = i + 1;
        }
    }
    match find_conflict(&opts) {
        Some(e) => Err(e),
        None => Ok(opts),
    }
}

/// Whether the switch `f` is on in `o`.
pub open spec fn is_on(o: Options, f: Flag) -> bool {
    match f {
        Flag::Naive => o.naive,
        Flag::HostTouch => o.host_touch,
        Flag::GuestRead => o.guest_read,
        Flag::PressureCheck => o.pressure_check,
        Flag::Hammer => o.hammer,
        Flag::TimeReclaim => o.time_reclaim,
        Flag::SteadyState => o.steady_state,
        Flag::FleetSim => o.fleet_sim,
        Flag::Soak => o.soak,
        _ => false,
    }
}

/// Whether `f` is a switch: it stands alone, without a value.
pub open spec fn is_switch(f: Flag) -> bool {
    f != Flag::Advice && f != Flag::ReclaimMode && !takes_number(f)
}

/// Whether flag `f` stands among the arguments from index `i` on.
pub open spec fn given(args: Seq<Seq<char>>, i: int, f: Flag) -> bool {
    exists|j: int| i <= j < args.len() && #[trigger] flag_of(args[j]) == Some(f)
}

/// Every flag starts with a dash.
proof fn lemma_flags_start_with_dash(s: Seq<char>)
    requires
        flag_of(s) is Some,
    ensures
        s.len() > 0,
        s[0] == '-',
{
    reveal_strlit("--advice");
    reveal_strlit("--size-gb");
    reveal_strlit("--naive");
    reveal_strlit("--host-touch");
    reveal_strlit("--guest-read");
    reveal_strlit("--pressure-check");
    reveal_strlit("--hammer");
    reveal_strlit("--pressure-gb");
    reveal_strlit("--repeat");
    reveal_strlit("--time-reclaim");
    reveal_strlit("--extent-kb");
    reveal_strlit("--reclaim-mode");
    reveal_strlit("--steady-state");
    reveal_strlit("--fleet-sim");
    reveal_strlit("--soak");
    reveal_strlit("--soak-minutes");
    reveal_strlit("--vcpus");
    reveal_strlit("--services");
    reveal_strlit("--service-mib");
}

/// A value that a flag accepts is not itself a flag.
proof fn lemma_values_are_no_flags(s: Seq<char>)
    requires
        u64_value(s) is Some || Advice::selected_by(s) is Some || ReclaimMode::selected_by(s)
            is Some,
    ensures
        flag_of(s) is None,
{
    if flag_of(s) is Some {
        lemma_flags_start_with_dash(s);
        reveal_strlit("reusable");
        reveal_strlit("free");
        reveal_strlit("dontneed");
        reveal_strlit("munmap");
        if u64_value(s) is Some {
            assert(is_digit(s[0]));
        }
    }
}

/// Turning one switch on changes no other, and no count.
proof fn lemma_switched_on(o: Options, g: Flag, f: Flag)
    requires
        is_switch(g),
        is_switch(f),
    ensures
        is_on(switched_on(o, g), f) <==> is_on(o, f) || f == g,
        switched_on(o, g).repeat == o.repeat,
        switched_on(o, g).vcpus == o.vcpus,
{
}

/// The options after the flag `g` and its value at index `at`.
spec fn value_read(args: Seq<Seq<char>>, o: Options, g: Flag, at: int) -> Result<Options, ArgError> {
    if g == Flag::Advice {
        advice_read(args, o, at)
    } else if g == Flag::ReclaimMode {
        mode_read(args, o, at)
    } else {
        number_read(args, o, g, at)
    }
}

/// Reading a value changes no switch, keeps the counts at least one, and
/// passes over no flag.
proof fn lemma_value_read(args: Seq<Seq<char>>, o: Options, g: Flag, at: int, f: Flag)
    requires
        !is_switch(g),
        is_switch(f),
        value_read(args, o, g, at) is Ok,
        o.repeat >= 1,
        o.vcpus >= 1,
    ensures
        at < args.len(),
        flag_of(args[at]) is None,
        is_on(value_read(args, o, g, at)->Ok_0, f) == is_on(o, f),
        value_read(args, o, g, at)->Ok_0.repeat >= 1,
        value_read(args, o, g, at)->Ok_0.vcpus >= 1,
{
    lemma_values_are_no_flags(args[at]);
}

/// One step of reading.
proof fn lemma_step(args: Seq<Seq<char>>, i: int, o: Options)
    requires
        0 <= i < args.len(),
        scanned(args, i, o) is Ok,
    ensures
        flag_of(args[i]) is Some,
        ({
            let g = flag_of(args[i])->0;
            if is_switch(g) {
                scanned(args, i, o) == scanned(args, i + 1, switched_on(o, g))
            } else {
                &&& value_read(args, o, g, i + 1) is Ok
                &&& scanned(args, i, o) == scanned(args, i + 2, value_read(args, o, g, i + 1)->Ok_0)
            }
        }),
{
}

/// Where reading from `i` on succeeds, a switch is on if it was on before or
/// is given, and the counts stay at least one.
proof fn lemma_scanned(args: Seq<Seq<char>>, i: int, o: Options, f: Flag)
    requires
        0 <= i,
        scanned(args, i, o) is Ok,
        is_switch(f),
        o.repeat >= 1,
        o.vcpus >= 1,
    ensures
        is_on(scanned(args, i, o)->Ok_0, f) <==> is_on(o, f) || given(args, i, f),
        scanned(args, i, o)->Ok_0.repeat >= 1,
        scanned(args, i, o)->Ok_0.vcpus >= 1,
    decreases args.len() - i,
{
    if i < args.len() {
        lemma_step(args, i, o);
        let g = flag_of(args[i])->0;
        if is_switch(g) {
            lemma_switched_on(o, g, f);
            lemma_scanned(args, i + 1, switched_on(o, g), f);
            lemma_given(args, i, i + 1, f);
        } else {
            lemma_value_read(args, o, g, i + 1, f);
            lemma_scanned(args, i + 2, value_read(args, o, g, i + 1)->Ok_0, f);
            lemma_given(args, i, i + 2, f);
        }
    }
}

/// Looking for a flag from `i` on, where nothing between `i + 1` and `k` is one.
proof fn lemma_given(args: Seq<Seq<char>>, i: int, k: int, f: Flag)
    requires
        0 <= i < k <= args.len(),
        forall|j: int| i < j < k ==> #[trigger] flag_of(args[j]) is None,
    ensures
        given(args, i, f) <==> flag_of(args[i]) == Some(f) || given(args, k, f),
{
}

/// An accepted command line turns a switch on exactly when it names it: no
/// order, repetition or neighbouring value matters.
pub proof fn law_switches_are_on_when_given(args: Seq<Seq<char>>, f: Flag)
    requires
        parsed(args) is Ok,
        is_switch(f),
    ensures
        is_on(parsed(args)->Ok_0, f) <==> given(args, 0, f),
{
    lemma_scanned(args, 0, default_options(), f);
}

/// Accepted options never mix the safety probes, the separate modes and the
/// plain run's options, and count at least one cycle and one vCPU.
pub proof fn law_accepted_options_are_consistent(args: Seq<Seq<char>>)
    requires
        parsed(args) is Ok,
    ensures
        ({
            let o = parsed(args)->Ok_0;
            &&& o.hammer ==> !o.host_touch && !o.naive && !o.pressure_check && o.repeat == 1
            &&& o.pressure_check ==> o.repeat == 1
            &&& separate_modes(o) <= 1
            &&& o.time_reclaim || o.fleet_sim || o.soak ==> !o.naive && !o.host_touch
                && !o.pressure_check && !o.hammer
            &&& !o.time_reclaim && !o.fleet_sim && !o.soak ==> o.extent_kb == 0 && !o.steady_state
                && o.reclaim_mode == ReclaimMode::Reusable
            &&& o.repeat >= 1
            &&& o.vcpus >= 1
        }),
{
    lemma_scanned(args, 0, default_options(), Flag::Naive);
}

/// The word that selects an advice.
pub open spec fn advice_word(a: Advice) -> Seq<char> {
    match a {
        Advice::Reusable => "reusable"@,
        Advice::Free => "free"@,
        Advice::DontNeed => "dontneed"@,
    }
}

/// Every advice is selected by its own word and by nothing else.
pub proof fn law_advices_have_one_word(s: Seq<char>, a: Advice)
    ensures
        Advice::selected_by(s) == Some(a) ==> s == advice_word(a),
        Advice::selected_by(advice_word(a)) == Some(a),
{
    reveal_strlit("reusable");
    reveal_strlit("free");
    reveal_strlit("dontneed");
    assert("reusable"@.len() != "free"@.len());
    assert("dontneed"@.len() != "free"@.len());
    assert("reusable"@[0] != "dontneed"@[0]);
}

/// Every reclaim mode is selected by its name and by nothing else.
pub proof fn law_reclaim_modes_are_selected_by_name(s: Seq<char>, m: ReclaimMode)
    ensures
        ReclaimMode::selected_by(s) == Some(m) ==> s == m.name_of(),
        ReclaimMode::selected_by(m.name_of()) == Some(m),
{
    reveal_strlit("reusable");
    reveal_strlit("munmap");
    assert("reusable"@.len() != "munmap"@.len());
}

/// The upper-case letter of a lower-case one.
pub open spec fn upper(c: char) -> char {
    (c as int - 32) as char
}

/// The system's name of an advice ends in the word that selects it, in upper
/// case, after an underscore.
pub proof fn law_advice_names_end_in_their_word(a: Advice)
    ensures
        ({
            let name = a.name_of();
            let word = advice_word(a);
            &&& name.len() > word.len()
            &&& name[name.len() - word.len() - 1] == '_'
            &&& forall|i: int|
                0 <= i < word.len() ==> #[trigger] upper(word[i]) == name[name.len() - word.len()
                    + i]
            &&& name.take(5) == "MADV_"@
        }),
{
    reveal_strlit("reusable");
    reveal_strlit("free");
    reveal_strlit("dontneed");
    reveal_strlit("MADV_");
    reveal_strlit("MADV_FREE_REUSABLE");
    reveal_strlit("MADV_FREE");
    reveal_strlit("MADV_DONTNEED");
    assert(a.name_of().take(5) =~= "MADV_"@);
}

/// A GiB is 1024 MiB, and a MiB 1024 times 1024 bytes, as long as the bytes
/// have a 64-bit number; beyond that they wrap.
pub proof fn law_sizes_are_powers_of_1024(n: u64, o: Options)
    ensures
        n < 0x4_0000_0000 ==> shifted(n, 0x4000_0000) == n * (1024 * 1024 * 1024),
        n < 0x1000_0000_0000 ==> shifted(n, 0x10_0000) == n * (1024 * 1024),
        o.size_gb < 0x4_0000_0000 ==> o.ram_bytes() == o.size_gb * (1024 * 1024 * 1024),
        0 <= o.ram_bytes() < 0x1_0000_0000_0000_0000,
        (o.size_gb * (1024 * 1024 * 1024) - o.ram_bytes()) % 0x1_0000_0000_0000_0000 == 0,
{
    lemma_fundamental_div_mod(o.size_gb * 0x4000_0000, 0x1_0000_0000_0000_0000);
    let q = o.size_gb * 0x4000_0000 / 0x1_0000_0000_0000_0000;
    assert((0x1_0000_0000_0000_0000 * q) % 0x1_0000_0000_0000_0000 == 0);
}

/// The text that a flag is given by.
pub open spec fn spelling(f: Flag) -> Seq<char> {
    match f {
        Flag::Advice => "--advice"@,
        Flag::SizeGb => "--size-gb"@,
        Flag::Naive => "--naive"@,
        Flag::HostTouch => "--host-touch"@,
        Flag::GuestRead => "--guest-read"@,
        Flag::PressureCheck => "--pressure-check"@,
        Flag::Hammer => "--hammer"@,
        Flag::PressureGb => "--pressure-gb"@,
        Flag::Repeat => "--repeat"@,
        Flag::TimeReclaim => "--time-reclaim"@,
        Flag::ExtentKb => "--extent-kb"@,
        Flag::ReclaimMode => "--reclaim-mode"@,
        Flag::SteadyState => "--steady-state"@,
        Flag::FleetSim => "--fleet-sim"@,
        Flag::Soak => "--soak"@,
        Flag::SoakMinutes => "--soak-minutes"@,
        Flag::Vcpus => "--vcpus"@,
        Flag::Services => "--services"@,
        Flag::ServiceMib => "--service-mib"@,
    }
}

/// Every flag has one spelling, and nothing else is a flag.
pub proof fn law_flags_have_one_spelling(s: Seq<char>, f: Flag)
    ensures
        flag_of(s) == Some(f) ==> s == spelling(f),
        flag_of(spelling(f)) is Some,
{
}

/// The number that options hold under a flag.
pub open spec fn number_under(o: Options, f: Flag) -> u64 {
    match f {
        Flag::SizeGb => o.size_gb,
        Flag::PressureGb => o.pressure_gb,
        Flag::Repeat => o.repeat,
        Flag::ExtentKb => o.extent_kb,
        Flag::SoakMinutes => o.soak_minutes,
        Flag::Vcpus => o.vcpus,
        Flag::Services => o.services,
        Flag::ServiceMib => o.service_mib,
        _ => 0,
    }
}

/// Whether two options differ at most in what flag `f` stands for.
pub open spec fn differ_only_in(o: Options, q: Options, f: Flag) -> bool {
    &&& forall|g: Flag| g != f ==> #[trigger] number_under(q, g) == number_under(o, g)
    &&& forall|g: Flag| g != f ==> #[trigger] is_on(q, g) == is_on(o, g)
    &&& f != Flag::Advice ==> q.advice == o.advice
    &&& f != Flag::ReclaimMode ==> q.reclaim_mode == o.reclaim_mode
}

/// Reading goes on where it stood when more arguments follow.
proof fn lemma_read_on(args: Seq<Seq<char>>, more: Seq<Seq<char>>, i: int, o: Options)
    requires
        0 <= i <= args.len(),
        scanned(args, i, o) is Ok,
    ensures
        scanned(args + more, i, o) == scanned(
            args + more,
            args.len() as int,
            scanned(args, i, o)->Ok_0,
        ),
    decreases args.len() - i,
{
    let all = args + more;
    if i < args.len() {
        lemma_step(args, i, o);
        let g = flag_of(args[i])->0;
        assert(all[i] == args[i]);
        if is_switch(g) {
            lemma_read_on(args, more, i + 1, switched_on(o, g));
        } else {
            assert(i + 1 < args.len());
            assert(all[i + 1] == args[i + 1]);
            assert(value_read(all, o, g, i + 1) == value_read(args, o, g, i + 1));
            lemma_read_on(args, more, i + 2, value_read(args, o, g, i + 1)->Ok_0);
            assert(scanned(all, i, o) == scanned(
                all,
                i + 2,
                value_read(all, o, g, i + 1)->Ok_0,
            ));
        }
    }
}

proof fn lemma_switch_changes_its_option(o: Options, f: Flag)
    requires
        is_switch(f),
    ensures
        is_on(switched_on(o, f), f),
        differ_only_in(o, switched_on(o, f), f),
{
}

proof fn lemma_number_changes_its_option(o: Options, f: Flag, n: u64)
    requires
        takes_number(f),
    ensures
        number_under(with_number(o, f, n), f) == n,
        differ_only_in(o, with_number(o, f, n), f),
{
}

/// Reading ends at the end.
proof fn lemma_read_to_the_end(args: Seq<Seq<char>>, o: Options)
    ensures
        scanned(args, args.len() as int, o) == Ok::<Options, ArgError>(o),
{
}

/// The last argument, where it is no flag that takes a value.
proof fn lemma_last_argument(args: Seq<Seq<char>>, text: Seq<char>, o: Options)
    requires
        flag_of(text) is None || is_switch(flag_of(text)->0),
    ensures
        scanned(args + seq![text], args.len() as int, o) == match flag_of(text) {
            None => Err::<Options, ArgError>(
                ArgError::UnknownArgument { at: args.len() as usize },
            ),
            Some(f) => Ok::<Options, ArgError>(switched_on(o, f)),
        },
{
    let all = args + seq![text];
    assert(all[args.len() as int] == text);
    if flag_of(text) is Some {
        lemma_read_to_the_end(all, switched_on(o, flag_of(text)->0));
    }
}

/// The last two arguments, where they are a flag and its value.
proof fn lemma_last_value(args: Seq<Seq<char>>, text: Seq<char>, value: Seq<char>, o: Options)
    requires
        flag_of(text) is Some,
        !is_switch(flag_of(text)->0),
    ensures
        scanned(args + seq![text, value], args.len() as int, o) == value_read(
            args + seq![text, value],
            o,
            flag_of(text)->0,
            args.len() as int + 1,
        ),
        scanned(args + seq![text], args.len() as int, o) == value_read(
            args + seq![text],
            o,
            flag_of(text)->0,
            args.len() as int + 1,
        ),
        (args + seq![text, value])[args.len() as int + 1] == value,
{
    let one = args + seq![text];
    let two = args + seq![text, value];
    let f = flag_of(text)->0;
    let n = args.len() as int;
    assert(one[n] == text);
    assert(two[n] == text);
    match value_read(two, o, f, n + 1) {
        Ok(p) => {
            lemma_read_to_the_end(two, p);
        },
        Err(_) => {},
    }
    assert(value_read(one, o, f, n + 1) is Err);
}

/// A switch at the end of a command line that can be read turns its own option
/// on and changes no other; an argument that is no flag is refused by its
/// position.
pub proof fn law_switches_turn_on_their_option(args: Seq<Seq<char>>, text: Seq<char>)
    requires
        scanned(args, 0, default_options()) is Ok,
        args.len() + 1 <= usize::MAX,
        flag_of(text) is None || is_switch(flag_of(text)->0),
    ensures
        ({
            let o = scanned(args, 0, default_options())->Ok_0;
            let r = scanned(args + seq![text], 0, default_options());
            match flag_of(text) {
                None => r == Err::<Options, ArgError>(
                    ArgError::UnknownArgument { at: args.len() as usize },
                ),
                Some(f) => r is Ok && is_on(r->Ok_0, f) && differ_only_in(o, r->Ok_0, f),
            }
        }),
{
    let o = scanned(args, 0, default_options())->Ok_0;
    lemma_read_on(args, seq![text], 0, default_options());
    lemma_last_argument(args, text, o);
    if flag_of(text) is Some {
        lemma_switch_changes_its_option(o, flag_of(text)->0);
    }
}

/// A flag that takes a value, at the end of a command line that can be read,
/// gives its own option the value behind it and changes no other. The value
/// must be there and must be of the flag's sort: a number, and no zero where
/// something is counted; or one of the words for an advice or a mode.
pub proof fn law_values_go_to_their_option(args: Seq<Seq<char>>, text: Seq<char>, value: Seq<char>)
    requires
        scanned(args, 0, default_options()) is Ok,
        args.len() + 2 <= usize::MAX,
        flag_of(text) is Some,
        !is_switch(flag_of(text)->0),
    ensures
        ({
            let f = flag_of(text)->0;
            let at = (args.len() + 1) as usize;
            let o = scanned(args, 0, default_options())->Ok_0;
            let alone = scanned(args + seq![text], 0, default_options());
            let r = scanned(args + seq![text, value], 0, default_options());
            let counts = f == Flag::Repeat || f == Flag::Vcpus;
            &&& r is Ok ==> differ_only_in(o, r->Ok_0, f)
            &&& f == Flag::Advice ==> {
                &&& alone == Err::<Options, ArgError>(ArgError::UnknownAdvice { at })
                &&& match r {
                    Ok(q) => value == advice_word(q.advice),
                    Err(e) => e == (ArgError::UnknownAdvice { at }) && forall|a: Advice|
                        value != #[trigger] advice_word(a),
                }
            }
            &&& f == Flag::ReclaimMode ==> {
                &&& alone == Err::<Options, ArgError>(ArgError::UnknownReclaimMode { at })
                &&& match r {
                    Ok(q) => value == q.reclaim_mode.name_of(),
                    Err(e) => e == (ArgError::UnknownReclaimMode { at }) && forall|m: ReclaimMode|
                        value != #[trigger] m.name_of(),
                }
            }
            &&& f != Flag::Advice && f != Flag::ReclaimMode ==> {
                &&& alone == Err::<Options, ArgError>(ArgError::MissingValue { flag: f })
                &&& match r {
                    Ok(q) => u64_value(value) == Some(number_under(q, f)) && (counts
                        ==> number_under(q, f) > 0),
                    Err(ArgError::BadNumber { flag, at: place }) => u64_value(value) is None && flag
                        == f && place == at,
                    Err(ArgError::Zero { flag }) => u64_value(value) == Some(0u64) && counts && flag
                        == f,
                    Err(_) => false,
                }
            }
        }),
{
    let f = flag_of(text)->0;
    let o = scanned(args, 0, default_options())->Ok_0;
    lemma_read_on(args, seq![text], 0, default_options());
    lemma_read_on(args, seq![text, value], 0, default_options());
    lemma_last_value(args, text, value, o);
    if takes_number(f) && u64_value(value) is Some {
        lemma_number_changes_its_option(o, f, u64_value(value)->0);
    }
    if f == Flag::Advice {
        assert forall|a: Advice| Advice::selected_by(value) is None implies value
            != #[trigger] advice_word(a) by {
            law_advices_have_one_word(value, a);
        }
        if Advice::selected_by(value) is Some {
            law_advices_have_one_word(value, Advice::selected_by(value)->0);
        }
    }
    if f == Flag::ReclaimMode {
        assert forall|m: ReclaimMode| ReclaimMode::selected_by(value) is None implies value
            != #[trigger] m.name_of() by {
            law_reclaim_modes_are_selected_by_name(value, m);
        }
        if ReclaimMode::selected_by(value) is Some {
            law_reclaim_modes_are_selected_by_name(value, ReclaimMode::selected_by(value)->0);
        }
    }
}

/// Options that can be read are refused exactly if two of them exclude each
/// other, and each refusal names such a pair: the hammer and another way to run
/// or probe; several cycles and a probe; two separate modes; a separate mode
/// and an option of the plain run; or an option of the timing and soak modes
/// outside any mode.
pub proof fn law_refusals_name_what_excludes(o: Options)
    ensures
        ({
            let modes = separate_modes(o);
            let plain_only = o.naive || o.host_touch || o.pressure_check || o.hammer;
            let probes = o.pressure_check || o.hammer;
            let timing = o.extent_kb != 0 || o.steady_state || o.reclaim_mode
                == ReclaimMode::Munmap;
            let two_modes = (o.time_reclaim && o.fleet_sim) || (o.time_reclaim && o.soak) || (
            o.fleet_sim && o.soak);
            let some_mode = o.time_reclaim || o.fleet_sim || o.soak;
            let hammer_with = o.hammer && (o.host_touch || o.naive || o.pressure_check);
            &&& conflict(o) is None <==> !hammer_with && !(o.repeat >= 2 && probes) && !two_modes
                && !(some_mode && plain_only) && !(timing && !some_mode)
            &&& conflict(o) == Some(ArgError::HammerExcludes) ==> hammer_with
            &&& conflict(o) == Some(ArgError::RepeatExcludes) ==> o.repeat >= 2 && probes
            &&& conflict(o) == Some(ArgError::SeparateModes) ==> two_modes
            &&& conflict(o) == Some(ArgError::ModeExcludes) ==> some_mode && plain_only
            &&& conflict(o) == Some(ArgError::TimingOnly) ==> timing && !some_mode
            &&& conflict(o) matches Some(e) ==> e == ArgError::HammerExcludes || e
                == ArgError::RepeatExcludes || e == ArgError::SeparateModes || e
                == ArgError::ModeExcludes || e == ArgError::TimingOnly
            &&& two_modes <==> modes >= 2
            &&& some_mode <==> modes >= 1
        }),
{
}

/// What a command line stands for is what was read, unless something excludes
/// something else.
pub proof fn law_parsing_is_reading_without_conflict(args: Seq<Seq<char>>)
    ensures
        parsed(args) is Ok <==> scanned(args, 0, default_options()) is Ok && conflict(
            scanned(args, 0, default_options())->Ok_0,
        ) is None,
        parsed(args) is Ok ==> parsed(args) == scanned(args, 0, default_options()),
        scanned(args, 0, default_options()) is Err ==> parsed(args) == scanned(
            args,
            0,
            default_options(),
        ),
        parsed(Seq::<Seq<char>>::empty()) == Ok::<Options, ArgError>(default_options()),
{
}

}
