//! The guest programs and the loops that drive them.
//!
//! Running a vCPU is the caller's business: a [`Drive`] says what to ask of
//! the vCPU next, and is told what came back.

use crate::hvf::{
    exception_class, exception_class_of, HvVcpuExitInfo, EC_DATA_ABORT_LOWER_EL,
    HV_EXIT_REASON_CANCELED, HV_EXIT_REASON_EXCEPTION, HV_REG_PC, HV_REG_X1, HV_REG_X2, HV_REG_X3,
    HV_REG_X4, HV_REG_X5, HV_REG_X6,
};
use vstd::prelude::*;

verus! {

pub const CODE_GPA: u64 = 0x1000_0000;

pub const RAM_GPA: u64 = 0x8000_0000;

/// Deliberately unmapped: a store here leaves the guest.
pub const DOORBELL_GPA: u64 = 0x0F00_0000;

/// One touch pass. x1 = cursor, x2 = end, x3 = doorbell.
///
/// ```text
/// loop: str x1, [x1]           ; dirty one host page
///       add x1, x1, #4, lsl 12 ; += 16 KiB
///       cmp x1, x2
///       b.lo loop
///       str xzr, [x3]          ; doorbell
/// halt: wfi
///       b halt
/// ```
pub const TOUCH_CODE: [u32; 7] = [
    0xF900_0021,
    0x9140_1021,
    0xEB02_003F,
    0x54FF_FFA3,
    0xF900_007F,
    0xD503_207F,
    0x17FF_FFFF,
];

/// Read-modify-write increment of the first word of every page; the doorbell
/// rings after each full sweep.
/// x2 = end, x3 = doorbell, x4 = completed sweeps, x6 = base.
///
/// ```text
/// outer: mov x1, x6
/// loop:  ldr x5, [x1]
///        add x5, x5, #1
///        str x5, [x1]
///        add x1, x1, #4, lsl 12
///        cmp x1, x2
///        b.lo loop
///        add x4, x4, #1
///        str x4, [x3]          ; doorbell; resumed at the next instruction
///        b outer
/// ```
pub const HAMMER_CODE: [u32; 10] = [
    0xAA06_03E1,
    0xF940_0025,
    0x9100_04A5,
    0xF900_0025,
    0x9140_1021,
    0xEB02_003F,
    0x54FF_FF63,
    0x9100_0484,
    0xF900_0064,
    0x17FF_FFF7,
];

/// Read-only sweep: loads one word per host page, never stores.
///
/// ```text
/// loop: ldr x5, [x1]
///       add x1, x1, #4, lsl 12
///       cmp x1, x2
///       b.lo loop
///       str xzr, [x3]
/// halt: wfi
///       b halt
/// ```
pub const READ_CODE: [u32; 7] = [
    0xF940_0025,
    0x9140_1021,
    0xEB02_003F,
    0x54FF_FFA3,
    0xF900_007F,
    0xD503_207F,
    0x17FF_FFFF,
];

/// Integrity check inside the guest: counts the pages whose first word is not
/// the expected value. The host never reads the pages, so they keep the state
/// under test.
/// x1 = cursor, x2 = end, x3 = doorbell, x5 = expected, x4 = mismatches.
///
/// ```text
/// loop: ldr x6, [x1]
///       cmp x6, x5
///       b.eq ok
///       add x4, x4, #1
/// ok:   add x1, x1, #4, lsl 12
///       cmp x1, x2
///       b.lo loop
///       str x4, [x3]           ; doorbell; x4 carries the verdict
/// halt: wfi
///       b halt
/// ```
pub const VERIFY_CODE: [u32; 10] = [
    0xF940_0026,
    0xEB05_00DF,
    0x5400_0040,
    0x9100_0484,
    0x9140_1021,
    0xEB02_003F,
    0x54FF_FF43,
    0xF900_0064,
    0xD503_207F,
    0x17FF_FFFF,
];

/// Stamps a value into the first word of every host page. A reclaimed range
/// does not come back zeroed, so whoever wants a known state writes one.
/// x1 = cursor, x2 = end, x3 = doorbell, x5 = value.
///
/// ```text
/// loop: str x5, [x1]
///       add x1, x1, #4, lsl 12
///       cmp x1, x2
///       b.lo loop
///       str xzr, [x3]
/// halt: wfi
///       b halt
/// ```
pub const FILL_CODE: [u32; 7] = [
    0xF900_0025,
    0x9140_1021,
    0xEB02_003F,
    0x54FF_FFA3,
    0xF900_007F,
    0xD503_207F,
    0x17FF_FFFF,
];

/// Where the programs stand in the code page, in bytes.
pub const HAMMER_OFF: u64 = 0x80;

pub const READ_OFF: u64 = 0x100;

pub const VERIFY_OFF: u64 = 0x180;

pub const FILL_OFF: u64 = 0x200;

/// Where the programs start in the guest.
pub const HAMMER_GPA: u64 = 0x1000_0080;

pub const READ_GPA: u64 = 0x1000_0100;

pub const VERIFY_GPA: u64 = 0x1000_0180;

pub const FILL_GPA: u64 = 0x1000_0200;

/// `page` with `program` written over it from word `at` on.
pub open spec fn overlaid(page: Seq<u32>, at: int, program: Seq<u32>) -> Seq<u32> {
    Seq::new(
        page.len(),
        |i: int|
            if at <= i < at + program.len() {
                program[i - at]
            } else {
                page[i]
            },
    )
}

/// `page` with the five guest programs in their places.
pub open spec fn with_programs(page: Seq<u32>) -> Seq<u32> {
    let p1 = overlaid(page, 0, TOUCH_CODE@);
    let p2 = overlaid(p1, HAMMER_OFF as int / 4, HAMMER_CODE@);
    let p3 = overlaid(p2, READ_OFF as int / 4, READ_CODE@);
    let p4 = overlaid(p3, VERIFY_OFF as int / 4, VERIFY_CODE@);
    overlaid(p4, FILL_OFF as int / 4, FILL_CODE@)
}

fn overlay(page: &mut Vec<u32>, at: usize, program: &[u32])
    requires
        at + program@.len() <= old(page)@.len(),
    ensures
        final(page)@ == overlaid(old(page)@, at as int, program@),
{
    let ghost before = page@;
    let total: usize = page.len();
    let n: usize = program.len();
    let mut i: usize = 0;
    assert(page@ =~= overlaid(before, at as int, program@.take(0)));
    while i < n
        invariant
            n == program@.len(),
            at + n <= total,
            total == before.len(),
            i <= n,
            page@ == overlaid(before, at as int, program@.take(i as int)),
        decreases n - i,
    {
        page.set(at + i, program[i]);
        i = i + 1;
        assert(page@ =~= overlaid(before, at as int, program@.take(i as int)));
    }
    assert(program@.take(n as int) == program@);
}

/// Writes the guest programs into the words of the code page.
pub fn write_code_page(code: &mut Vec<u32>)
    requires
        old(code)@.len() >= 0x1000,
    ensures
        final(code)@ == with_programs(old(code)@),
{
    overlay(code, 0, TOUCH_CODE.as_slice());
    overlay(code, (HAMMER_OFF / 4) as usize, HAMMER_CODE.as_slice());
    overlay(code, (READ_OFF / 4) as usize, READ_CODE.as_slice());
    overlay(code, (VERIFY_OFF / 4) as usize, VERIFY_CODE.as_slice());
    overlay(code, (FILL_OFF / 4) as usize, FILL_CODE.as_slice());
}

/// The programs do not overlap: each stands whole at its own place, whatever
/// the page held before.
pub proof fn law_programs_stand_side_by_side(page: Seq<u32>)
    requires
        page.len() >= 0x1000,
    ensures
        ({
            let p = with_programs(page);
            &&& p.subrange(0, 7) == TOUCH_CODE@
            &&& p.subrange(HAMMER_OFF as int / 4, HAMMER_OFF as int / 4 + 10) == HAMMER_CODE@
            &&& p.subrange(READ_OFF as int / 4, READ_OFF as int / 4 + 7) == READ_CODE@
            &&& p.subrange(VERIFY_OFF as int / 4, VERIFY_OFF as int / 4 + 10) == VERIFY_CODE@
            &&& p.subrange(FILL_OFF as int / 4, FILL_OFF as int / 4 + 7) == FILL_CODE@
            &&& p.len() == page.len()
        }),
{
}

/// A value for one register of a vCPU.
#[derive(Clone, Copy, PartialEq, Eq, Structural, Debug)]
pub struct RegWrite {
    pub reg: u32,
    pub value: u64,
}

/// How an exit of the vCPU is to be taken.
#[derive(Clone, Copy, PartialEq, Eq, Structural, Debug)]
pub enum GuestExit {
    /// Spurious: enter again.
    Canceled,
    /// The guest rang the doorbell.
    Doorbell,
    /// Anything else, with its exception class.
    Unexpected { ec: u64 },
}

/// What an exit means.
pub open spec fn exit_meaning(info: HvVcpuExitInfo) -> GuestExit {
    let ec = exception_class(info.exception.syndrome);
    if info.reason == HV_EXIT_REASON_CANCELED {
        GuestExit::Canceled
    } else if info.reason == HV_EXIT_REASON_EXCEPTION && ec == EC_DATA_ABORT_LOWER_EL
        && info.exception.physical_address == DOORBELL_GPA {
        GuestExit::Doorbell
    } else {
        GuestExit::Unexpected { ec }
    }
}

/// Tells the doorbell from spurious and unexpected exits.
pub fn classify_exit(info: &HvVcpuExitInfo) -> (r: GuestExit)
    ensures
        r == exit_meaning(*info),
{
    if info.reason == HV_EXIT_REASON_CANCELED {
        return GuestExit::Canceled;
    }
    let ec: u64 = exception_class_of(info.exception.syndrome);
    if info.reason == HV_EXIT_REASON_EXCEPTION && ec == EC_DATA_ABORT_LOWER_EL
        && info.exception.physical_address == DOORBELL_GPA {
        return GuestExit::Doorbell;
    }
    GuestExit::Unexpected { ec }
}

/// What a drive is for.
#[derive(Clone, Copy, PartialEq, Eq, Structural, Debug)]
pub enum Goal {
    /// Run to the doorbell once.
    Doorbell,
    /// Run to the doorbell once, then read the mismatch count.
    Mismatches,
    /// Run sweep after sweep until told to stop.
    Sweeps,
}

/// Where a drive stands.
#[derive(Clone, Copy, PartialEq, Eq, Structural, Debug)]
pub enum Phase {
    /// `next` register writes have been made.
    Arming { next: usize },
    /// The guest is to be entered.
    Entering,
    /// The doorbell rang; the count is to be read.
    Counting,
    /// The caller is to say whether to go on after `sweeps` sweeps.
    Deciding { sweeps: u64 },
    /// The program counter is to be read.
    ReadingPc,
    /// The program counter is to be moved past the doorbell store.
    Advancing { pc: u64 },
    /// Finished, with the count the goal asks for (0 where it asks for none).
    Finished { count: u64 },
}

/// What to ask of the vCPU, or of the caller, next.
#[derive(Clone, Copy, PartialEq, Eq, Structural, Debug)]
pub enum Request {
    Write(RegWrite),
    Run,
    Read { reg: u32 },
    /// Whether to go on after this many completed sweeps.
    KeepGoing { sweeps: u64 },
    Finished { count: u64 },
}

/// What came back.
#[derive(Clone, Copy, PartialEq, Eq, Structural, Debug)]
pub enum Reply {
    Wrote { ret: i32 },
    Ran { ret: i32, info: HvVcpuExitInfo },
    Value { ret: i32, value: u64 },
    Keep { going: bool },
}

/// Why a drive cannot go on.
#[derive(Clone, Copy, PartialEq, Eq, Structural, Debug)]
pub enum DriveFault {
    /// The call that `request` stands for returned `ret`.
    CallFailed { request: Request, ret: i32 },
    UnexpectedExit { info: HvVcpuExitInfo, ec: u64 },
    /// The reply does not answer the request.
    OutOfTurn { request: Request, reply: Reply },
}

/// A pass of a guest program, or a run of hammer sweeps.
pub struct Drive {
    pub writes: Vec<RegWrite>,
    pub goal: Goal,
    pub phase: Phase,
}

/// The model of a drive.
pub struct DriveState {
    pub writes: Seq<RegWrite>,
    pub goal: Goal,
    pub phase: Phase,
}

impl View for Drive {
    type V = DriveState;

    open spec fn view(&self) -> DriveState {
        DriveState { writes: self.writes@, goal: self.goal, phase: self.phase }
    }
}

impl DriveState {
    /// What the drive asks for in this state. Once every register write is
    /// made, the guest is entered.
    pub open spec fn asks(self) -> Request {
        match self.phase {
            Phase::Arming { next } => if next < self.writes.len() {
                Request::Write(self.writes[next as int])
            } else {
                Request::Run
            },
            Phase::Entering => Request::Run,
            Phase::Counting => Request::Read { reg: HV_REG_X4 },
            Phase::Deciding { sweeps } => Request::KeepGoing { sweeps },
            Phase::ReadingPc => Request::Read { reg: HV_REG_PC },
            Phase::Advancing { pc } => Request::Write(
                RegWrite { reg: HV_REG_PC, value: pc.wrapping_add(4) },
            ),
            Phase::Finished { count } => Request::Finished { count },
        }
    }

    /// The phase after a reply to what the drive asks for.
    pub open spec fn after(self, reply: Reply) -> Result<Phase, DriveFault> {
        match (self.asks(), reply) {
            (Request::Write(_), Reply::Wrote { ret }) => if ret != 0 {
                Err(DriveFault::CallFailed { request: self.asks(), ret })
            } else {
                match self.phase {
                    Phase::Arming { next } => Ok(Phase::Arming { next: (next + 1) as usize }),
                    _ => Ok(Phase::Entering),
                }
            },
            (Request::Run, Reply::Ran { ret, info }) => if ret != 0 {
                Err(DriveFault::CallFailed { request: self.asks(), ret })
            } else {
                match exit_meaning(info) {
                    GuestExit::Canceled => Ok(Phase::Entering),
                    GuestExit::Doorbell => match self.goal {
                        Goal::Doorbell => Ok(Phase::Finished { count: 0 }),
                        _ => Ok(Phase::Counting),
                    },
                    GuestExit::Unexpected { ec } => Err(DriveFault::UnexpectedExit { info, ec }),
                }
            },
            (Request::Read { reg: _ }, Reply::Value { ret, value }) => if ret != 0 {
                Err(DriveFault::CallFailed { request: self.asks(), ret })
            } else {
                match (self.phase, self.goal) {
                    (Phase::Counting, Goal::Sweeps) => Ok(Phase::Deciding { sweeps: value }),
                    (Phase::Counting, _) => Ok(Phase::Finished { count: value }),
                    _ => Ok(Phase::Advancing { pc: value }),
                }
            },
            (Request::KeepGoing { sweeps }, Reply::Keep { going }) => if going {
                Ok(Phase::ReadingPc)
            } else {
                Ok(Phase::Finished { count: sweeps })
            },
            _ => Err(DriveFault::OutOfTurn { request: self.asks(), reply }),
        }
    }
}

impl Drive {
    /// What to do next.
    pub fn request(&self) -> (r: Request)
        ensures
            r == self@.asks(),
    {
        match self.phase {
            Phase::Arming { next } => if next < self.writes.len() {
                Request::Write(self.writes[next])
            } else {
                Request::Run
            },
            Phase::Entering => Request::Run,
            Phase::Counting => Request::Read { reg: HV_REG_X4 },
            Phase::Deciding { sweeps } => Request::KeepGoing { sweeps },
            Phase::ReadingPc => Request::Read { reg: HV_REG_PC },
            Phase::Advancing { pc } => Request::Write(
                RegWrite { reg: HV_REG_PC, value: pc.wrapping_add(4) },
            ),
            Phase::Finished { count } => Request::Finished { count },
        }
    }

    /// Takes the reply to the request that stands. On a fault the drive stays
    /// where it was.
    pub fn reply(&mut self, reply: Reply) -> (r: Result<(), DriveFault>)
        ensures
            final(self).writes == old(self).writes,
            final(self).goal == old(self).goal,
            match old(self)@.after(reply) {
                Ok(phase) => r is Ok && final(self).phase == phase,
                Err(fault) => r == Err::<(), DriveFault>(fault) && final(self).phase == old(
                    self,
                ).phase,
            },
    {
        let request = self.request();
        let total: usize = self.writes.len();
        match (request, reply) {
            (Request::Write(_), Reply::Wrote { ret }) => {
                if ret != 0 {
                    return Err(DriveFault::CallFailed { request, ret });
                }
                self.phase = match self.phase {
                    Phase::Arming { next } => {
                        assert(next < total);
                        Phase::Arming { next: next + 1 }
                    },
                    _ => Phase::Entering,
                };
                Ok(())
            },
            (Request::Run, Reply::Ran { ret, info }) => {
                if ret != 0 {
                    return Err(DriveFault::CallFailed { request, ret });
                }
                match classify_exit(&info) {
                    GuestExit::Canceled => {
                        self.phase = Phase::Entering;
                        Ok(())
                    },
                    GuestExit::Doorbell => {
                        self.phase = match self.goal {
                            Goal::Doorbell => Phase::Finished { count: 0 },
                            _ => Phase::Counting,
                        };
                        Ok(())
                    },
                    GuestExit::Unexpected { ec } => Err(DriveFault::UnexpectedExit { info, ec }),
                }
            },
            (Request::Read { reg: _ }, Reply::Value { ret, value }) => {
                if ret != 0 {
                    return Err(DriveFault::CallFailed { request, ret });
                }
                self.phase = match (self.phase, self.goal) {
                    (Phase::Counting, Goal::Sweeps) => Phase::Deciding { sweeps: value },
                    (Phase::Counting, _) => Phase::Finished { count: value },
                    _ => Phase::Advancing { pc: value },
                };
                Ok(())
            },
            (Request::KeepGoing { sweeps }, Reply::Keep { going }) => {
                self.phase = if going {
                    Phase::ReadingPc
                } else {
                    Phase::Finished { count: sweeps }
                };
                Ok(())
            },
            _ => Err(DriveFault::OutOfTurn { request, reply }),
        }
    }
}

/// The register writes that start a program at `entry` over the offsets
/// `[start_off, end_off)` of guest RAM.
pub open spec fn pass_writes(entry: u64, start_off: u64, end_off: u64) -> Seq<RegWrite> {
    seq![
        RegWrite { reg: HV_REG_PC, value: entry },
        RegWrite { reg: HV_REG_X1, value: (RAM_GPA + start_off) as u64 },
        RegWrite { reg: HV_REG_X2, value: (RAM_GPA + end_off) as u64 },
        RegWrite { reg: HV_REG_X3, value: DOORBELL_GPA },
    ]
}

/// Whether an offset into guest RAM has a guest-physical address.
pub open spec fn addressable(off: u64) -> bool {
    RAM_GPA + off <= u64::MAX
}

/// A drive over `[start_off, end_off)` that makes `writes` and then runs for
/// `goal`. Over an empty range there is nothing to do: the guest is not
/// entered.
pub open spec fn drive_over(
    writes: Seq<RegWrite>,
    goal: Goal,
    start_off: u64,
    end_off: u64,
) -> DriveState {
    DriveState {
        writes,
        goal,
        phase: if start_off < end_off {
            Phase::Arming { next: 0 }
        } else {
            Phase::Finished { count: 0 }
        },
    }
}

/// The drive that dirties a range.
pub open spec fn touch_drive(start_off: u64, end_off: u64) -> DriveState {
    drive_over(
        pass_writes(CODE_GPA, start_off, end_off),
        Goal::Doorbell,
        start_off,
        end_off,
    )
}

/// The drive that reads all of guest RAM.
pub open spec fn read_drive(ram_size: u64) -> DriveState {
    drive_over(pass_writes(READ_GPA, 0, ram_size), Goal::Doorbell, 0, ram_size)
}

/// The drive that stamps `value` over a range.
pub open spec fn fill_drive(start_off: u64, end_off: u64, value: u64) -> DriveState {
    drive_over(
        seq![RegWrite { reg: HV_REG_X5, value }] + pass_writes(FILL_GPA, start_off, end_off),
        Goal::Doorbell,
        start_off,
        end_off,
    )
}

/// The drive that counts the pages of a range that do not hold `expected`.
pub open spec fn verify_drive(start_off: u64, end_off: u64, expected: u64) -> DriveState {
    drive_over(
        seq![
            RegWrite { reg: HV_REG_X4, value: 0 },
            RegWrite { reg: HV_REG_X5, value: expected },
        ] + pass_writes(VERIFY_GPA, start_off, end_off),
        Goal::Mismatches,
        start_off,
        end_off,
    )
}

/// The drive of one increment sweep over a range.
pub open spec fn sweep_drive(start_off: u64, end_off: u64) -> DriveState {
    drive_over(
        seq![RegWrite { reg: HV_REG_X6, value: (RAM_GPA + start_off) as u64 }] + pass_writes(
            HAMMER_GPA,
            start_off,
            end_off,
        ),
        Goal::Doorbell,
        start_off,
        end_off,
    )
}

/// The drive of hammer sweeps over all of guest RAM.
pub open spec fn hammer_drive(ram_size: u64) -> DriveState {
    drive_over(hammer_writes(ram_size), Goal::Sweeps, 0, ram_size)
}

/// Where a drive over a range starts.
fn first_phase(start_off: u64, end_off: u64) -> (r: Phase)
    ensures
        r == if start_off < end_off {
            Phase::Arming { next: 0 }
        } else {
            Phase::Finished { count: 0 }
        },
{
    if start_off < end_off {
        Phase::Arming { next: 0 }
    } else {
        Phase::Finished { count: 0 }
    }
}

/// Adds the register writes of a pass to those made before it.
fn run_pass(
    first: Vec<RegWrite>,
    entry: u64,
    start_off: u64,
    end_off: u64,
    goal: Goal,
) -> (r: Drive)
    requires
        addressable(start_off),
        addressable(end_off),
    ensures
        r@ == drive_over(first@ + pass_writes(entry, start_off, end_off), goal, start_off, end_off),
{
    let mut writes = first;
    writes.push(RegWrite { reg: HV_REG_PC, value: entry });
    writes.push(RegWrite { reg: HV_REG_X1, value: RAM_GPA + start_off });
    writes.push(RegWrite { reg: HV_REG_X2, value: RAM_GPA + end_off });
    writes.push(RegWrite { reg: HV_REG_X3, value: DOORBELL_GPA });
    assert(writes@ =~= first@ + pass_writes(entry, start_off, end_off));
    Drive { writes, goal, phase: first_phase(start_off, end_off) }
}

/// One full touch pass over guest RAM.
pub fn run_touch_pass(ram_size: u64) -> (r: Drive)
    requires
        addressable(ram_size),
    ensures
        r@ == touch_drive(0, ram_size),
        ram_size == 0 ==> r@.phase == (Phase::Finished { count: 0 }),
{
    run_touch_range(0, ram_size)
}

/// One read-only pass over guest RAM: the control that separates dirtying
/// from touching.
pub fn run_read_pass(ram_size: u64) -> (r: Drive)
    requires
        addressable(ram_size),
    ensures
        r@ == read_drive(ram_size),
        ram_size == 0 ==> r@.phase == (Phase::Finished { count: 0 }),
{
    let r = run_pass(Vec::new(), READ_GPA, 0, ram_size, Goal::Doorbell);
    assert(r@.writes =~= pass_writes(READ_GPA, 0, ram_size));
    r
}

/// Touch pass over `[start_off, end_off)` of guest RAM.
pub fn run_touch_range(start_off: u64, end_off: u64) -> (r: Drive)
    requires
        addressable(start_off),
        addressable(end_off),
    ensures
        r@ == touch_drive(start_off, end_off),
        start_off >= end_off ==> r@.phase == (Phase::Finished { count: 0 }),
{
    let r = run_pass(Vec::new(), CODE_GPA, start_off, end_off, Goal::Doorbell);
    assert(r@.writes =~= pass_writes(CODE_GPA, start_off, end_off));
    r
}

/// One read-modify-write sweep over `[start_off, end_off)`: every page's first
/// word is incremented once.
pub fn run_sweep_range(start_off: u64, end_off: u64) -> (r: Drive)
    requires
        addressable(start_off),
        addressable(end_off),
    ensures
        r@ == sweep_drive(start_off, end_off),
        start_off >= end_off ==> r@.phase == (Phase::Finished { count: 0 }),
{
    let mut first: Vec<RegWrite> = Vec::new();
    first.push(RegWrite { reg: HV_REG_X6, value: RAM_GPA + start_off });
    assert(first@ =~= seq![RegWrite { reg: HV_REG_X6, value: (RAM_GPA + start_off) as u64 }]);
    run_pass(first, HAMMER_GPA, start_off, end_off, Goal::Doorbell)
}

/// Stamps `value` into the first word of every page in `[start_off, end_off)`.
pub fn run_fill_range(start_off: u64, end_off: u64, value: u64) -> (r: Drive)
    requires
        addressable(start_off),
        addressable(end_off),
    ensures
        r@ == fill_drive(start_off, end_off, value),
        start_off >= end_off ==> r@.phase == (Phase::Finished { count: 0 }),
{
    let mut first: Vec<RegWrite> = Vec::new();
    first.push(RegWrite { reg: HV_REG_X5, value });
    assert(first@ =~= seq![RegWrite { reg: HV_REG_X5, value }]);
    run_pass(first, FILL_GPA, start_off, end_off, Goal::Doorbell)
}

/// Integrity check inside the guest over `[start_off, end_off)`: the drive's
/// count is how many pages did not hold `expected` in their first word.
pub fn run_verify_range(start_off: u64, end_off: u64, expected: u64) -> (r: Drive)
    requires
        addressable(start_off),
        addressable(end_off),
    ensures
        r@ == verify_drive(start_off, end_off, expected),
        start_off >= end_off ==> r@.phase == (Phase::Finished { count: 0 }),
{
    let mut first: Vec<RegWrite> = Vec::new();
    first.push(RegWrite { reg: HV_REG_X4, value: 0 });
    first.push(RegWrite { reg: HV_REG_X5, value: expected });
    assert(first@ =~= seq![
        RegWrite { reg: HV_REG_X4, value: 0 },
        RegWrite { reg: HV_REG_X5, value: expected },
    ]);
    run_pass(first, VERIFY_GPA, start_off, end_off, Goal::Mismatches)
}

/// The register writes that start the hammer over all of guest RAM.
pub open spec fn hammer_writes(ram_size: u64) -> Seq<RegWrite> {
    seq![
        RegWrite { reg: HV_REG_PC, value: HAMMER_GPA },
        RegWrite { reg: HV_REG_X2, value: (RAM_GPA + ram_size) as u64 },
        RegWrite { reg: HV_REG_X3, value: DOORBELL_GPA },
        RegWrite { reg: HV_REG_X4, value: 0 },
        RegWrite { reg: HV_REG_X6, value: RAM_GPA },
    ]
}

/// Hammer sweeps over guest RAM until the caller says stop; the drive's count
/// is the number of completed sweeps, which is none where there is no RAM. A
/// data abort leaves the program counter at the doorbell store, so resuming
/// steps past it.
pub fn run_hammer(ram_size: u64) -> (r: Drive)
    requires
        addressable(ram_size),
    ensures
        r@ == hammer_drive(ram_size),
        ram_size == 0 ==> r@.phase == (Phase::Finished { count: 0 }),
{
    let mut writes: Vec<RegWrite> = Vec::new();
    writes.push(RegWrite { reg: HV_REG_PC, value: HAMMER_GPA });
    writes.push(RegWrite { reg: HV_REG_X2, value: RAM_GPA + ram_size });
    writes.push(RegWrite { reg: HV_REG_X3, value: DOORBELL_GPA });
    writes.push(RegWrite { reg: HV_REG_X4, value: 0 });
    writes.push(RegWrite { reg: HV_REG_X6, value: RAM_GPA });
    assert(writes@ =~= hammer_writes(ram_size));
    Drive { writes, goal: Goal::Sweeps, phase: first_phase(0, ram_size) }
}

/// An exit is the doorbell exactly if it is an exception whose class, the six
/// bits from the twenty-sixth on, is a data abort, at the doorbell's address:
/// what else the syndrome holds does not matter, nor where the guest thinks it
/// was. A cancellation is one whatever the exception says.
pub proof fn law_only_the_doorbell_rings(info: HvVcpuExitInfo, low: u64, high: u64)
    requires
        low < 0x400_0000,
        high < 0x1_0000_0000,
    ensures
        exit_meaning(info) == GuestExit::Canceled <==> info.reason == 0,
        exit_meaning(info) == GuestExit::Doorbell ==> info.reason == 1
            && info.exception.physical_address == DOORBELL_GPA,
        info.reason == 1 && info.exception.physical_address == DOORBELL_GPA
            && info.exception.syndrome == high * 0x1_0000_0000 + 0x24 * 0x400_0000 + low
            ==> exit_meaning(info) == GuestExit::Doorbell,
        exit_meaning(info) == GuestExit::Doorbell ==> info.exception.syndrome / 0x400_0000 % 64
            == 0x24,
        exit_meaning(info) matches GuestExit::Unexpected { ec } ==> info.reason != 0 && ec
            == info.exception.syndrome / 0x400_0000 % 64 && (info.reason != 1 || ec != 0x24
            || info.exception.physical_address != DOORBELL_GPA),
{
}

/// Every register write of a drive is made, in order, before the guest is
/// entered; a call that fails ends the drive and is named; a run that was
/// canceled is entered again, and any other exit but the doorbell is a fault.
pub proof fn law_drives_go_by_the_answers(s: DriveState, ret: i32, info: HvVcpuExitInfo, value: u64)
    ensures
        s.phase matches Phase::Arming { next } ==> (next < s.writes.len() ==> s.asks()
            == Request::Write(s.writes[next as int])) && (next >= s.writes.len() ==> s.asks()
            == Request::Run),
        s.phase matches Phase::Arming { next } ==> (next < s.writes.len() && next < usize::MAX
            ==> s.after(Reply::Wrote { ret: 0 }) == Ok::<Phase, DriveFault>(
            Phase::Arming { next: (next + 1) as usize },
        )),
        s.asks() is Write && ret != 0 ==> s.after(Reply::Wrote { ret }) == Err::<Phase, DriveFault>(
            DriveFault::CallFailed { request: s.asks(), ret },
        ),
        s.asks() is Run && ret != 0 ==> s.after(Reply::Ran { ret, info }) == Err::<
            Phase,
            DriveFault,
        >(DriveFault::CallFailed { request: s.asks(), ret }),
        s.asks() is Read && ret != 0 ==> s.after(Reply::Value { ret, value }) == Err::<
            Phase,
            DriveFault,
        >(DriveFault::CallFailed { request: s.asks(), ret }),
        s.asks() is Run && exit_meaning(info) is Canceled ==> s.after(Reply::Ran { ret: 0, info })
            == Ok::<Phase, DriveFault>(Phase::Entering),
        s.asks() is Run && exit_meaning(info) is Unexpected ==> s.after(
            Reply::Ran { ret: 0, info },
        ) is Err,
        s.phase is Finished ==> s.after(Reply::Wrote { ret }) is Err && s.after(
            Reply::Ran { ret, info },
        ) is Err && s.after(Reply::Value { ret, value }) is Err && s.after(
            Reply::Keep { going: true },
        ) is Err,
{
}

}
