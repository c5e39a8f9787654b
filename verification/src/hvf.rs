//! What the hypervisor interface says and how its answers are judged.

use vstd::prelude::*;

verus! {

/// The exception that ended a run of a vCPU.
#[derive(Clone, Copy, PartialEq, Eq, Structural, Debug)]
pub struct HvVcpuExitException {
    pub syndrome: u64,
    pub virtual_address: u64,
    pub physical_address: u64,
}

/// Why a vCPU stopped running.
#[derive(Clone, Copy, PartialEq, Eq, Structural, Debug)]
pub struct HvVcpuExitInfo {
    pub reason: u32,
    pub exception: HvVcpuExitException,
}

pub const HV_MEMORY_READ: u64 = 1;

pub const HV_MEMORY_WRITE: u64 = 2;

pub const HV_MEMORY_EXEC: u64 = 4;

pub const HV_REG_X1: u32 = 1;

pub const HV_REG_X2: u32 = 2;

pub const HV_REG_X3: u32 = 3;

pub const HV_REG_X4: u32 = 4;

pub const HV_REG_X5: u32 = 5;

pub const HV_REG_X6: u32 = 6;

pub const HV_REG_PC: u32 = 31;

pub const HV_REG_CPSR: u32 = 34;

pub const HV_EXIT_REASON_CANCELED: u32 = 0;

pub const HV_EXIT_REASON_EXCEPTION: u32 = 1;

pub const EC_DATA_ABORT_LOWER_EL: u64 = 0x24;

/// EL1h with A, I, F and D masked: how a bare-metal guest starts.
pub const PSTATE_EL1H_MASKED: u64 = 0x3C5;

/// A hypervisor call that did not succeed.
pub struct CallFailed {
    /// The call, as the caller names it.
    pub what: String,
    /// What it returned.
    pub ret: i32,
}

/// Whether a return value of the hypervisor means success.
pub open spec fn succeeded(ret: i32) -> bool {
    ret == 0
}

/// Judges the return value of a hypervisor call: zero is success.
pub fn check(ret: i32, what: &str) -> (r: Result<(), CallFailed>)
    ensures
        r is Ok <==> succeeded(ret),
        r is Err ==> r->Err_0.what@ == what@ && r->Err_0.ret == ret,
{
    if ret == 0 {
        Ok(())
    } else {
        Err(CallFailed { what: what.to_owned(), ret })
    }
}

/// The exception class: bits 26 to 31 of a syndrome.
pub open spec fn exception_class(syndrome: u64) -> u64 {
    syndrome / 0x400_0000 % 64
}

/// Extracts the exception class of a syndrome.
pub fn exception_class_of(syndrome: u64) -> (r: u64)
    ensures
        r == exception_class(syndrome),
{
    assert((syndrome >> 26) & 0x3F == syndrome / 0x400_0000 % 64) by (bit_vector);
    (syndrome >> 26) & 0x3F
}

/// The class stands above twenty-six bits and below thirty-two: whatever the
/// rest of a syndrome holds, the class is read as it was put there.
pub proof fn law_the_class_is_apart_from_the_rest(class: int, below: int, above: int)
    requires
        0 <= class < 64,
        0 <= below < 0x400_0000,
        0 <= above < 0x1_0000_0000,
    ensures
        exception_class((above * 0x1_0000_0000 + class * 0x400_0000 + below) as u64) == class,
{
}

/// One return value means success, zero, and every other one failure.
pub proof fn law_all_but_one_value_are_failures(a: i32, b: i32)
    ensures
        succeeded(0),
        succeeded(a) && succeeded(b) ==> a == b,
{
}

}
