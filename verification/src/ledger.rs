//! The memory ledger of a process.
//!
//! `phys_footprint` is the number macOS itself uses for memory-pressure
//! decisions. Everything here is judged against it.

use vstd::prelude::*;

verus! {

/// Apple Silicon host page size. Every touch and survey stride uses it.
pub const PAGE: u64 = 0x4000;

/// The `task_info` flavor that fills a [`TaskVmInfo`].
pub const TASK_VM_INFO: u32 = 22;

/// How many 32-bit words a [`TaskVmInfo`] has.
pub const TASK_VM_INFO_WORDS: u32 = 38;

/// `task_vm_info` up to and with `phys_footprint`.
#[derive(Clone, Copy, PartialEq, Eq, Structural, Debug)]
pub struct TaskVmInfo {
    pub virtual_size: u64,
    pub region_count: i32,
    pub page_size: i32,
    pub resident_size: u64,
    pub resident_size_peak: u64,
    pub device: u64,
    pub device_peak: u64,
    pub internal: u64,
    pub internal_peak: u64,
    pub external: u64,
    pub external_peak: u64,
    pub reusable: u64,
    pub reusable_peak: u64,
    pub purgeable_volatile_pmap: u64,
    pub purgeable_volatile_resident: u64,
    pub purgeable_volatile_virtual: u64,
    pub compressed: u64,
    pub compressed_peak: u64,
    pub compressed_lifetime: u64,
    pub phys_footprint: u64,
}

/// One reading of the ledger counters, in bytes.
#[derive(Clone, Copy, PartialEq, Eq, Structural, Debug)]
pub struct Ledger {
    /// The memory-pressure ledger. The one that matters.
    pub phys_footprint: u64,
    /// Resident pages, clean and reclaimable ones too.
    pub resident: u64,
    /// Pages marked reusable: resident, but already off the footprint ledger
    /// and reclaimable without I/O.
    pub reusable: u64,
    /// Bytes the compressor holds for the process.
    pub compressed: u64,
    /// Entries in its address map.
    pub regions: i32,
}

/// Why there is no reading. A failed reading must never be silently zero.
#[derive(Clone, Copy, PartialEq, Eq, Structural, Debug)]
pub enum ReadError {
    /// `task_info` returned an error.
    Failed { kr: i32 },
    /// The kernel copied fewer or more words than there are.
    Short { count: u32 },
}

impl Ledger {
    /// The reading, or why there is none.
    pub open spec fn reading(kr: i32, count: u32, info: TaskVmInfo) -> Result<Ledger, ReadError> {
        if kr != 0 {
            Err(ReadError::Failed { kr })
        } else if count != TASK_VM_INFO_WORDS {
            Err(ReadError::Short { count })
        } else {
            Ok(
                Ledger {
                    phys_footprint: info.phys_footprint,
                    resident: info.resident_size,
                    reusable: info.reusable,
                    compressed: info.compressed,
                    regions: info.region_count,
                },
            )
        }
    }

    /// The reading that `task_info` left in `info`, with its return value
    /// `kr` and the number of words it says it copied.
    pub fn read(kr: i32, count: u32, info: &TaskVmInfo) -> (r: Result<Ledger, ReadError>)
        ensures
            r == Ledger::reading(kr, count, *info),
    {
        if kr != 0 {
            return Err(ReadError::Failed { kr });
        }
        if count != TASK_VM_INFO_WORDS {
            return Err(ReadError::Short { count });
        }
        Ok(
            Ledger {
                phys_footprint: info.phys_footprint,
                resident: info.resident_size,
                reusable: info.reusable,
                compressed: info.compressed,
                regions: info.region_count,
            },
        )
    }
}

/// The host's page size is not [`PAGE`].
#[derive(Clone, Copy, PartialEq, Eq, Structural, Debug)]
pub struct PageSizeMismatch {
    pub sys: i64,
}

pub open spec fn page_size_held(sys: i64) -> Result<(), PageSizeMismatch> {
    if sys == PAGE {
        Ok::<(), PageSizeMismatch>(())
    } else {
        Err(PageSizeMismatch { sys })
    }
}

/// Holds the host page size `sys` against [`PAGE`]. On a host with smaller
/// pages the strides would silently skip pages.
pub fn assert_host_page_size(sys: i64) -> (r: Result<(), PageSizeMismatch>)
    ensures
        r == page_size_held(sys),
{
    if sys == 0x4000 {
        Ok(())
    } else {
        Err(PageSizeMismatch { sys })
    }
}

/// There is a reading exactly if the call succeeded and copied every word; it
/// holds each counter as the kernel left it, and a refusal says what came back.
pub proof fn law_readings_are_whole_or_refused(kr: i32, count: u32, info: TaskVmInfo)
    ensures
        match Ledger::reading(kr, count, info) {
            Ok(l) => kr == 0 && count == 38 && l.phys_footprint == info.phys_footprint && l.resident
                == info.resident_size && l.reusable == info.reusable && l.compressed
                == info.compressed && l.regions == info.region_count,
            Err(ReadError::Failed { kr: why }) => kr != 0 && why == kr,
            Err(ReadError::Short { count: words }) => kr == 0 && count != 38 && words == count,
        },
{
}

/// Only a host with pages of 16 KiB is let through.
pub proof fn law_only_sixteen_kib_pages_pass(sys: i64)
    ensures
        page_size_held(sys) is Ok <==> sys == 16 * 1024,
        page_size_held(sys) matches Err(e) ==> e.sys == sys,
{
}

}
