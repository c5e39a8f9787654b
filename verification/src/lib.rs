//! Measuring how macOS gives the memory of a virtual machine back: what to do
//! to the machine, in which order, and what its answers mean.
//!
//! Nothing here touches the machine. Where a run alternates between work and
//! decisions, a value of this library says what to do next and is told what
//! came of it.

pub mod alloc_shape;
pub mod flag_order;
pub mod fleet;
pub mod guest;
pub mod guest_init;
pub mod hammer;
pub mod harness;
pub mod helper;
pub mod hvf;
pub mod ledger;
pub mod machine;
pub mod options;
pub mod pressure;
pub mod probe;
pub mod programs;
pub mod protocol;
pub mod reclaim;
pub mod run;
pub mod session;
pub mod soak;
pub mod stride;
pub mod survey;
pub mod text;
pub mod timing;
pub mod vz;
pub mod worker;
