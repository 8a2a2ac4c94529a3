//! Compile-time configuration.
//!
//! Every policy knob of the kernel is a constant of this module, and the
//! syscall numbers that the kernel and the user programs share stand here
//! once.

use vstd::prelude::*;

verus! {

/// Scheduling policy compiled into the kernel.
#[derive(Clone, Copy, PartialEq, Eq, Debug, Default, Structural)]
pub enum SchedPolicy {
    #[default]
    /// Plain round-robin with a fixed time quantum.
    RoundRobin,
    /// Round-robin where each task's share scales with its weight.
    WeightedRoundRobin,
    /// Earliest-deadline-first for tasks with deadlines.
    EarliestDeadlineFirst,
}

/// Log level compiled into the kernel.
#[derive(Clone, Copy, PartialEq, Eq, PartialOrd, Ord, Debug, Default, Structural)]
pub enum LogLevel {
    Error,
    Warn,
    #[default]
    Info,
    Debug,
    Trace,
}

/// Scheduling policy of the build.
pub const SCHED_POLICY: SchedPolicy = SchedPolicy::WeightedRoundRobin;

/// Scheduling quantum in milliseconds (one tick is one millisecond).
pub const QUANTUM_MS: u64 = 10;

/// Kernel heap size in MiB.
pub const HEAP_MIB: usize = 64;

/// Whether the periodic demo tasks are spawned at boot.
pub const REALTIME_DEMO: bool = false;

/// Whether the kernel runs its self-tests after boot and then exits.
pub const TEST_MODE: bool = false;

/// Least severe level that is still logged.
pub const LOG_LEVEL: LogLevel = LogLevel::Info;

/// Timer interrupts per second.
pub const TICK_HZ: u64 = 1000;

/// Kernel heap size in bytes (mapped virtual range).
pub const HEAP_SIZE: usize = HEAP_MIB * 1024 * 1024;

/// Exit code written to the QEMU debug-exit port after a clean run.
pub const EXIT_SUCCESS: u32 = 0x10;

/// Exit code written to the QEMU debug-exit port after a failure.
pub const EXIT_FAILURE: u32 = 0x11;

pub const SYS_EXIT: u64 = 0;
pub const SYS_YIELD: u64 = 1;
pub const SYS_SLEEP: u64 = 2;
pub const SYS_PRINT: u64 = 3;
pub const SYS_GETPID: u64 = 4;
pub const SYS_TIME: u64 = 5;
pub const SYS_SPAWN: u64 = 6;
pub const SYS_CH_CREATE: u64 = 7;
pub const SYS_CH_CLOSE: u64 = 8;
pub const SYS_SEND: u64 = 9;
pub const SYS_RECV: u64 = 10;
pub const SYS_SEND_FRAME: u64 = 11;
pub const SYS_RECV_FRAME: u64 = 12;

} // verus!
