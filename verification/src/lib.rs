//! Kairos, a capability-based teaching microkernel.
//!
//! The library holds what the kernel decides: scheduling, physical memory,
//! capabilities, message passing, the loader, syscalls and the shell, without
//! the hardware. Its contracts say what every operation makes of the state it
//! works on, over mathematical models; the modules named `laws`, and the proof
//! functions whose names start with `law_`, state what follows for the system
//! as a whole.
//!
//! * [`sched`], [`mem`], [`caps`], [`ipc`]: the hardware-independent core:
//!   scheduling policies, the frame bitmap, capability spaces and channels.
//! * [`kernel`]: the kernel around that core, subsystem by subsystem.
//! * [`user`]: the user side of the syscalls, and the ring-3 programs.
//! * [`runner`]: how the machine is started and what its exit means.
//! * [`config`], [`text`], [`bytes`]: configuration, text and number formats.

pub mod bytes;
pub mod caps;
pub mod config;
pub mod ipc;
pub mod kernel;
pub mod mem;
pub mod runner;
pub mod sched;
pub mod text;
pub mod user;
