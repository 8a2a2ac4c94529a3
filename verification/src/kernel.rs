//! The kernel proper: what decides, without the hardware.
//!
//! Each module takes the state it works on as an argument and says in its
//! contracts what becomes of it. Reading user memory, editing page tables and
//! register frames, and driving the console are left to the caller: a
//! function says what is to be read, mapped, written or printed.

use vstd::prelude::*;
use crate::kernel::caps::{KernelObject, ObjectTable};
use crate::kernel::ipc::{ChannelTable, ChannelView};
use crate::kernel::task::{TaskTable, TasksView};
use crate::kernel::user::{USER_FRAME_WINDOW, USER_WINDOW_END};

pub mod boot;
pub mod caps;
pub mod gdt;
pub mod interrupts;
pub mod ipc;
pub mod logger;
pub mod memory;
pub mod serial;
pub mod shell;
pub mod syscall;
pub mod task;
pub mod user;
pub mod vga;

verus! {

/// The state that syscalls work on.
pub struct Kernel {
    pub objects: ObjectTable,
    pub channels: ChannelTable,
    pub tasks: TaskTable,
    /// Where the next shared frame group is mapped.
    pub cursor: u64,
}

/// What the kernel holds.
#[verifier::ext_equal]
pub struct KernelView {
    pub objects: Seq<Option<KernelObject>>,
    pub channels: Seq<ChannelView>,
    pub tasks: TasksView,
    pub cursor: u64,
}

impl Kernel {
    pub open spec fn view(&self) -> KernelView {
        KernelView {
            objects: self.objects@,
            channels: self.channels@,
            tasks: self.tasks@,
            cursor: self.cursor,
        }
    }

    /// Validity of the kernel's state: that of the tasks, and the next shared
    /// frame group is mapped inside the frame window or right at its end.
    pub open spec fn wf(&self) -> bool {
        self.tasks.wf() && USER_FRAME_WINDOW <= self.cursor <= USER_WINDOW_END
    }

    /// The kernel's state before anything was set up.
    pub fn new() -> (r: Kernel)
        ensures
            r.wf(),
            r.objects@ == Seq::<Option<KernelObject>>::empty(),
            r.channels@ == Seq::<ChannelView>::empty(),
            r.tasks@.sched is None,
            r.tasks@.entries.len() == 0,
            r.tasks@.sleeping.len() == 0,
            r.tasks@.graveyard.len() == 0,
            r.tasks@.next_id == 1,
            r.cursor == USER_FRAME_WINDOW,
    {
        Kernel {
            objects: ObjectTable::new(),
            channels: ChannelTable::new(),
            tasks: TaskTable::new(),
            cursor: USER_FRAME_WINDOW,
        }
    }
}

} // verus!
