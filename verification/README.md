# Kairos

A capability-based teaching microkernel for x86-64, whose decisions are
verified with [Verus](https://github.com/verus-lang/verus).

## What is proved

The library in `src/` is executable Rust with contracts. Each operation states,
over a mathematical model, exactly what it makes of the state it works on and
what it returns; overflow, out-of-bounds access and panics are ruled out. On top
of the contracts stand laws about the system as a whole, among them:

* **Scheduling** (`sched`): a queue in first-in-first-out order, fixed quanta,
  weighted turns, earliest deadline first with budgets and counted misses; only
  ready tasks run, a task that leaves yields the CPU, nobody is lost, and a
  round gives every task exactly its quantum or its weight.
* **Memory** (`mem`, `kernel::memory`): frames are handed out once, runs are
  contiguous, freeing undoes allocation, a double free is refused, and only
  memory that the firmware calls usable is ever free.
* **Capabilities** (`caps`, `kernel::caps`): rights only ever narrow, a revoked
  slot is empty, handles are typed.
* **Messages** (`ipc`, `kernel::ipc`): channels are bounded queues, no operation
  succeeds without a capability, what is sent is what is received, and blocked
  tasks are woken and try again.
* **Syscalls and loading** (`kernel::syscall`, `kernel::user`): user pointers
  are checked as a whole before use, new tasks cannot spawn, loaded text is not
  writable, relocations stay inside segments, and shared frames stay inside their window.

## Layout

* `src/sched.rs`, `src/mem.rs`, `src/caps.rs`, `src/ipc.rs`: the core, each with
  its laws beside it.
* `src/kernel/`: tasks, interrupts, syscalls, IPC, memory, the loader, console,
  screen, logger, shell and boot.
* `src/user/`: the ring-3 programs as step functions.
* `src/runner.rs`: QEMU's arguments and exit codes.
* `app/`: ordinary Rust around the library: the runner's `main`, and the
  hardware side of the kernel (page tables, descriptor tables, assembly stubs,
  ports), which carries out what the library says.
* `tests/`: tests of the compiled library.

Three functions are trusted, all around the `x86_64` crate: making a segment
selector, testing whether an address is canonical, and finding the page of an
address. Their doc comments say what is assumed of them.
