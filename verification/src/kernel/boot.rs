//! Boot: what the kernel announces, and how a run in test mode ends.

use vstd::prelude::*;
use crate::config::{
    SchedPolicy, EXIT_FAILURE, EXIT_SUCCESS, HEAP_MIB, QUANTUM_MS, SCHED_POLICY,
};
use crate::kernel::memory;
use crate::kernel::memory::frames::Frames;
use crate::kernel::memory::MIB;
use crate::text;

verus! {

/// The name of a scheduling policy.
pub open spec fn policy_text(p: SchedPolicy) -> Seq<char> {
    match p {
        SchedPolicy::RoundRobin => "round-robin"@,
        SchedPolicy::WeightedRoundRobin => "weighted-round-robin"@,
        SchedPolicy::EarliestDeadlineFirst => "edf"@,
    }
}

/// The name of the policy of the build.
pub fn policy_name() -> (r: &'static str)
    ensures
        r@ == policy_text(SCHED_POLICY),
{
    match SCHED_POLICY {
        SchedPolicy::RoundRobin => "round-robin",
        SchedPolicy::WeightedRoundRobin => "weighted-round-robin",
        SchedPolicy::EarliestDeadlineFirst => "edf",
    }
}

/// The line above and below the banner.
pub open spec fn rule() -> Seq<char> {
    "------------------------------------------------------------"@
}

/// The memory line of the banner.
pub open spec fn memory_line(total_mib: nat, usable_mib: nat, free: nat) -> Seq<char> {
    " memory        : "@ + text::decimal(total_mib) + " MiB total, "@ + text::decimal(usable_mib)
        + " MiB usable, "@ + text::decimal(free) + " frames free"@
}

/// The lines that the kernel logs when it is up.
pub fn banner(f: &Frames) -> (out: Vec<String>)
    requires
        f.wf(),
    ensures
        text::views(out@) == seq![
            rule(),
            " Kairos Microkernel v0.1.0 — capability-based, deterministic"@,
            " policy        : "@ + policy_text(SCHED_POLICY),
            " quantum       : "@ + text::decimal(QUANTUM_MS as nat) + " ms"@,
            " kernel heap   : "@ + text::decimal(HEAP_MIB as nat) + " MiB"@,
            memory_line(
                (memory::window_bytes(f@) / (MIB as int)) as nat,
                (f@.usable / MIB) as nat,
                f@.free() as nat,
            ),
            rule(),
        ],
{
    let mut out = text::no_lines();
    text::push_line(
        &mut out,
        String::from_str("------------------------------------------------------------"),
    );
    text::push_line(
        &mut out,
        String::from_str(" Kairos Microkernel v0.1.0 — capability-based, deterministic"),
    );
    let mut policy = String::from_str(" policy        : ");
    policy.append(policy_name());
    text::push_line(&mut out, policy);
    let mut quantum = String::from_str(" quantum       : ");
    text::push_decimal(&mut quantum, QUANTUM_MS);
    quantum.append(" ms");
    text::push_line(&mut out, quantum);
    let mut heap = String::from_str(" kernel heap   : ");
    text::push_decimal(&mut heap, HEAP_MIB as u64);
    heap.append(" MiB");
    text::push_line(&mut out, heap);
    let mem = memory::summary(f);
    let mut line = String::from_str(" memory        : ");
    text::push_decimal(&mut line, mem.total_mib);
    line.append(" MiB total, ");
    text::push_decimal(&mut line, mem.usable_mib);
    line.append(" MiB usable, ");
    text::push_decimal(&mut line, mem.frames_free as u64);
    line.append(" frames free");
    text::push_line(&mut out, line);
    text::push_line(
        &mut out,
        String::from_str("------------------------------------------------------------"),
    );
    out
}

/// The results of the self-tests of the subsystems.
#[derive(Clone, Copy, PartialEq, Eq, Debug, Structural)]
pub struct TestResults {
    pub logger: bool,
    pub memory: bool,
    pub ipc: bool,
    pub task: bool,
    pub syscall: bool,
    pub user: bool,
    pub shell: bool,
}

/// The report on one subsystem.
pub open spec fn report_line(name: Seq<char>, passed: bool) -> Seq<char> {
    "[tests] "@ + name + ": "@ + (if passed {
        "PASS"@
    } else {
        "FAIL"@
    })
}

impl TestResults {
    pub open spec fn all(self) -> bool {
        &&& self.logger
        &&& self.memory
        &&& self.ipc
        &&& self.task
        &&& self.syscall
        &&& self.user
        &&& self.shell
    }
}

/// The report on one subsystem.
pub fn report(name: &str, passed: bool) -> (r: String)
    ensures
        r@ == report_line(name@, passed),
{
    let mut line = String::from_str("[tests] ");
    line.append(name);
    line.append(": ");
    if passed {
        line.append("PASS");
    } else {
        line.append("FAIL");
    }
    line
}

/// The report on the in-kernel test suite, and whether all of it passed.
pub fn test_runner(results: TestResults) -> (r: (bool, Vec<String>))
    ensures
        r.0 == results.all(),
        text::views(r.1@) == seq![
            report_line("logger"@, results.logger),
            report_line("memory"@, results.memory),
            report_line("ipc"@, results.ipc),
            report_line("task"@, results.task),
            report_line("syscall"@, results.syscall),
            report_line("user"@, results.user),
            report_line("shell"@, results.shell),
        ],
{
    let mut out = text::no_lines();
    text::push_line(&mut out, report("logger", results.logger));
    text::push_line(&mut out, report("memory", results.memory));
    text::push_line(&mut out, report("ipc", results.ipc));
    text::push_line(&mut out, report("task", results.task));
    text::push_line(&mut out, report("syscall", results.syscall));
    text::push_line(&mut out, report("user", results.user));
    text::push_line(&mut out, report("shell", results.shell));
    let ok = results.logger && results.memory && results.ipc && results.task && results.syscall
        && results.user && results.shell;
    (ok, out)
}

/// What the kernel logs of the suite as a whole.
pub fn verdict(passed: bool) -> (r: String)
    ensures
        r@ == "kernel self-tests: "@ + (if passed {
            "ALL PASSED"@
        } else {
            "FAILED"@
        }),
{
    let mut line = String::from_str("kernel self-tests: ");
    if passed {
        line.append("ALL PASSED");
    } else {
        line.append("FAILED");
    }
    line
}

/// The exit code of a run in test mode.
pub fn exit_code(passed: bool) -> (r: u32)
    ensures
        r == (if passed {
            EXIT_SUCCESS
        } else {
            EXIT_FAILURE
        }),
{
    if passed {
        EXIT_SUCCESS
    } else {
        EXIT_FAILURE
    }
}

/// The suite has passed exactly if each of its parts has: one that failed is
/// enough to fail it.
pub proof fn law_one_failure_fails_the_suite(r: TestResults)
    ensures
        r.all() ==> r.logger && r.memory && r.ipc && r.task && r.syscall && r.user && r.shell,
        !r.logger || !r.memory || !r.ipc || !r.task || !r.syscall || !r.user || !r.shell
            ==> !r.all(),
        r.logger && r.memory && r.ipc && r.task && r.syscall && r.user && r.shell ==> r.all(),
{
}

/// The report names the part and says PASS exactly if it passed.
pub proof fn law_report_line(name: Seq<char>)
    ensures
        report_line(name, true) == "[tests] "@ + name + ": "@ + "PASS"@,
        report_line(name, false) == "[tests] "@ + name + ": "@ + "FAIL"@,
{
}

/// The memory line shows the total, the usable part and the free frames, in this
/// order.
pub proof fn law_memory_line(total: nat, usable: nat, free: nat)
    ensures
        memory_line(total, usable, free) == " memory        : "@ + text::decimal(total)
            + " MiB total, "@ + text::decimal(usable) + " MiB usable, "@ + text::decimal(free)
            + " frames free"@,
        text::value(text::decimal(total), 10) == total,
        text::value(text::decimal(usable), 10) == usable,
        text::value(text::decimal(free), 10) == free,
{
    text::law_decimal_reads_back(total);
    text::law_decimal_reads_back(usable);
    text::law_decimal_reads_back(free);
}

/// Each policy has its name.
pub proof fn law_policy_names()
    ensures
        policy_text(SchedPolicy::RoundRobin) == "round-robin"@,
        policy_text(SchedPolicy::WeightedRoundRobin) == "weighted-round-robin"@,
        policy_text(SchedPolicy::EarliestDeadlineFirst) == "edf"@,
{
}

} // verus!
