//! Interrupt & exception handling: register frames, exception reports, and
//! the programming of the interrupt controller and the timer.
//!
//! Every vector runs through a small assembly stub that pushes the
//! general-purpose registers (see [`CpuFrame`]), calls a handler, and restores
//! the registers, possibly **from a different task's frame**, which is
//! exactly how preemptive context switching happens.
//!
//! Layout on the stack at the handler (low to high):
//! `[r15 .. rbp][err][vec][rip][cs][rflags][rsp][ss]` where the
//! `[rip .. ss]` tail is pushed by the CPU.

use vstd::prelude::*;
use crate::text;

verus! {

/// Register snapshot pushed by the interrupt stubs.
#[derive(Clone, Copy, PartialEq, Eq, Debug, Structural)]
pub struct CpuFrame {
    pub r15: u64,
    pub r14: u64,
    pub r13: u64,
    pub r12: u64,
    pub r11: u64,
    pub r10: u64,
    pub r9: u64,
    pub r8: u64,
    pub rdi: u64,
    pub rsi: u64,
    pub rdx: u64,
    pub rcx: u64,
    pub rbx: u64,
    pub rax: u64,
    pub rbp: u64,
    /// Error code pushed by the stub (0 when the CPU provides none).
    pub err: u64,
    /// Vector number pushed by the stub.
    pub vec: u64,
    /// Interrupted instruction pointer (CPU-pushed).
    pub rip: u64,
    pub cs: u64,
    pub rflags: u64,
    /// Present only for ring-3 to ring-0 transitions.
    pub user_rsp: u64,
    pub user_ss: u64,
}

/// Words in a register frame.
pub const FRAME_WORDS: usize = 22;

/// Bytes one [`CpuFrame`] occupies on the stack.
pub const FRAME_SIZE: usize = 22 * 8;

/// Byte offsets of the fields that the assembly stubs rely on.
pub const OFFSET_R15: usize = 0;

pub const OFFSET_RBP: usize = 14 * 8;

pub const OFFSET_ERR: usize = 15 * 8;

pub const OFFSET_VEC: usize = 16 * 8;

pub const OFFSET_RIP: usize = 17 * 8;

/// The vector that marks the frame of a syscall.
pub const SYSCALL_VECTOR: u64 = 256;

impl CpuFrame {
    /// The words of the frame in the order in which they stand on the stack,
    /// lowest address first.
    pub open spec fn words(self) -> Seq<u64> {
        seq![
            self.r15,
            self.r14,
            self.r13,
            self.r12,
            self.r11,
            self.r10,
            self.r9,
            self.r8,
            self.rdi,
            self.rsi,
            self.rdx,
            self.rcx,
            self.rbx,
            self.rax,
            self.rbp,
            self.err,
            self.vec,
            self.rip,
            self.cs,
            self.rflags,
            self.user_rsp,
            self.user_ss,
        ]
    }

    /// The frame with zero in every register.
    pub open spec fn blank() -> CpuFrame {
        CpuFrame {
            r15: 0,
            r14: 0,
            r13: 0,
            r12: 0,
            r11: 0,
            r10: 0,
            r9: 0,
            r8: 0,
            rdi: 0,
            rsi: 0,
            rdx: 0,
            rcx: 0,
            rbx: 0,
            rax: 0,
            rbp: 0,
            err: 0,
            vec: 0,
            rip: 0,
            cs: 0,
            rflags: 0,
            user_rsp: 0,
            user_ss: 0,
        }
    }

    /// Zeroed frame used to build initial task contexts.
    pub fn zeroed() -> (r: Self)
        ensures
            r == CpuFrame::blank(),
            forall|i: int| 0 <= i < FRAME_WORDS ==> #[trigger] r.words()[i] == 0,
    {
        CpuFrame {
            r15: 0,
            r14: 0,
            r13: 0,
            r12: 0,
            r11: 0,
            r10: 0,
            r9: 0,
            r8: 0,
            rdi: 0,
            rsi: 0,
            rdx: 0,
            rcx: 0,
            rbx: 0,
            rax: 0,
            rbp: 0,
            err: 0,
            vec: 0,
            rip: 0,
            cs: 0,
            rflags: 0,
            user_rsp: 0,
            user_ss: 0,
        }
    }

    /// The words of the frame as they stand on the stack.
    pub fn to_words(&self) -> (r: [u64; FRAME_WORDS])
        ensures
            r@ == self.words(),
            r@[OFFSET_R15 as int / 8] == self.r15,
            r@[OFFSET_RBP as int / 8] == self.rbp,
            r@[OFFSET_ERR as int / 8] == self.err,
            r@[OFFSET_VEC as int / 8] == self.vec,
            r@[OFFSET_RIP as int / 8] == self.rip,
    {
        let r: [u64; FRAME_WORDS] = [
            self.r15,
            self.r14,
            self.r13,
            self.r12,
            self.r11,
            self.r10,
            self.r9,
            self.r8,
            self.rdi,
            self.rsi,
            self.rdx,
            self.rcx,
            self.rbx,
            self.rax,
            self.rbp,
            self.err,
            self.vec,
            self.rip,
            self.cs,
            self.rflags,
            self.user_rsp,
            self.user_ss,
        ];
        proof {
            assert(r@ =~= self.words());
        }
        r
    }

    /// The frame whose words these are.
    pub fn from_words(w: &[u64; FRAME_WORDS]) -> (r: Self)
        ensures
            r.words() == w@,
    {
        let r = CpuFrame {
            r15: w[0],
            r14: w[1],
            r13: w[2],
            r12: w[3],
            r11: w[4],
            r10: w[5],
            r9: w[6],
            r8: w[7],
            rdi: w[8],
            rsi: w[9],
            rdx: w[10],
            rcx: w[11],
            rbx: w[12],
            rax: w[13],
            rbp: w[14],
            err: w[15],
            vec: w[16],
            rip: w[17],
            cs: w[18],
            rflags: w[19],
            user_rsp: w[20],
            user_ss: w[21],
        };
        proof {
            assert(r.words() =~= w@);
        }
        r
    }

    /// The frame whose task runs its syscall again when it is resumed: the
    /// `syscall` instruction is two bytes long. Other frames stay.
    pub open spec fn rewound(self) -> CpuFrame {
        if self.vec == SYSCALL_VECTOR {
            CpuFrame {
                rip: if self.rip >= 2 {
                    (self.rip - 2) as u64
                } else {
                    (self.rip + 0xFFFF_FFFF_FFFF_FFFE) as u64
                },
                ..self
            }
        } else {
            self
        }
    }

    /// Makes the task run its syscall again when it is resumed.
    pub fn rewind(&mut self)
        ensures
            *final(self) == old(self).rewound(),
    {
        if self.vec == SYSCALL_VECTOR {
            self.rip = self.rip.wrapping_sub(2);
        }
    }
}

/// A frame is read back from its words.
pub proof fn law_frame_words_determine_it(a: CpuFrame, b: CpuFrame)
    requires
        a.words() == b.words(),
    ensures
        a == b,
{
    assert(a.words()[0] == b.words()[0]);
    assert(a.words()[1] == b.words()[1]);
    assert(a.words()[2] == b.words()[2]);
    assert(a.words()[3] == b.words()[3]);
    assert(a.words()[4] == b.words()[4]);
    assert(a.words()[5] == b.words()[5]);
    assert(a.words()[6] == b.words()[6]);
    assert(a.words()[7] == b.words()[7]);
    assert(a.words()[8] == b.words()[8]);
    assert(a.words()[9] == b.words()[9]);
    assert(a.words()[10] == b.words()[10]);
    assert(a.words()[11] == b.words()[11]);
    assert(a.words()[12] == b.words()[12]);
    assert(a.words()[13] == b.words()[13]);
    assert(a.words()[14] == b.words()[14]);
    assert(a.words()[15] == b.words()[15]);
    assert(a.words()[16] == b.words()[16]);
    assert(a.words()[17] == b.words()[17]);
    assert(a.words()[18] == b.words()[18]);
    assert(a.words()[19] == b.words()[19]);
    assert(a.words()[20] == b.words()[20]);
    assert(a.words()[21] == b.words()[21]);
}

// ---------------------------------------------------------------------------
// What the stubs read when they restore a frame
// ---------------------------------------------------------------------------

/// Area reachable via `gs` after `swapgs`: the kernel stack of the running
/// task and two scratch words.
#[derive(Clone, Copy, PartialEq, Eq, Debug, Structural)]
pub struct GsArea {
    pub kstack: u64,
    pub scratch1: u64,
    pub scratch2: u64,
}

/// What the hardware and the stubs use on the next entry and return.
#[derive(Clone, Copy, PartialEq, Eq, Debug, Structural)]
pub struct CpuState {
    /// Kernel stack used when an interrupt traps from user mode.
    pub rsp0: u64,
    /// Whether the task that is restored runs in ring 3, so that the stub
    /// must `swapgs` back right before `iretq`.
    pub user_ret: bool,
    pub gs: GsArea,
}

impl CpuState {
    /// The state before any task was entered.
    pub fn new() -> (r: CpuState)
        ensures
            r == (CpuState {
                rsp0: 0,
                user_ret: false,
                gs: GsArea { kstack: 0, scratch1: 0, scratch2: 0 },
            }),
    {
        CpuState { rsp0: 0, user_ret: false, gs: GsArea { kstack: 0, scratch1: 0, scratch2: 0 } }
    }

    /// The state with the return flag set to `user`, in the flag itself and
    /// in the first scratch word.
    pub open spec fn returning(self, user: bool) -> CpuState {
        CpuState {
            user_ret: user,
            gs: GsArea {
                scratch1: if user {
                    1
                } else {
                    0
                },
                ..self.gs
            },
            ..self
        }
    }

    /// The state with the kernel stack of the running task at `top`.
    pub open spec fn stacked(self, top: u64) -> CpuState {
        CpuState { rsp0: top, gs: GsArea { kstack: top, ..self.gs }, ..self }
    }
}

/// Says whether the task that is restored next runs in ring 3. The value is
/// mirrored into the first scratch word, where the stubs read it.
pub fn set_user_ret_flag(cpu: &mut CpuState, user: bool)
    ensures
        *final(cpu) == old(cpu).returning(user),
{
    cpu.user_ret = user;
    cpu.gs.scratch1 = if user {
        1
    } else {
        0
    };
}

// ---------------------------------------------------------------------------
// Exceptions
// ---------------------------------------------------------------------------

/// The name of an exception vector.
pub open spec fn exception_text(vec: u64) -> Seq<char> {
    if vec == 0 {
        "divide by zero"@
    } else if vec == 1 {
        "debug"@
    } else if vec == 2 {
        "non-maskable interrupt"@
    } else if vec == 3 {
        "breakpoint"@
    } else if vec == 4 {
        "overflow"@
    } else if vec == 5 {
        "bound range exceeded"@
    } else if vec == 6 {
        "invalid opcode"@
    } else if vec == 7 {
        "device not available"@
    } else if vec == 8 {
        "double fault"@
    } else if vec == 9 {
        "coprocessor segment overrun"@
    } else if vec == 10 {
        "invalid TSS"@
    } else if vec == 11 {
        "segment not present"@
    } else if vec == 12 {
        "stack-segment fault"@
    } else if vec == 13 {
        "general protection fault"@
    } else if vec == 14 {
        "page fault"@
    } else if vec == 16 {
        "x87 floating-point exception"@
    } else if vec == 17 {
        "alignment check"@
    } else if vec == 18 {
        "machine check"@
    } else if vec == 19 {
        "SIMD floating-point exception"@
    } else if vec == 20 {
        "virtualization exception"@
    } else if vec == 21 {
        "control protection exception"@
    } else if vec == 28 {
        "hypervisor injection exception"@
    } else if vec == 29 {
        "VMM communication exception"@
    } else if vec == 30 {
        "security exception"@
    } else if vec < 32 {
        "reserved"@
    } else {
        "unknown"@
    }
}

/// The name of an exception vector.
pub fn exception_name(vec: u64) -> (r: &'static str)
    ensures
        r@ == exception_text(vec),
{
    match vec {
        0 => "divide by zero",
        1 => "debug",
        2 => "non-maskable interrupt",
        3 => "breakpoint",
        4 => "overflow",
        5 => "bound range exceeded",
        6 => "invalid opcode",
        7 => "device not available",
        8 => "double fault",
        9 => "coprocessor segment overrun",
        10 => "invalid TSS",
        11 => "segment not present",
        12 => "stack-segment fault",
        13 => "general protection fault",
        14 => "page fault",
        16 => "x87 floating-point exception",
        17 => "alignment check",
        18 => "machine check",
        19 => "SIMD floating-point exception",
        20 => "virtualization exception",
        21 => "control protection exception",
        28 => "hypervisor injection exception",
        29 => "VMM communication exception",
        30 => "security exception",
        _ => if vec < 32 {
            "reserved"
        } else {
            "unknown"
        },
    }
}

/// `0x` and the digits of `n`, at least `width` of them.
pub open spec fn hex_text(n: u64, width: nat) -> Seq<char> {
    "0x"@ + text::hex(n as nat, width)
}

/// One line of the report with three labelled numbers.
pub open spec fn three(
    a: Seq<char>,
    x: u64,
    b: Seq<char>,
    y: u64,
    wy: nat,
    c: Seq<char>,
    z: u64,
) -> Seq<char> {
    a + hex_text(x, 16) + b + hex_text(y, wy) + c + hex_text(z, 16)
}

/// What an unhandled exception prints, line by line; a page fault adds the
/// address `cr2` and the meaning of its error code.
pub open spec fn report(f: CpuFrame, cr2: u64) -> Seq<Seq<char>> {
    let rule = "------------------------------------------------"@;
    let head = seq![
        rule,
        "KERNEL EXCEPTION (unhandled)"@,
        "  vector : "@ + text::decimal(f.vec as nat),
        "  name   : "@ + exception_text(f.vec),
        three("  rip    = "@, f.rip, ", cs = "@, f.cs, 4, ", rflags = "@, f.rflags),
        three("  rax    = "@, f.rax, ", rbx = "@, f.rbx, 16, ", rcx = "@, f.rcx),
        three("  rdi    = "@, f.rdi, ", rsi = "@, f.rsi, 16, ", rbp = "@, f.rbp),
    ];
    let fault = if f.vec == 14 {
        seq![
            "  fault addr (cr2) = "@ + hex_text(cr2, 16),
            "  page fault: present="@ + text::truth(f.err % 2 == 1) + " write="@ + text::truth(
                (f.err / 2) % 2 == 1,
            ) + " user="@ + text::truth((f.err / 4) % 2 == 1),
        ]
    } else {
        Seq::empty()
    };
    head + fault + seq![rule]
}

fn push_three(
    a: &str,
    x: u64,
    b: &str,
    y: u64,
    wy: u64,
    c: &str,
    z: u64,
) -> (r: String)
    ensures
        r@ == three(a@, x, b@, y, wy as nat, c@, z),
{
    let mut s = String::from_str(a);
    s.append("0x");
    text::push_hex(&mut s, x, 16);
    s.append(b);
    s.append("0x");
    text::push_hex(&mut s, y, wy);
    s.append(c);
    s.append("0x");
    text::push_hex(&mut s, z, 16);
    proof {
        assert(s@ =~= three(a@, x, b@, y, wy as nat, c@, z));
    }
    s
}

/// The diagnostic of an unhandled exception.
pub fn exception_report(frame: &CpuFrame, cr2: u64) -> (out: Vec<String>)
    ensures
        text::views(out@) == report(*frame, cr2),
{
    let mut out: Vec<String> = Vec::new();
    proof {
        assert(text::views(out@) =~= Seq::<Seq<char>>::empty());
    }
    text::push_line(&mut out, String::from_str("------------------------------------------------"));
    text::push_line(&mut out, String::from_str("KERNEL EXCEPTION (unhandled)"));
    let mut line = String::from_str("  vector : ");
    text::push_decimal(&mut line, frame.vec);
    text::push_line(&mut out, line);
    let mut line = String::from_str("  name   : ");
    line.append(exception_name(frame.vec));
    text::push_line(&mut out, line);
    text::push_line(
        &mut out,
        push_three("  rip    = ", frame.rip, ", cs = ", frame.cs, 4, ", rflags = ", frame.rflags),
    );
    text::push_line(
        &mut out,
        push_three("  rax    = ", frame.rax, ", rbx = ", frame.rbx, 16, ", rcx = ", frame.rcx),
    );
    text::push_line(
        &mut out,
        push_three("  rdi    = ", frame.rdi, ", rsi = ", frame.rsi, 16, ", rbp = ", frame.rbp),
    );
    if frame.vec == 14 {
        let mut line = String::from_str("  fault addr (cr2) = ");
        line.append("0x");
        text::push_hex(&mut line, cr2, 16);
        proof {
            assert(line@ =~= "  fault addr (cr2) = "@ + hex_text(cr2, 16));
        }
        text::push_line(&mut out, line);
        let mut line = String::from_str("  page fault: present=");
        text::push_truth(&mut line, frame.err % 2 == 1);
        line.append(" write=");
        text::push_truth(&mut line, (frame.err / 2) % 2 == 1);
        line.append(" user=");
        text::push_truth(&mut line, (frame.err / 4) % 2 == 1);
        text::push_line(&mut out, line);
    }
    text::push_line(&mut out, String::from_str("------------------------------------------------"));
    proof {
        assert(text::views(out@) =~= report(*frame, cr2));
    }
    out
}

// ---------------------------------------------------------------------------
// PIC (8259) remapping + PIT (8254) setup
// ---------------------------------------------------------------------------

/// One byte written to an I/O port.
#[derive(Clone, Copy, PartialEq, Eq, Debug, Structural)]
pub struct PortWrite {
    pub port: u16,
    pub value: u8,
}

/// Command and data ports of the two interrupt controllers.
pub const PIC_MASTER_COMMAND: u16 = 0x20;

pub const PIC_MASTER_DATA: u16 = 0x21;

pub const PIC_SLAVE_COMMAND: u16 = 0xA0;

pub const PIC_SLAVE_DATA: u16 = 0xA1;

/// A write to this port takes long enough for the controllers to settle.
pub const WAIT_PORT: u16 = 0x80;

/// Command and data port of the timer's channel 0.
pub const PIT_COMMAND: u16 = 0x43;

pub const PIT_CHANNEL: u16 = 0x40;

/// Input frequency of the timer in Hz.
pub const PIT_FREQ: u32 = 1_193_182;

/// The first vector of the interrupt requests 0 to 7 and of 8 to 15.
pub const MASTER_OFFSET: u8 = 0x20;

pub const SLAVE_OFFSET: u8 = 0x28;

/// The value, and then the pause after it.
pub open spec fn settled(port: u16, value: u8) -> Seq<PortWrite> {
    seq![PortWrite { port, value }, PortWrite { port: WAIT_PORT, value: 0 }]
}

/// Remaps the interrupt requests to the vectors 32 to 47 and masks everything
/// but the timer.
pub open spec fn remap_writes() -> Seq<PortWrite> {
    settled(PIC_MASTER_COMMAND, 0x11) + settled(PIC_SLAVE_COMMAND, 0x11) + settled(
        PIC_MASTER_DATA,
        MASTER_OFFSET,
    ) + settled(PIC_SLAVE_DATA, SLAVE_OFFSET) + settled(PIC_MASTER_DATA, 0x04) + settled(
        PIC_SLAVE_DATA,
        0x02,
    ) + settled(PIC_MASTER_DATA, 0x01) + settled(PIC_SLAVE_DATA, 0x01) + seq![
        PortWrite { port: PIC_MASTER_DATA, value: 0xFE },
        PortWrite { port: PIC_SLAVE_DATA, value: 0xFF },
    ]
}

/// The tick rate that the timer can give: at least one tick per second, at
/// most half of its input frequency.
pub open spec fn rate(hz: u64) -> int {
    if hz < 1 {
        1
    } else if hz > PIT_FREQ / 2 {
        (PIT_FREQ / 2) as int
    } else {
        hz as int
    }
}

/// The divisor that the timer is loaded with for `hz` ticks per second, as
/// far as it fits into its sixteen bits.
pub open spec fn divisor(hz: u64) -> int {
    (PIT_FREQ as int / rate(hz)) % 65536
}

/// Starts the timer at `hz` ticks per second.
pub open spec fn timer_writes(hz: u64) -> Seq<PortWrite> {
    seq![
        PortWrite { port: PIT_COMMAND, value: 0x36 },
        PortWrite { port: PIT_CHANNEL, value: (divisor(hz) % 256) as u8 },
        PortWrite { port: PIT_CHANNEL, value: (divisor(hz) / 256) as u8 },
    ]
}

fn push_settled(out: &mut Vec<PortWrite>, port: u16, value: u8)
    ensures
        final(out)@ == old(out)@ + settled(port, value),
{
    out.push(PortWrite { port, value });
    out.push(PortWrite { port: WAIT_PORT, value: 0 });
    proof {
        assert(out@ =~= old(out)@ + settled(port, value));
    }
}

/// Remaps the interrupt requests and masks everything but the timer.
pub fn pic_remap() -> (out: Vec<PortWrite>)
    ensures
        out@ == remap_writes(),
{
    let mut out: Vec<PortWrite> = Vec::new();
    push_settled(&mut out, PIC_MASTER_COMMAND, 0x11);
    push_settled(&mut out, PIC_SLAVE_COMMAND, 0x11);
    push_settled(&mut out, PIC_MASTER_DATA, MASTER_OFFSET);
    push_settled(&mut out, PIC_SLAVE_DATA, SLAVE_OFFSET);
    push_settled(&mut out, PIC_MASTER_DATA, 0x04);
    push_settled(&mut out, PIC_SLAVE_DATA, 0x02);
    push_settled(&mut out, PIC_MASTER_DATA, 0x01);
    push_settled(&mut out, PIC_SLAVE_DATA, 0x01);
    out.push(PortWrite { port: PIC_MASTER_DATA, value: 0xFE });
    out.push(PortWrite { port: PIC_SLAVE_DATA, value: 0xFF });
    proof {
        assert(out@ =~= remap_writes());
    }
    out
}

/// Starts channel 0 of the timer at `hz` ticks per second.
pub fn pit_init(hz: u64) -> (out: Vec<PortWrite>)
    ensures
        out@ == timer_writes(hz),
{
    let limit: u64 = (PIT_FREQ / 2) as u64;
    let target: u64 = if hz < 1 {
        1
    } else if hz > limit {
        limit
    } else {
        hz
    };
    let d: u64 = (PIT_FREQ as u64 / target) % 65536;
    let mut out: Vec<PortWrite> = Vec::new();
    out.push(PortWrite { port: PIT_COMMAND, value: 0x36 });
    out.push(PortWrite { port: PIT_CHANNEL, value: (d % 256) as u8 });
    out.push(PortWrite { port: PIT_CHANNEL, value: (d / 256) as u8 });
    proof {
        assert(target == rate(hz));
        assert(d == divisor(hz));
        assert(out@ =~= timer_writes(hz));
    }
    out
}

/// Programs the interrupt controllers and the timer.
pub fn init_pic_and_timer(hz: u64) -> (out: Vec<PortWrite>)
    ensures
        out@ == remap_writes() + timer_writes(hz),
{
    let mut out = pic_remap();
    let mut timer = pit_init(hz);
    out.append(&mut timer);
    out
}

/// The end-of-interrupt write to the master controller.
pub fn pic_eoi() -> (r: PortWrite)
    ensures
        r == (PortWrite { port: PIC_MASTER_COMMAND, value: 0x20 }),
{
    PortWrite { port: PIC_MASTER_COMMAND, value: 0x20 }
}

/// A tick rate of which the timer is capable is met as closely as its divisor
/// allows.
pub proof fn law_timer_rate(hz: u64)
    requires
        19 <= hz <= PIT_FREQ / 2,
    ensures
        divisor(hz) * hz <= PIT_FREQ < (divisor(hz) + 1) * hz,
        1 < divisor(hz),
{
    let q = PIT_FREQ as int / hz as int;
    assert(q * hz <= PIT_FREQ < (q + 1) * hz) by (nonlinear_arith)
        requires
            q == PIT_FREQ as int / hz as int,
            hz > 0,
    ;
    assert(1 < q < 65536) by (nonlinear_arith)
        requires
            q * hz <= 1_193_182 < (q + 1) * hz,
            19 <= hz <= 596_591,
    ;
}

/// Where each register stands in the words of a frame, the lowest address first.
pub proof fn law_frame_layout(f: CpuFrame)
    ensures
        ({
            let w = f.words();
            &&& w.len() == 22
            &&& w[0] == f.r15 && w[1] == f.r14 && w[2] == f.r13 && w[3] == f.r12
            &&& w[4] == f.r11 && w[5] == f.r10 && w[6] == f.r9 && w[7] == f.r8
            &&& w[8] == f.rdi && w[9] == f.rsi && w[10] == f.rdx && w[11] == f.rcx
            &&& w[12] == f.rbx && w[13] == f.rax && w[14] == f.rbp && w[15] == f.err
            &&& w[16] == f.vec && w[17] == f.rip && w[18] == f.cs && w[19] == f.rflags
            &&& w[20] == f.user_rsp && w[21] == f.user_ss
        }),
{
}

/// A syscall that is tried again starts two bytes earlier, and nothing else of
/// its frame changes; a frame of anything else stays.
pub proof fn law_rewinding(f: CpuFrame)
    ensures
        f.vec != 256 ==> f.rewound() == f,
        f.vec == 256 ==> (f.rewound().rip + 2) % 0x1_0000_0000_0000_0000 == f.rip,
        f.vec == 256 ==> f.rewound() == (CpuFrame { rip: f.rewound().rip, ..f }),
{
}

/// The rate of the timer is the one that was asked for, as far as it is one of
/// which the timer is capable, and the nearest one otherwise.
pub proof fn law_rate_is_clamped(hz: u64)
    ensures
        1 <= hz <= 596_591 ==> rate(hz) == hz,
        hz == 0 ==> rate(hz) == 1,
        hz > 596_591 ==> rate(hz) == 596_591,
{
}

/// The timer gets its mode, and then the divisor, its low byte first.
pub proof fn law_timer_is_loaded(hz: u64)
    ensures
        ({
            let w = timer_writes(hz);
            &&& w.len() == 3
            &&& w[0].port == 0x43 && w[0].value == 0x36
            &&& w[1].port == 0x40 && w[2].port == 0x40
            &&& w[1].value + 256 * w[2].value == divisor(hz)
            &&& divisor(hz) == (1_193_182int / rate(hz)) % 65536
        }),
{
}

/// The value goes to the port at place `i` of the writes, and a pause follows.
pub open spec fn goes_to(w: Seq<PortWrite>, i: int, port: u16, value: u8) -> bool {
    &&& 0 <= i && i + 1 < w.len()
    &&& w[i].port == port && w[i].value == value
    &&& w[i + 1].port == 0x80 && w[i + 1].value == 0
}

/// How the interrupt controllers are set up: both are told that four words come;
/// the requests go to the vectors from 32 and from 40 on; the second hangs on
/// line 2 of the first; and in the end every request is masked but the timer.
pub proof fn law_requests_are_remapped()
    ensures
        ({
            let w = remap_writes();
            &&& w.len() == 18
            &&& goes_to(w, 0, 0x20, 0x11) && goes_to(w, 2, 0xA0, 0x11)
            &&& goes_to(w, 4, 0x21, 32) && goes_to(w, 6, 0xA1, 40)
            &&& goes_to(w, 8, 0x21, 4) && goes_to(w, 10, 0xA1, 2)
            &&& goes_to(w, 12, 0x21, 1) && goes_to(w, 14, 0xA1, 1)
            &&& w[16].port == 0x21 && w[16].value == 0xFE
            &&& w[17].port == 0xA1 && w[17].value == 0xFF
        }),
{
}

/// The text holds the register at `at`: `0x` and sixteen digits that stand for
/// its value.
pub open spec fn shows(s: Seq<char>, at: int, x: u64) -> bool {
    &&& 0 <= at && at + 18 <= s.len()
    &&& s[at] == '0' && s[at + 1] == 'x'
    &&& text::value(s.subrange(at + 2, at + 18), 16) == x
}

proof fn lemma_shows(a: Seq<char>, x: u64, rest: Seq<char>)
    ensures
        shows(a + hex_text(x, 16) + rest, a.len() as int, x),
        hex_text(x, 16).len() == 18,
{
    reveal_strlit("0x");
    text::law_hex_reads_back(x as nat, 16);
    text::law_hex_is_as_wide_as_asked(x);
    let s = a + hex_text(x, 16) + rest;
    let at = a.len() as int;
    assert(s.subrange(at + 2, at + 18) =~= text::hex(x as nat, 16));
}

proof fn lemma_three(a: Seq<char>, x: u64, b: Seq<char>, y: u64, wy: nat, c: Seq<char>, z: u64)
    ensures
        ({
            let s = three(a, x, b, y, wy, c, z);
            &&& shows(s, a.len() as int, x)
            &&& wy == 16 ==> shows(s, (a.len() + 18 + b.len()) as int, y)
            &&& shows(s, s.len() - 18, z)
        }),
{
    let s = three(a, x, b, y, wy, c, z);
    let tail = b + hex_text(y, wy) + c + hex_text(z, 16);
    lemma_shows(a, x, tail);
    assert(s =~= a + hex_text(x, 16) + tail);
    if wy == 16 {
        let head = a + hex_text(x, 16) + b;
        let rest = c + hex_text(z, 16);
        lemma_shows(head, y, rest);
        assert(s =~= head + hex_text(y, 16) + rest);
    }
    let head = a + hex_text(x, 16) + b + hex_text(y, wy) + c;
    lemma_shows(head, z, Seq::empty());
    assert(s =~= head + hex_text(z, 16) + Seq::<char>::empty());
}

/// The report of an exception shows the registers at their places, each with
/// its value, and for a page fault, and only for one, the address and what the
/// bits of the error code say.
pub proof fn law_report_shows_the_registers(f: CpuFrame, cr2: u64)
    ensures
        ({
            let r = report(f, cr2);
            &&& r.len() == (if f.vec == 14 {
                10int
            } else {
                8
            })
            &&& r[2] == "  vector : "@ + text::decimal(f.vec as nat)
            &&& r[3] == "  name   : "@ + exception_text(f.vec)
            &&& shows(r[4], 11, f.rip) && shows(r[4], r[4].len() - 18, f.rflags)
            &&& shows(r[5], 11, f.rax) && shows(r[5], 37, f.rbx) && shows(
                r[5],
                r[5].len() - 18,
                f.rcx,
            )
            &&& shows(r[6], 11, f.rdi) && shows(r[6], 37, f.rsi) && shows(
                r[6],
                r[6].len() - 18,
                f.rbp,
            )
            &&& f.vec == 14 ==> shows(r[7], 21, cr2) && r[8] == "  page fault: present="@
                + text::truth(f.err & 1 != 0) + " write="@ + text::truth(f.err & 2 != 0) + " user="@
                + text::truth(f.err & 4 != 0)
        }),
{
    reveal_strlit("  rip    = ");
    reveal_strlit("  rax    = ");
    reveal_strlit("  rdi    = ");
    reveal_strlit(", rbx = ");
    reveal_strlit(", rsi = ");
    reveal_strlit("  fault addr (cr2) = ");
    lemma_three("  rip    = "@, f.rip, ", cs = "@, f.cs, 4, ", rflags = "@, f.rflags);
    lemma_three("  rax    = "@, f.rax, ", rbx = "@, f.rbx, 16, ", rcx = "@, f.rcx);
    lemma_three("  rdi    = "@, f.rdi, ", rsi = "@, f.rsi, 16, ", rbp = "@, f.rbp);
    lemma_shows("  fault addr (cr2) = "@, cr2, Seq::empty());
    assert("  fault addr (cr2) = "@ + hex_text(cr2, 16) + Seq::<char>::empty()
        =~= "  fault addr (cr2) = "@ + hex_text(cr2, 16));
    let e = f.err;
    assert((e & 1 != 0) == (e % 2 == 1)) by (bit_vector);
    assert((e & 2 != 0) == ((e / 2) % 2 == 1)) by (bit_vector);
    assert((e & 4 != 0) == ((e / 4) % 2 == 1)) by (bit_vector);
}

/// The names of the exceptions; the vectors between them are reserved, and those
/// from 32 on are no exceptions.
pub proof fn law_exception_names(vec: u64)
    ensures
        exception_text(0) == "divide by zero"@ && exception_text(1) == "debug"@,
        exception_text(2) == "non-maskable interrupt"@ && exception_text(3) == "breakpoint"@,
        exception_text(4) == "overflow"@ && exception_text(5) == "bound range exceeded"@,
        exception_text(6) == "invalid opcode"@ && exception_text(7) == "device not available"@,
        exception_text(8) == "double fault"@,
        exception_text(9) == "coprocessor segment overrun"@,
        exception_text(10) == "invalid TSS"@ && exception_text(11) == "segment not present"@,
        exception_text(12) == "stack-segment fault"@,
        exception_text(13) == "general protection fault"@ && exception_text(14) == "page fault"@,
        exception_text(16) == "x87 floating-point exception"@,
        exception_text(17) == "alignment check"@ && exception_text(18) == "machine check"@,
        exception_text(19) == "SIMD floating-point exception"@,
        exception_text(20) == "virtualization exception"@,
        exception_text(21) == "control protection exception"@,
        exception_text(28) == "hypervisor injection exception"@,
        exception_text(29) == "VMM communication exception"@,
        exception_text(30) == "security exception"@,
        vec == 15 || 22 <= vec <= 27 || vec == 31 ==> exception_text(vec) == "reserved"@,
        vec >= 32 ==> exception_text(vec) == "unknown"@,
{
}

} // verus!
