//! System calls: the ring-3 to ring-0 ABI.
//!
//! A syscall is handled in steps, so that user memory is only read and written
//! where it was validated, and outside the decisions:
//! 1. [`user_read`] says which bytes of user memory the call needs,
//! 2. [`handle`] decides, given those bytes,
//! 3. a call that loads a program or maps frames goes on with
//!    [`spawn_loaded`] or [`frames_mapped`] once that is done,
//! 4. [`resume`] says which register frame to restore. If the task was parked,
//!    that is the frame of the *next* task, which is the context switch.

use vstd::prelude::*;
use vstd::slice::slice_subrange;
use crate::caps;
use crate::caps::{CapRights, Capability, ObjectKind};
use crate::config::{
    SYS_CH_CLOSE, SYS_CH_CREATE, SYS_EXIT, SYS_GETPID, SYS_PRINT, SYS_RECV, SYS_RECV_FRAME,
    SYS_SEND, SYS_SEND_FRAME, SYS_SLEEP, SYS_SPAWN, SYS_TIME, SYS_YIELD,
};
use crate::ipc as messages;
use crate::ipc::{Message, MESSAGE_SIZE};
use crate::kernel::caps as registry;
use crate::kernel::caps::{KernelObject, SharedFrame, SPAWN_AUTHORITY};
use crate::kernel::interrupts::{GsArea, FRAME_SIZE};
use crate::kernel::ipc;
use crate::kernel::ipc::{FrameGrant, OpResult};
use crate::kernel::memory::frames::{Frames, FramesView};
use crate::kernel::memory::paging;
use crate::kernel::memory::paging::PAGE_BYTES;
use crate::kernel::serial;
use crate::kernel::serial::Console;
use crate::kernel::task;
use crate::kernel::task::{Loaded, ParkKind, Spawn, TaskTable, TasksView};
use crate::kernel::user;
use crate::kernel::user::Program;
use crate::kernel::{Kernel, KernelView};
use crate::mem;
use crate::sched::TaskId;
use crate::text;

pub mod effects;
pub mod laws;

verus! {

// ---------------------------------------------------------------------------
// User memory
// ---------------------------------------------------------------------------

/// Most bytes that one syscall reads from user memory.
pub const USER_MAX_READ: u64 = 4096;

/// Most bytes that one print writes.
pub const PRINT_MAX: u64 = 1024;

/// The `len` bytes at `p` are user memory, and not too many.
pub open spec fn ptr_ok(p: u64, len: int) -> bool {
    user::USER_BASE <= p && p + len <= user::USER_STACK_TOP && len <= USER_MAX_READ
}

/// Whether the `len` bytes at `p` are user memory, and not too many.
pub fn user_ptr_ok(p: u64, len: usize) -> (r: bool)
    ensures
        r == ptr_ok(p, len as int),
{
    match p.checked_add(len as u64) {
        Some(end) => p >= user::USER_BASE && end <= user::USER_STACK_TOP && len as u64
            <= USER_MAX_READ,
        None => false,
    }
}

/// Bytes of user memory that a syscall needs.
#[derive(Clone, Copy, PartialEq, Eq, Debug, Structural)]
pub struct UserRead {
    pub at: u64,
    pub len: usize,
}

/// The smaller one.
pub open spec fn at_most(a: u64, b: u64) -> u64 {
    if a <= b {
        a
    } else {
        b
    }
}

/// A read of `len` bytes at `p`, if they are user memory.
pub open spec fn read_at(p: u64, len: u64) -> Option<UserRead> {
    if ptr_ok(p, len as int) {
        Some(UserRead { at: p, len: len as usize })
    } else {
        None
    }
}

/// The bytes of user memory that a syscall needs: the text to print, the name
/// of the program to spawn, the message to send. Nothing is read that is not
/// user memory as a whole.
pub open spec fn needed(num: u64, a0: u64, a1: u64) -> Option<UserRead> {
    if num == SYS_PRINT {
        read_at(a0, at_most(a1, PRINT_MAX))
    } else if num == SYS_SPAWN {
        read_at(a0, at_most(a1, USER_MAX_READ))
    } else if num == SYS_SEND {
        read_at(a1, MESSAGE_SIZE as u64)
    } else {
        None
    }
}

/// Which bytes at `p` are read.
fn read_user_bytes(p: u64, len: u64) -> (r: Option<UserRead>)
    requires
        len <= USER_MAX_READ,
    ensures
        r == read_at(p, len),
{
    if user_ptr_ok(p, len as usize) {
        Some(UserRead { at: p, len: len as usize })
    } else {
        None
    }
}

/// The bytes of user memory that the call needs.
pub fn user_read(num: u64, a0: u64, a1: u64) -> (r: Option<UserRead>)
    ensures
        r == needed(num, a0, a1),
{
    match num {
        SYS_PRINT => read_user_bytes(
            a0,
            if a1 <= PRINT_MAX {
                a1
            } else {
                PRINT_MAX
            },
        ),
        SYS_SPAWN => read_user_bytes(
            a0,
            if a1 <= USER_MAX_READ {
                a1
            } else {
                USER_MAX_READ
            },
        ),
        SYS_SEND => read_user_bytes(a1, MESSAGE_SIZE as u64),
        _ => None,
    }
}

/// The bytes before the first zero, or all.
pub open spec fn until_zero(b: Seq<u8>) -> Seq<u8>
    decreases b.len(),
{
    if b.len() == 0 || b[0] == 0 {
        Seq::empty()
    } else {
        seq![b[0]] + until_zero(b.drop_first())
    }
}

/// The string in a buffer: its bytes before the first zero.
fn read_user_string(b: &[u8]) -> (r: Vec<u8>)
    ensures
        r@ == until_zero(b@),
{
    let mut out: Vec<u8> = Vec::new();
    proof {
        assert(out@ + until_zero(b@.skip(0)) =~= until_zero(b@)) by {
            assert(b@.skip(0) =~= b@);
        }
    }
    let mut i: usize = 0;
    while i < b.len() && b[i] != 0
        invariant
            i <= b@.len(),
            out@ + until_zero(b@.skip(i as int)) == until_zero(b@),
        decreases b@.len() - i,
    {
        let ghost before = out@;
        out.push(b[i]);
        proof {
            let rest = b@.skip(i as int);
            assert(rest.drop_first() =~= b@.skip(i + 1));
            assert(out@ + until_zero(b@.skip(i + 1)) =~= before + until_zero(rest));
        }
        i = i + 1;
    }
    proof {
        assert(until_zero(b@.skip(i as int)) =~= Seq::<u8>::empty());
        assert(out@ + until_zero(b@.skip(i as int)) =~= out@);
    }
    out
}

/// The message in the bytes of user memory at `p`, which were read as `input`.
fn read_message(p: u64, input: &[u8]) -> (r: Option<Message>)
    ensures
        match r {
            Some(m) => ptr_ok(p, MESSAGE_SIZE as int) && messages::decodes_to(input@, m),
            None => !ptr_ok(p, MESSAGE_SIZE as int) || input@.len() < MESSAGE_SIZE || input@[2] > 1,
        },
{
    if !user_ptr_ok(p, MESSAGE_SIZE) {
        return None;
    }
    Message::from_bytes(input)
}

// ---------------------------------------------------------------------------
// Dispatcher
// ---------------------------------------------------------------------------

/// Bytes to write to user memory.
pub struct CopyOut {
    pub at: u64,
    pub bytes: Vec<u8>,
}

/// What a syscall comes to.
pub enum Out {
    /// Plain integer result (written into the frame's `rax`).
    Value(u64),
    /// The task must park; the variant selects what that means.
    Park(ParkKind),
    /// The task exits.
    Exit,
    /// The program at this place has to be loaded, then comes
    /// [`spawn_loaded`].
    Load(usize),
    /// The frames have to be mapped, then comes [`frames_mapped`].
    Share(FrameGrant),
}

/// The answer to a syscall.
pub struct Reply {
    pub out: Out,
    /// Bytes for the console.
    pub print: Vec<u8>,
    /// A line for the console.
    pub line: Option<String>,
    /// What has to be copied to the caller.
    pub copy: Option<CopyOut>,
    /// The frame that has to be rewound, because its task was woken.
    pub rewind: Option<u64>,
}

/// The answer is the result alone.
pub open spec fn plain(r: Reply, out: Out) -> bool {
    &&& r.out == out
    &&& r.print@.len() == 0
    &&& r.line is None
    &&& r.copy is None
    &&& r.rewind is None
}

/// The slot that a caller names: slots are counted from 1, and 0 names none.
pub open spec fn slot_named(a: u64) -> u16 {
    if a % 65536 == 0 {
        0xFFFF
    } else {
        (a % 65536 - 1) as u16
    }
}

fn slot_arg(a: u64) -> (r: u16)
    ensures
        r == slot_named(a),
{
    if a % 65536 == 0 {
        0xFFFF
    } else {
        (a % 65536 - 1) as u16
    }
}

/// What a channel operation comes to.
pub open spec fn op_out(r: OpResult) -> Out {
    match r {
        OpResult::Done(v) => Out::Value(v),
        OpResult::WouldBlock => Out::Park(ParkKind::Block),
    }
}

/// The capability is the spawn authority, with the right to call.
pub open spec fn spawn_cap(c: Capability) -> bool {
    c.kind == ObjectKind::Task && c.object == SPAWN_AUTHORITY && caps::covers(
        c.rights@,
        caps::CALL_BIT,
    )
}

impl KernelView {
    /// The task holds the spawn authority.
    pub open spec fn can_spawn(self, id: TaskId) -> bool {
        self.tasks.has(id) && exists|i: int|
            caps::held(self.tasks.entry(id).cspace, i) && spawn_cap(
                #[trigger] self.tasks.entry(id).cspace[i]->0,
            )
    }

    /// The kernel after a channel was created and registered, and the
    /// capability for it.
    pub open spec fn channel_created(self) -> (KernelView, Capability) {
        (
            KernelView {
                channels: self.channels.push(ipc::empty_channel()),
                objects: self.objects.push(
                    Some(KernelObject::Channel((self.channels.len() % 65536) as u16)),
                ),
                ..self
            },
            Capability {
                object: (self.objects.len() + 1) as u32,
                kind: ObjectKind::Channel,
                rights: CapRights::of(caps::ALL_BITS),
            },
        )
    }

    /// The kernel with the capability space of a task replaced.
    pub open spec fn with_space(self, id: TaskId, space: Seq<Option<Capability>>) -> KernelView {
        KernelView { tasks: self.tasks.with_space(id, space), ..self }
    }
}

/// Whether a task holds the spawn authority.
fn can_spawn(kernel: &Kernel, task_id: TaskId) -> (r: bool)
    requires
        kernel.wf(),
    ensures
        r == kernel@.can_spawn(task_id),
{
    match task::cspace_of(&kernel.tasks, task_id) {
        Some(space) => {
            let ghost slots = space@;
            proof {
                space.lemma_len();
            }
            for i in 0..caps::CNODE_CAPACITY
                invariant
                    slots == space@,
                    slots.len() == caps::CNODE_CAPACITY,
                    kernel@.tasks.has(task_id),
                    slots == kernel@.tasks.entry(task_id).cspace,
                    forall|k: int|
                        0 <= k < i && caps::held(slots, k) ==> !spawn_cap(#[trigger] slots[k]->0),
            {
                if let Ok(cap) = space.lookup(i as u16) {
                    if cap.kind == ObjectKind::Task && cap.object == SPAWN_AUTHORITY
                        && cap.has_rights(CapRights::call()) {
                        proof {
                            assert(caps::held(slots, i as int));
                            assert(spawn_cap(slots[i as int]->0));
                        }
                        return true;
                    }
                }
            }
            false
        },
        None => false,
    }
}

fn plain_reply(out: Out) -> (r: Reply)
    ensures
        plain(r, out),
{
    Reply { out, print: Vec::new(), line: None, copy: None, rewind: None }
}

/// What a channel operation comes to.
fn outcome(r: OpResult) -> (out: Out)
    ensures
        out == op_out(r),
{
    match r {
        OpResult::Done(v) => Out::Value(v),
        OpResult::WouldBlock => Out::Park(ParkKind::Block),
    }
}

/// Handles `SYS_CH_CREATE`: a channel is created and its capability goes into
/// the caller's space. Returns the 1-based slot, 0 when there is no room.
fn create_channel(kernel: &mut Kernel, current: TaskId) -> (r: u64)
    requires
        old(kernel).wf(),
        old(kernel)@.objects.len() < u32::MAX,
    ensures
        final(kernel).wf(),
        channel_made(old(kernel)@, final(kernel)@, current, r),
{
    let ghost v = kernel@;
    let idx = ipc::create(&mut kernel.channels);
    let obj_id = registry::register(&mut kernel.objects, KernelObject::Channel(idx));
    let cap = Capability::new(obj_id, ObjectKind::Channel, CapRights::all());
    let ghost w = kernel@;
    proof {
        assert(w =~= v.channel_created().0);
        assert(cap == v.channel_created().1);
        task::lemma_same_space(w.tasks, current);
    }
    match task::with_cspace(&mut kernel.tasks, current) {
        Some(c) => {
            let ghost space = c@;
            proof {
                c.lemma_len();
            }
            match c.insert(cap) {
                Ok(s) => {
                    proof {
                        assert(c@ == space.update(s as int, Some(cap)));
                    }
                    s as u64 + 1
                },
                Err(_) => {
                    proof {
                        assert(c@ == space);
                    }
                    0
                },
            }
        },
        None => 0,
    }
}

/// What `SYS_CH_CREATE` makes of the kernel `v`: the channel and its object
/// are there, and the caller's first free slot, which is the result counted
/// from 1, holds a capability with all rights. Without a free slot the result
/// is 0.
pub open spec fn channel_made(v: KernelView, w: KernelView, id: TaskId, r: u64) -> bool {
    let (u, cap) = v.channel_created();
    let space = v.tasks.entry(id).cspace;
    if r > 0 {
        &&& v.tasks.has(id)
        &&& caps::lowest_free(space, r - 1)
        &&& w == u.with_space(id, space.update(r - 1, Some(cap)))
    } else {
        &&& !v.tasks.has(id) || caps::full(space)
        &&& w == u
    }
}

/// What `SYS_CH_CLOSE` makes of the kernel `v`: the capability in the slot is
/// revoked, if there is one.
pub open spec fn channel_closed(v: KernelView, id: TaskId, slot: u16) -> KernelView {
    if v.tasks.has(id) && caps::held(v.tasks.entry(id).cspace, slot as int) {
        v.with_space(id, v.tasks.entry(id).cspace.update(slot as int, None))
    } else {
        v
    }
}

/// Handles `SYS_CH_CLOSE`.
fn close_channel(kernel: &mut Kernel, current: TaskId, slot: u16)
    requires
        old(kernel).wf(),
    ensures
        final(kernel).wf(),
        final(kernel)@ == channel_closed(old(kernel)@, current, slot),
{
    let ghost v = kernel@;
    proof {
        kernel.tasks.lemma_wf();
    }
    if let Some(c) = task::with_cspace(&mut kernel.tasks, current) {
        let _ = c.revoke(slot);
    }
    proof {
        task::lemma_same_space(v.tasks, current);
    }
}

/// What a syscall takes of the bytes that were read for it: none where it
/// needs none or where they are not user memory as a whole, and no more than
/// it needs.
pub open spec fn accepted(num: u64, a0: u64, a1: u64, input: Seq<u8>) -> Seq<u8> {
    match needed(num, a0, a1) {
        Some(r) => if input.len() <= r.len {
            input
        } else {
            input.take(r.len as int)
        },
        None => Seq::empty(),
    }
}

/// What the syscall takes of the bytes that were read for it.
fn accept(num: u64, a0: u64, a1: u64, input: &[u8]) -> (r: &[u8])
    ensures
        r@ == accepted(num, a0, a1, input@),
{
    match user_read(num, a0, a1) {
        Some(r) => if input.len() <= r.len {
            input
        } else {
            slice_subrange(input, 0, r.len)
        },
        None => slice_subrange(input, 0, 0),
    }
}

/// What the syscall `num` of the task `id` makes of the kernel `v` and the
/// frames `f`, and how it is answered; `input` holds the bytes of user memory
/// that were read for it, of which only those count that are [`accepted`].
pub open spec fn handled(
    v: KernelView,
    w: KernelView,
    f: FramesView,
    g: FramesView,
    programs: Seq<Program>,
    id: TaskId,
    num: u64,
    a0: u64,
    a1: u64,
    a2: u64,
    input: Seq<u8>,
    r: Reply,
) -> bool {
    let slot = slot_named(a0);
    let input = accepted(num, a0, a1, input);
    if num == SYS_EXIT {
        w == v && g == f && plain(r, Out::Exit)
    } else if num == SYS_YIELD {
        w == v && g == f && plain(r, Out::Park(ParkKind::Yield))
    } else if num == SYS_SLEEP {
        w == v && g == f && plain(r, Out::Park(ParkKind::Sleep(a0)))
    } else if num == SYS_PRINT {
        &&& w == v && g == f
        &&& r.out == Out::Value(1)
        &&& r.print@ == input
        &&& r.line is None && r.copy is None && r.rewind is None
    } else if num == SYS_GETPID {
        w == v && g == f && plain(r, Out::Value(id))
    } else if num == SYS_TIME {
        w == v && g == f && plain(r, Out::Value(v.tasks.now()))
    } else if num == SYS_SPAWN {
        &&& w == v && g == f
        &&& if v.can_spawn(id) {
            if user::has_name(programs, until_zero(input)) {
                exists|i: int| #[trigger]
                    user::named(programs, until_zero(input), i) && plain(r, Out::Load(i as usize))
            } else {
                plain(r, Out::Value(0))
            }
        } else {
            &&& r.out == Out::Value(0)
            &&& r.line matches Some(s)
            &&& s@
                == "[kairos] spawn denied: caller lacks thespawn authority capability"@
            &&& r.print@.len() == 0 && r.copy is None && r.rewind is None
        }
    } else if num == SYS_CH_CREATE {
        g == f && exists|n: u64| channel_made(v, w, id, n) && plain(r, Out::Value(n))
    } else if num == SYS_CH_CLOSE {
        w == channel_closed(v, id, slot) && g == f && plain(r, Out::Value(1))
    } else if num == SYS_SEND {
        &&& g == f
        &&& if ptr_ok(a1, MESSAGE_SIZE as int) && input.len() >= MESSAGE_SIZE && input[2] <= 1 {
            exists|m: Message| #[trigger]
                messages::decodes_to(input, m) && {
                    let (u, sent) = v.send(id, slot, m);
                    &&& w == u
                    &&& r.out == op_out(sent.result)
                    &&& r.rewind == sent.rewind
                    &&& r.print@.len() == 0 && r.line is None && r.copy is None
                }
        } else {
            w == v && plain(r, Out::Value(0))
        }
    } else if num == SYS_RECV {
        let (u, got) = v.recv(id, slot, a1);
        w == u && g == f && received(r, got, a1)
    } else if num == SYS_SEND_FRAME {
        match r.out {
            Out::Share(grant) => {
                &&& a1 > 0
                &&& a1 <= usize::MAX
                &&& shared(v, w, f, g, a1 as usize, grant)
                &&& r.print@.len() == 0 && r.line is None && r.copy is None && r.rewind is None
            },
            _ => {
                &&& w == v && g == f
                &&& plain(r, Out::Value(0))
                &&& a1 == 0 || a1 > usize::MAX || !user::window_fits(
                    v.cursor,
                    ipc::pages_for(a1 as usize),
                ) || f.map is None || !mem::fits(
                    f.map->0.used,
                    0,
                    f.map->0.used.len() as int,
                    ipc::pages_for(a1 as usize),
                )
            },
        }
    } else if num == SYS_RECV_FRAME {
        let (u, got) = v.recv_frame(id, slot, a1);
        w == u && g == f && received(r, got, a1)
    } else {
        &&& w == v && g == f
        &&& r.out == Out::Value(0)
        &&& r.line matches Some(s)
        &&& s@ == "[kairos] unknown syscall "@ + text::decimal(num as nat)
        &&& r.print@.len() == 0 && r.copy is None && r.rewind is None
    }
}

/// The answer to a receive into the buffer at `buf`.
pub open spec fn received(r: Reply, got: ipc::Received, buf: u64) -> bool {
    &&& r.out == op_out(got.result)
    &&& r.rewind == got.rewind
    &&& r.print@.len() == 0
    &&& r.line is None
    &&& match got.message {
        Some(m) => r.copy matches Some(c) && c.at == buf && c.bytes@ == messages::encoded(m),
        None => r.copy is None,
    }
}

/// What setting frames aside for a message of `size` bytes makes of the kernel
/// and the frames.
pub open spec fn shared(
    v: KernelView,
    w: KernelView,
    f: FramesView,
    g: FramesView,
    size: usize,
    grant: FrameGrant,
) -> bool {
    let m = f.map->0;
    let first = (grant.frame.phys / 4096) as int;
    let pages = ipc::pages_for(size);
    &&& f.map is Some
    &&& grant.frame.pages == pages
    &&& grant.frame.phys % 4096 == 0
    &&& m.placed(pages, first)
    &&& g == (FramesView { map: Some(m.taken(pages, first)), ..f })
    &&& user::window_fits(v.cursor, pages)
    &&& grant.frame.window == v.cursor
    &&& w == (KernelView { cursor: (v.cursor + pages * PAGE_BYTES) as u64, ..v })
    &&& grant.maps@ == Seq::new(
        pages as nat,
        |i: int|
            paging::contiguous(grant.frame.phys, grant.frame.window, ipc::shared_flags(), i),
    )
}

fn received_reply(got: ipc::Received, buf: u64) -> (r: Reply)
    ensures
        received(r, got, buf),
{
    let copy = match got.message {
        Some(m) => Some(CopyOut { at: buf, bytes: m.to_bytes() }),
        None => None,
    };
    Reply {
        out: outcome(got.result),
        print: Vec::new(),
        line: None,
        copy,
        rewind: got.rewind,
    }
}

/// Handles one syscall of the task `current`.
pub fn handle(
    kernel: &mut Kernel,
    f: &mut Frames,
    programs: &Vec<Program>,
    current: TaskId,
    num: u64,
    a0: u64,
    a1: u64,
    a2: u64,
    input: &[u8],
) -> (r: Reply)
    requires
        old(kernel).wf(),
        old(f).wf(),
        old(kernel)@.objects.len() < u32::MAX,
    ensures
        final(kernel).wf(),
        final(f).wf(),
        handled(
            old(kernel)@,
            final(kernel)@,
            old(f)@,
            final(f)@,
            programs@,
            current,
            num,
            a0,
            a1,
            a2,
            input@,
            r,
        ),
{
    let slot = slot_arg(a0);
    let input = accept(num, a0, a1, input);
    match num {
        SYS_EXIT => plain_reply(Out::Exit),
        SYS_YIELD => plain_reply(Out::Park(ParkKind::Yield)),
        SYS_SLEEP => plain_reply(Out::Park(ParkKind::Sleep(a0))),
        SYS_PRINT => {
            let mut print: Vec<u8> = Vec::new();
            print.extend_from_slice(input);
            proof {
                assert(print@ =~= input@);
            }
            Reply { out: Out::Value(1), print, line: None, copy: None, rewind: None }
        },
        SYS_GETPID => plain_reply(Out::Value(current)),
        SYS_TIME => plain_reply(Out::Value(task::tick_now(&kernel.tasks))),
        SYS_SPAWN => {
            let name = read_user_string(input);
            if can_spawn(kernel, current) {
                match user::find_program(programs, name.as_slice()) {
                    Some(i) => {
                        proof {
                            assert(user::named(programs@, until_zero(input@), i as int));
                        }
                        plain_reply(Out::Load(i))
                    },
                    None => plain_reply(Out::Value(0)),
                }
            } else {
                // Capability denied: user tasks cannot spawn by default.
                Reply {
                    out: Out::Value(0),
                    print: Vec::new(),
                    line: Some(
                        String::from_str(
                            "[kairos] spawn denied: caller lacks thespawn authority capability",
                        ),
                    ),
                    copy: None,
                    rewind: None,
                }
            }
        },
        SYS_CH_CREATE => {
            let n = create_channel(kernel, current);
            plain_reply(Out::Value(n))
        },
        SYS_CH_CLOSE => {
            close_channel(kernel, current, slot);
            plain_reply(Out::Value(1))
        },
        SYS_SEND => {
            match read_message(a1, input) {
                Some(msg) => {
                    let sent = ipc::send(kernel, current, slot, msg);
                    Reply {
                        out: outcome(sent.result),
                        print: Vec::new(),
                        line: None,
                        copy: None,
                        rewind: sent.rewind,
                    }
                },
                None => plain_reply(Out::Value(0)),
            }
        },
        SYS_RECV => {
            let got = ipc::recv(kernel, current, slot, a1);
            received_reply(got, a1)
        },
        SYS_SEND_FRAME => {
            if a1 > usize::MAX as u64 {
                return plain_reply(Out::Value(0));
            }
            match ipc::send_frame(kernel, f, a1 as usize) {
                Some(grant) => plain_reply(Out::Share(grant)),
                None => plain_reply(Out::Value(0)),
            }
        },
        SYS_RECV_FRAME => {
            let got = ipc::recv_frame(kernel, current, slot, a1);
            received_reply(got, a1)
        },
        _ => {
            let mut line = String::from_str("[kairos] unknown syscall ");
            text::push_decimal(&mut line, num);
            Reply {
                out: Out::Value(0),
                print: Vec::new(),
                line: Some(line),
                copy: None,
                rewind: None,
            }
        },
    }
}

/// The task that makes a syscall, 0 if none runs.
pub fn caller(tasks: &TaskTable) -> (r: TaskId)
    ensures
        r == (match tasks@.running() {
            Some(id) => id,
            None => 0,
        }),
{
    match task::running_id(tasks) {
        Some(id) => id,
        None => 0,
    }
}

/// What becomes of the tasks when the program of a spawn was loaded or could
/// not be, the new task, and the result of the syscall.
pub open spec fn spawn_finished(v: TasksView, image: Result<Loaded, ()>, kstack_top: u64) -> (
    TasksView,
    Result<Spawn, ()>,
    Out,
) {
    let (w, s) = task::user_spawned(v, image, 4, 1, None, 0, kstack_top);
    (
        w,
        s,
        Out::Value(
            if image is Ok {
                v.next_id
            } else {
                0
            },
        ),
    )
}

/// A spawn goes on once the loader has returned: the task is created with
/// priority 4 and weight 1. The result of the syscall is its id, 0 when the
/// program could not be loaded.
pub fn spawn_loaded(tasks: &mut TaskTable, image: Result<Loaded, ()>, kstack_top: u64) -> (r: (
    Result<Spawn, ()>,
    Out,
))
    requires
        old(tasks).wf(),
        image is Ok ==> old(tasks)@.has_room() && kstack_top >= FRAME_SIZE,
    ensures
        final(tasks).wf(),
        final(tasks)@ == spawn_finished(old(tasks)@, image, kstack_top).0,
        r.0 == spawn_finished(old(tasks)@, image, kstack_top).1,
        r.1 == spawn_finished(old(tasks)@, image, kstack_top).2,
{
    let spawned = task::spawn_user(tasks, image, 4, 1, kstack_top);
    let value: u64 = match spawned {
        Ok(s) => s.id,
        Err(()) => 0,
    };
    (spawned, Out::Value(value))
}

/// What becomes of the kernel when the pages of a frame that is sent were
/// mapped or could not be, and how the syscall is answered.
pub open spec fn frame_shipped(
    v: KernelView,
    w: KernelView,
    id: TaskId,
    a0: u64,
    a2: u64,
    frame: SharedFrame,
    mapped: bool,
    r: Reply,
) -> bool {
    let (u, sent) = v.send_frame(id, slot_named(a0), (a2 % 65536) as u16, frame);
    if mapped {
        &&& w == u
        &&& r.out == op_out(sent.result)
        &&& r.rewind == sent.rewind
        &&& r.print@.len() == 0 && r.line is None && r.copy is None
    } else {
        w == v && plain(r, Out::Value(0))
    }
}

/// Sending a frame goes on once its pages were mapped, or could not be.
pub fn frames_mapped(
    kernel: &mut Kernel,
    current: TaskId,
    a0: u64,
    a2: u64,
    frame: SharedFrame,
    mapped: bool,
) -> (r: Reply)
    requires
        old(kernel).wf(),
        old(kernel)@.objects.len() < u32::MAX,
    ensures
        final(kernel).wf(),
        frame_shipped(old(kernel)@, final(kernel)@, current, a0, a2, frame, mapped, r),
{
    let tag = (a2 % 65536) as u16;
    let sent = ipc::finish_frame(kernel, current, slot_arg(a0), tag, frame, mapped);
    Reply {
        out: outcome(sent.result),
        print: Vec::new(),
        line: None,
        copy: None,
        rewind: sent.rewind,
    }
}

/// The register frame to restore after a syscall, and the value for its `rax`.
#[derive(Clone, Copy, PartialEq, Eq, Debug)]
pub struct Resume {
    pub frame: u64,
    pub rax: Option<u64>,
}

/// The outcome can be carried out: nothing is left to load or to map, a task
/// that parks leaves the CPU to another, and a sleep ends.
pub open spec fn ready_to_resume(v: TasksView, out: Out) -> bool {
    match out {
        Out::Value(_) => true,
        Out::Park(ParkKind::Sleep(ms)) => v.can_park() && v.now() + ms <= u64::MAX,
        Out::Park(_) => v.can_park(),
        Out::Exit => v.running() is Some,
        Out::Load(_) => false,
        Out::Share(_) => false,
    }
}

/// What becomes of the tasks when a syscall comes to `out`, and what is
/// restored; `frame` is the frame of the caller.
pub open spec fn resumption(v: TasksView, frame: u64, out: Out) -> (TasksView, Resume) {
    match out {
        Out::Value(x) => (v, Resume { frame, rax: Some(x) }),
        Out::Park(how) => {
            let (w, next) = v.park(frame, how);
            (w, Resume { frame: next, rax: None })
        },
        _ => {
            let (w, next) = v.exit();
            (w, Resume { frame: next, rax: None })
        },
    }
}

/// Whether the outcome can be carried out now.
pub fn can_resume(tasks: &TaskTable, out: &Out) -> (r: bool)
    requires
        tasks.wf(),
    ensures
        r == ready_to_resume(tasks@, *out),
{
    match out {
        Out::Value(_) => true,
        Out::Park(how) => {
            let fits = match how {
                ParkKind::Sleep(ms) => task::tick_now(tasks).checked_add(*ms).is_some(),
                _ => true,
            };
            fits && task::can_park(tasks)
        },
        Out::Exit => task::running_id(tasks).is_some(),
        Out::Load(_) => false,
        Out::Share(_) => false,
    }
}

/// Ends a syscall whose frame is `frame`: a value goes into `rax` of that
/// frame, a task that parks or exits gives up the CPU.
pub fn resume(tasks: &mut TaskTable, frame: u64, out: &Out) -> (r: Resume)
    requires
        old(tasks).wf(),
        ready_to_resume(old(tasks)@, *out),
    ensures
        final(tasks).wf(),
        final(tasks)@ == resumption(old(tasks)@, frame, *out).0,
        r == resumption(old(tasks)@, frame, *out).1,
{
    match out {
        Out::Value(v) => Resume { frame, rax: Some(*v) },
        Out::Park(how) => {
            let next = task::syscall_park(tasks, frame, *how);
            Resume { frame: next, rax: None }
        },
        _ => {
            let next = task::syscall_exit(tasks);
            Resume { frame: next, rax: None }
        },
    }
}

/// The area that the stubs reach via `gs`.
pub fn gs_area(tasks: &TaskTable) -> (r: GsArea)
    ensures
        r == tasks@.cpu.gs,
{
    tasks.cpu().gs
}

/// One model-specific register to write.
#[derive(Clone, Copy, PartialEq, Eq, Debug, Structural)]
pub struct MsrWrite {
    pub msr: u32,
    pub value: u64,
}

pub const MSR_EFER: u32 = 0xC000_0080;

pub const MSR_STAR: u32 = 0xC000_0081;

pub const MSR_LSTAR: u32 = 0xC000_0082;

pub const MSR_SFMASK: u32 = 0xC000_0084;

pub const MSR_GS_BASE: u32 = 0xC000_0101;

pub const MSR_KERNEL_GS_BASE: u32 = 0xC000_0102;

/// The writes that set up the `syscall` instruction.
pub open spec fn setup_writes(efer: u64, entry: u64, gs: u64) -> Seq<MsrWrite> {
    seq![
        MsrWrite { msr: MSR_EFER, value: efer | 1 },
        MsrWrite { msr: MSR_LSTAR, value: entry },
        MsrWrite { msr: MSR_STAR, value: 0x0008_0008_0000_0000 },
        MsrWrite { msr: MSR_SFMASK, value: 0x200 },
        MsrWrite { msr: MSR_GS_BASE, value: gs },
        MsrWrite { msr: MSR_KERNEL_GS_BASE, value: 0 },
    ]
}

/// Sets up the `syscall` instruction, given the present value of `EFER`, the
/// address of the entry stub and that of the `gs` area: the instruction is
/// enabled, it enters at the stub with the kernel code segment and interrupts
/// off, and the kernel runs on the `gs` area while ring 3 sees none.
pub fn init(efer: u64, entry: u64, gs: u64) -> (r: Vec<MsrWrite>)
    ensures
        r@ == setup_writes(efer, entry, gs),
{
    let mut out: Vec<MsrWrite> = Vec::new();
    out.push(MsrWrite { msr: MSR_EFER, value: efer | 1 });
    out.push(MsrWrite { msr: MSR_LSTAR, value: entry });
    out.push(MsrWrite { msr: MSR_STAR, value: 0x0008_0008_0000_0000 });
    out.push(MsrWrite { msr: MSR_SFMASK, value: 0x200 });
    out.push(MsrWrite { msr: MSR_GS_BASE, value: gs });
    out.push(MsrWrite { msr: MSR_KERNEL_GS_BASE, value: 0 });
    proof {
        assert(out@ =~= setup_writes(efer, entry, gs));
    }
    out
}

/// Kernel self-test of the pointer validation. Reports on the console.
pub fn run_tests(console: &mut Console) -> (r: bool)
    ensures
        r,
        final(console)@ == old(console)@.sent(
            vstd::utf8::encode_utf8("syscall:self-test:ok"@) + serial::line_end(),
        ),
{
    let ok = user_ptr_ok(user::USER_BASE, 16) && !user_ptr_ok(0, 16) && !user_ptr_ok(
        user::USER_STACK_TOP,
        16,
    );
    serial::write_line(console, "syscall:self-test:ok");
    ok
}

} // verus!
