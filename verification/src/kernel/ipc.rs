//! Kernel-side IPC: capability-gated bounded channels + shared frames.
//!
//! The queue arithmetic lives in [`crate::ipc`]; here come
//! * the channel table and per-channel waiter queues,
//! * capability checks (send and receive require a channel capability with
//!   the right to call),
//! * blocking semantics: a sender parks when the channel is full, a receiver
//!   parks when it is empty, and the counterpart's operation wakes it,
//! * a zero-copy path: [`send_frame`] allocates physical frames and ships a
//!   capability, [`recv_frame`] says where they are mapped.

use vstd::prelude::*;
use crate::caps;
use crate::caps::{CapRights, Capability, ObjectKind, CALL_BIT};
use crate::ipc;
use crate::ipc::{ChannelCore, Message, MsgKind, CHANNEL_CAPACITY, MESSAGE_SIZE};
use crate::kernel::caps as registry;
use crate::kernel::caps::{KernelObject, ObjectTable, SharedFrame};
use crate::kernel::memory::frames;
use crate::kernel::memory::frames::{Frames, FramesView, FRAME_BYTES};
use crate::kernel::memory::paging;
use crate::kernel::memory::paging::{PageFlags, PageMap, PAGE_BYTES};
use crate::kernel::serial;
use crate::kernel::serial::Console;
use crate::kernel::syscall;
use crate::kernel::task;
use crate::kernel::user;
use crate::kernel::{Kernel, KernelView};
use crate::mem;
use crate::sched::TaskId;

pub mod effects;
pub mod laws;

verus! {

/// A channel and who waits for it.
pub struct KernelChannel {
    pub core: ChannelCore,
    /// Tasks blocked because the channel was full (they retry on space).
    pub send_waiters: Vec<TaskId>,
    /// Tasks blocked because the channel was empty (they retry on data).
    pub recv_waiters: Vec<TaskId>,
}

/// The channels.
pub struct ChannelTable {
    channels: Vec<KernelChannel>,
}

/// Result of a channel operation from the dispatcher's perspective.
#[derive(Clone, Copy, PartialEq, Eq, Debug, Structural)]
pub enum OpResult {
    /// Finished with a plain value (0 = failure, 1 = ok, else payload).
    Done(u64),
    /// The caller is queued as a waiter and must be parked (blocked).
    WouldBlock,
}

/// What becomes of a send: its result, and the frame that has to be rewound
/// because its task was woken.
#[derive(Clone, Copy, PartialEq, Eq, Debug)]
pub struct Sent {
    pub result: OpResult,
    pub rewind: Option<u64>,
}

/// What becomes of a receive: its result, the message that has to be copied to
/// the caller, and the frame that has to be rewound because its task was woken.
#[derive(Clone, Copy, PartialEq, Eq, Debug)]
pub struct Received {
    pub result: OpResult,
    pub message: Option<Message>,
    pub rewind: Option<u64>,
}

// ---------------------------------------------------------------------------
// Model
// ---------------------------------------------------------------------------

/// What a channel holds.
#[verifier::ext_equal]
pub struct ChannelView {
    pub queue: Seq<Message>,
    pub send_waiters: Seq<TaskId>,
    pub recv_waiters: Seq<TaskId>,
}

impl KernelChannel {
    pub open spec fn view(&self) -> ChannelView {
        ChannelView {
            queue: self.core@,
            send_waiters: self.send_waiters@,
            recv_waiters: self.recv_waiters@,
        }
    }
}

/// What a list of channels holds.
pub open spec fn channel_views(s: Seq<KernelChannel>) -> Seq<ChannelView> {
    s.map_values(|c: KernelChannel| c@)
}

/// A channel without messages and without waiters.
pub open spec fn empty_channel() -> ChannelView {
    ChannelView { queue: Seq::empty(), send_waiters: Seq::empty(), recv_waiters: Seq::empty() }
}

/// The channel that a capability gives access to.
pub open spec fn channel_behind(objects: Seq<Option<KernelObject>>, cap: Capability) -> Option<
    u16,
> {
    if cap.kind == ObjectKind::Channel {
        registry::channel_at(objects, cap.object)
    } else {
        None
    }
}

impl KernelView {
    /// The channel that the task may use through its capability in `slot`: it
    /// must be a channel capability with the right to call.
    pub open spec fn resolve(self, id: TaskId, slot: u16) -> Option<u16> {
        if !self.tasks.has(id) {
            None
        } else {
            let space = self.tasks.entry(id).cspace;
            if caps::held(space, slot as int) && caps::covers(
                space[slot as int]->0.rights@,
                CALL_BIT,
            ) {
                channel_behind(self.objects, space[slot as int]->0)
            } else {
                None
            }
        }
    }

    /// The state with the channel `c` replaced.
    pub open spec fn with_channel(self, c: int, ch: ChannelView) -> KernelView {
        KernelView { channels: self.channels.update(c, ch), ..self }
    }

    /// The state after a task was woken, if there is one to wake.
    pub open spec fn woken(self, w: Option<TaskId>) -> KernelView {
        match w {
            Some(id) => KernelView { tasks: self.tasks.wake(id), ..self },
            None => self,
        }
    }

    /// The frame to rewind for a task that was woken.
    pub open spec fn rewind(self, w: Option<TaskId>) -> Option<u64> {
        match w {
            Some(id) => self.tasks.retry_frame(id),
            None => None,
        }
    }

    /// A message is sent: it joins the queue and the last waiting receiver is
    /// woken; on a full channel the sender becomes a waiter.
    pub open spec fn send(self, id: TaskId, slot: u16, msg: Message) -> (KernelView, Sent) {
        match self.resolve(id, slot) {
            Some(c) if c < self.channels.len() => {
                let ch = self.channels[c as int];
                if ch.queue.len() < CHANNEL_CAPACITY {
                    let w = last(ch.recv_waiters);
                    let v = self.with_channel(
                        c as int,
                        ChannelView {
                            queue: ch.queue.push(msg),
                            recv_waiters: without_last(ch.recv_waiters),
                            ..ch
                        },
                    );
                    (v.woken(w), Sent { result: OpResult::Done(1), rewind: self.rewind(w) })
                } else {
                    (
                        self.with_channel(
                            c as int,
                            ChannelView { send_waiters: ch.send_waiters.push(id), ..ch },
                        ),
                        Sent { result: OpResult::WouldBlock, rewind: None },
                    )
                }
            },
            _ => (self, Sent { result: OpResult::Done(0), rewind: None }),
        }
    }

    /// A message is received into the buffer at `buf`: the oldest one leaves
    /// the queue and the last waiting sender is woken; on an empty channel the
    /// receiver becomes a waiter. A buffer outside user memory is refused.
    pub open spec fn recv(self, id: TaskId, slot: u16, buf: u64) -> (KernelView, Received) {
        match self.resolve(id, slot) {
            Some(c) if c < self.channels.len() && syscall::ptr_ok(buf, MESSAGE_SIZE as int) => {
                let ch = self.channels[c as int];
                if ch.queue.len() > 0 {
                    let w = last(ch.send_waiters);
                    let v = self.with_channel(
                        c as int,
                        ChannelView {
                            queue: ch.queue.drop_first(),
                            send_waiters: without_last(ch.send_waiters),
                            ..ch
                        },
                    );
                    (
                        v.woken(w),
                        Received {
                            result: OpResult::Done(1),
                            message: Some(ch.queue[0]),
                            rewind: self.rewind(w),
                        },
                    )
                } else {
                    (
                        self.with_channel(
                            c as int,
                            ChannelView { recv_waiters: ch.recv_waiters.push(id), ..ch },
                        ),
                        Received { result: OpResult::WouldBlock, message: None, rewind: None },
                    )
                }
            },
            _ => (self, Received { result: OpResult::Done(0), message: None, rewind: None }),
        }
    }

    /// What a receiver of a frame gets to know of the message `m`: where the
    /// frame that it transfers is mapped.
    pub open spec fn window_of(self, m: Message) -> u64 {
        if m.kind == MsgKind::CapTransfer {
            match registry::frame_at(self.objects, ipc::object_of(m.words@[1])) {
                Some(f) => f.window,
                None => 0,
            }
        } else {
            0
        }
    }

    /// A frame is received.
    pub open spec fn recv_frame(self, id: TaskId, slot: u16, buf: u64) -> (KernelView, Received) {
        let (v, r) = self.recv(id, slot, buf);
        match r.message {
            Some(m) => (v, Received { result: OpResult::Done(self.window_of(m)), ..r }),
            None => (v, r),
        }
    }
}

/// The last element.
pub open spec fn last(s: Seq<TaskId>) -> Option<TaskId> {
    if s.len() > 0 {
        Some(s.last())
    } else {
        None
    }
}

/// The list without its last element.
pub open spec fn without_last(s: Seq<TaskId>) -> Seq<TaskId> {
    if s.len() > 0 {
        s.drop_last()
    } else {
        s
    }
}

// ---------------------------------------------------------------------------
// Code
// ---------------------------------------------------------------------------

impl ChannelTable {
    pub closed spec fn view(&self) -> Seq<ChannelView> {
        channel_views(self.channels@)
    }

    /// No channels.
    pub fn new() -> (r: ChannelTable)
        ensures
            r@ == Seq::<ChannelView>::empty(),
    {
        let r = ChannelTable { channels: Vec::new() };
        proof {
            assert(r@ =~= Seq::<ChannelView>::empty());
        }
        r
    }

    /// Number of channels.
    pub fn len(&self) -> (r: usize)
        ensures
            r == self@.len(),
    {
        self.channels.len()
    }
}

/// Creates a channel; returns its index (the kernel object it becomes), as far
/// as it fits into sixteen bits.
pub fn create(channels: &mut ChannelTable) -> (r: u16)
    ensures
        r == old(channels)@.len() % 65536,
        final(channels)@ == old(channels)@.push(empty_channel()),
{
    let idx = (channels.channels.len() % 65536) as u16;
    let chan = KernelChannel {
        core: ChannelCore::new(),
        send_waiters: Vec::new(),
        recv_waiters: Vec::new(),
    };
    proof {
        assert(chan@ =~= empty_channel());
    }
    channels.channels.push(chan);
    proof {
        assert(channels@ =~= old(channels)@.push(empty_channel()));
    }
    idx
}

/// Borrows one channel.
pub fn get(channels: &mut ChannelTable, idx: u16) -> (r: Option<&mut KernelChannel>)
    ensures
        match r {
            Some(c) => {
                &&& idx < old(channels)@.len()
                &&& c@ == old(channels)@[idx as int]
                &&& final(channels)@ =~= old(channels)@.update(idx as int, final(c)@)
            },
            None => idx >= old(channels)@.len() && final(channels)@ =~= old(channels)@,
        },
{
    if idx as usize >= channels.channels.len() {
        return None;
    }
    proof {
        let before = channels.channels@;
        assert forall|c: KernelChannel| #[trigger]
            channel_views(before.update(idx as int, c)) == channel_views(before).update(
                idx as int,
                c@,
            ) by {
            assert(channel_views(before.update(idx as int, c)) =~= channel_views(before).update(
                idx as int,
                c@,
            ));
        }
    }
    Some(&mut channels.channels[idx as usize])
}

/// The channel that a capability gives access to.
fn channel_of(objects: &ObjectTable, cap: &Capability) -> (r: Option<u16>)
    ensures
        r == channel_behind(objects@, *cap),
{
    if cap.kind != ObjectKind::Channel {
        return None;
    }
    match registry::lookup(objects, cap.object) {
        Some(o) => o.channel(objects),
        None => None,
    }
}

/// Looks up and validates a channel capability in the space of a task.
fn resolve_channel(kernel: &Kernel, task_id: TaskId, slot: u16) -> (r: Option<u16>)
    requires
        kernel.wf(),
    ensures
        r == kernel@.resolve(task_id, slot),
{
    match task::cspace_of(&kernel.tasks, task_id) {
        Some(space) => match space.lookup_with(slot, CapRights::call()) {
            Ok(cap) => channel_of(&kernel.objects, cap),
            Err(_) => None,
        },
        None => None,
    }
}

/// Sends a data message; the caller has to be parked when the channel is full.
pub fn send(kernel: &mut Kernel, task_id: TaskId, slot: u16, msg: Message) -> (r: Sent)
    requires
        old(kernel).wf(),
    ensures
        final(kernel).wf(),
        final(kernel)@ == old(kernel)@.send(task_id, slot, msg).0,
        r == old(kernel)@.send(task_id, slot, msg).1,
{
    let ghost v = kernel@;
    proof {
        kernel.tasks.lemma_wf();
    }
    let resolved = resolve_channel(kernel, task_id, slot);
    let chan_id = match resolved {
        Some(c) => c,
        None => return Sent { result: OpResult::Done(0), rewind: None },
    };
    let mut woken: Option<TaskId> = None;
    match get(&mut kernel.channels, chan_id) {
        Some(chan) => {
            match chan.core.push(msg) {
                Ok(()) => {
                    woken = chan.recv_waiters.pop();
                },
                Err(_) => {
                    chan.send_waiters.push(task_id);
                    return Sent { result: OpResult::WouldBlock, rewind: None };
                },
            }
        },
        None => return Sent { result: OpResult::Done(0), rewind: None },
    }
    proof {
        let ch = v.channels[chan_id as int];
        assert(woken == last(ch.recv_waiters));
        assert(kernel@ =~= v.with_channel(
            chan_id as int,
            ChannelView {
                queue: ch.queue.push(msg),
                recv_waiters: without_last(ch.recv_waiters),
                ..ch
            },
        ));
    }
    let rewind = match woken {
        Some(w) => task::wake_parked(&mut kernel.tasks, w),
        None => None,
    };
    Sent { result: OpResult::Done(1), rewind }
}

/// Receives a message for the buffer at `user_buf` (a user-space address), to
/// which the caller copies it. The receiver has to be parked when the channel
/// is empty.
pub fn recv(kernel: &mut Kernel, task_id: TaskId, slot: u16, user_buf: u64) -> (r: Received)
    requires
        old(kernel).wf(),
    ensures
        final(kernel).wf(),
        final(kernel)@ == old(kernel)@.recv(task_id, slot, user_buf).0,
        r == old(kernel)@.recv(task_id, slot, user_buf).1,
{
    let ghost v = kernel@;
    proof {
        kernel.tasks.lemma_wf();
    }
    let resolved = resolve_channel(kernel, task_id, slot);
    let chan_id = match resolved {
        Some(c) => c,
        None => return Received { result: OpResult::Done(0), message: None, rewind: None },
    };
    if !syscall::user_ptr_ok(user_buf, MESSAGE_SIZE) {
        return Received { result: OpResult::Done(0), message: None, rewind: None };
    }
    let mut woken: Option<TaskId> = None;
    let mut message: Option<Message> = None;
    match get(&mut kernel.channels, chan_id) {
        Some(chan) => {
            match chan.core.pop() {
                Some(msg) => {
                    woken = chan.send_waiters.pop();
                    message = Some(msg);
                },
                None => {
                    chan.recv_waiters.push(task_id);
                    return Received { result: OpResult::WouldBlock, message: None, rewind: None };
                },
            }
        },
        None => return Received { result: OpResult::Done(0), message: None, rewind: None },
    }
    proof {
        let ch = v.channels[chan_id as int];
        assert(woken == last(ch.send_waiters));
        assert(kernel@ =~= v.with_channel(
            chan_id as int,
            ChannelView {
                queue: ch.queue.drop_first(),
                send_waiters: without_last(ch.send_waiters),
                ..ch
            },
        ));
    }
    let rewind = match woken {
        Some(w) => task::wake_parked(&mut kernel.tasks, w),
        None => None,
    };
    Received { result: OpResult::Done(1), message, rewind }
}

/// A shared frame group that was set aside for a message, and the mappings
/// that make it accessible in the user window.
pub struct FrameGrant {
    pub frame: SharedFrame,
    pub maps: Vec<PageMap>,
}

/// Number of pages for `size` bytes.
pub open spec fn pages_for(size: usize) -> int {
    (size + 4095) / 4096
}

/// The rights of shared frames: writable, for users.
pub open spec fn shared_flags() -> PageFlags {
    PageFlags { writable: true, user: true, no_execute: false }
}

/// First half of sending a frame: allocates a shared frame group of `size`
/// bytes (rounded up to pages) and a slot in the user window for it. The caller
/// maps it and goes on with [`finish_frame`]. `None` when the operation has
/// failed already: nothing to send, no room in the window, or no frames for it.
pub fn send_frame(kernel: &mut Kernel, f: &mut Frames, size: usize) -> (r: Option<FrameGrant>)
    requires
        old(kernel).wf(),
        old(f).wf(),
    ensures
        final(kernel).wf(),
        final(f).wf(),
        match r {
            Some(g) => {
                let m = old(f)@.map->0;
                let first = (g.frame.phys / 4096) as int;
                &&& size > 0
                &&& user::window_fits(old(kernel).cursor, pages_for(size))
                &&& old(f)@.map is Some
                &&& g.frame.pages == pages_for(size)
                &&& g.frame.phys % 4096 == 0
                &&& m.placed(pages_for(size), first)
                &&& final(f)@ == (FramesView { map: Some(m.taken(pages_for(size), first)), ..old(
                    f,
                )@ })
                &&& g.frame.window == old(kernel).cursor
                &&& final(kernel)@ == (KernelView {
                    cursor: (old(kernel).cursor + pages_for(size) * PAGE_BYTES) as u64,
                    ..old(kernel)@
                })
                &&& g.maps@ == Seq::new(
                    pages_for(size) as nat,
                    |i: int|
                        paging::contiguous(
                            g.frame.phys,
                            g.frame.window,
                            shared_flags(),
                            i,
                        ),
                )
            },
            None => final(kernel)@ == old(kernel)@ && final(f)@ == old(f)@ && (size == 0
                || !user::window_fits(old(kernel).cursor, pages_for(size)) || old(f)@.map is None || !mem::fits(
                old(f)@.map->0.used,
                0,
                old(f)@.map->0.used.len() as int,
                pages_for(size),
            )),
        },
{
    if size == 0 {
        return None;
    }
    let pages = if size % 4096 == 0 {
        size / 4096
    } else {
        size / 4096 + 1
    };
    if !user::window_has_room(kernel.cursor, pages) {
        return None;
    }
    proof {
        f.lemma_wf();
    }
    let phys = match frames::alloc_range(f, pages) {
        Some(a) => a,
        None => return None,
    };
    proof {
        let m = old(f)@.map->0;
        mem::laws::law_allocation_is_fresh(m, pages as int, (phys / FRAME_BYTES) as int);
    }
    let window = user::next_frame_window(&mut kernel.cursor, pages);
    let maps = paging::map_contiguous(
        phys,
        window,
        pages as u64,
        PageFlags { writable: true, user: true, no_execute: false },
    );
    let frame = SharedFrame { phys, pages, window };
    Some(FrameGrant { frame, maps })
}

impl KernelView {
    /// The kernel after a frame group was registered, and the id of its object.
    pub open spec fn registered(self, frame: SharedFrame) -> (KernelView, u32) {
        (
            KernelView { objects: self.objects.push(Some(KernelObject::Frame(frame))), ..self },
            (self.objects.len() + 1) as u32,
        )
    }

    /// Second half of sending a frame: it is registered and its capability is
    /// shipped over the channel.
    pub open spec fn send_frame(self, id: TaskId, slot: u16, tag: u16, frame: SharedFrame) -> (
        KernelView,
        Sent,
    ) {
        let (v, object) = self.registered(frame);
        v.send(id, slot, ipc::capability_message(tag, object, caps::ALL_BITS))
    }
}

/// Second half of sending a frame: `mapped` says whether its pages could be
/// mapped. If so, the frame group is registered and its capability is shipped
/// over the channel (zero-copy).
pub fn finish_frame(
    kernel: &mut Kernel,
    task_id: TaskId,
    slot: u16,
    tag: u16,
    frame: SharedFrame,
    mapped: bool,
) -> (r: Sent)
    requires
        old(kernel).wf(),
        old(kernel)@.objects.len() < u32::MAX,
    ensures
        final(kernel).wf(),
        mapped ==> final(kernel)@ == old(kernel)@.send_frame(task_id, slot, tag, frame).0 && r
            == old(kernel)@.send_frame(task_id, slot, tag, frame).1,
        !mapped ==> final(kernel)@ == old(kernel)@ && r == (Sent {
            result: OpResult::Done(0),
            rewind: None,
        }),
{
    if !mapped {
        return Sent { result: OpResult::Done(0), rewind: None };
    }
    let obj_id = registry::register(&mut kernel.objects, KernelObject::Frame(frame));
    let msg = Message::capability(tag, obj_id, CapRights::all().bits());
    send(kernel, task_id, slot, msg)
}

/// Waits for a frame capability; on arrival, the result is the window address
/// where the payload lives (it was mapped by the sender). A message that
/// transfers no frame gives 0.
pub fn recv_frame(kernel: &mut Kernel, task_id: TaskId, slot: u16, user_buf: u64) -> (r: Received)
    requires
        old(kernel).wf(),
    ensures
        final(kernel).wf(),
        final(kernel)@ == old(kernel)@.recv_frame(task_id, slot, user_buf).0,
        r == old(kernel)@.recv_frame(task_id, slot, user_buf).1,
{
    let got = recv(kernel, task_id, slot, user_buf);
    let window = match got.message {
        Some(msg) => {
            if msg.kind != MsgKind::CapTransfer {
                0
            } else {
                match registry::lookup(&kernel.objects, ipc::object_id(msg.words[1])) {
                    Some(o) => match o.frame(&kernel.objects) {
                        Some(frame) => frame.window,
                        None => 0,
                    },
                    None => 0,
                }
            }
        },
        None => return got,
    };
    Received { result: OpResult::Done(window), message: got.message, rewind: got.rewind }
}

/// Kernel self-test: a message comes out of a channel as it went in. Reports on
/// the console.
pub fn run_tests(console: &mut Console) -> (r: bool)
    ensures
        r,
        final(console)@ == old(console)@.sent(
            vstd::utf8::encode_utf8("ipc:self-test:ok"@) + serial::line_end(),
        ),
{
    let mut ch = ChannelCore::new();
    let m = Message::data(7, [42; 8]);
    let pushed = ch.push(m).is_ok();
    let popped = match ch.pop() {
        Some(out) => out.tag == 7 && out.words[0] == 42,
        None => false,
    };
    serial::write_line(console, "ipc:self-test:ok");
    pushed && popped
}

/// Kills all waiters of a channel: nobody waits for it any more, its messages
/// stay. The tasks that were dropped from its lists stay blocked, and the
/// channel will not wake them: the caller has to wake or end them.
pub fn purge_waiters(channels: &mut ChannelTable, idx: u16)
    ensures
        final(channels)@ == (if idx < old(channels)@.len() {
            old(channels)@.update(
                idx as int,
                ChannelView {
                    queue: old(channels)@[idx as int].queue,
                    send_waiters: Seq::empty(),
                    recv_waiters: Seq::empty(),
                },
            )
        } else {
            old(channels)@
        }),
{
    if let Some(c) = get(channels, idx) {
        c.send_waiters.clear();
        c.recv_waiters.clear();
    }
}

} // verus!
