//! What holds of every channel operation.

use vstd::prelude::*;
use crate::caps;
use crate::caps::ObjectKind;
use crate::ipc;
use crate::ipc::{Message, MsgKind, CHANNEL_CAPACITY, MESSAGE_SIZE};
use crate::kernel::caps as registry;
use crate::kernel::caps::{KernelObject, SharedFrame};
use crate::kernel::ipc::{OpResult, Received, Sent};
use crate::kernel::syscall;
use crate::kernel::KernelView;
use crate::sched::TaskId;

verus! {

/// The task holds a capability in `slot` for the channel object `object`, with
/// the right to call.
pub open spec fn holds_channel(v: KernelView, id: TaskId, slot: u16, object: u32) -> bool {
    let space = v.tasks.entry(id).cspace;
    &&& v.tasks.has(id)
    &&& caps::held(space, slot as int)
    &&& space[slot as int]->0.kind == ObjectKind::Channel
    &&& space[slot as int]->0.object == object
    &&& caps::covers(space[slot as int]->0.rights@, caps::CALL_BIT)
}

/// Without a channel capability that carries the right to call, every channel
/// operation is answered with 0 and changes nothing.
pub proof fn law_no_access_without_capability(
    v: KernelView,
    id: TaskId,
    slot: u16,
    msg: Message,
    buf: u64,
)
    requires
        forall|object: u32| !#[trigger] holds_channel(v, id, slot, object),
    ensures
        v.send(id, slot, msg) == (v, Sent { result: OpResult::Done(0), rewind: None }),
        v.recv(id, slot, buf) == (
            v,
            Received { result: OpResult::Done(0), message: None, rewind: None },
        ),
        v.recv_frame(id, slot, buf) == v.recv(id, slot, buf),
{
    let space = v.tasks.entry(id).cspace;
    if v.resolve(id, slot) is Some {
        assert(holds_channel(v, id, slot, space[slot as int]->0.object));
    }
}

/// A capability for anything but a channel gives no access to a channel, even
/// if its object is one.
pub proof fn law_capabilities_are_typed(v: KernelView, id: TaskId, slot: u16)
    requires
        v.tasks.has(id),
        caps::held(v.tasks.entry(id).cspace, slot as int),
        v.tasks.entry(id).cspace[slot as int]->0.kind != ObjectKind::Channel,
    ensures
        v.resolve(id, slot) is None,
{
}

/// No channel holds more messages than it has room for.
pub open spec fn bounded(v: KernelView) -> bool {
    forall|c: int|
        0 <= c < v.channels.len() ==> (#[trigger] v.channels[c]).queue.len() <= CHANNEL_CAPACITY
}

/// Channel operations keep every channel within its capacity.
pub proof fn law_channels_stay_bounded(
    v: KernelView,
    id: TaskId,
    slot: u16,
    msg: Message,
    buf: u64,
)
    requires
        bounded(v),
    ensures
        bounded(v.send(id, slot, msg).0),
        bounded(v.recv(id, slot, buf).0),
{
}

/// A message that was sent on an empty channel is what the next receiver on it
/// gets, and the channel is empty again.
pub proof fn law_send_then_receive(
    v: KernelView,
    a: TaskId,
    slot_a: u16,
    b: TaskId,
    slot_b: u16,
    msg: Message,
    buf: u64,
    c: u16,
)
    requires
        v.tasks.wf(),
        v.resolve(a, slot_a) == Some(c),
        v.resolve(b, slot_b) == Some(c),
        c < v.channels.len(),
        v.channels[c as int].queue.len() == 0,
        syscall::ptr_ok(buf, MESSAGE_SIZE as int),
    ensures
        ({
            let (w, sent) = v.send(a, slot_a, msg);
            let (x, got) = w.recv(b, slot_b, buf);
            &&& sent.result == OpResult::Done(1)
            &&& got.result == OpResult::Done(1)
            &&& got.message == Some(msg)
            &&& x.channels[c as int].queue == v.channels[c as int].queue
        }),
{
    let (w, sent) = v.send(a, slot_a, msg);
    lemma_send_keeps_access(v, a, slot_a, msg, b, slot_b);
    assert(w.channels[c as int].queue =~= seq![msg]);
    let (x, got) = w.recv(b, slot_b, buf);
    assert(x.channels[c as int].queue =~= v.channels[c as int].queue);
}

/// Sending changes nobody's access to channels.
proof fn lemma_send_keeps_access(
    v: KernelView,
    a: TaskId,
    slot_a: u16,
    msg: Message,
    b: TaskId,
    slot_b: u16,
)
    ensures
        v.send(a, slot_a, msg).0.resolve(b, slot_b) == v.resolve(b, slot_b),
        v.send(a, slot_a, msg).0.objects == v.objects,
        v.send(a, slot_a, msg).0.channels.len() == v.channels.len(),
{
}

/// A sender that finds the channel full becomes a waiter and leaves the queue
/// as it is; a receiver that then takes a message wakes the waiter that came
/// last, whose operation is tried again.
pub proof fn law_blocked_sender_is_woken(
    v: KernelView,
    a: TaskId,
    slot_a: u16,
    b: TaskId,
    slot_b: u16,
    msg: Message,
    buf: u64,
    c: u16,
)
    requires
        v.resolve(a, slot_a) == Some(c),
        v.resolve(b, slot_b) == Some(c),
        c < v.channels.len(),
        v.channels[c as int].queue.len() == CHANNEL_CAPACITY,
        syscall::ptr_ok(buf, MESSAGE_SIZE as int),
    ensures
        ({
            let (w, sent) = v.send(a, slot_a, msg);
            let (x, got) = w.recv(b, slot_b, buf);
            &&& sent.result == OpResult::WouldBlock
            &&& w.channels[c as int].queue == v.channels[c as int].queue
            &&& got.message == Some(v.channels[c as int].queue[0])
            &&& got.rewind == v.tasks.retry_frame(a)
            &&& x.tasks == v.tasks.wake(a)
            &&& x.channels[c as int].send_waiters == v.channels[c as int].send_waiters
        }),
{
    let (w, sent) = v.send(a, slot_a, msg);
    lemma_send_keeps_access(v, a, slot_a, msg, b, slot_b);
    let (x, got) = w.recv(b, slot_b, buf);
    assert(x.channels[c as int].send_waiters =~= v.channels[c as int].send_waiters);
}

/// A receiver that finds the channel empty becomes a waiter; a sender then
/// wakes the waiter that came last, whose operation is tried again.
pub proof fn law_blocked_receiver_is_woken(
    v: KernelView,
    a: TaskId,
    slot_a: u16,
    b: TaskId,
    slot_b: u16,
    msg: Message,
    buf: u64,
    c: u16,
)
    requires
        v.resolve(a, slot_a) == Some(c),
        v.resolve(b, slot_b) == Some(c),
        c < v.channels.len(),
        v.channels[c as int].queue.len() == 0,
        syscall::ptr_ok(buf, MESSAGE_SIZE as int),
    ensures
        ({
            let (w, got) = v.recv(b, slot_b, buf);
            let (x, sent) = w.send(a, slot_a, msg);
            &&& got.result == OpResult::WouldBlock
            &&& got.message is None
            &&& sent.result == OpResult::Done(1)
            &&& sent.rewind == v.tasks.retry_frame(b)
            &&& x.tasks == v.tasks.wake(b)
            &&& x.channels[c as int].queue == seq![msg]
            &&& x.channels[c as int].recv_waiters == v.channels[c as int].recv_waiters
        }),
{
    let (w, got) = v.recv(b, slot_b, buf);
    assert(w.resolve(a, slot_a) == Some(c));
    let (x, sent) = w.send(a, slot_a, msg);
    assert(x.channels[c as int].queue =~= seq![msg]);
    assert(x.channels[c as int].recv_waiters =~= v.channels[c as int].recv_waiters);
}

/// A frame group that was sent on an empty channel arrives: the receiver gets
/// the address in the window where the sender's frames are mapped.
pub proof fn law_sent_frame_arrives(
    v: KernelView,
    a: TaskId,
    slot_a: u16,
    b: TaskId,
    slot_b: u16,
    tag: u16,
    frame: SharedFrame,
    buf: u64,
    c: u16,
)
    requires
        v.tasks.wf(),
        v.objects.len() < u32::MAX,
        v.resolve(a, slot_a) == Some(c),
        v.resolve(b, slot_b) == Some(c),
        c < v.channels.len(),
        v.channels[c as int].queue.len() == 0,
        syscall::ptr_ok(buf, MESSAGE_SIZE as int),
    ensures
        ({
            let (w, sent) = v.send_frame(a, slot_a, tag, frame);
            let (x, got) = w.recv_frame(b, slot_b, buf);
            &&& sent.result == OpResult::Done(1)
            &&& got.result == OpResult::Done(frame.window)
            &&& got.message matches Some(m)
            &&& m.tag == tag
            &&& m.kind == MsgKind::CapTransfer
            &&& registry::frame_at(x.objects, ipc::object_of(m.words@[1])) == Some(frame)
        }),
{
    let (u, object) = v.registered(frame);
    assert(registry::object(u.objects, object) == Some(KernelObject::Frame(frame)));
    lemma_register_keeps_access(v, frame, a, slot_a);
    lemma_register_keeps_access(v, frame, b, slot_b);
    let msg = ipc::capability_message(tag, object, caps::ALL_BITS);
    lemma_capability_words(object, caps::ALL_BITS);
    assert(msg.words@[1] == object as u64);
    assert(ipc::object_of(msg.words@[1]) == object);
    law_send_then_receive(u, a, slot_a, b, slot_b, msg, buf, c);
    lemma_send_keeps_access(u, a, slot_a, msg, b, slot_b);
}

/// There is a message that transfers a capability to `object`.
proof fn lemma_capability_words(object: u32, rights: u8)
    ensures
        ipc::capability_message(0, object, rights).words@ == ipc::capability_words(object, rights),
{
    let w: [u64; 8] = [0, object as u64, rights as u64, 0, 0, 0, 0, 0];
    assert(w@ =~= ipc::capability_words(object, rights));
}

/// Registering an object takes nobody's access to a channel away.
proof fn lemma_register_keeps_access(v: KernelView, frame: SharedFrame, id: TaskId, slot: u16)
    requires
        v.resolve(id, slot) is Some,
    ensures
        v.registered(frame).0.resolve(id, slot) == v.resolve(id, slot),
{
    let space = v.tasks.entry(id).cspace;
    let object = space[slot as int]->0.object;
    assert(registry::object(v.registered(frame).0.objects, object) == registry::object(
        v.objects,
        object,
    ));
}

/// A receive into a buffer that is not user memory as a whole is refused, and
/// no message is lost.
pub proof fn law_bad_buffer_loses_nothing(v: KernelView, id: TaskId, slot: u16, buf: u64)
    requires
        !syscall::ptr_ok(buf, MESSAGE_SIZE as int),
    ensures
        v.recv(id, slot, buf) == (
            v,
            Received { result: OpResult::Done(0), message: None, rewind: None },
        ),
{
}

} // verus!
