//! What sending and receiving do to the queues, message by message.

use vstd::prelude::*;
use crate::caps;
use crate::caps::{Capability, ObjectKind};
use crate::ipc::{Message, MsgKind};
use crate::kernel::caps::{KernelObject, SharedFrame};
use crate::kernel::ipc::OpResult;
use crate::kernel::KernelView;
use crate::sched::TaskId;

verus! {

/// The `len` bytes at `p` lie in the memory of user programs.
pub open spec fn in_user_memory(p: u64, len: int) -> bool {
    0x10_0000_0000 <= p && p + len <= 0x11_0040_0000
}

/// The capability gives the channel object `o`, with the right to call.
pub open spec fn channel_capability(cap: Capability, o: u32) -> bool {
    cap.kind == ObjectKind::Channel && cap.object == o && cap.rights@ & 4 == 4
}

/// The task `id` has a channel capability with the right to call in its slot,
/// and the object behind it is the channel `c`, which exists.
pub open spec fn may_use(v: KernelView, id: TaskId, slot: u16, c: int) -> bool {
    &&& v.tasks.has(id)
    &&& slot < v.tasks.entry(id).cspace.len()
    &&& v.tasks.entry(id).cspace[slot as int] is Some
    &&& ({
        let cap = v.tasks.entry(id).cspace[slot as int]->0;
        &&& channel_capability(cap, cap.object)
        &&& 1 <= cap.object <= v.objects.len()
        &&& v.objects[cap.object - 1] == Some(KernelObject::Channel(c as u16))
    })
    &&& c <= 0xFFFF
    &&& 0 <= c < v.channels.len()
}

/// Whoever has a capability for a channel can use it, and it is that channel;
/// and nobody else can.
pub proof fn law_capability_opens_its_channel(v: KernelView, id: TaskId, slot: u16, c: u16)
    ensures
        v.resolve(id, slot) == Some(c) && c < v.channels.len() <==> may_use(
            v,
            id,
            slot,
            c as int,
        ),
{
    let space = v.tasks.entry(id).cspace;
    if v.tasks.has(id) && slot < space.len() && space[slot as int] is Some {
        let r = space[slot as int]->0.rights@;
        assert(caps::covers(r, 4u8) == (r & 4 == 4));
    }
}

/// What a send does: on a channel with room the message joins the end of the
/// queue and the result is 1; on a full one the queue stays and the sender
/// joins the waiting senders. No other channel and no object changes, and
/// nobody's capabilities do.
pub proof fn law_send_effect(v: KernelView, id: TaskId, slot: u16, msg: Message, c: int)
    requires
        may_use(v, id, slot, c),
    ensures
        ({
            let (w, sent) = v.send(id, slot, msg);
            let a = v.channels[c];
            let b = w.channels[c];
            &&& a.queue.len() < 16 ==> sent.result == OpResult::Done(1) && b.queue == a.queue.push(
                msg,
            ) && b.send_waiters == a.send_waiters
            &&& a.queue.len() >= 16 ==> sent.result == OpResult::WouldBlock && b.queue == a.queue
                && b.send_waiters == a.send_waiters.push(id) && b.recv_waiters == a.recv_waiters
                && w.tasks == v.tasks && sent.rewind is None
            &&& a.queue.len() < 16 && a.recv_waiters.len() > 0 ==> w.tasks == v.tasks.wake(
                a.recv_waiters.last(),
            ) && b.recv_waiters == a.recv_waiters.drop_last() && sent.rewind
                == v.tasks.retry_frame(a.recv_waiters.last())
            &&& a.queue.len() < 16 && a.recv_waiters.len() == 0 ==> w.tasks == v.tasks
                && b.recv_waiters == a.recv_waiters && sent.rewind is None
            &&& w.channels.len() == v.channels.len()
            &&& forall|k: int|
                0 <= k < v.channels.len() && k != c ==> #[trigger] w.channels[k] == v.channels[k]
            &&& w.objects == v.objects && w.cursor == v.cursor
        }),
{
    law_capability_opens_its_channel(v, id, slot, c as u16);
}

/// What a receive into user memory does: of a queue that is not empty it
/// delivers the oldest message, and all the others stay in their order; on an
/// empty one the receiver joins the waiting receivers. No other channel and no
/// object changes, and nobody's capabilities do.
pub proof fn law_receive_effect(v: KernelView, id: TaskId, slot: u16, buf: u64, c: int)
    requires
        may_use(v, id, slot, c),
        in_user_memory(buf, 72),
    ensures
        ({
            let (w, got) = v.recv(id, slot, buf);
            let a = v.channels[c];
            let b = w.channels[c];
            &&& a.queue.len() > 0 ==> {
                &&& got.result == OpResult::Done(1)
                &&& got.message == Some(a.queue[0])
                &&& b.queue.len() == a.queue.len() - 1
                &&& forall|k: int| 0 <= k < b.queue.len() ==> #[trigger] b.queue[k] == a.queue[k + 1]
                &&& b.recv_waiters == a.recv_waiters
            }
            &&& a.queue.len() == 0 ==> got.result == OpResult::WouldBlock && got.message is None
                && b.queue == a.queue && b.recv_waiters == a.recv_waiters.push(id)
                && b.send_waiters == a.send_waiters && w.tasks == v.tasks && got.rewind is None
            &&& a.queue.len() > 0 && a.send_waiters.len() > 0 ==> w.tasks == v.tasks.wake(
                a.send_waiters.last(),
            ) && b.send_waiters == a.send_waiters.drop_last() && got.rewind == v.tasks.retry_frame(
                a.send_waiters.last(),
            )
            &&& a.queue.len() > 0 && a.send_waiters.len() == 0 ==> w.tasks == v.tasks
                && b.send_waiters == a.send_waiters && got.rewind is None
            &&& w.channels.len() == v.channels.len()
            &&& forall|k: int|
                0 <= k < v.channels.len() && k != c ==> #[trigger] w.channels[k] == v.channels[k]
            &&& w.objects == v.objects && w.cursor == v.cursor
        }),
{
    law_capability_opens_its_channel(v, id, slot, c as u16);
}

/// Without the right to the channel, or into a buffer outside user memory,
/// nothing is sent or received and nothing changes.
pub proof fn law_refused_operations_change_nothing(
    v: KernelView,
    id: TaskId,
    slot: u16,
    msg: Message,
    buf: u64,
)
    ensures
        (forall|c: int| !may_use(v, id, slot, c)) ==> {
            &&& v.send(id, slot, msg).0 == v && v.send(id, slot, msg).1.result == OpResult::Done(0)
            &&& v.recv(id, slot, buf).0 == v && v.recv(id, slot, buf).1.result == OpResult::Done(0)
            &&& v.recv(id, slot, buf).1.message is None
        },
        !in_user_memory(buf, 72) ==> v.recv(id, slot, buf).0 == v && v.recv(id, slot, buf).1.result
            == OpResult::Done(0) && v.recv(id, slot, buf).1.message is None,
{
    if let Some(c) = v.resolve(id, slot) {
        law_capability_opens_its_channel(v, id, slot, c);
        if c < v.channels.len() {
            assert(may_use(v, id, slot, c as int));
        }
    }
}

/// Waking a task changes nobody's access.
proof fn lemma_access_stays(v: KernelView, w: KernelView, id: TaskId, slot: u16, c: int)
    requires
        may_use(v, id, slot, c),
        w.tasks.entries == v.tasks.entries,
        w.objects == v.objects,
        w.channels.len() == v.channels.len(),
    ensures
        may_use(w, id, slot, c),
{
}

/// The kernel after the task `a` sent the messages `msgs`, one after the other.
pub open spec fn sent_all(v: KernelView, a: TaskId, slot: u16, msgs: Seq<Message>) -> KernelView
    decreases msgs.len(),
{
    if msgs.len() == 0 {
        v
    } else {
        sent_all(v, a, slot, msgs.drop_last()).send(a, slot, msgs.last()).0
    }
}

/// The kernel after the task `b` received `n` times.
pub open spec fn received_n(v: KernelView, b: TaskId, slot: u16, buf: u64, n: nat) -> KernelView
    decreases n,
{
    if n == 0 {
        v
    } else {
        received_n(v, b, slot, buf, (n - 1) as nat).recv(b, slot, buf).0
    }
}

proof fn lemma_sent_all(v: KernelView, a: TaskId, slot: u16, msgs: Seq<Message>, c: int)
    requires
        may_use(v, a, slot, c),
        v.channels[c].queue.len() + msgs.len() <= 16,
    ensures
        ({
            let w = sent_all(v, a, slot, msgs);
            &&& w.tasks.entries == v.tasks.entries
            &&& w.objects == v.objects
            &&& w.channels.len() == v.channels.len()
            &&& w.channels[c].queue == v.channels[c].queue + msgs
        }),
    decreases msgs.len(),
{
    let w = sent_all(v, a, slot, msgs);
    if msgs.len() == 0 {
        assert(v.channels[c].queue + msgs =~= v.channels[c].queue);
    } else {
        let u = sent_all(v, a, slot, msgs.drop_last());
        lemma_sent_all(v, a, slot, msgs.drop_last(), c);
        lemma_access_stays(v, u, a, slot, c);
        law_send_effect(u, a, slot, msgs.last(), c);
        assert(w.channels[c].queue =~= v.channels[c].queue + msgs);
    }
}

proof fn lemma_received_n(v: KernelView, b: TaskId, slot: u16, buf: u64, n: nat, c: int)
    requires
        may_use(v, b, slot, c),
        in_user_memory(buf, 72),
        n <= v.channels[c].queue.len(),
    ensures
        ({
            let w = received_n(v, b, slot, buf, n);
            &&& w.tasks.entries == v.tasks.entries
            &&& w.objects == v.objects
            &&& w.channels.len() == v.channels.len()
            &&& w.channels[c].queue == v.channels[c].queue.skip(n as int)
        }),
    decreases n,
{
    let q = v.channels[c].queue;
    let w = received_n(v, b, slot, buf, n);
    if n == 0 {
        assert(q.skip(0) =~= q);
    } else {
        let u = received_n(v, b, slot, buf, (n - 1) as nat);
        lemma_received_n(v, b, slot, buf, (n - 1) as nat, c);
        lemma_access_stays(v, u, b, slot, c);
        law_receive_effect(u, b, slot, buf, c);
        assert(w.channels[c].queue =~= q.skip(n as int));
    }
}

/// Messages come out in the order of sending: with `q` in the channel and
/// `msgs` sent after it, the receive number `n` delivers the message number `n`
/// of `q` and `msgs` together.
pub proof fn law_messages_come_out_in_order(
    v: KernelView,
    a: TaskId,
    slot_a: u16,
    b: TaskId,
    slot_b: u16,
    msgs: Seq<Message>,
    n: nat,
    buf: u64,
    c: int,
)
    requires
        may_use(v, a, slot_a, c),
        may_use(v, b, slot_b, c),
        in_user_memory(buf, 72),
        v.channels[c].queue.len() + msgs.len() <= 16,
        n < v.channels[c].queue.len() + msgs.len(),
    ensures
        ({
            let q = v.channels[c].queue;
            let w = received_n(sent_all(v, a, slot_a, msgs), b, slot_b, buf, n);
            let (x, got) = w.recv(b, slot_b, buf);
            &&& got.result == OpResult::Done(1)
            &&& got.message == Some(
                if n < q.len() {
                    q[n as int]
                } else {
                    msgs[n - q.len()]
                },
            )
            &&& x.channels[c].queue.len() == q.len() + msgs.len() - n - 1
        }),
{
    let u = sent_all(v, a, slot_a, msgs);
    lemma_sent_all(v, a, slot_a, msgs, c);
    lemma_access_stays(v, u, b, slot_b, c);
    lemma_received_n(u, b, slot_b, buf, n, c);
    let w = received_n(u, b, slot_b, buf, n);
    lemma_access_stays(u, w, b, slot_b, c);
    law_receive_effect(w, b, slot_b, buf, c);
}

/// What a receiver of frames is answered: where the frame is mapped that the
/// oldest message transfers; 0 for a message that transfers none. The message
/// is delivered and leaves the queue as in a plain receive.
pub proof fn law_receive_frame_effect(v: KernelView, id: TaskId, slot: u16, buf: u64, c: int)
    requires
        may_use(v, id, slot, c),
        in_user_memory(buf, 72),
        v.channels[c].queue.len() > 0,
    ensures
        ({
            let m = v.channels[c].queue[0];
            let o = m.words@[1] % 0x1_0000_0000;
            let (w, got) = v.recv_frame(id, slot, buf);
            &&& w == v.recv(id, slot, buf).0
            &&& got.message == Some(m)
            &&& got.rewind == v.recv(id, slot, buf).1.rewind
            &&& m.kind == MsgKind::Data ==> got.result == OpResult::Done(0)
            &&& m.kind == MsgKind::CapTransfer ==> got.result == OpResult::Done(
                if 1 <= o <= v.objects.len() && v.objects[o - 1] is Some && v.objects[o
                    - 1]->0 is Frame {
                    v.objects[o - 1]->0->Frame_0.window
                } else {
                    0
                },
            )
        }),
{
    law_capability_opens_its_channel(v, id, slot, c as u16);
    let m = v.channels[c].queue[0];
    let word = m.words@[1];
    assert(word as u32 == word % 0x1_0000_0000) by (bit_vector);
}

/// Sending frames registers them as a new object and sends a message with the
/// tag that transfers a capability to that object, with all rights.
pub proof fn law_send_frame_effect(
    v: KernelView,
    id: TaskId,
    slot: u16,
    tag: u16,
    frame: SharedFrame,
    c: int,
)
    requires
        may_use(v, id, slot, c),
        v.objects.len() < u32::MAX,
        v.channels[c].queue.len() < 16,
    ensures
        ({
            let (w, sent) = v.send_frame(id, slot, tag, frame);
            let q = v.channels[c].queue;
            let r = w.channels[c].queue;
            &&& sent.result == OpResult::Done(1)
            &&& w.objects == v.objects.push(Some(KernelObject::Frame(frame)))
            &&& r.len() == q.len() + 1
            &&& r.take(q.len() as int) == q
            &&& r.last().tag == tag
            &&& r.last().kind == MsgKind::CapTransfer
            &&& r.last().words@[1] == v.objects.len() + 1
            &&& r.last().words@[2] == 7
        }),
{
    let (u, object) = v.registered(frame);
    assert(may_use(u, id, slot, c)) by {
        let cap = v.tasks.entry(id).cspace[slot as int]->0;
        assert(u.objects[cap.object - 1] == v.objects[cap.object - 1]);
    }
    let msg = crate::ipc::capability_message(tag, object, caps::ALL_BITS);
    let words: [u64; 8] = [0, object as u64, 7, 0, 0, 0, 0, 0];
    assert(words@ =~= crate::ipc::capability_words(object, caps::ALL_BITS));
    law_send_effect(u, id, slot, msg, c);
    assert(v.channels[c].queue.push(msg).take(v.channels[c].queue.len() as int)
        =~= v.channels[c].queue);
}

/// A receiver of frames waits on an empty channel like any other receiver, and
/// gets nothing where it may not receive.
pub proof fn law_receive_frame_waits(v: KernelView, id: TaskId, slot: u16, buf: u64, c: int)
    ensures
        may_use(v, id, slot, c) && in_user_memory(buf, 72) && v.channels[c].queue.len() == 0 ==> {
            let (w, got) = v.recv_frame(id, slot, buf);
            &&& got.result == OpResult::WouldBlock
            &&& got.message is None && got.rewind is None
            &&& w.channels[c].recv_waiters == v.channels[c].recv_waiters.push(id)
            &&& w.channels[c].queue.len() == 0
            &&& w.tasks == v.tasks && w.objects == v.objects
        },
        !in_user_memory(buf, 72) || (forall|k: int| !may_use(v, id, slot, k)) ==> v.recv_frame(
            id,
            slot,
            buf,
        ).0 == v && v.recv_frame(id, slot, buf).1.result == OpResult::Done(0),
{
    if may_use(v, id, slot, c) && in_user_memory(buf, 72) && v.channels[c].queue.len() == 0 {
        law_receive_effect(v, id, slot, buf, c);
    }
    if let Some(k) = v.resolve(id, slot) {
        law_capability_opens_its_channel(v, id, slot, k);
        if k < v.channels.len() {
            assert(may_use(v, id, slot, k as int));
        }
    }
}

/// A sender of frames waits on a full channel like any other sender; what waits
/// in the channel stays as it is.
pub proof fn law_send_frame_waits(
    v: KernelView,
    id: TaskId,
    slot: u16,
    tag: u16,
    frame: SharedFrame,
    c: int,
)
    requires
        may_use(v, id, slot, c),
        v.objects.len() < u32::MAX,
        v.channels[c].queue.len() >= 16,
    ensures
        ({
            let (w, sent) = v.send_frame(id, slot, tag, frame);
            &&& sent.result == OpResult::WouldBlock && sent.rewind is None
            &&& w.channels[c].queue == v.channels[c].queue
            &&& w.channels[c].send_waiters == v.channels[c].send_waiters.push(id)
            &&& w.tasks == v.tasks
        }),
{
    let (u, object) = v.registered(frame);
    assert(may_use(u, id, slot, c)) by {
        let cap = v.tasks.entry(id).cspace[slot as int]->0;
        assert(u.objects[cap.object - 1] == v.objects[cap.object - 1]);
    }
    law_send_effect(u, id, slot, crate::ipc::capability_message(tag, object, caps::ALL_BITS), c);
}

} // verus!
