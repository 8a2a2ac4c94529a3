//! What each system call does, in terms of its arguments and the bytes that were
//! read for it.

use vstd::prelude::*;
use crate::bytes;
use crate::caps;
use crate::caps::{CapRights, Capability, ObjectKind};
use crate::ipc as messages;
use crate::ipc::{Message, MsgKind};
use crate::kernel::caps::{KernelObject, SharedFrame};
use crate::kernel::ipc::effects;
use crate::kernel::ipc::effects::{in_user_memory, may_use};
use crate::kernel::memory::frames::FramesView;
use crate::kernel::syscall;
use crate::kernel::syscall::{Out, Reply};
use crate::kernel::task;
use crate::kernel::task::{Loaded, ParkKind, TasksView};
use crate::kernel::user::Program;
use crate::kernel::KernelView;
use crate::mem;
use crate::sched::{TaskId, TaskState};

verus! {

/// The smaller one of two numbers.
pub open spec fn lesser(a: u64, b: int) -> int {
    if a <= b {
        a as int
    } else {
        b
    }
}

/// Neither the kernel nor the frames change, and nothing is written anywhere:
/// the answer is `out` alone.
pub open spec fn only(v: KernelView, w: KernelView, f: FramesView, g: FramesView, r: Reply, out: Out)
    -> bool {
    &&& w == v
    &&& g == f
    &&& r.out == out
    &&& silent(r)
    &&& r.copy is None
    &&& r.rewind is None
}

/// Nothing is written to the console.
pub open spec fn silent(r: Reply) -> bool {
    r.print@.len() == 0 && r.line is None
}

/// Which bytes of user memory each call reads: a print the `a1` bytes at `a0`,
/// at most 1024; a spawn the `a1` bytes at `a0`, at most 4096; a send the 72
/// bytes at `a1`; and no other call any. They are read exactly if they are user
/// memory as a whole.
pub proof fn law_what_is_read(num: u64, a0: u64, a1: u64)
    ensures
        num == 3 ==> (syscall::needed(num, a0, a1) is Some <==> in_user_memory(
            a0,
            lesser(a1, 1024),
        )),
        num == 6 ==> (syscall::needed(num, a0, a1) is Some <==> in_user_memory(
            a0,
            lesser(a1, 4096),
        )),
        num == 9 ==> (syscall::needed(num, a0, a1) is Some <==> in_user_memory(a1, 72)),
        syscall::needed(num, a0, a1) matches Some(r) ==> {
            &&& num == 3 ==> r.at == a0 && r.len == lesser(a1, 1024)
            &&& num == 6 ==> r.at == a0 && r.len == lesser(a1, 4096)
            &&& num == 9 ==> r.at == a1 && r.len == 72
            &&& num == 3 || num == 6 || num == 9
        },
{
}

/// A print of `a1` bytes at `a0` that are user memory as a whole writes exactly
/// the first `a1` of them to the console, at most 1024: the bytes that were
/// read, all of them, in order. A print of anything else writes nothing. Neither
/// changes anything.
pub proof fn law_print_writes_what_was_read(
    v: KernelView,
    w: KernelView,
    f: FramesView,
    g: FramesView,
    programs: Seq<Program>,
    id: TaskId,
    a0: u64,
    a1: u64,
    a2: u64,
    input: Seq<u8>,
    r: Reply,
)
    requires
        syscall::handled(v, w, f, g, programs, id, 3, a0, a1, a2, input, r),
    ensures
        w == v && g == f,
        r.out == Out::Value(1),
        r.line is None && r.copy is None && r.rewind is None,
        in_user_memory(a0, lesser(a1, 1024)) && input.len() >= lesser(a1, 1024) ==> {
            &&& r.print@.len() == lesser(a1, 1024)
            &&& forall|k: int| 0 <= k < lesser(a1, 1024) ==> #[trigger] r.print@[k] == input[k]
        },
        in_user_memory(a0, lesser(a1, 1024)) && input.len() < lesser(a1, 1024) ==> r.print@
            == input,
        !in_user_memory(a0, lesser(a1, 1024)) ==> r.print@.len() == 0,
{
}

/// The calls that only ask: an exit exits, a yield gives up the turn, a sleep
/// lasts `a0` ticks, a task learns its id and the clock, and a call that does
/// not exist is answered with 0 and told on the console.
pub proof fn law_plain_calls(
    v: KernelView,
    w: KernelView,
    f: FramesView,
    g: FramesView,
    programs: Seq<Program>,
    id: TaskId,
    num: u64,
    a0: u64,
    a1: u64,
    a2: u64,
    input: Seq<u8>,
    r: Reply,
)
    requires
        syscall::handled(v, w, f, g, programs, id, num, a0, a1, a2, input, r),
    ensures
        num == 0 ==> only(v, w, f, g, r, Out::Exit),
        num == 1 ==> only(v, w, f, g, r, Out::Park(ParkKind::Yield)),
        num == 2 ==> only(v, w, f, g, r, Out::Park(ParkKind::Sleep(a0))),
        num == 4 ==> only(v, w, f, g, r, Out::Value(id)),
        num == 5 && v.tasks.sched is Some ==> only(
            v,
            w,
            f,
            g,
            r,
            Out::Value(v.tasks.sched->0.ticks),
        ),
        num > 12 ==> w == v && g == f && r.out == Out::Value(0) && r.print@.len() == 0 && r.line
            is Some && r.copy is None && r.rewind is None,
{
}

// ---------------------------------------------------------------------------
// Spawning
// ---------------------------------------------------------------------------

/// The bytes `b` before the first zero are the first `n`.
pub open spec fn string_ends(b: Seq<u8>, n: int) -> bool {
    &&& 0 <= n <= b.len()
    &&& forall|k: int| 0 <= k < n ==> #[trigger] b[k] != 0
    &&& n < b.len() ==> b[n] == 0
}

proof fn lemma_until_zero(b: Seq<u8>, n: int)
    requires
        string_ends(b, n),
    ensures
        syscall::until_zero(b) == b.take(n),
    decreases b.len(),
{
    if b.len() == 0 || n == 0 {
        assert(b.take(n) =~= Seq::<u8>::empty());
    } else {
        assert(b[0] != 0);
        let rest = b.drop_first();
        assert forall|k: int| 0 <= k < n - 1 implies #[trigger] rest[k] != 0 by {
            assert(rest[k] == b[k + 1]);
        }
        lemma_until_zero(rest, n - 1);
        assert(seq![b[0]] + rest.take(n - 1) =~= b.take(n));
    }
}

/// The task has a capability for the spawn authority, object 1, with the right
/// to call.
pub open spec fn may_spawn(v: KernelView, id: TaskId) -> bool {
    v.tasks.has(id) && exists|k: int|
        0 <= k < v.tasks.entry(id).cspace.len() && authority(#[trigger] v.tasks.entry(id).cspace[k])
}

/// A capability for the spawn authority, object 1, with the right to call.
pub open spec fn authority(c: Option<Capability>) -> bool {
    c is Some && c->0.kind == ObjectKind::Task && c->0.object == 1 && c->0.rights@ & 4 == 4
}

/// A spawn by a task that may loads the first program whose name is the string
/// at `a0`, `n` bytes up to the first zero; if there is none it is answered with
/// 0. A task that may not is refused. Nothing changes yet.
pub proof fn law_spawn_picks_the_program(
    v: KernelView,
    w: KernelView,
    f: FramesView,
    g: FramesView,
    programs: Seq<Program>,
    id: TaskId,
    a0: u64,
    a1: u64,
    a2: u64,
    input: Seq<u8>,
    r: Reply,
    n: int,
    i: int,
)
    requires
        syscall::handled(v, w, f, g, programs, id, 6, a0, a1, a2, input, r),
        in_user_memory(a0, lesser(a1, 4096)),
        input.len() == lesser(a1, 4096),
        string_ends(input, n),
        programs.len() <= usize::MAX,
    ensures
        w == v && g == f,
        !may_spawn(v, id) ==> r.out == Out::Value(0) && r.line is Some,
        may_spawn(v, id) && 0 <= i < programs.len() && vstd::utf8::encode_utf8(programs[i].name@)
            == input.take(n) && (forall|j: int|
            0 <= j < i ==> vstd::utf8::encode_utf8((#[trigger] programs[j]).name@) != input.take(n))
            ==> only(v, w, f, g, r, Out::Load(i as usize)),
        may_spawn(v, id) && (forall|j: int|
            0 <= j < programs.len() ==> vstd::utf8::encode_utf8((#[trigger] programs[j]).name@)
                != input.take(n)) ==> only(v, w, f, g, r, Out::Value(0)),
{
    lemma_until_zero(input, n);
    let name = input.take(n);
    assert(may_spawn(v, id) == v.can_spawn(id)) by {
        let space = v.tasks.entry(id).cspace;
        if v.can_spawn(id) {
            let k = choose|k: int|
                caps::held(space, k) && syscall::spawn_cap(#[trigger] space[k]->0);
            assert(space[k] is Some);
            assert(authority(space[k]));
        }
        if may_spawn(v, id) {
            let k = choose|k: int| 0 <= k < space.len() && authority(#[trigger] space[k]);
            assert(caps::held(space, k));
            assert(syscall::spawn_cap(space[k]->0));
        }
    }
    if may_spawn(v, id) {
        if 0 <= i < programs.len() && vstd::utf8::encode_utf8(programs[i].name@) == name && (forall|
            j: int,
        |
            0 <= j < i ==> vstd::utf8::encode_utf8((#[trigger] programs[j]).name@) != name) {
            assert(crate::kernel::user::named(programs, name, i));
            let k = choose|k: int| #[trigger]
                crate::kernel::user::named(programs, name, k) && syscall::plain(
                    r,
                    Out::Load(k as usize),
                );
            assert(crate::kernel::user::named(programs, name, k));
            if k < i {
                assert(vstd::utf8::encode_utf8(programs[k].name@) != name);
            }
            assert(k == i);
        }
    }
}

/// A spawned task has priority 4 and weight 1, no deadline and no argument, and
/// its id is the result; if the program could not be loaded the result is 0 and
/// there is no new task.
pub proof fn law_spawn_creates_the_task(v: TasksView, image: Result<Loaded, ()>, top: u64)
    requires
        v.wf(),
        v.has_room(),
        top >= 176,
    ensures
        ({
            let (w, s, out) = syscall::spawn_finished(v, image, top);
            &&& image is Err ==> w == v && s is Err && out == Out::Value(0)
            &&& image matches Ok(l) ==> {
                &&& out == Out::Value(v.next_id)
                &&& s is Ok && s->Ok_0.id == v.next_id
                &&& task::effects::starts(s->Ok_0.frame, l.entry, 0, l.stack_top)
                &&& w.sched->0.known(v.next_id)
                &&& w.sched->0.rec(v.next_id).priority == 4
                &&& w.sched->0.rec(v.next_id).weight == 1
                &&& w.sched->0.rec(v.next_id).deadline is None
                &&& w.sched->0.rec(v.next_id).state == TaskState::Ready
            }
        }),
{
    task::effects::law_spawned_user_task(v, image, 4, 1, None, 0, top);
}

// ---------------------------------------------------------------------------
// Channels
// ---------------------------------------------------------------------------

/// The slot that a caller names is its low sixteen bits less one; 0 names the
/// last slot number of all, which no space has.
pub proof fn law_slots_count_from_one(a: u64)
    ensures
        a % 65536 > 0 ==> syscall::slot_named(a) + 1 == a % 65536,
        a % 65536 == 0 ==> syscall::slot_named(a) == 65535,
{
}

/// Creating a channel: a new, empty channel is there, the caller's first free
/// slot, which is the answer counted from 1, gives access to it with all
/// rights, and every channel, every object and every other slot of every task
/// is as before. Where there is no free slot the answer is 0 and nobody's
/// capabilities change.
pub proof fn law_create_effect(
    v: KernelView,
    w: KernelView,
    f: FramesView,
    g: FramesView,
    programs: Seq<Program>,
    id: TaskId,
    a0: u64,
    a1: u64,
    a2: u64,
    input: Seq<u8>,
    r: Reply,
)
    requires
        syscall::handled(v, w, f, g, programs, id, 7, a0, a1, a2, input, r),
        v.tasks.wf(),
        v.objects.len() < u32::MAX,
        v.channels.len() < 65536,
        v.tasks.has(id),
        v.tasks.entry(id).cspace.len() == 64,
    ensures
        ({
            let space = v.tasks.entry(id).cspace;
            let now = w.tasks.entry(id).cspace;
            let c = v.channels.len() as int;
            &&& g == f
            &&& silent(r) && r.copy is None && r.rewind is None
            &&& w.channels.len() == c + 1
            &&& w.channels[c].queue.len() == 0
            &&& w.channels[c].send_waiters.len() == 0
            &&& w.channels[c].recv_waiters.len() == 0
            &&& w.channels.take(c) == v.channels
            &&& w.objects.take(v.objects.len() as int) == v.objects
            &&& w.cursor == v.cursor
            &&& w.tasks.sched == v.tasks.sched && w.tasks.sleeping == v.tasks.sleeping
            &&& r.out matches Out::Value(n) && n <= 64 && {
                &&& n == 0 ==> w.tasks == v.tasks && forall|k: int|
                    0 <= k < 64 ==> (#[trigger] space[k]) is Some
                &&& n > 0 ==> {
                    &&& space[n - 1] is None
                    &&& forall|k: int| 0 <= k < n - 1 ==> (#[trigger] space[k]) is Some
                    &&& may_use(w, id, (n - 1) as u16, c)
                    &&& now[n - 1]->0.rights@ == 7
                    &&& now.len() == 64
                    &&& forall|k: int|
                        0 <= k < 64 && k != n - 1 ==> #[trigger] now[k] == space[k]
                }
            }
            &&& forall|x: TaskId| #[trigger]
                v.tasks.has(x) && x != id ==> w.tasks.has(x) && w.tasks.entry(x)
                    == v.tasks.entry(x)
        }),
{
    let n = choose|n: u64|
        syscall::channel_made(v, w, id, n) && syscall::plain(r, Out::Value(n));
    let space = v.tasks.entry(id).cspace;
    let (u, cap) = v.channel_created();
    CapRights::lemma_mask(caps::ALL_BITS);
    assert(7u8 & 4u8 == 4u8) by (bit_vector);
    assert(w.channels.take(v.channels.len() as int) =~= v.channels);
    assert(w.objects.take(v.objects.len() as int) =~= v.objects);
    if n > 0 {
        let more = space.update(n - 1, Some(cap));
        lemma_space_replaced(u, id, more);
        assert(space[n - 1] is None);
        assert(w.tasks.entry(id).cspace == more);
        assert(may_use(w, id, (n - 1) as u16, v.channels.len() as int));
    }
}

proof fn lemma_space_replaced(v: KernelView, id: TaskId, space: Seq<Option<Capability>>)
    requires
        v.tasks.wf(),
        v.tasks.has(id),
    ensures
        ({
            let w = v.with_space(id, space);
            &&& w.tasks.has(id)
            &&& w.tasks.entry(id) == (task::EntryView { cspace: space, ..v.tasks.entry(id) })
            &&& w.tasks.sched == v.tasks.sched && w.tasks.sleeping == v.tasks.sleeping
            &&& forall|x: TaskId| #[trigger]
                v.tasks.has(x) && x != id ==> w.tasks.has(x) && w.tasks.entry(x)
                    == v.tasks.entry(x)
        }),
{
    let w = v.with_space(id, space);
    let e = task::EntryView { cspace: space, ..v.tasks.entry(id) };
    let p = task::place(v.tasks.entries, id);
    assert(task::entry_is(v.tasks.entries, p, id));
    task::lemma_with_entry(v.tasks, id, e);
    assert(task::entry_is(w.tasks.entries, p, id));
    task::lemma_place(w.tasks.entries, p, id);
    assert forall|x: TaskId| #[trigger] v.tasks.has(x) && x != id implies w.tasks.has(x)
        && w.tasks.entry(x) == v.tasks.entry(x) by {
        let q = task::place(v.tasks.entries, x);
        assert(task::entry_is(v.tasks.entries, q, x));
        assert(task::entry_is(w.tasks.entries, q, x));
        task::lemma_place(w.tasks.entries, q, x);
    }
}

/// Closing a channel empties the slot that the caller names, and that slot
/// alone; the channel and its messages stay.
pub proof fn law_close_effect(
    v: KernelView,
    w: KernelView,
    f: FramesView,
    g: FramesView,
    programs: Seq<Program>,
    id: TaskId,
    a0: u64,
    a1: u64,
    a2: u64,
    input: Seq<u8>,
    r: Reply,
)
    requires
        syscall::handled(v, w, f, g, programs, id, 8, a0, a1, a2, input, r),
        v.tasks.wf(),
        v.tasks.has(id),
        1 <= a0 <= v.tasks.entry(id).cspace.len() <= 65535,
    ensures
        ({
            let space = v.tasks.entry(id).cspace;
            let now = w.tasks.entry(id).cspace;
            &&& g == f
            &&& r.out == Out::Value(1)
            &&& silent(r) && r.copy is None && r.rewind is None
            &&& now.len() == space.len()
            &&& now[a0 - 1] is None
            &&& forall|k: int| 0 <= k < space.len() && k != a0 - 1 ==> #[trigger] now[k] == space[k]
            &&& w.channels == v.channels && w.objects == v.objects && w.cursor == v.cursor
            &&& w.tasks.sched == v.tasks.sched
            &&& forall|x: TaskId| #[trigger]
                v.tasks.has(x) && x != id ==> w.tasks.has(x) && w.tasks.entry(x)
                    == v.tasks.entry(x)
        }),
{
    let slot = syscall::slot_named(a0);
    assert(slot == a0 - 1);
    let space = v.tasks.entry(id).cspace;
    if caps::held(space, slot as int) {
        lemma_space_replaced(v, id, space.update(slot as int, None));
    }
}

/// A send puts the message that lies in the 72 bytes at `a1` at the end of the
/// queue: with the tag, the kind and the eight words that are there. On a full
/// queue the sender waits instead.
pub proof fn law_send_call_effect(
    v: KernelView,
    w: KernelView,
    f: FramesView,
    g: FramesView,
    programs: Seq<Program>,
    id: TaskId,
    a0: u64,
    a1: u64,
    a2: u64,
    input: Seq<u8>,
    r: Reply,
    c: int,
)
    requires
        syscall::handled(v, w, f, g, programs, id, 9, a0, a1, a2, input, r),
        1 <= a0 <= 65535,
        may_use(v, id, (a0 - 1) as u16, c),
        in_user_memory(a1, 72),
        input.len() == 72,
        input[2] <= 1,
    ensures
        ({
            let q = v.channels[c].queue;
            let p = w.channels[c].queue;
            &&& g == f
            &&& silent(r) && r.copy is None
            &&& w.objects == v.objects
            &&& q.len() >= 16 ==> r.out == Out::Park(ParkKind::Block) && p == q
                && w.channels[c].send_waiters == v.channels[c].send_waiters.push(id)
            &&& q.len() < 16 ==> {
                &&& r.out == Out::Value(1)
                &&& p.len() == q.len() + 1
                &&& p.take(q.len() as int) == q
                &&& p.last().tag == input[0] + 256 * input[1]
                &&& p.last().kind == MsgKind::Data <==> input[2] == 0
                &&& forall|i: int|
                    0 <= i < 8 ==> #[trigger] p.last().words@[i] == bytes::eight_bytes(
                        input,
                        8 + 8 * i,
                    )
            }
            &&& forall|k: int|
                0 <= k < v.channels.len() && k != c ==> #[trigger] w.channels[k] == v.channels[k]
        }),
{
    let slot = syscall::slot_named(a0);
    assert(slot == a0 - 1);
    assert(syscall::accepted(9, a0, a1, input) == input);
    let m = choose|m: Message| #[trigger]
        messages::decodes_to(input, m) && {
            let (u, sent) = v.send(id, slot, m);
            &&& w == u
            &&& r.out == syscall::op_out(sent.result)
            &&& r.rewind == sent.rewind
            &&& r.print@.len() == 0 && r.line is None && r.copy is None
        };
    messages::laws::law_message_layout(input, m);
    effects::law_send_effect(v, id, slot, m, c);
    let q = v.channels[c].queue;
    if q.len() < 16 {
        assert(q.push(m).take(q.len() as int) =~= q);
        assert(w.channels[c].queue.last() == m);
    }
}

/// Bytes outside user memory, or of no kind of message, are not sent, and
/// nothing changes.
pub proof fn law_bad_messages_are_refused(
    v: KernelView,
    w: KernelView,
    f: FramesView,
    g: FramesView,
    programs: Seq<Program>,
    id: TaskId,
    a0: u64,
    a1: u64,
    a2: u64,
    input: Seq<u8>,
    r: Reply,
)
    requires
        syscall::handled(v, w, f, g, programs, id, 9, a0, a1, a2, input, r),
        !in_user_memory(a1, 72) || input.len() < 72 || input[2] > 1,
    ensures
        only(v, w, f, g, r, Out::Value(0)),
{
    if in_user_memory(a1, 72) && input.len() >= 72 {
        assert(syscall::accepted(9, a0, a1, input)[2] == input[2]);
    }
}

/// The bytes `b` hold the message `m`.
pub open spec fn holds(b: Seq<u8>, m: Message) -> bool {
    &&& b.len() == 72
    &&& b[0] + 256 * b[1] == m.tag
    &&& b[2] == (if m.kind == MsgKind::Data {
        0u8
    } else {
        1
    })
    &&& forall|i: int| 0 <= i < 8 ==> #[trigger] m.words@[i] == bytes::eight_bytes(b, 8 + 8 * i)
}

/// A receive writes the oldest message, whole, to the buffer at `a1` and takes
/// it off the queue; all others stay in order. On an empty queue the receiver
/// waits instead and nothing is written.
pub proof fn law_receive_call_effect(
    v: KernelView,
    w: KernelView,
    f: FramesView,
    g: FramesView,
    programs: Seq<Program>,
    id: TaskId,
    a0: u64,
    a1: u64,
    a2: u64,
    input: Seq<u8>,
    r: Reply,
    c: int,
)
    requires
        syscall::handled(v, w, f, g, programs, id, 10, a0, a1, a2, input, r),
        1 <= a0 <= 65535,
        may_use(v, id, (a0 - 1) as u16, c),
        in_user_memory(a1, 72),
    ensures
        ({
            let q = v.channels[c].queue;
            let p = w.channels[c].queue;
            &&& g == f
            &&& silent(r)
            &&& q.len() == 0 ==> r.out == Out::Park(ParkKind::Block) && r.copy is None && p == q
                && w.channels[c].recv_waiters == v.channels[c].recv_waiters.push(id)
            &&& q.len() > 0 ==> {
                &&& r.out == Out::Value(1)
                &&& r.copy is Some && r.copy->0.at == a1 && holds(r.copy->0.bytes@, q[0])
                &&& p.len() == q.len() - 1
                &&& forall|k: int| 0 <= k < p.len() ==> #[trigger] p[k] == q[k + 1]
            }
            &&& forall|k: int|
                0 <= k < v.channels.len() && k != c ==> #[trigger] w.channels[k] == v.channels[k]
        }),
{
    let slot = syscall::slot_named(a0);
    assert(slot == a0 - 1);
    effects::law_receive_effect(v, id, slot, a1, c);
    if v.channels[c].queue.len() > 0 {
        messages::laws::law_encoded_layout(v.channels[c].queue[0]);
    }
}

/// The slot of the task gives access to no channel.
pub open spec fn no_access(v: KernelView, id: TaskId, slot: u16) -> bool {
    forall|c: int| !may_use(v, id, slot, c)
}

/// Whoever has no capability for the channel in the slot that it names, and
/// whoever wants a message outside user memory, gets 0 and nothing changes.
pub proof fn law_access_is_checked(
    v: KernelView,
    w: KernelView,
    f: FramesView,
    g: FramesView,
    programs: Seq<Program>,
    id: TaskId,
    num: u64,
    a0: u64,
    a1: u64,
    a2: u64,
    input: Seq<u8>,
    r: Reply,
)
    requires
        syscall::handled(v, w, f, g, programs, id, num, a0, a1, a2, input, r),
        num == 9 || num == 10 || num == 12,
        (1 <= a0 <= 65535 && no_access(v, id, (a0 - 1) as u16)) || !in_user_memory(a1, 72),
    ensures
        w == v && g == f,
        r.out == Out::Value(0),
        silent(r) && r.copy is None && r.rewind is None,
{
    let slot = syscall::slot_named(a0);
    if in_user_memory(a1, 72) {
        assert(slot == a0 - 1);
        let m = choose|m: Message| #[trigger]
            messages::decodes_to(syscall::accepted(num, a0, a1, input), m) && v.send(
                id,
                slot,
                m,
            ).0 == w && r.out == syscall::op_out(v.send(id, slot, m).1.result);
        effects::law_refused_operations_change_nothing(v, id, slot, m, a1);
    }
    if let Some(c) = v.resolve(id, slot) {
        effects::law_capability_opens_its_channel(v, id, slot, c);
    }
}

/// A receive of a frame writes the oldest message to the buffer at `a1` like a
/// plain receive, and answers with the address at which the frame is mapped
/// that the message transfers.
pub proof fn law_receive_frame_call_effect(
    v: KernelView,
    w: KernelView,
    f: FramesView,
    g: FramesView,
    programs: Seq<Program>,
    id: TaskId,
    a0: u64,
    a1: u64,
    a2: u64,
    input: Seq<u8>,
    r: Reply,
    c: int,
)
    requires
        syscall::handled(v, w, f, g, programs, id, 12, a0, a1, a2, input, r),
        1 <= a0 <= 65535,
        may_use(v, id, (a0 - 1) as u16, c),
        in_user_memory(a1, 72),
        v.channels[c].queue.len() > 0,
    ensures
        ({
            let q = v.channels[c].queue;
            let p = w.channels[c].queue;
            let o = q[0].words@[1] % 0x1_0000_0000;
            &&& g == f
            &&& silent(r)
            &&& r.copy is Some && r.copy->0.at == a1 && holds(r.copy->0.bytes@, q[0])
            &&& p.len() == q.len() - 1
            &&& forall|k: int| 0 <= k < p.len() ==> #[trigger] p[k] == q[k + 1]
            &&& q[0].kind == MsgKind::Data ==> r.out == Out::Value(0)
            &&& q[0].kind == MsgKind::CapTransfer ==> r.out == Out::Value(
                if 1 <= o <= v.objects.len() && v.objects[o - 1] is Some && v.objects[o
                    - 1]->0 is Frame {
                    v.objects[o - 1]->0->Frame_0.window
                } else {
                    0
                },
            )
        }),
{
    let slot = syscall::slot_named(a0);
    assert(slot == a0 - 1);
    effects::law_receive_effect(v, id, slot, a1, c);
    effects::law_receive_frame_effect(v, id, slot, a1, c);
    messages::laws::law_encoded_layout(v.channels[c].queue[0]);
}

/// A send of `a1` bytes in frames sets aside as many whole pages as hold them
/// and no more, in frames that were free and follow one another; they are to be
/// mapped page by page, writable for users, where the window for shared frames
/// goes on, and the window moves on by as much. Nothing else changes.
pub proof fn law_frames_are_set_aside(
    v: KernelView,
    w: KernelView,
    f: FramesView,
    g: FramesView,
    programs: Seq<Program>,
    id: TaskId,
    a0: u64,
    a1: u64,
    a2: u64,
    input: Seq<u8>,
    r: Reply,
)
    requires
        syscall::handled(v, w, f, g, programs, id, 11, a0, a1, a2, input, r),
        r.out is Share,
        f.map is Some ==> f.map->0.hint <= f.map->0.used.len(),
    ensures
        ({
            let s = r.out->Share_0.frame;
            let maps = r.out->Share_0.maps@;
            let first = s.phys / 4096;
            let used = f.map->0.used;
            let now = g.map->0.used;
            &&& s.pages * 4096 >= a1 && (s.pages - 1) * 4096 < a1
            &&& s.phys % 4096 == 0
            &&& first + s.pages <= used.len()
            &&& now.len() == used.len()
            &&& forall|k: int|
                #![trigger now[k]]
                #![trigger used[k]]
                0 <= k < used.len() ==> (if first <= k < first + s.pages {
                    !used[k] && now[k]
                } else {
                    now[k] == used[k]
                })
            &&& s.window == v.cursor
            &&& w.cursor == v.cursor + s.pages * 4096
            &&& w.cursor <= 0x12_0800_0000
            &&& w.tasks == v.tasks && w.channels == v.channels && w.objects == v.objects
            &&& maps.len() == s.pages
            &&& forall|k: int| #![trigger maps[k]]
                0 <= k < maps.len() ==> maps[k].virt == s.window + k * 4096 && maps[k].flags.writable
                    && maps[k].flags.user && !maps[k].flags.no_execute
            &&& s.phys + s.pages * 4096 <= u64::MAX ==> forall|k: int| #![trigger maps[k]]
                0 <= k < maps.len() ==> maps[k].phys == s.phys + k * 4096
        }),
{
    let s = r.out->Share_0.frame;
    let first = (s.phys / 4096) as int;
    let m = f.map->0;
    mem::laws::law_allocation_is_fresh(m, s.pages as int, first);
    let maps = r.out->Share_0.maps@;
    assert forall|k: int| 0 <= k < maps.len() implies (#[trigger] maps[k]).virt == s.window + k
        * 4096 && (s.phys + s.pages * 4096 <= u64::MAX ==> maps[k].phys == s.phys + k * 4096) by {
        assert(k * 4096 <= s.pages * 4096);
    }
}

/// A send of frames is refused exactly where there is nothing to send, no room
/// in the window, or no run of free frames that is long enough; and then
/// nothing changes.
pub proof fn law_frames_are_refused(
    v: KernelView,
    w: KernelView,
    f: FramesView,
    g: FramesView,
    programs: Seq<Program>,
    id: TaskId,
    a0: u64,
    a1: u64,
    a2: u64,
    input: Seq<u8>,
    r: Reply,
)
    requires
        syscall::handled(v, w, f, g, programs, id, 11, a0, a1, a2, input, r),
        !(r.out is Share),
    ensures
        only(v, w, f, g, r, Out::Value(0)),
        a1 == 0 || a1 > usize::MAX || v.cursor + (a1 + 4095) / 4096 * 4096 > 0x12_0800_0000 || f.map
            is None || forall|s: int, n: int|
            #![trigger mem::free_run(f.map->0.used, s, n)]
            n * 4096 >= a1 && (n - 1) * 4096 < a1 ==> !mem::free_run(f.map->0.used, s, n),
{
    if f.map is Some {
        let used = f.map->0.used;
        assert forall|s: int, n: int| n * 4096 >= a1 && (n - 1) * 4096 < a1 && a1 <= usize::MAX
            && !mem::fits(used, 0, used.len() as int, crate::kernel::ipc::pages_for(a1 as usize))
            implies !(#[trigger] mem::free_run(used, s, n)) by {
            assert(n == crate::kernel::ipc::pages_for(a1 as usize));
        }
    }
}

/// When its pages were mapped, a frame is registered as a new object and a
/// message goes to the channel that transfers a capability to it, with the tag
/// in the low sixteen bits of `a2`. When they could not be, the answer is 0 and
/// nothing changes.
pub proof fn law_frame_is_shipped(
    v: KernelView,
    w: KernelView,
    id: TaskId,
    a0: u64,
    a2: u64,
    frame: SharedFrame,
    mapped: bool,
    r: Reply,
    c: int,
)
    requires
        syscall::frame_shipped(v, w, id, a0, a2, frame, mapped, r),
        1 <= a0 <= 65535,
        may_use(v, id, (a0 - 1) as u16, c),
        v.objects.len() < u32::MAX,
        v.channels[c].queue.len() < 16,
    ensures
        silent(r) && r.copy is None,
        !mapped ==> w == v && r.out == Out::Value(0) && r.rewind is None,
        mapped ==> {
            let q = v.channels[c].queue;
            let p = w.channels[c].queue;
            &&& r.out == Out::Value(1)
            &&& w.objects == v.objects.push(Some(KernelObject::Frame(frame)))
            &&& p.len() == q.len() + 1
            &&& p.take(q.len() as int) == q
            &&& p.last().tag == a2 % 65536
            &&& p.last().kind == MsgKind::CapTransfer
            &&& p.last().words@[1] == v.objects.len() + 1
            &&& p.last().words@[2] == 7
        },
{
    assert(syscall::slot_named(a0) == a0 - 1);
    effects::law_send_frame_effect(v, id, syscall::slot_named(a0), (a2 % 65536) as u16, frame, c);
}

// ---------------------------------------------------------------------------
// Return
// ---------------------------------------------------------------------------

/// How a syscall returns: a value goes to the caller, in its own frame, and no
/// task changes; who exits, parks or sleeps is no longer the one that runs in
/// that frame, and another frame is restored as it is.
pub proof fn law_resume_effect(v: TasksView, frame: u64, x: u64, how: ParkKind)
    ensures
        ({
            let (w, s) = syscall::resumption(v, frame, Out::Value(x));
            w == v && s.frame == frame && s.rax == Some(x)
        }),
        ({
            let (w, s) = syscall::resumption(v, frame, Out::Park(how));
            w == v.park(frame, how).0 && s.frame == v.park(frame, how).1 && s.rax is None
        }),
        ({
            let (w, s) = syscall::resumption(v, frame, Out::Exit);
            w == v.exit().0 && s.frame == v.exit().1 && s.rax is None
        }),
{
}

/// How the `syscall` instruction is set up: it is enabled, with the rest of the
/// register as it was; it enters at the stub, in the kernel code segment 8, with
/// interrupts off; and the kernel finds its area through `gs`.
pub proof fn law_syscall_setup(efer: u64, entry: u64, gs: u64)
    ensures
        ({
            let w = syscall::setup_writes(efer, entry, gs);
            &&& w.len() == 6
            &&& w[0].msr == 0xC000_0080 && w[0].value / 2 == efer / 2 && w[0].value % 2 == 1
            &&& w[1].msr == 0xC000_0082 && w[1].value == entry
            &&& w[2].msr == 0xC000_0081 && w[2].value / 0x1_0000_0000 % 0x1_0000 == 8
            &&& w[2].value / 0x1_0000_0000_0000 == 8 && w[2].value % 0x1_0000_0000 == 0
            &&& w[3].msr == 0xC000_0084 && w[3].value == 0x200
            &&& w[4].msr == 0xC000_0101 && w[4].value == gs
            &&& w[5].msr == 0xC000_0102 && w[5].value == 0
        }),
{
    assert((efer | 1) / 2 == efer / 2 && (efer | 1) % 2 == 1) by (bit_vector);
}

/// User memory is what lies between the start of the user programs and the top
/// of the user stack; a pointer is good for at most 4096 bytes of it.
pub proof fn law_user_pointers(p: u64, len: int)
    ensures
        syscall::ptr_ok(p, len) <==> in_user_memory(p, len) && len <= 4096,
{
}

/// When an outcome can be carried out: a value always; a parking, and an exit,
/// while a task runs, and a parking only if another one takes over; a sleep only
/// if its end is a tick of the clock. What is still to be loaded or mapped is
/// not carried out.
pub proof fn law_when_a_call_returns(v: TasksView, x: u64, ms: u64, i: usize)
    requires
        v.sched is Some,
    ensures
        syscall::ready_to_resume(v, Out::Value(x)),
        syscall::ready_to_resume(v, Out::Exit) <==> v.sched->0.running is Some,
        syscall::ready_to_resume(v, Out::Park(ParkKind::Yield)) <==> v.can_park(),
        syscall::ready_to_resume(v, Out::Park(ParkKind::Block)) <==> v.can_park(),
        syscall::ready_to_resume(v, Out::Park(ParkKind::Sleep(ms))) <==> v.can_park()
            && v.sched->0.ticks + ms <= 0xFFFF_FFFF_FFFF_FFFF,
        !syscall::ready_to_resume(v, Out::Load(i)),
{
}

} // verus!
