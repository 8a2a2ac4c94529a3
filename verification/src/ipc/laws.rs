//! What holds of every channel and every message.

use vstd::prelude::*;
use crate::bytes;
use crate::caps::ObjectKind;
use crate::ipc;
use crate::ipc::{Message, MsgKind, MESSAGE_SIZE, MSG_WORDS};

verus! {

/// Messages leave a channel in the order in which they came: with `m` pushed
/// onto `s`, the first `s.len()` pops give the messages of `s` in order, and
/// the next one gives `m` and leaves the channel empty.
pub proof fn law_channel_is_fifo(s: Seq<Message>, m: Message, k: int)
    requires
        0 <= k <= s.len(),
    ensures
        s.push(m).skip(k)[0] == (if k < s.len() {
            s[k]
        } else {
            m
        }),
        s.push(m).skip(k).drop_first() == s.push(m).skip(k + 1),
        s.push(m).skip(s.len() as int + 1) == Seq::<Message>::empty(),
{
    assert(s.push(m).skip(k).drop_first() =~= s.push(m).skip(k + 1));
    assert(s.push(m).skip(s.len() as int + 1) =~= Seq::<Message>::empty());
}

/// A pop of a channel that held nothing but the pushed message gives it back
/// and restores the channel.
pub proof fn law_pop_undoes_push_on_empty(m: Message)
    ensures
        Seq::<Message>::empty().push(m)[0] == m,
        Seq::<Message>::empty().push(m).drop_first() == Seq::<Message>::empty(),
{
    assert(Seq::<Message>::empty().push(m).drop_first() =~= Seq::<Message>::empty());
}

/// Taking a message out by its tag leaves every other message, in order, and
/// is determined by the tag.
pub proof fn law_pop_tag_keeps_the_others(s: Seq<Message>, tag: u16, i: int, j: int)
    requires
        ipc::first_tagged(s, tag, i),
        ipc::first_tagged(s, tag, j),
    ensures
        i == j,
        s.remove(i).len() == s.len() - 1,
        forall|k: int|
            0 <= k < s.len() - 1 ==> #[trigger] s.remove(i)[k] == (if k < i {
                s[k]
            } else {
                s[k + 1]
            }),
        forall|k: int| 0 <= k < i ==> (#[trigger] s.remove(i)[k]).tag != tag,
{
}

/// Taking out the tag of the oldest message is a pop.
pub proof fn law_pop_tag_of_the_oldest(s: Seq<Message>)
    requires
        s.len() > 0,
    ensures
        ipc::first_tagged(s, s[0].tag, 0),
        s.remove(0) == s.drop_first(),
{
    assert(s.remove(0) =~= s.drop_first());
}

proof fn lemma_word_bytes(words: Seq<u64>, n: nat, i: int)
    requires
        n <= words.len(),
        0 <= i < n,
    ensures
        ipc::word_bytes(words, n).len() == 8 * n,
        ipc::word_bytes(words, n).subrange(8 * i, 8 * i + 8) == bytes::le_bytes(
            words[i] as nat,
            8,
        ),
    decreases n,
{
    let b = ipc::word_bytes(words, n);
    let less = ipc::word_bytes(words, (n - 1) as nat);
    let last = bytes::le_bytes(words[n - 1] as nat, 8);
    bytes::lemma_le_len(words[n - 1] as nat, 8);
    if n == 1 {
        assert(b.subrange(0, 8) =~= last);
    } else {
        lemma_word_bytes(words, (n - 1) as nat, if i < n - 1 {
            i
        } else {
            0
        });
        if i < n - 1 {
            assert(b.subrange(8 * i, 8 * i + 8) =~= less.subrange(8 * i, 8 * i + 8));
        } else {
            assert(b.subrange(8 * i, 8 * i + 8) =~= last);
        }
    }
}

/// A message is read back from its bytes.
pub proof fn law_message_round_trip(m: Message)
    ensures
        ipc::encoded(m).len() == MESSAGE_SIZE,
        ipc::decodes_to(ipc::encoded(m), m),
{
    let b = ipc::encoded(m);
    lemma_word_bytes(m.words@, MSG_WORDS as nat, 0);
    let w = ipc::word_bytes(m.words@, MSG_WORDS as nat);
    assert(bytes::field(b, 0, 2) == m.tag) by {
        let t = b.subrange(0, 2);
        reveal_with_fuel(bytes::le_value, 3);
        assert(t.drop_first().drop_first() =~= Seq::<u8>::empty());
        assert(t[0] == (m.tag % 256) as u8);
        assert(t.drop_first()[0] == (m.tag / 256) as u8);
    }
    assert forall|i: int| 0 <= i < MSG_WORDS implies #[trigger] m.words@[i] == bytes::field(
        b,
        8 + 8 * i,
        8,
    ) by {
        lemma_word_bytes(m.words@, MSG_WORDS as nat, i);
        assert(b.subrange(8 + 8 * i, 8 + 8 * i + 8) =~= w.subrange(8 * i, 8 * i + 8));
        reveal_with_fuel(bytes::range, 9);
        bytes::law_le_round_trip(m.words@[i] as nat, 8);
    }
}

/// Bytes stand for at most one message.
pub proof fn law_decoding_is_determined(b: Seq<u8>, m: Message, n: Message)
    requires
        ipc::decodes_to(b, m),
        ipc::decodes_to(b, n),
    ensures
        m == n,
{
    assert forall|i: int| 0 <= i < MSG_WORDS implies m.words@[i] == n.words@[i] by {}
    assert(m.words@ =~= n.words@);
    assert(m.words =~= n.words);
}

/// Where a message lies in its bytes: the tag in the first two, the kind in the
/// third, and the word number `i` in the eight from `8 + 8 * i` on, whole.
pub proof fn law_message_layout(b: Seq<u8>, m: Message)
    requires
        ipc::decodes_to(b, m),
    ensures
        b.len() >= 72,
        m.tag == b[0] + 256 * b[1],
        m.kind == MsgKind::Data <==> b[2] == 0,
        m.kind == MsgKind::CapTransfer <==> b[2] == 1,
        forall|i: int| 0 <= i < 8 ==> #[trigger] m.words@[i] == bytes::eight_bytes(b, 8 + 8 * i),
{
    bytes::law_fields_are_little_endian(b, 0);
    assert forall|i: int| 0 <= i < 8 implies #[trigger] m.words@[i] == bytes::eight_bytes(
        b,
        8 + 8 * i,
    ) by {
        bytes::law_fields_are_little_endian(b, 8 + 8 * i);
    }
}

/// The bytes of a message: 72 of them, the tag in the first two, the kind in
/// the third, and the word number `i` in the eight from `8 + 8 * i` on, whole.
pub proof fn law_encoded_layout(m: Message)
    ensures
        ({
            let b = ipc::encoded(m);
            &&& b.len() == 72
            &&& b[0] + 256 * b[1] == m.tag
            &&& m.kind == MsgKind::Data ==> b[2] == 0
            &&& m.kind == MsgKind::CapTransfer ==> b[2] == 1
            &&& forall|k: int| 3 <= k < 8 ==> #[trigger] b[k] == 0
            &&& forall|i: int|
                0 <= i < 8 ==> #[trigger] m.words@[i] == bytes::eight_bytes(b, 8 + 8 * i)
        }),
{
    lemma_word_bytes(m.words@, MSG_WORDS as nat, 0);
    law_message_round_trip(m);
    law_message_layout(ipc::encoded(m), m);
}

/// A transfer of a capability names its object in the second word and its
/// rights in the third; every other word is 0.
pub proof fn law_capability_message_names_its_object(tag: u16, object: u32, rights: u8)
    ensures
        ({
            let m = ipc::capability_message(tag, object, rights);
            &&& m.tag == tag
            &&& m.kind == MsgKind::CapTransfer
            &&& m.words@[1] == object
            &&& m.words@[2] == rights
            &&& forall|i: int| 0 <= i < 8 && i != 1 && i != 2 ==> #[trigger] m.words@[i] == 0
        }),
{
    let words: [u64; 8] = [0, object as u64, rights as u64, 0, 0, 0, 0, 0];
    assert(words@ =~= ipc::capability_words(object, rights));
}

/// A push puts the message behind all others, unless there are sixteen: then it
/// is refused and nothing changes.
pub proof fn law_push_effect(
    s: Seq<Message>,
    t: Seq<Message>,
    msg: Message,
    r: Result<(), ipc::ChannelError>,
)
    requires
        ipc::pushed(s, t, msg, r),
        s.len() <= 16,
    ensures
        s.len() < 16 ==> r is Ok && t.len() == s.len() + 1 && t.last() == msg,
        s.len() < 16 ==> forall|k: int| 0 <= k < s.len() ==> #[trigger] t[k] == s[k],
        s.len() == 16 ==> r is Err && t == s,
{
}

/// A pop takes the oldest message and leaves all others in their order; of an
/// empty channel it takes none.
pub proof fn law_pop_effect(s: Seq<Message>, t: Seq<Message>, r: Option<Message>)
    requires
        ipc::popped(s, t, r),
    ensures
        s.len() == 0 ==> r is None && t.len() == 0,
        s.len() > 0 ==> r == Some(s[0]) && t.len() == s.len() - 1,
        s.len() > 0 ==> forall|k: int| 0 <= k < t.len() ==> #[trigger] t[k] == s[k + 1],
{
}

/// Taking out a message by its tag takes the oldest one that has it, and leaves
/// all others in their order; where none has it, nothing changes.
pub proof fn law_pop_tag_effect(
    s: Seq<Message>,
    t: Seq<Message>,
    tag: u16,
    r: Option<Message>,
    i: int,
)
    requires
        ipc::tag_popped(s, t, tag, r),
    ensures
        0 <= i < s.len() && s[i].tag == tag && (forall|j: int|
            0 <= j < i ==> (#[trigger] s[j]).tag != tag) ==> {
            &&& r == Some(s[i])
            &&& t.len() == s.len() - 1
            &&& forall|k: int|
                0 <= k < t.len() ==> #[trigger] t[k] == (if k < i {
                    s[k]
                } else {
                    s[k + 1]
                })
        },
        (forall|j: int| 0 <= j < s.len() ==> (#[trigger] s[j]).tag != tag) ==> r is None && t == s,
{
    if let Some(m) = r {
        let n = choose|n: int| #[trigger]
            ipc::first_tagged(s, tag, n) && m == s[n] && t == s.remove(n);
        assert(s[n].tag == tag);
        if 0 <= i < s.len() && s[i].tag == tag && (forall|j: int|
            0 <= j < i ==> (#[trigger] s[j]).tag != tag) {
            assert(n == i);
        }
    } else if 0 <= i < s.len() && s[i].tag == tag {
        assert(ipc::tagged(s, tag));
    }
}

/// A capability can be transferred by a message that says so and names an
/// object, other than object 0, in the lower half of its second word, and only
/// if that is a channel or frames.
pub proof fn law_what_can_be_transferred(m: Message, kind: ObjectKind)
    ensures
        ipc::object_of(m.words@[1]) == m.words@[1] % 0x1_0000_0000,
        m.kind == MsgKind::Data ==> !ipc::transfers(m, kind),
        m.words@[1] % 0x1_0000_0000 == 0 ==> !ipc::transfers(m, kind),
        kind == ObjectKind::Task ==> !ipc::transfers(m, kind),
        m.kind == MsgKind::CapTransfer && m.words@[1] % 0x1_0000_0000 != 0 && (kind
            == ObjectKind::Channel || kind == ObjectKind::Frame || kind == ObjectKind::PhysFrame)
            ==> ipc::transfers(m, kind),
{
}

/// The text of a message shows its tag, its kind and its first two words.
pub proof fn law_message_text(m: Message)
    ensures
        m.text() == "msg(tag="@ + crate::text::decimal(m.tag as nat) + ", kind="@ + (match m.kind {
            MsgKind::Data => "data"@,
            MsgKind::CapTransfer => "cap"@,
        }) + ", words[0..2]=["@ + crate::text::decimal(m.words@[0] as nat) + ", "@
            + crate::text::decimal(m.words@[1] as nat) + ", …])"@,
        ipc::ChannelError::Full.text() == "channel is full"@,
{
}

} // verus!
