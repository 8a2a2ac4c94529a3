//! IPC core: bounded message channels with capability transfer.
//!
//! IPC is **message passing over bounded channels**. A message is a
//! fixed-size word array (`8 × u64` = 64 bytes): small enough to copy in a
//! few cycles, large enough for a pointer, a length or a small record.
//!
//! The "zero-copy" path is explicit and capability-driven: instead of copying
//! a large payload, a sender can transfer a *capability* to a shared
//! [`crate::caps::ObjectKind::Frame`] inside a message. The receiver then
//! uses that frame; nothing is copied.
//!
//! The kernel layer (see [`crate::kernel::ipc`]) adds blocking semantics
//! (senders block on a full channel, receivers on an empty one); this module
//! is the allocation-free, deterministic core.

use vstd::prelude::*;
use crate::bytes;
use crate::caps::ObjectKind;
use crate::text;

pub mod laws;

verus! {

/// Words per message payload.
pub const MSG_WORDS: usize = 8;

/// Message queue capacity per channel.
pub const CHANNEL_CAPACITY: usize = 16;

/// Bytes that a message takes at the syscall boundary.
pub const MESSAGE_SIZE: usize = 72;

pub type Word = u64;

#[derive(Clone, Copy, PartialEq, Eq, Debug, Structural)]
pub enum MsgKind {
    /// Plain data payload in `words`.
    Data,
    /// `words[0]` = capability slot of the sender being transferred;
    /// `words[1]` = kernel object id.
    CapTransfer,
}

impl MsgKind {
    /// The byte that stands for the kind at the syscall boundary.
    pub open spec fn code(self) -> u8 {
        match self {
            MsgKind::Data => 0,
            MsgKind::CapTransfer => 1,
        }
    }
}

/// A single IPC message.
#[derive(Clone, Copy, PartialEq, Eq, Debug)]
pub struct Message {
    /// Sender-chosen tag (used by protocols, e.g. request/response ids).
    pub tag: u16,
    pub kind: MsgKind,
    pub words: [Word; MSG_WORDS],
}

/// The bytes of the first `n` words, one word after the other.
pub open spec fn word_bytes(words: Seq<Word>, n: nat) -> Seq<u8>
    decreases n,
{
    if n == 0 {
        Seq::empty()
    } else {
        word_bytes(words, (n - 1) as nat) + bytes::le_bytes(words[n - 1] as nat, 8)
    }
}

/// The bytes of a message: the tag, the kind, five bytes of padding, and the
/// words, each number with its lowest byte first.
pub open spec fn encoded(m: Message) -> Seq<u8> {
    seq![(m.tag % 256) as u8, (m.tag / 256) as u8, m.kind.code(), 0, 0, 0, 0, 0] + word_bytes(
        m.words@,
        MSG_WORDS as nat,
    )
}

/// The bytes `b` are those of the message `m`, whatever the padding holds.
pub open spec fn decodes_to(b: Seq<u8>, m: Message) -> bool {
    &&& b.len() >= MESSAGE_SIZE
    &&& m.tag == bytes::field(b, 0, 2)
    &&& b[2] == m.kind.code()
    &&& forall|i: int|
        0 <= i < MSG_WORDS ==> #[trigger] m.words@[i] == bytes::field(b, 8 + 8 * i, 8)
}

/// The words of a message that transfers a capability.
pub open spec fn capability_words(object: u32, rights_byte: u8) -> Seq<Word> {
    Seq::new(
        MSG_WORDS as nat,
        |i: int|
            if i == 1 {
                object as u64
            } else if i == 2 {
                rights_byte as u64
            } else {
                0
            },
    )
}

/// The message that transfers a capability to `object`.
pub open spec fn capability_message(tag: u16, object: u32, rights_byte: u8) -> Message {
    Message {
        tag,
        kind: MsgKind::CapTransfer,
        words: choose|w: [Word; MSG_WORDS]| w@ == capability_words(object, rights_byte),
    }
}

impl Message {
    /// A data message.
    pub fn data(tag: u16, words: [Word; MSG_WORDS]) -> (r: Self)
        ensures
            r == (Message { tag, kind: MsgKind::Data, words }),
    {
        Message { tag, kind: MsgKind::Data, words }
    }

    /// A message that transfers a capability to `object`.
    pub fn capability(tag: u16, object: u32, rights_byte: u8) -> (r: Self)
        ensures
            r == capability_message(tag, object, rights_byte),
            r.tag == tag,
            r.kind == MsgKind::CapTransfer,
            r.words@ == capability_words(object, rights_byte),
    {
        let mut words: [Word; MSG_WORDS] = [0; MSG_WORDS];
        words[1] = object as Word;
        words[2] = rights_byte as Word;
        proof {
            assert(words@ =~= capability_words(object, rights_byte));
            let w = choose|w: [Word; MSG_WORDS]| w@ == capability_words(object, rights_byte);
            assert(w@ == words@);
            assert(w =~= words);
        }
        Message { tag, kind: MsgKind::CapTransfer, words }
    }

    pub fn payload(&self) -> (r: &[Word; MSG_WORDS])
        ensures
            *r == self.words,
    {
        &self.words
    }

    /// The message as text, with its first two words.
    pub open spec fn text(self) -> Seq<char> {
        "msg(tag="@ + text::decimal(self.tag as nat) + ", kind="@ + (if self.kind == MsgKind::Data {
            "data"@
        } else {
            "cap"@
        }) + ", words[0..2]=["@ + text::decimal(self.words@[0] as nat) + ", "@ + text::decimal(
            self.words@[1] as nat,
        ) + ", …])"@
    }

    pub fn to_string(&self) -> (r: String)
        ensures
            r@ == self.text(),
    {
        let mut s = String::from_str("msg(tag=");
        text::push_decimal(&mut s, self.tag as u64);
        s.append(", kind=");
        s.append(
            if self.kind == MsgKind::Data {
                "data"
            } else {
                "cap"
            },
        );
        s.append(", words[0..2]=[");
        text::push_decimal(&mut s, self.words[0]);
        s.append(", ");
        text::push_decimal(&mut s, self.words[1]);
        s.append(", …])");
        s
    }

    /// The bytes of the message at the syscall boundary.
    pub fn to_bytes(&self) -> (r: Vec<u8>)
        ensures
            r@ == encoded(*self),
            r@.len() == MESSAGE_SIZE,
    {
        let kind: u8 = match self.kind {
            MsgKind::Data => 0,
            MsgKind::CapTransfer => 1,
        };
        let mut out: Vec<u8> = Vec::new();
        out.push((self.tag % 256) as u8);
        out.push((self.tag / 256) as u8);
        out.push(kind);
        out.push(0);
        out.push(0);
        out.push(0);
        out.push(0);
        out.push(0);
        let ghost head = out@;
        proof {
            assert(head =~= seq![
                (self.tag % 256) as u8,
                (self.tag / 256) as u8,
                self.kind.code(),
                0,
                0,
                0,
                0,
                0,
            ]);
            assert(head + word_bytes(self.words@, 0) =~= head);
        }
        for i in 0..MSG_WORDS
            invariant
                out@ == head + word_bytes(self.words@, i as nat),
                out@.len() == 8 + 8 * i,
        {
            bytes::push_u64(&mut out, self.words[i]);
            proof {
                bytes::lemma_le_len(self.words@[i as int] as nat, 8);
                assert(out@ =~= head + word_bytes(self.words@, (i + 1) as nat));
            }
        }
        out
    }

    /// The message whose bytes `b` starts with. `None` if `b` is too short or
    /// its kind is none.
    pub fn from_bytes(b: &[u8]) -> (r: Option<Message>)
        ensures
            match r {
                Some(m) => decodes_to(b@, m),
                None => b@.len() < MESSAGE_SIZE || b@[2] > 1,
            },
    {
        if b.len() < MESSAGE_SIZE {
            return None;
        }
        let kind = if b[2] == 0 {
            MsgKind::Data
        } else if b[2] == 1 {
            MsgKind::CapTransfer
        } else {
            return None;
        };
        let mut words: [Word; MSG_WORDS] = [0; MSG_WORDS];
        for i in 0..MSG_WORDS
            invariant
                b@.len() >= MESSAGE_SIZE,
                forall|j: int|
                    0 <= j < i ==> #[trigger] words@[j] == bytes::field(b@, 8 + 8 * j, 8),
        {
            words[i] = bytes::read_u64(b, 8 + 8 * i);
        }
        Some(Message { tag: bytes::read_u16(b, 0), kind, words })
    }
}

/// A bounded FIFO channel. All operations are allocation-free.
pub struct ChannelCore {
    buf: [Message; CHANNEL_CAPACITY],
    head: usize,
    count: usize,
}

/// The ring cell that is `i` cells after `head`.
spec fn cell(head: int, i: int) -> int {
    if head + i < CHANNEL_CAPACITY {
        head + i
    } else {
        head + i - CHANNEL_CAPACITY
    }
}

/// The first message with the tag `tag` is at `i`.
pub open spec fn first_tagged(s: Seq<Message>, tag: u16, i: int) -> bool {
    0 <= i < s.len() && s[i].tag == tag && forall|j: int| 0 <= j < i ==> s[j].tag != tag
}

/// Some message has the tag `tag`.
pub open spec fn tagged(s: Seq<Message>, tag: u16) -> bool {
    exists|i: int| 0 <= i < s.len() && (#[trigger] s[i]).tag == tag
}

/// A push of `msg` onto the messages `s` leaves `t` and returns `r`.
pub open spec fn pushed(s: Seq<Message>, t: Seq<Message>, msg: Message, r: Result<(), ChannelError>)
    -> bool {
    match r {
        Ok(()) => s.len() < CHANNEL_CAPACITY && t == s.push(msg),
        Err(e) => e == ChannelError::Full && s.len() == CHANNEL_CAPACITY && t == s,
    }
}

/// A pop from the messages `s` leaves `t` and returns `r`.
pub open spec fn popped(s: Seq<Message>, t: Seq<Message>, r: Option<Message>) -> bool {
    match r {
        Some(m) => s.len() > 0 && m == s[0] && t == s.drop_first(),
        None => s.len() == 0 && t == s,
    }
}

/// Taking out a message with the tag `tag` from the messages `s` leaves `t` and
/// returns `r`.
pub open spec fn tag_popped(s: Seq<Message>, t: Seq<Message>, tag: u16, r: Option<Message>)
    -> bool {
    match r {
        Some(m) => exists|i: int| #[trigger]
            first_tagged(s, tag, i) && m == s[i] && t == s.remove(i),
        None => !tagged(s, tag) && t == s,
    }
}

impl Default for ChannelCore {
    fn default() -> (r: Self)
        ensures
            r@ == Seq::<Message>::empty(),
    {
        ChannelCore::new()
    }
}

impl ChannelCore {
    #[verifier::type_invariant]
    spec fn inv(self) -> bool {
        self.head < CHANNEL_CAPACITY && self.count <= CHANNEL_CAPACITY
    }

    /// The buffered messages, oldest first.
    pub closed spec fn view(&self) -> Seq<Message> {
        Seq::new(self.count as nat, |i: int| self.buf@[cell(self.head as int, i)])
    }

    /// An empty channel.
    pub fn new() -> (r: Self)
        ensures
            r@ == Seq::<Message>::empty(),
    {
        let r = ChannelCore {
            buf: [Message::data(0, [0; MSG_WORDS]); CHANNEL_CAPACITY],
            head: 0,
            count: 0,
        };
        proof {
            assert(r@ =~= Seq::<Message>::empty());
        }
        r
    }

    /// Number of buffered messages.
    pub fn len(&self) -> (r: usize)
        ensures
            r == self@.len(),
            r <= CHANNEL_CAPACITY,
    {
        proof {
            use_type_invariant(self);
        }
        self.count
    }

    pub fn is_empty(&self) -> (r: bool)
        ensures
            r == (self@.len() == 0),
    {
        self.count == 0
    }

    pub fn is_full(&self) -> (r: bool)
        ensures
            r == (self@.len() == CHANNEL_CAPACITY),
            !r ==> self@.len() < CHANNEL_CAPACITY,
    {
        proof {
            use_type_invariant(self);
        }
        self.count == CHANNEL_CAPACITY
    }

    /// Pushes a message.
    ///
    /// # Errors
    ///
    /// [`ChannelError::Full`] when the channel already holds
    /// [`CHANNEL_CAPACITY`] messages.
    pub fn push(&mut self, msg: Message) -> (r: Result<(), ChannelError>)
        ensures
            pushed(old(self)@, final(self)@, msg, r),
    {
        proof {
            use_type_invariant(&*self);
        }
        if self.is_full() {
            return Err(ChannelError::Full);
        }
        let idx = (self.head + self.count) % CHANNEL_CAPACITY;
        self.buf[idx] = msg;
        self.count = self.count + 1;
        proof {
            assert(self@ =~= old(self)@.push(msg));
        }
        Ok(())
    }

    /// Pops the oldest message.
    pub fn pop(&mut self) -> (r: Option<Message>)
        ensures
            popped(old(self)@, final(self)@, r),
    {
        proof {
            use_type_invariant(&*self);
        }
        if self.is_empty() {
            return None;
        }
        let msg = self.buf[self.head];
        self.head = (self.head + 1) % CHANNEL_CAPACITY;
        self.count = self.count - 1;
        proof {
            assert(self@ =~= old(self)@.drop_first());
        }
        Some(msg)
    }

    /// The oldest message, without consuming it.
    pub fn peek(&self) -> (r: Option<&Message>)
        ensures
            match r {
                Some(m) => self@.len() > 0 && *m == self@[0],
                None => self@.len() == 0,
            },
    {
        proof {
            use_type_invariant(self);
        }
        if self.is_empty() {
            return None;
        }
        Some(&self.buf[self.head])
    }

    /// Takes out the oldest message with the given tag (e.g. a synchronous
    /// reply that arrived while others were queued); the others keep their
    /// order.
    pub fn pop_tag(&mut self, tag: u16) -> (r: Option<Message>)
        ensures
            tag_popped(old(self)@, final(self)@, tag, r),
    {
        proof {
            use_type_invariant(&*self);
        }
        let n = self.count;
        for i in 0..n
            invariant
                self.head < CHANNEL_CAPACITY,
                self.count <= CHANNEL_CAPACITY,
                self.count == n,
                self@ == old(self)@,
                self@.len() == self.count,
                forall|j: int| 0 <= j < i ==> (#[trigger] self@[j]).tag != tag,
        {
            let idx = (self.head + i) % CHANNEL_CAPACITY;
            if self.buf[idx].tag == tag {
                let msg = self.buf[idx];
                let ghost s = self@;
                let ghost head = self.head as int;
                let ghost count = self.count as int;
                proof {
                    assert(msg == s[i as int]);
                    assert(first_tagged(s, tag, i as int));
                }
                // Close the hole by moving each later message one cell down.
                let mut j: usize = i;
                while j + 1 < self.count
                    invariant
                        self.head == head,
                        self.count == count,
                        head < CHANNEL_CAPACITY,
                        count <= CHANNEL_CAPACITY,
                        i <= j < count,
                        s.len() == count,
                        forall|k: int|
                            0 <= k < count ==> #[trigger] self.buf@[cell(head, k)] == (if i <= k
                                < j {
                                s[k + 1]
                            } else {
                                s[k]
                            }),
                    decreases count - j,
                {
                    let from = (self.head + j + 1) % CHANNEL_CAPACITY;
                    let to = (self.head + j) % CHANNEL_CAPACITY;
                    proof {
                        assert(from == cell(head, j + 1));
                        assert(to == cell(head, j as int));
                        assert(self.buf@[cell(head, j + 1)] == s[j + 1]);
                    }
                    self.buf[to] = self.buf[from];
                    j = j + 1;
                }
                self.count = self.count - 1;
                proof {
                    assert(self@ =~= s.remove(i as int));
                }
                return Some(msg);
            }
        }
        None
    }

    /// Drops all buffered messages.
    pub fn clear(&mut self)
        ensures
            final(self)@ == Seq::<Message>::empty(),
    {
        proof {
            use_type_invariant(&*self);
        }
        self.head = 0;
        self.count = 0;
        proof {
            assert(self@ =~= Seq::<Message>::empty());
        }
    }
}

#[derive(Clone, Copy, PartialEq, Eq, Debug)]
pub enum ChannelError {
    Full,
}

impl ChannelError {
    /// What the error says.
    pub open spec fn text(self) -> Seq<char> {
        "channel is full"@
    }

    pub fn to_string(&self) -> (r: String)
        ensures
            r@ == self.text(),
    {
        match self {
            ChannelError::Full => String::from_str("channel is full"),
        }
    }
}

/// The object id that a word carries in its lower half.
pub open spec fn object_of(w: Word) -> u32 {
    (w % 0x1_0000_0000) as u32
}

/// The object id that a word carries in its lower half.
pub fn object_id(w: Word) -> (r: u32)
    ensures
        r == object_of(w),
{
    (w % 0x1_0000_0000) as u32
}

/// The message transfers a capability to an object of the kind `kind`, and may.
pub open spec fn transfers(msg: Message, kind: ObjectKind) -> bool {
    msg.kind == MsgKind::CapTransfer && object_of(msg.words@[1]) != 0 && (kind == ObjectKind::Frame
        || kind == ObjectKind::Channel || kind == ObjectKind::PhysFrame)
}

/// Validates a capability transfer request: the message transfers a
/// capability, names an object (object 0 is reserved), and the object is of a
/// kind that can be transferred.
pub fn check_cap_transfer(msg: &Message, kind: ObjectKind) -> (r: bool)
    ensures
        r == transfers(*msg, kind),
{
    if msg.kind != MsgKind::CapTransfer {
        return false;
    }
    let object = object_id(msg.words[1]);
    // Kinds are small positive ids; object 0 is reserved (invalid).
    object != 0 && matches!(
        kind,
        ObjectKind::Frame | ObjectKind::Channel | ObjectKind::PhysFrame
    )
}

} // verus!
