use kairos::caps::ObjectKind;
use kairos::ipc::{
    check_cap_transfer, ChannelCore, ChannelError, Message, MsgKind, Word, CHANNEL_CAPACITY, MSG_WORDS,
};

fn data(tag: u16, a: Word, b: Word, c: Word) -> Message {
    let mut w = [0; MSG_WORDS];
    w[0] = a;
    w[1] = b;
    w[2] = c;
    Message::data(tag, w)
}

#[test]
fn fifo_order_preserved() {
    let mut ch = ChannelCore::new();
    ch.push(data(1, 10, 20, 30)).unwrap();
    ch.push(data(2, 40, 50, 60)).unwrap();
    ch.push(data(3, 70, 80, 90)).unwrap();
    assert_eq!(ch.pop().unwrap().tag, 1);
    assert_eq!(ch.pop().unwrap().tag, 2);
    assert_eq!(ch.pop().unwrap().tag, 3);
    assert!(ch.pop().is_none());
}

#[test]
fn capacity_enforced() {
    let mut ch = ChannelCore::new();
    for i in 0..CHANNEL_CAPACITY {
        ch.push(data(i as u16, i as Word, 0, 0)).unwrap();
    }
    assert!(ch.is_full());
    assert_eq!(ch.push(data(99, 0, 0, 0)), Err(ChannelError::Full));
    let _ = ch.pop().unwrap();
    assert!(!ch.is_full());
    ch.push(data(99, 0, 0, 0)).unwrap();
}

#[test]
fn wrap_around_keeps_fifo() {
    let mut ch = ChannelCore::new();
    for i in 0..CHANNEL_CAPACITY {
        ch.push(data(i as u16, i as Word, 0, 0)).unwrap();
    }
    // Drain 3, then push 3 more; head wraps around the ring.
    for _ in 0..3 {
        ch.pop().unwrap();
    }
    for i in 0..3 {
        ch.push(data((100 + i) as u16, 0, 0, 0)).unwrap();
    }
    let mut tags = [0u16; CHANNEL_CAPACITY];
    let mut n = 0;
    while let Some(m) = ch.pop() {
        tags[n] = m.tag;
        n += 1;
    }
    assert_eq!(n, CHANNEL_CAPACITY);
    for (i, t) in tags.iter().enumerate() {
        if i < CHANNEL_CAPACITY - 3 {
            assert_eq!(*t as usize, i + 3);
        } else {
            assert_eq!(*t as usize, i + 100 - (CHANNEL_CAPACITY - 3));
        }
    }
}

#[test]
fn peek_does_not_consume() {
    let mut ch = ChannelCore::new();
    ch.push(data(7, 1, 2, 3)).unwrap();
    assert_eq!(ch.peek().unwrap().tag, 7);
    assert_eq!(ch.len(), 1);
    ch.pop().unwrap();
    assert!(ch.peek().is_none());
}

#[test]
fn pop_tag_selective() {
    let mut ch = ChannelCore::new();
    ch.push(data(1, 0, 0, 0)).unwrap();
    ch.push(data(2, 0, 0, 0)).unwrap();
    ch.push(data(3, 0, 0, 0)).unwrap();
    let m = ch.pop_tag(2).unwrap();
    assert_eq!(m.tag, 2);
    assert_eq!(ch.len(), 2);
    assert_eq!(ch.pop().unwrap().tag, 1);
    assert_eq!(ch.pop().unwrap().tag, 3);
}

#[test]
fn capability_transfer_messages_carry_object() {
    let m = Message::capability(9, 42, 0b111);
    assert_eq!(m.kind, MsgKind::CapTransfer);
    assert_eq!(m.words[1], 42);
    assert!(check_cap_transfer(&m, ObjectKind::Frame));
    assert!(!check_cap_transfer(&m, ObjectKind::Task));
    let d = Message::data(0, [0; MSG_WORDS]);
    assert!(!check_cap_transfer(&d, ObjectKind::Frame));
}

#[test]
fn clear_drops_all() {
    let mut ch = ChannelCore::new();
    ch.push(data(1, 0, 0, 0)).unwrap();
    ch.push(data(2, 0, 0, 0)).unwrap();
    ch.clear();
    assert!(ch.is_empty());
    assert_eq!(ch.len(), 0);
}

#[test]
fn wrap_around_never_loses_messages() {
    let mut ch = ChannelCore::new();
    for i in 0..CHANNEL_CAPACITY {
        assert!(ch.push(Message::data(i as u16, [i as u64; MSG_WORDS])).is_ok());
    }
    assert!(ch.push(Message::data(999, [0; MSG_WORDS])).is_err());
    for i in 0..CHANNEL_CAPACITY {
        let m = ch.pop().expect("msg");
        assert_eq!(m.words[0], i as u64);
    }
    assert!(ch.pop().is_none());
}

#[test]
fn messages_survive_their_bytes() {
    let m = Message::data(0x1234, [1, 2, 3, 4, 5, 6, 7, u64::MAX]);
    let b = m.to_bytes();
    assert_eq!(b.len(), 72);
    assert_eq!(b[..8], [0x34, 0x12, 0, 0, 0, 0, 0, 0]);
    assert_eq!(b[8..16], [1, 0, 0, 0, 0, 0, 0, 0]);
    assert_eq!(Message::from_bytes(&b), Some(m));
    let c = Message::capability(7, 0x0102_0304, 5);
    assert_eq!(c.to_bytes()[2], 1);
    assert_eq!(Message::from_bytes(&c.to_bytes()), Some(c));
}

#[test]
fn malformed_messages_are_refused() {
    let mut b = Message::data(1, [0; MSG_WORDS]).to_bytes();
    assert_eq!(Message::from_bytes(&b[..71]), None);
    b[2] = 2;
    assert_eq!(Message::from_bytes(&b), None);
    b[2] = 1;
    b[5] = 99;
    assert!(Message::from_bytes(&b).is_some());
}

#[test]
fn pop_tag_keeps_the_others_in_order() {
    let mut ch = ChannelCore::new();
    // Bring the head close to the end of the ring first.
    for i in 0..14 {
        ch.push(data(i, 0, 0, 0)).unwrap();
        ch.pop().unwrap();
    }
    for t in [4, 8, 15, 16, 23, 42] {
        ch.push(data(t, t as u64, 0, 0)).unwrap();
    }
    assert_eq!(ch.pop_tag(99), None);
    assert_eq!(ch.pop_tag(15).unwrap().words[0], 15);
    assert_eq!(ch.pop_tag(4).unwrap().words[0], 4);
    let mut left = Vec::new();
    while let Some(m) = ch.pop() {
        left.push(m.tag);
    }
    assert_eq!(left, vec![8, 16, 23, 42]);
    assert!(ChannelCore::default().is_empty());
}

#[test]
fn message_and_channel_texts() {
    let m = Message::data(9, [10, 11, 0, 0, 0, 0, 0, 0]);
    assert_eq!(m.to_string(), "msg(tag=9, kind=data, words[0..2]=[10, 11, …])");
    assert_eq!(ChannelError::Full.to_string(), "channel is full");
    assert_eq!(*m.payload(), m.words);
    assert_eq!(kairos::ipc::object_id(0x1_0000_0007), 7);
}
