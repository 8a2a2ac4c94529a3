use kairos::caps::{
    CNode, CapError, CapRights, Capability, ObjectKind, Slot, CNODE_CAPACITY, NULL_SLOT,
};

fn cap(kind: ObjectKind) -> Capability {
    Capability::new(1, kind, CapRights::all())
}

#[test]
fn insert_lookup_revoke_cycle() {
    let mut c = CNode::new();
    let s = c.insert(cap(ObjectKind::Channel)).unwrap();
    assert_eq!(c.lookup(s).unwrap().kind, ObjectKind::Channel);
    assert_eq!(c.occupied(), 1);
    let taken = c.revoke(s).unwrap();
    assert_eq!(taken.object, 1);
    assert!(c.lookup(s).is_err());
    assert_eq!(c.occupied(), 0);
}

#[test]
fn cnode_fills_up_cleanly() {
    let mut c = CNode::new();
    for i in 0..CNODE_CAPACITY {
        let s = c
            .insert(Capability::new(i as u32, ObjectKind::Task, CapRights::all()))
            .unwrap();
        assert_eq!(s as usize, i);
    }
    assert_eq!(c.insert(cap(ObjectKind::Task)), Err(CapError::SpaceFull));
}

#[test]
fn revoke_frees_slot_for_reuse() {
    let mut c = CNode::new();
    let a = c.insert(cap(ObjectKind::Frame)).unwrap();
    let b = c.insert(cap(ObjectKind::Frame)).unwrap();
    c.revoke(a).unwrap();
    // The free slot is reused; occupied count stays at 1.
    assert_eq!(c.insert(cap(ObjectKind::Irq)).unwrap(), a);
    assert_eq!(c.occupied(), 2);
    assert!(c.lookup(b).is_ok());
}

#[test]
fn insert_at_occupied_fails() {
    let mut c = CNode::new();
    let s = c.insert(cap(ObjectKind::Task)).unwrap();
    assert_eq!(
        c.insert_at(s, cap(ObjectKind::Frame)),
        Err(CapError::AlreadyOccupied(s))
    );
}

#[test]
fn derive_narrows_rights_only() {
    let mut src = CNode::new();
    let s = src.insert(Capability::new(7, ObjectKind::Channel, CapRights::all())).unwrap();

    let mut dst = CNode::new();
    let d = dst
        .derive(&src, s, CapRights::new(true, false, true))
        .unwrap();
    let cap = dst.lookup(d).unwrap();
    assert!(!cap.has_rights(CapRights::write()));
    assert!(cap.has_rights(CapRights::read()));

    // Deriving with no rights grants nothing and must fail.
    assert_eq!(dst.derive(&src, s, CapRights::none()), Err(CapError::RightsTooNarrow(CapRights::none())));
}

#[test]
fn derived_cap_never_widens() {
    let mut src = CNode::new();
    let s = src
        .insert(Capability::new(9, ObjectKind::Frame, CapRights::new(true, false, false)))
        .unwrap();
    let mut dst = CNode::new();
    let d = dst
        .derive(&src, s, CapRights::all())
        .expect("derive with full mask");
    assert_eq!(
        dst.lookup(d).unwrap().rights.bits(),
        CapRights::read().bits()
    );
}

#[test]
fn lookup_checks_rights() {
    let mut c = CNode::new();
    let s = c
        .insert(Capability::new(3, ObjectKind::Channel, CapRights::new(true, false, false)))
        .unwrap();
    assert!(c.lookup_with(s, CapRights::read()).is_ok());
    assert!(c.lookup_with(s, CapRights::write()).is_err());
    assert!(c.lookup_with(s, CapRights::call()).is_err());
    assert!(c.lookup(NULL_SLOT).is_err());
}

#[test]
fn out_of_bounds_slot_is_err() {
    let mut c = CNode::new();
    let bad = CNODE_CAPACITY as Slot;
    assert_eq!(c.lookup(bad), Err(CapError::NoSuchSlot(bad)));
    assert_eq!(c.revoke(bad), Err(CapError::NoSuchSlot(bad)));
}

#[test]
fn iter_visits_occupied_slots() {
    let mut c = CNode::new();
    let a = c.insert(cap(ObjectKind::Task)).unwrap();
    let b = c.insert(cap(ObjectKind::Irq)).unwrap();
    let mut slots = [0u16; 4];
    let mut count = 0usize;
    for (s, _) in c.iter() {
        if count < slots.len() {
            slots[count] = s;
        }
        count += 1;
    }
    assert_eq!(count, 2);
    assert_eq!(slots[0], a);
    assert_eq!(slots[1], b);
}

#[test]
fn rights_are_their_flags() {
    assert_eq!(CapRights::none().bits(), 0);
    assert_eq!(CapRights::new(true, false, true).bits(), 5);
    assert_eq!(CapRights::all().bits(), 7);
    assert!(CapRights::none().is_empty());
    assert!(!CapRights::call().is_empty());
    assert!(CapRights::all().contains(CapRights::write()));
    assert!(!CapRights::read().contains(CapRights::new(true, true, false)));
    assert_eq!(
        CapRights::new(true, true, false).intersect(CapRights::new(false, true, true)),
        CapRights::write()
    );
    assert_eq!(CapRights::default(), CapRights::none());
}

#[test]
fn deriving_twice_is_deriving_once() {
    let mut src = CNode::new();
    let s = src.insert(Capability::new(7, ObjectKind::Channel, CapRights::all())).unwrap();
    let mask = CapRights::new(true, false, true);
    let mut one = CNode::new();
    let a = one.derive(&src, s, mask).unwrap();
    let mut two = CNode::new();
    let b = two.derive(&one, a, mask).unwrap();
    assert_eq!(one.lookup(a).unwrap(), two.lookup(b).unwrap());
    assert_eq!(two.derive(&src, 9, mask), Err(CapError::NoSuchSlot(9)));
}

#[test]
fn revoke_restores_the_space() {
    let mut c = CNode::new();
    c.insert(cap(ObjectKind::Task)).unwrap();
    let before = c.clone();
    let s = c.insert(cap(ObjectKind::Frame)).unwrap();
    assert_eq!(c.first_free(), Some(2));
    c.revoke(s).unwrap();
    assert_eq!(c.first_free(), Some(1));
    assert_eq!(c.occupied(), before.occupied());
    assert_eq!(c.iter(), before.iter());
    assert_eq!(CNode::default().occupied(), 0);
}

#[test]
fn full_space_has_no_free_slot() {
    let mut c = CNode::new();
    for i in 0..CNODE_CAPACITY as Slot {
        assert_eq!(c.first_free(), Some(i));
        c.insert_at(i, cap(ObjectKind::Task)).unwrap();
    }
    assert_eq!(c.first_free(), None);
    assert_eq!(c.occupied(), CNODE_CAPACITY);
    let bad = CNODE_CAPACITY as Slot;
    assert_eq!(c.insert_at(bad, cap(ObjectKind::Task)), Err(CapError::NoSuchSlot(bad)));
}

#[test]
fn capability_texts() {
    assert_eq!(CapRights::all().to_string(), "rwc");
    assert_eq!(CapRights::new(false, true, false).to_string(), "-w-");
    assert_eq!(ObjectKind::PhysFrame.to_string(), "physframe");
    assert_eq!(ObjectKind::Irq.to_string(), "irq");
    assert_eq!(CapError::SpaceFull.to_string(), "capability space is full");
    assert_eq!(CapError::NoSuchSlot(4).to_string(), "no capability in slot 4");
    assert_eq!(CapError::AlreadyOccupied(65).to_string(), "slot 65 is already occupied");
    assert_eq!(
        CapError::RightsTooNarrow(CapRights::read()).to_string(),
        "insufficient rights (r--)"
    );
}
