use mio::EventSet;
use mioco::interest::{event_mode, interest_for};
use mioco::{
    select_impl_set_mask_from_indices, select_impl_set_mask_rc_handles, EventSourceIndex,
    EventSourceShared, LastEvent, ReactorOp, SourceKind, State, RW,
};

#[test]
fn rw_read_and_write() {
    assert!(RW::Read.has_read());
    assert!(!RW::Read.has_write());
    assert!(!RW::Write.has_read());
    assert!(RW::Write.has_write());
    assert!(RW::Both.has_read());
    assert!(RW::Both.has_write());
    assert!(!RW::Notify.has_read());
    assert!(!RW::Notify.has_write());
}

#[test]
fn last_event_getters() {
    let e = LastEvent { index: EventSourceIndex(5), rw: RW::Write };
    assert_eq!(e.index(), EventSourceIndex(5));
    assert_eq!(e.index().as_usize(), 5);
    assert!(!e.has_read());
    assert!(e.has_write());
    let n = LastEvent { index: EventSourceIndex(0), rw: RW::Notify };
    assert!(!n.has_read());
    assert!(!n.has_write());
}

#[test]
fn state_equality() {
    assert_eq!(State::BlockedOn(RW::Read), State::BlockedOn(RW::Read));
    assert_ne!(State::BlockedOn(RW::Read), State::BlockedOn(RW::Both));
    assert_ne!(State::Running, State::Finished);
}

#[test]
fn mask_from_indices() {
    let mut mask: u32 = 0xdead_beef;
    select_impl_set_mask_from_indices(&[EventSourceIndex(0), EventSourceIndex(3)], &mut mask);
    assert_eq!(mask, 0b1001);
    select_impl_set_mask_from_indices(&[], &mut mask);
    assert_eq!(mask, 0);
    select_impl_set_mask_from_indices(
        &[EventSourceIndex(31), EventSourceIndex(31), EventSourceIndex(1)],
        &mut mask,
    );
    assert_eq!(mask, 0x8000_0002);
}

#[test]
fn mask_of_all_handles() {
    let mut mask: u32 = 7;
    select_impl_set_mask_rc_handles(&[], &mut mask);
    assert_eq!(mask, 0);
    select_impl_set_mask_rc_handles(&[10, 11, 12], &mut mask);
    assert_eq!(mask, 0b111);
    let all: Vec<usize> = (0..32).collect();
    select_impl_set_mask_rc_handles(&all, &mut mask);
    assert_eq!(mask, u32::MAX);
}

#[test]
fn interest_of_each_mode() {
    assert!(interest_for(RW::Read, false) == EventSet::hup() | EventSet::readable());
    assert!(interest_for(RW::Write, false) == EventSet::hup() | EventSet::writable());
    assert!(
        interest_for(RW::Both, false)
            == EventSet::hup() | EventSet::readable() | EventSet::writable()
    );
    assert!(interest_for(RW::Notify, false) == EventSet::hup());
}

#[test]
fn interest_after_hangup_has_no_read() {
    assert!(interest_for(RW::Read, true) == EventSet::none());
    assert!(interest_for(RW::Write, true) == EventSet::writable());
    assert!(interest_for(RW::Both, true) == EventSet::writable());
    assert!(interest_for(RW::Notify, true) == EventSet::none());
}

#[test]
fn mode_of_ready_flags() {
    assert_eq!(event_mode(&EventSet::readable()), Some(RW::Read));
    assert_eq!(event_mode(&EventSet::writable()), Some(RW::Write));
    assert_eq!(event_mode(&(EventSet::readable() | EventSet::writable())), Some(RW::Both));
    assert_eq!(event_mode(&EventSet::hup()), Some(RW::Read));
    assert_eq!(event_mode(&(EventSet::hup() | EventSet::writable())), Some(RW::Both));
    assert_eq!(event_mode(&EventSet::none()), None);
    assert_eq!(event_mode(&EventSet::error()), None);
}

#[test]
fn first_arming_registers_then_rearms() {
    let mut s = EventSourceShared::new(2, 7, 1, SourceKind::Evented);
    assert!(!s.registered);
    assert!(!s.peer_hup);
    let op = s.reregister(RW::Read);
    assert!(s.registered);
    assert!(!op.is_oneshot());
    match op {
        ReactorOp::Register { token, interest } => {
            assert_eq!(token, 7);
            assert!(interest == EventSet::readable() | EventSet::hup());
        }
        _ => panic!("expected a first registration"),
    }
    let again = s.reregister(RW::Write);
    assert!(s.registered);
    assert!(again.is_oneshot());
    match again {
        ReactorOp::Reregister { token, interest } => {
            assert_eq!(token, 7);
            assert!(interest == EventSet::writable() | EventSet::hup());
        }
        _ => panic!("expected a rearming"),
    }
}

#[test]
fn arming_twice_is_arming_once() {
    let mut once = EventSourceShared::new(0, 3, 0, SourceKind::Evented);
    once.reregister(RW::Both);
    let mut twice = once;
    let first = twice.reregister(RW::Both);
    let after_first = twice;
    let second = twice.reregister(RW::Both);
    assert_eq!(twice, after_first);
    assert_eq!(twice, once);
    match (first, second) {
        (
            ReactorOp::Reregister { token: t1, interest: i1 },
            ReactorOp::Reregister { token: t2, interest: i2 },
        ) => {
            assert_eq!(t1, t2);
            assert!(i1 == i2);
        }
        _ => panic!("expected two rearmings"),
    }
}

#[test]
fn message_sink_asks_nothing_of_the_reactor() {
    let mut s = EventSourceShared::new(0, 4, 0, SourceKind::Notified);
    assert!(matches!(s.reregister(RW::Both), ReactorOp::Nothing));
    assert!(!s.registered);
    assert!(matches!(s.unreregister(), ReactorOp::Nothing));
    assert!(matches!(s.deregister(), ReactorOp::Nothing));
    assert!(!s.registered);
}

#[test]
fn disarming_rearms_with_no_flag() {
    let mut s = EventSourceShared::new(0, 9, 0, SourceKind::Evented);
    s.reregister(RW::Read);
    match s.unreregister() {
        ReactorOp::Reregister { token, interest } => {
            assert_eq!(token, 9);
            assert!(interest == EventSet::none());
        }
        _ => panic!("expected a rearming"),
    }
    assert!(s.registered);
}

#[test]
fn deregister_only_what_the_reactor_knows() {
    let mut s = EventSourceShared::new(0, 9, 0, SourceKind::Evented);
    assert!(matches!(s.deregister(), ReactorOp::Nothing));
    s.reregister(RW::Read);
    assert!(matches!(s.deregister(), ReactorOp::Deregister { token: 9 }));
    assert!(!s.registered);
    assert!(matches!(s.deregister(), ReactorOp::Nothing));
}

#[test]
fn hangup_is_sticky() {
    let mut s = EventSourceShared::new(0, 1, 0, SourceKind::Evented);
    s.hup();
    assert!(s.peer_hup);
    s.hup();
    assert!(s.peer_hup);
    match s.reregister(RW::Both) {
        ReactorOp::Register { interest, .. } => assert!(interest == EventSet::writable()),
        _ => panic!("expected a first registration"),
    }
}
