use mio::EventSet;
use mioco::{
    Coroutine, EventSourceIndex, LastEvent, MiocoHandle, ReactorOp, Server, SourceKind, State,
    WrapError, RW,
};

#[test]
fn fresh_coroutine_record() {
    let co = Coroutine::new();
    assert_eq!(co.state, State::Running);
    assert_eq!(co.last_event, LastEvent { index: EventSourceIndex(0), rw: RW::Read });
    assert!(co.io.is_empty());
    assert_eq!(co.blocked_on_mask, 0);
    assert_eq!(co.registered_mask, 0);
    assert!(co.children_to_start.is_empty());
    assert!(!co.torn_down);
}

#[test]
fn spawn_impl_counts_without_a_parent() {
    let mut server = Server::new();
    assert_eq!(server.spawn_impl(), 0);
    assert_eq!(server.spawn_impl(), 1);
    assert_eq!(server.coroutines_no(), 2);
    assert_eq!(server.coroutines_len(), 2);
    assert!(server.coroutine(0).children_to_start.is_empty());
    assert_eq!(server.spawn(1), 2);
    assert_eq!(server.coroutine(1).children_to_start, vec![2]);
    assert!(server.coroutine(0).children_to_start.is_empty());
    assert_eq!(server.coroutines_no(), 3);
}

#[test]
fn add_source_gives_the_fresh_record() {
    let mut server = Server::new();
    let co = server.spawn_impl();
    let a = server.add_source(co, SourceKind::Evented).unwrap();
    assert_eq!(a.coroutine, co);
    assert_eq!(a.index, 0);
    assert_eq!(a.kind, SourceKind::Evented);
    assert!(!a.peer_hup && !a.registered);
    assert_eq!(server.source(a.token), Some(a));
    let b = server.add_source(co, SourceKind::Notified).unwrap();
    assert_eq!(b.index, 1);
    assert_ne!(b.token, a.token);
    assert_eq!(server.source(b.token), Some(b));
    assert_eq!(server.source(a.token), Some(a));
    assert_eq!(server.coroutine(co).io, vec![a.token, b.token]);
}

#[test]
fn add_source_errors() {
    let mut server = Server::new();
    let co = server.spawn_impl();
    for _ in 0..32 {
        server.add_source(co, SourceKind::Notified).unwrap();
    }
    assert_eq!(server.add_source(co, SourceKind::Evented), Err(WrapError::TooManySources));
    for _ in 1..32 {
        let other = server.spawn_impl();
        for _ in 0..32 {
            server.add_source(other, SourceKind::Evented).unwrap();
        }
    }
    let last = server.spawn_impl();
    assert_eq!(server.add_source(last, SourceKind::Evented), Err(WrapError::SlabFull));
    assert_eq!(server.add_source(co, SourceKind::Evented), Err(WrapError::TooManySources));
}

#[test]
fn block_on_names_one_position() {
    let mut server = Server::new();
    let co = server.spawn_impl();
    for _ in 0..5 {
        server.add_source(co, SourceKind::Evented).unwrap();
    }
    server.block_on(co, 4, RW::Write);
    assert_eq!(server.coroutine(co).state, State::BlockedOn(RW::Write));
    assert_eq!(server.coroutine(co).blocked_on_mask, 1 << 4);
    server.block_on(co, 0, RW::Notify);
    assert_eq!(server.coroutine(co).state, State::BlockedOn(RW::Notify));
    assert_eq!(server.coroutine(co).blocked_on_mask, 1);
    server.select_all(co, RW::Both);
    assert_eq!(server.coroutine(co).blocked_on_mask, 0b11111);
    server.select_from(co, &[EventSourceIndex(1), EventSourceIndex(3)], RW::Read);
    assert_eq!(server.coroutine(co).blocked_on_mask, 0b01010);
    assert_eq!(server.coroutine(co).state, State::BlockedOn(RW::Read));
}

#[test]
fn resumed_coroutine_runs_and_waits_for_nothing() {
    let mut server = Server::new();
    let mut root = MiocoHandle::root(&mut server);
    let a = root.wrap(&mut server).unwrap();
    let b = root.wrap(&mut server).unwrap();
    let n = root.wrap_notified(&mut server).unwrap();
    root.select(&mut server);
    server.reregister(0);
    assert_eq!(server.coroutine(0).blocked_on_mask, 0);
    assert_eq!(server.coroutine(0).registered_mask, 0b111);
    assert_eq!(server.ready(b.token, &EventSet::writable()), Some(0));
    assert_eq!(server.coroutine(0).state, State::Running);
    assert_eq!(server.coroutine(0).blocked_on_mask, 0);
    n.wait_notify(&mut server);
    server.reregister(0);
    assert_eq!(server.notify(n.token), Some(0));
    assert_eq!(server.coroutine(0).state, State::Running);
    assert_eq!(server.coroutine(0).blocked_on_mask, 0);
    assert!(server.source(a.token).unwrap().registered);
}

#[test]
fn registered_follows_the_mask_for_sources_new_to_the_reactor() {
    let mut server = Server::new();
    let mut root = MiocoHandle::root(&mut server);
    let a = root.wrap(&mut server).unwrap();
    let b = root.wrap(&mut server).unwrap();
    let n = root.wrap_notified(&mut server).unwrap();
    root.select_from(&mut server, &[b.index(), n.index()]);
    server.reregister(0);
    assert_eq!(server.coroutine(0).registered_mask, 0b110);
    assert!(!server.source(a.token).unwrap().registered);
    assert!(server.source(b.token).unwrap().registered);
    assert!(!server.source(n.token).unwrap().registered);
}

#[test]
fn source_wrapped_and_never_armed_leaves_quietly() {
    let mut server = Server::new();
    let mut root = MiocoHandle::root(&mut server);
    let a = root.wrap(&mut server).unwrap();
    root.finish(&mut server);
    let m = server.reregister(0);
    assert!(m.shutdown);
    assert_eq!(m.ops.len(), 1);
    assert!(matches!(m.ops[0], ReactorOp::Nothing));
    assert_eq!(server.source(a.token), None);
    assert!(server.coroutine(0).io.is_empty());
    assert_eq!(server.coroutine(0).registered_mask, 0);
}

#[test]
fn teardown_counts_down_by_one() {
    let mut server = Server::new();
    let root = MiocoHandle::root(&mut server);
    let mut c1 = root.spawn(&mut server);
    let mut c2 = root.spawn(&mut server);
    let s1 = c1.wrap(&mut server).unwrap();
    let s2 = c2.wrap(&mut server).unwrap();
    c1.select(&mut server);
    server.reregister(c1.coroutine);
    c2.select(&mut server);
    server.reregister(c2.coroutine);
    assert_eq!(server.coroutines_no(), 3);
    server.ready(s1.token, &EventSet::readable());
    c1.finish(&mut server);
    server.reregister(c1.coroutine);
    assert_eq!(server.coroutines_no(), 2);
    assert_eq!(server.source(s1.token), None);
    assert_eq!(server.source(s2.token).unwrap().coroutine, c2.coroutine);
    assert!(server.source(s2.token).unwrap().registered);
    server.reregister(c1.coroutine);
    assert_eq!(server.coroutines_no(), 2);
}

#[test]
fn each_ready_event_names_its_owner_once() {
    let mut server = Server::new();
    let root = MiocoHandle::root(&mut server);
    let mut c1 = root.spawn(&mut server);
    let mut c2 = root.spawn(&mut server);
    let s1 = c1.wrap(&mut server).unwrap();
    let s2 = c2.wrap(&mut server).unwrap();
    c1.select_read(&mut server);
    server.reregister(c1.coroutine);
    c2.select_read(&mut server);
    server.reregister(c2.coroutine);
    assert_eq!(server.ready(s2.token, &EventSet::readable()), Some(c2.coroutine));
    assert_eq!(server.coroutine(c2.coroutine).state, State::Running);
    assert_eq!(server.coroutine(c1.coroutine).state, State::BlockedOn(RW::Read));
    assert_eq!(server.ready(s1.token, &EventSet::readable()), Some(c1.coroutine));
    assert_eq!(server.coroutine(c1.coroutine).state, State::Running);
}
