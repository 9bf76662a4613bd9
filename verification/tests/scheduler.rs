use mio::EventSet;
use mioco::{
    EventSource, EventSourceIndex, LastEvent, MiocoHandle, ReactorOp, Server, SourceKind, State,
    WrapError, RW,
};

fn started() -> (Server, MiocoHandle) {
    let mut server = Server::new();
    let root = MiocoHandle::root(&mut server);
    (server, root)
}

#[test]
fn new_runtime_is_empty() {
    let server = Server::new();
    assert_eq!(server.coroutines_no(), 0);
    assert_eq!(server.coroutines_len(), 0);
    assert_eq!(server.source(0), None);
    assert_eq!(server.source(1023), None);
    assert_eq!(server.source(1024), None);
    assert_eq!(server.source(usize::MAX), None);
}

#[test]
fn root_coroutine_starts_running() {
    let (server, root) = started();
    assert_eq!(root.coroutine, 0);
    assert_eq!(server.coroutines_no(), 1);
    let co = server.coroutine(0);
    assert_eq!(co.state, State::Running);
    assert_eq!(co.blocked_on_mask, 0);
    assert_eq!(co.registered_mask, 0);
    assert!(co.io.is_empty());
    assert!(co.children_to_start.is_empty());
    assert_eq!(co.last_event, LastEvent { index: EventSourceIndex(0), rw: RW::Read });
}

#[test]
fn wrap_binds_source_and_position() {
    let (mut server, mut root) = started();
    let a = root.wrap(&mut server).unwrap();
    let b = root.wrap_notified(&mut server).unwrap();
    assert_eq!(a.index(), EventSourceIndex(0));
    assert_eq!(b.index(), EventSourceIndex(1));
    assert_ne!(a.token, b.token);
    assert_eq!(server.coroutine(0).io, vec![a.token, b.token]);
    let ra = server.source(a.token).unwrap();
    assert_eq!(ra.coroutine, 0);
    assert_eq!(ra.token, a.token);
    assert_eq!(ra.index, 0);
    assert_eq!(ra.kind, SourceKind::Evented);
    assert!(!ra.registered);
    assert!(!ra.peer_hup);
    let rb = server.source(b.token).unwrap();
    assert_eq!(rb.kind, SourceKind::Notified);
    assert_eq!(rb.index, 1);
}

#[test]
fn thirty_third_source_is_refused() {
    let (mut server, mut root) = started();
    for i in 0..32 {
        assert_eq!(root.wrap(&mut server).unwrap().index, i);
    }
    assert_eq!(root.wrap(&mut server), Err(WrapError::TooManySources));
    assert_eq!(root.wrap_notified(&mut server), Err(WrapError::TooManySources));
    assert_eq!(server.coroutine(0).io.len(), 32);
}

#[test]
fn full_slab_refuses_and_teardown_frees() {
    let (mut server, root) = started();
    let mut handles = vec![];
    for _ in 0..32 {
        let mut h = root.spawn(&mut server);
        for _ in 0..32 {
            h.wrap(&mut server).unwrap();
        }
        handles.push(h);
    }
    let mut extra = root.spawn(&mut server);
    assert_eq!(extra.wrap(&mut server), Err(WrapError::SlabFull));
    assert!(server.coroutine(extra.coroutine).io.is_empty());
    let victim = &handles[3];
    let tokens = server.coroutine(victim.coroutine).io.clone();
    victim.finish(&mut server);
    let m = server.reregister(victim.coroutine);
    assert_eq!(m.ops.len(), 32);
    assert!(!m.shutdown);
    for t in &tokens {
        assert_eq!(server.source(*t), None);
    }
    let fresh = extra.wrap(&mut server).unwrap();
    assert!(tokens.contains(&fresh.token));
    assert_eq!(server.source(fresh.token).unwrap().coroutine, extra.coroutine);
}

#[test]
fn read_blocks_until_ready() {
    let (mut server, mut root) = started();
    let a = root.wrap(&mut server).unwrap();
    let none: Result<Option<usize>, String> = Ok(None);
    assert_eq!(a.read(&mut server, none), None);
    assert_eq!(server.coroutine(0).state, State::BlockedOn(RW::Read));
    assert_eq!(server.coroutine(0).blocked_on_mask, 1);
    let m = server.reregister(0);
    assert!(!m.shutdown);
    assert_eq!(m.ops.len(), 1);
    match m.ops[0] {
        ReactorOp::Register { token, interest } => {
            assert_eq!(token, a.token);
            assert!(interest == EventSet::readable() | EventSet::hup());
        }
        _ => panic!("expected a first registration"),
    }
    assert_eq!(server.coroutine(0).blocked_on_mask, 0);
    assert_eq!(server.coroutine(0).registered_mask, 1);
    assert!(server.source(a.token).unwrap().registered);

    assert_eq!(server.ready(a.token, &EventSet::readable()), Some(0));
    assert_eq!(server.coroutine(0).state, State::Running);
    assert_eq!(server.coroutine(0).blocked_on_mask, 0);
    assert_eq!(
        server.coroutine(0).last_event,
        LastEvent { index: EventSourceIndex(0), rw: RW::Read }
    );
    let got: Result<Option<usize>, String> = Ok(Some(5));
    assert_eq!(a.read(&mut server, got), Some(Ok(5)));
    assert_eq!(server.coroutine(0).state, State::Running);
    let eof: Result<Option<usize>, String> = Ok(Some(0));
    assert_eq!(a.read(&mut server, eof), Some(Ok(0)));
    let bad: Result<Option<usize>, String> = Err("broken".to_string());
    assert_eq!(a.read(&mut server, bad), Some(Err("broken".to_string())));
}

#[test]
fn write_and_accept_block_in_their_modes() {
    let (mut server, mut root) = started();
    let a = root.wrap(&mut server).unwrap();
    let b = root.wrap(&mut server).unwrap();
    let none: Result<Option<usize>, String> = Ok(None);
    assert_eq!(b.write(&mut server, none), None);
    assert_eq!(server.coroutine(0).state, State::BlockedOn(RW::Write));
    assert_eq!(server.coroutine(0).blocked_on_mask, 0b10);
    let pending: Result<Option<u8>, String> = Ok(None);
    assert_eq!(a.accept(&mut server, pending), None);
    assert_eq!(server.coroutine(0).state, State::BlockedOn(RW::Read));
    assert_eq!(server.coroutine(0).blocked_on_mask, 0b01);
    let conn: Result<Option<u8>, String> = Ok(Some(9));
    assert_eq!(a.accept(&mut server, conn), Some(Ok(9)));
    let sent: Result<Option<usize>, String> = Ok(Some(3));
    assert_eq!(b.write(&mut server, sent), Some(Ok(3)));
}

#[test]
fn echo_child_runs_to_the_end() {
    let (mut server, mut root) = started();
    let listener = root.wrap(&mut server).unwrap();
    let pending: Result<Option<u8>, String> = Ok(None);
    assert_eq!(listener.accept(&mut server, pending), None);
    assert!(server.take_children(0).is_empty());
    server.reregister(0);
    assert_eq!(server.ready(listener.token, &EventSet::readable()), Some(0));
    let mut child = root.spawn(&mut server);
    let pending: Result<Option<u8>, String> = Ok(None);
    assert_eq!(listener.accept(&mut server, pending), None);
    assert_eq!(server.take_children(0), vec![child.coroutine]);
    let conn = child.wrap(&mut server).unwrap();
    let none: Result<Option<usize>, String> = Ok(None);
    assert_eq!(conn.read(&mut server, none), None);
    server.reregister(child.coroutine);
    server.reregister(0);
    assert_eq!(server.coroutines_no(), 2);

    assert_eq!(server.ready(conn.token, &EventSet::readable()), Some(child.coroutine));
    let none: Result<Option<usize>, String> = Ok(None);
    assert_eq!(conn.read(&mut server, none), None);
    server.reregister(child.coroutine);

    let closed = EventSet::readable() | EventSet::hup();
    assert_eq!(server.ready(conn.token, &closed), Some(child.coroutine));
    assert!(server.source(conn.token).unwrap().peer_hup);
    child.finish(&mut server);
    assert_eq!(server.coroutine(child.coroutine).state, State::Finished);
    let m = server.reregister(child.coroutine);
    assert!(!m.shutdown);
    assert_eq!(m.ops.len(), 1);
    assert!(matches!(m.ops[0], ReactorOp::Deregister { token } if token == conn.token));
    assert_eq!(server.source(conn.token), None);
    assert!(server.coroutine(child.coroutine).io.is_empty());
    assert!(server.coroutine(child.coroutine).torn_down);
    assert_eq!(server.coroutines_no(), 1);
    assert!(server.source(listener.token).is_some());
    assert_eq!(server.ready(conn.token, &EventSet::readable()), None);
}

#[test]
fn mailbox_message_wakes_without_touching_last_event() {
    let (mut server, mut root) = started();
    let io = root.wrap(&mut server).unwrap();
    let mail = root.wrap_notified(&mut server).unwrap();
    let none: Result<Option<usize>, String> = Ok(None);
    io.write(&mut server, none);
    server.reregister(0);
    assert_eq!(server.ready(io.token, &EventSet::writable()), Some(0));
    let before = root.last_event(&server);
    assert_eq!(before, LastEvent { index: EventSourceIndex(0), rw: RW::Write });

    let sender = mail.channel();
    assert_eq!(sender.token, mail.token);
    assert_eq!(sender.send("yes yes ya'll"), (mail.token, "yes yes ya'll"));
    assert_eq!(mail.send(7u8), (mail.token, 7u8));
    mail.wait_notify(&mut server);
    assert_eq!(server.coroutine(0).state, State::BlockedOn(RW::Notify));
    assert_eq!(server.coroutine(0).blocked_on_mask, 0b10);
    let m = server.reregister(0);
    assert_eq!(m.ops.len(), 2);
    match m.ops[0] {
        ReactorOp::Reregister { token, interest } => {
            assert_eq!(token, io.token);
            assert!(interest == EventSet::none());
        }
        _ => panic!("expected the I/O source to be disarmed"),
    }
    assert!(matches!(m.ops[1], ReactorOp::Nothing));
    assert!(!server.source(mail.token).unwrap().registered);

    assert_eq!(server.notify(mail.token), Some(0));
    assert_eq!(server.coroutine(0).state, State::Running);
    assert_eq!(server.coroutine(0).blocked_on_mask, 0);
    assert_eq!(root.last_event(&server), before);
}

#[test]
fn message_for_io_source_or_unknown_token_is_dropped() {
    let (mut server, mut root) = started();
    let io = root.wrap(&mut server).unwrap();
    let none: Result<Option<usize>, String> = Ok(None);
    io.read(&mut server, none);
    server.reregister(0);
    assert_eq!(server.notify(io.token), None);
    assert_eq!(server.notify(io.token + 1), None);
    assert_eq!(server.notify(5000), None);
    assert_eq!(server.coroutine(0).state, State::BlockedOn(RW::Read));
    let mut src = EventSource { token: io.token };
    assert_eq!(src.notify(&mut server), None);
    assert_eq!(src.ready(&mut server, &EventSet::readable()), Some(0));
    assert_eq!(server.coroutine(0).state, State::Running);
}

#[test]
fn ready_for_unknown_token_is_dropped() {
    let (mut server, mut root) = started();
    let io = root.wrap(&mut server).unwrap();
    root.select(&mut server);
    server.reregister(0);
    assert_eq!(server.ready(io.token + 1, &EventSet::readable()), None);
    assert_eq!(server.ready(1024, &EventSet::readable()), None);
    assert_eq!(server.ready(usize::MAX, &EventSet::writable()), None);
    assert_eq!(server.coroutine(0).state, State::BlockedOn(RW::Both));
    assert_eq!(server.coroutine(0).registered_mask, 1);
}

#[test]
fn select_read_over_two_sockets() {
    let (mut server, mut root) = started();
    let a = root.wrap(&mut server).unwrap();
    let b = root.wrap(&mut server).unwrap();
    root.select_read(&mut server);
    assert_eq!(server.coroutine(0).state, State::BlockedOn(RW::Read));
    assert_eq!(server.coroutine(0).blocked_on_mask, 0b11);
    let m = server.reregister(0);
    assert_eq!(m.ops.len(), 2);
    assert!(matches!(m.ops[0], ReactorOp::Register { token, .. } if token == a.token));
    assert!(matches!(m.ops[1], ReactorOp::Register { token, .. } if token == b.token));
    assert_eq!(server.coroutine(0).registered_mask, 0b11);

    assert_eq!(server.ready(b.token, &EventSet::readable()), Some(0));
    let e = root.last_event(&server);
    assert_eq!(e.index(), b.index());
    assert!(e.has_read());
    assert!(!e.has_write());

    let none: Result<Option<usize>, String> = Ok(None);
    assert_eq!(b.read(&mut server, none), None);
    let m = server.reregister(0);
    match m.ops[0] {
        ReactorOp::Reregister { token, interest } => {
            assert_eq!(token, a.token);
            assert!(interest == EventSet::none());
        }
        _ => panic!("expected the first socket to be disarmed"),
    }
    match m.ops[1] {
        ReactorOp::Reregister { token, interest } => {
            assert_eq!(token, b.token);
            assert!(interest == EventSet::readable() | EventSet::hup());
        }
        _ => panic!("expected the second socket to be rearmed"),
    }
    assert_eq!(server.coroutine(0).registered_mask, 0b10);
    assert!(server.source(a.token).unwrap().registered);
}

#[test]
fn select_from_arms_the_named_sources_only() {
    let (mut server, mut root) = started();
    let a = root.wrap(&mut server).unwrap();
    let b = root.wrap(&mut server).unwrap();
    let c = root.wrap(&mut server).unwrap();
    root.select_from(&mut server, &[c.index(), a.index()]);
    assert_eq!(server.coroutine(0).state, State::BlockedOn(RW::Both));
    assert_eq!(server.coroutine(0).blocked_on_mask, 0b101);
    let m = server.reregister(0);
    assert!(matches!(m.ops[0], ReactorOp::Register { token, .. } if token == a.token));
    assert!(matches!(m.ops[1], ReactorOp::Nothing));
    match m.ops[2] {
        ReactorOp::Register { token, interest } => {
            assert_eq!(token, c.token);
            assert!(interest == EventSet::readable() | EventSet::writable() | EventSet::hup());
        }
        _ => panic!("expected a first registration"),
    }
    assert!(!server.source(b.token).unwrap().registered);
    let both = EventSet::readable() | EventSet::writable();
    assert_eq!(server.ready(c.token, &both), Some(0));
    let e = root.last_event(&server);
    assert_eq!(e.index(), EventSourceIndex(2));
    assert!(e.has_read() && e.has_write());

    root.select_write_from(&mut server, &[b.index()]);
    assert_eq!(server.coroutine(0).state, State::BlockedOn(RW::Write));
    assert_eq!(server.coroutine(0).blocked_on_mask, 0b010);
    root.select_read_from(&mut server, &[]);
    assert_eq!(server.coroutine(0).state, State::BlockedOn(RW::Read));
    assert_eq!(server.coroutine(0).blocked_on_mask, 0);
    root.select_write(&mut server);
    assert_eq!(server.coroutine(0).state, State::BlockedOn(RW::Write));
    assert_eq!(server.coroutine(0).blocked_on_mask, 0b111);
}

#[test]
fn children_start_in_spawn_order() {
    let (mut server, mut root) = started();
    let io = root.wrap(&mut server).unwrap();
    let c1 = root.spawn(&mut server);
    let c2 = root.spawn(&mut server);
    assert_eq!(c1.coroutine, 1);
    assert_eq!(c2.coroutine, 2);
    assert_eq!(server.coroutines_no(), 3);
    assert_eq!(server.coroutine(0).children_to_start, vec![1, 2]);
    assert_eq!(server.coroutine(1).state, State::Running);
    let none: Result<Option<usize>, String> = Ok(None);
    io.read(&mut server, none);
    let children = server.take_children(0);
    assert_eq!(children, vec![1, 2]);
    assert!(server.coroutine(0).children_to_start.is_empty());
    for (child, mut handle) in children.into_iter().zip(vec![c1, c2]) {
        let src = handle.wrap(&mut server).unwrap();
        let none: Result<Option<usize>, String> = Ok(None);
        src.read(&mut server, none);
        assert!(server.take_children(child).is_empty());
        let m = server.reregister(child);
        assert_eq!(m.ops.len(), 1);
    }
    server.reregister(0);
    assert_eq!(server.coroutines_no(), 3);
    assert_eq!(server.coroutines_len(), 3);
}

#[test]
fn last_coroutine_shuts_the_loop_down() {
    let (mut server, root) = started();
    root.finish(&mut server);
    assert_eq!(server.coroutine(0).state, State::Finished);
    assert_eq!(server.coroutines_no(), 1);
    let m = server.reregister(0);
    assert!(m.shutdown);
    assert!(m.ops.is_empty());
    assert_eq!(server.coroutines_no(), 0);
    let again = server.reregister(0);
    assert!(!again.shutdown);
    assert!(again.ops.is_empty());
    assert_eq!(server.coroutines_no(), 0);
}

#[test]
fn finishing_with_a_child_alive_does_not_shut_down() {
    let (mut server, mut root) = started();
    let mut child = root.spawn(&mut server);
    let a = root.wrap(&mut server).unwrap();
    let n = root.wrap_notified(&mut server).unwrap();
    let none: Result<Option<usize>, String> = Ok(None);
    a.read(&mut server, none);
    let kids = server.take_children(0);
    assert_eq!(kids, vec![child.coroutine]);
    let c = child.wrap(&mut server).unwrap();
    child.select(&mut server);
    server.reregister(child.coroutine);
    server.reregister(0);
    server.ready(a.token, &EventSet::readable());
    root.finish(&mut server);
    assert_eq!(server.coroutine(0).blocked_on_mask, 0);
    let m = server.reregister(0);
    assert!(!m.shutdown);
    assert_eq!(m.ops.len(), 2);
    assert!(matches!(m.ops[0], ReactorOp::Deregister { token } if token == a.token));
    assert!(matches!(m.ops[1], ReactorOp::Nothing));
    assert_eq!(server.source(a.token), None);
    assert_eq!(server.source(n.token), None);
    assert_eq!(server.source(c.token).unwrap().coroutine, child.coroutine);
    assert_eq!(server.coroutines_no(), 1);
    child.finish(&mut server);
    let m = server.reregister(child.coroutine);
    assert!(m.shutdown);
    assert_eq!(server.coroutines_no(), 0);
    assert_eq!(server.source(c.token), None);
}

#[test]
fn hangup_stops_read_interest() {
    let (mut server, mut root) = started();
    let a = root.wrap(&mut server).unwrap();
    root.select(&mut server);
    server.reregister(0);
    assert_eq!(server.ready(a.token, &EventSet::hup()), Some(0));
    assert!(server.source(a.token).unwrap().peer_hup);
    assert_eq!(
        root.last_event(&server),
        LastEvent { index: EventSourceIndex(0), rw: RW::Read }
    );
    root.select(&mut server);
    let m = server.reregister(0);
    match m.ops[0] {
        ReactorOp::Reregister { token, interest } => {
            assert_eq!(token, a.token);
            assert!(interest == EventSet::writable());
        }
        _ => panic!("expected a rearming"),
    }
    assert_eq!(server.ready(a.token, &EventSet::writable()), Some(0));
    assert!(server.source(a.token).unwrap().peer_hup);
}
