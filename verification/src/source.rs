use vstd::prelude::*;
use mio::EventSet;
use crate::event::RW;
use crate::interest::{flags, interest_flags, interest_for};

verus! {

/// The two kinds of source.
#[derive(Copy, Clone, Debug, PartialEq, Eq, Structural)]
pub enum SourceKind {
    /// An I/O object that the reactor watches.
    Evented,
    /// An object reached by messages only; the reactor never hears of it.
    Notified,
}

/// What the runtime keeps on one source.
#[derive(Copy, Clone, Debug, PartialEq, Eq, Structural)]
pub struct EventSourceShared {
    /// The coroutine that owns the source.
    pub coroutine: usize,
    /// The source's token in the slab and in the reactor.
    pub token: usize,
    /// The source's position in its coroutine's list.
    pub index: usize,
    /// I/O object or message sink.
    pub kind: SourceKind,
    /// The peer has hung up; sticky.
    pub peer_hup: bool,
    /// The reactor knows the source.
    pub registered: bool,
}

/// A request to the reactor.
#[derive(Copy, Clone, Debug)]
pub enum ReactorOp {
    /// Nothing to ask.
    Nothing,
    /// Make the source known, edge-triggered, with this interest.
    Register { token: usize, interest: EventSet },
    /// Arm a known source anew, edge-triggered and for one event, with this
    /// interest.
    Reregister { token: usize, interest: EventSet },
    /// Forget the source.
    Deregister { token: usize },
}

impl ReactorOp {
    /// The token that the request names, if it names one.
    pub open spec fn token(self) -> Option<usize> {
        match self {
            ReactorOp::Nothing => None,
            ReactorOp::Register { token, .. } => Some(token),
            ReactorOp::Reregister { token, .. } => Some(token),
            ReactorOp::Deregister { token } => Some(token),
        }
    }

    /// The flags that the request arms, if it arms any.
    pub open spec fn armed_flags(self) -> Option<(bool, bool, bool, bool)> {
        match self {
            ReactorOp::Register { interest, .. } => Some(flags(interest)),
            ReactorOp::Reregister { interest, .. } => Some(flags(interest)),
            _ => None,
        }
    }

    /// Whether the request arms for one event only: rearming does, the first
    /// arming does not.
    pub fn is_oneshot(&self) -> (r: bool)
        ensures
            r == (self is Reregister),
    {
        match self {
            ReactorOp::Reregister { .. } => true,
            _ => false,
        }
    }
}

/// The flags that the source with token `t` is armed with in `reactor`, if
/// the reactor knows it.
pub open spec fn held(reactor: Map<usize, (bool, bool, bool, bool)>, t: usize) -> Option<
    (bool, bool, bool, bool),
> {
    if reactor.contains_key(t) {
        Some(reactor[t])
    } else {
        None
    }
}

/// What the reactor holds once it was asked `op`, where `reactor` is what it
/// held before: for each source it knows, the flags it is armed with.
pub open spec fn asked(reactor: Map<usize, (bool, bool, bool, bool)>, op: ReactorOp) -> Map<
    usize,
    (bool, bool, bool, bool),
> {
    match op {
        ReactorOp::Nothing => reactor,
        ReactorOp::Register { token, interest } => reactor.insert(token, flags(interest)),
        ReactorOp::Reregister { token, interest } => reactor.insert(token, flags(interest)),
        ReactorOp::Deregister { token } => reactor.remove(token),
    }
}

/// What the reactor holds once it was asked each of `ops` in turn.
pub open spec fn asked_all(reactor: Map<usize, (bool, bool, bool, bool)>, ops: Seq<ReactorOp>) -> Map<
    usize,
    (bool, bool, bool, bool),
>
    decreases ops.len(),
{
    if ops.len() == 0 {
        reactor
    } else {
        asked(asked_all(reactor, ops.drop_last()), ops.last())
    }
}

impl EventSourceShared {
    /// The record of a source that was just wrapped.
    pub open spec fn fresh(coroutine: usize, token: usize, index: usize, kind: SourceKind) -> Self {
        EventSourceShared { coroutine, token, index, kind, peer_hup: false, registered: false }
    }

    /// The record of a source that was just wrapped: no hangup seen, not
    /// known to the reactor.
    pub fn new(coroutine: usize, token: usize, index: usize, kind: SourceKind) -> (r: Self)
        ensures
            r == Self::fresh(coroutine, token, index, kind),
    {
        EventSourceShared { coroutine, token, index, kind, peer_hup: false, registered: false }
    }

    /// The record after a hangup.
    pub open spec fn hung_up(self) -> Self {
        EventSourceShared { peer_hup: true, ..self }
    }

    /// Notes that the peer has hung up.
    pub fn hup(&mut self)
        ensures
            *final(self) == old(self).hung_up(),
    {
        self.peer_hup = true;
    }

    /// The record after arming: an I/O source is known to the reactor from
    /// then on, a message sink never.
    pub open spec fn armed(self) -> Self {
        match self.kind {
            SourceKind::Evented => EventSourceShared { registered: true, ..self },
            SourceKind::Notified => self,
        }
    }

    /// What arming in mode `rw` asks of the reactor: nothing for a message
    /// sink; for an I/O source a first registration or, where the reactor
    /// knows it already, a rearming, with the interest of the mode.
    pub open spec fn arming_fits(self, rw: RW, op: ReactorOp) -> bool {
        match self.kind {
            SourceKind::Notified => op is Nothing,
            SourceKind::Evented => {
                &&& op.token() == Some(self.token)
                &&& op.armed_flags() == Some(interest_flags(rw, self.peer_hup))
                &&& (op is Register) == !self.registered
                &&& (op is Reregister) == self.registered
            },
        }
    }

    /// Arms the source for a coroutine that blocks on it in mode `rw`.
    pub fn reregister(&mut self, rw: RW) -> (op: ReactorOp)
        ensures
            *final(self) == old(self).armed(),
            old(self).arming_fits(rw, op),
    {
        match self.kind {
            SourceKind::Notified => ReactorOp::Nothing,
            SourceKind::Evented => {
                let interest = interest_for(rw, self.peer_hup);
                if !self.registered {
                    self.registered = true;
                    ReactorOp::Register { token: self.token, interest }
                } else {
                    ReactorOp::Reregister { token: self.token, interest }
                }
            },
        }
    }

    /// What disarming asks of the reactor: nothing for a message sink; for an
    /// I/O source a rearming with no flag at all.
    pub open spec fn disarming_fits(self, op: ReactorOp) -> bool {
        match self.kind {
            SourceKind::Notified => op is Nothing,
            SourceKind::Evented => {
                &&& op is Reregister
                &&& op.token() == Some(self.token)
                &&& op.armed_flags() == Some((false, false, false, false))
            },
        }
    }

    /// Disarms a source that its coroutine no longer waits for: it stays
    /// known to the reactor, with an empty interest.
    pub fn unreregister(&self) -> (op: ReactorOp)
        ensures
            self.disarming_fits(op),
    {
        match self.kind {
            SourceKind::Notified => ReactorOp::Nothing,
            SourceKind::Evented => ReactorOp::Reregister {
                token: self.token,
                interest: EventSet::none(),
            },
        }
    }

    /// The record after the reactor was told to forget the source.
    pub open spec fn forgotten(self) -> Self {
        match self.kind {
            SourceKind::Evented => EventSourceShared { registered: false, ..self },
            SourceKind::Notified => self,
        }
    }

    /// What forgetting asks of the reactor: a deregistration where the source
    /// is an I/O source that the reactor knows, nothing otherwise.
    pub open spec fn forgetting_fits(self, op: ReactorOp) -> bool {
        if self.kind == SourceKind::Evented && self.registered {
            op == (ReactorOp::Deregister { token: self.token })
        } else {
            op is Nothing
        }
    }

    /// Takes the source out of the reactor, if it is in it.
    pub fn deregister(&mut self) -> (op: ReactorOp)
        ensures
            *final(self) == old(self).forgotten(),
            old(self).forgetting_fits(op),
    {
        match self.kind {
            SourceKind::Notified => ReactorOp::Nothing,
            SourceKind::Evented => {
                if self.registered {
                    self.registered = false;
                    ReactorOp::Deregister { token: self.token }
                } else {
                    ReactorOp::Nothing
                }
            },
        }
    }
}

} // verus!
