use vstd::prelude::*;
use mio::EventSet;
use crate::event::RW;

verus! {

/// `mio::EventSet`: a set of readiness flags, opaque to the verifier.
#[verifier::external_type_specification]
#[verifier::external_body]
pub struct ExEventSet(EventSet);

/// Whether the readable flag is in the set: what `EventSet::is_readable`
/// answers.
pub uninterp spec fn set_readable(set: EventSet) -> bool;

/// Whether the writable flag is in the set: what `EventSet::is_writable`
/// answers.
pub uninterp spec fn set_writable(set: EventSet) -> bool;

/// Whether the hangup flag is in the set: what `EventSet::is_hup` answers.
pub uninterp spec fn set_hup(set: EventSet) -> bool;

/// Whether the error flag is in the set: what `EventSet::is_error` answers.
pub uninterp spec fn set_error(set: EventSet) -> bool;

/// The flags of a set, side by side.
pub open spec fn flags(set: EventSet) -> (bool, bool, bool, bool) {
    (set_readable(set), set_writable(set), set_hup(set), set_error(set))
}

/// `EventSet::none` is the set with no flag.
pub assume_specification[ EventSet::none ]() -> (set: EventSet)
    ensures
        flags(set) == (false, false, false, false),
;

/// `EventSet::readable` is the set with the readable flag alone.
pub assume_specification[ EventSet::readable ]() -> (set: EventSet)
    ensures
        flags(set) == (true, false, false, false),
;

/// `EventSet::writable` is the set with the writable flag alone.
pub assume_specification[ EventSet::writable ]() -> (set: EventSet)
    ensures
        flags(set) == (false, true, false, false),
;

/// `EventSet::hup` is the set with the hangup flag alone.
pub assume_specification[ EventSet::hup ]() -> (set: EventSet)
    ensures
        flags(set) == (false, false, true, false),
;

/// `EventSet::is_readable` tells whether the readable flag is in the set.
pub assume_specification[ EventSet::is_readable ](set: &EventSet) -> (r: bool)
    ensures
        r == set_readable(*set),
;

/// `EventSet::is_writable` tells whether the writable flag is in the set.
pub assume_specification[ EventSet::is_writable ](set: &EventSet) -> (r: bool)
    ensures
        r == set_writable(*set),
;

/// `EventSet::is_hup` tells whether the hangup flag is in the set.
pub assume_specification[ EventSet::is_hup ](set: &EventSet) -> (r: bool)
    ensures
        r == set_hup(*set),
;

/// The `|` of two `EventSet`s holds a flag where either operand does.
#[verifier::external_body]
pub(crate) fn union(a: EventSet, b: EventSet) -> (set: EventSet)
    ensures
        set_readable(set) == (set_readable(a) || set_readable(b)),
        set_writable(set) == (set_writable(a) || set_writable(b)),
        set_hup(set) == (set_hup(a) || set_hup(b)),
        set_error(set) == (set_error(a) || set_error(b)),
{
    a | b
}

/// The flags to arm a source with when its coroutine blocks in mode `rw`:
/// hangup unless the peer has hung up already, readable where the mode reads
/// and the peer has not hung up, writable where the mode writes.
pub open spec fn interest_flags(rw: RW, peer_hup: bool) -> (bool, bool, bool, bool) {
    (rw.reads() && !peer_hup, rw.writes(), !peer_hup, false)
}

/// The interest to arm a source with when its coroutine blocks in mode `rw`.
pub fn interest_for(rw: RW, peer_hup: bool) -> (interest: EventSet)
    ensures
        flags(interest) == interest_flags(rw, peer_hup),
{
    let mut interest = EventSet::none();
    if !peer_hup {
        interest = union(interest, EventSet::hup());
        if rw.has_read() {
            interest = union(interest, EventSet::readable());
        }
    }
    if rw.has_write() {
        interest = union(interest, EventSet::writable());
    }
    interest
}

/// The mode that a set of ready flags wakes a coroutine with: a hangup
/// counts as readable, so that the coroutine gets to see its read fail.
/// `None` where neither readable, writable nor hangup is set.
pub open spec fn mode_of(readable: bool, writable: bool, hup: bool) -> Option<RW> {
    if (readable || hup) && writable {
        Some(RW::Both)
    } else if readable || hup {
        Some(RW::Read)
    } else if writable {
        Some(RW::Write)
    } else {
        None
    }
}

/// The mode that the ready flags in `events` wake a coroutine with.
pub fn event_mode(events: &EventSet) -> (mode: Option<RW>)
    ensures
        mode == mode_of(set_readable(*events), set_writable(*events), set_hup(*events)),
{
    let read: bool = events.is_readable() || events.is_hup();
    let write: bool = events.is_writable();
    if read && write {
        Some(RW::Both)
    } else if read {
        Some(RW::Read)
    } else if write {
        Some(RW::Write)
    } else {
        None
    }
}

} // verus!
