use vstd::prelude::*;
use crate::event::{EventSourceIndex, LastEvent, State, RW};
use crate::mask::mask_has;

verus! {

/// What the runtime keeps on one coroutine.
#[derive(Debug)]
pub struct Coroutine {
    /// Where the coroutine stands.
    pub state: State,
    /// The event that last woke it.
    pub last_event: LastEvent,
    /// The tokens of the sources it owns, in the order they were wrapped.
    pub io: Vec<usize>,
    /// The positions it named in its latest blocking call, until they are
    /// armed.
    pub blocked_on_mask: u32,
    /// The positions that were armed when it last blocked.
    pub registered_mask: u32,
    /// The coroutines it has spawned that were not resumed yet.
    pub children_to_start: Vec<usize>,
    /// Its sources are gone and it no longer counts as alive.
    pub torn_down: bool,
}

impl Coroutine {
    /// A coroutine that was just spawned: running, owning nothing, waiting
    /// for nothing.
    pub open spec fn is_fresh(self) -> bool {
        &&& self.state == State::Running
        &&& self.last_event == (LastEvent { index: EventSourceIndex(0), rw: RW::Read })
        &&& self.io@ == Seq::<usize>::empty()
        &&& self.blocked_on_mask == 0
        &&& self.registered_mask == 0
        &&& self.children_to_start@ == Seq::<usize>::empty()
        &&& !self.torn_down
    }

    /// The record of a coroutine that was just spawned.
    pub fn new() -> (co: Coroutine)
        ensures
            co.is_fresh(),
    {
        Coroutine {
            state: State::Running,
            last_event: LastEvent { index: EventSourceIndex(0), rw: RW::Read },
            io: Vec::new(),
            blocked_on_mask: 0,
            registered_mask: 0,
            children_to_start: Vec::new(),
            torn_down: false,
        }
    }

    /// The record after a blocking call that named the positions in `mask`
    /// and waits in mode `rw`.
    pub open spec fn blocked(self, mask: u32, rw: RW) -> Coroutine {
        Coroutine { state: State::BlockedOn(rw), blocked_on_mask: mask, ..self }
    }

    /// The record after the body has returned.
    pub open spec fn finished(self) -> Coroutine {
        Coroutine { state: State::Finished, blocked_on_mask: 0, ..self }
    }

    /// The record at the moment the coroutine is resumed for an event on its
    /// source at `index`: the source no longer counts as waited for, the
    /// coroutine runs, and an I/O event is noted as the last event, a message
    /// is not.
    pub open spec fn woken(self, index: usize, mode: RW) -> Coroutine {
        Coroutine {
            state: State::Running,
            blocked_on_mask: self.blocked_on_mask & !(1u32 << (index as u32)),
            last_event: if mode == RW::Notify {
                self.last_event
            } else {
                LastEvent { index: EventSourceIndex(index), rw: mode }
            },
            ..self
        }
    }

    /// The record after the sources named in the latest blocking call were
    /// armed.
    pub open spec fn settled(self) -> Coroutine {
        Coroutine { registered_mask: self.blocked_on_mask, blocked_on_mask: 0, ..self }
    }

    /// The record after the coroutine was taken down, but for the list of
    /// its sources, which is empty then.
    pub open spec fn laid_to_rest(self) -> Coroutine {
        Coroutine { blocked_on_mask: 0, registered_mask: 0, torn_down: true, ..self }
    }

    /// Both masks select positions that the coroutine owns, and no others.
    pub open spec fn masks_fit(self) -> bool {
        &&& forall|i: int| mask_has(self.blocked_on_mask, i) ==> i < self.io@.len()
        &&& forall|i: int| mask_has(self.registered_mask, i) ==> i < self.io@.len()
    }
}

/// The number of coroutines in `s` that still count as alive.
pub open spec fn live_count(s: Seq<Coroutine>) -> nat
    decreases s.len(),
{
    if s.len() == 0 {
        0
    } else {
        live_count(s.drop_last()) + if s.last().torn_down {
            0nat
        } else {
            1nat
        }
    }
}

/// One more record counts for one more where it is alive.
pub proof fn lemma_live_count_push(s: Seq<Coroutine>, co: Coroutine)
    ensures
        live_count(s.push(co)) == live_count(s) + if co.torn_down {
            0nat
        } else {
            1nat
        },
{
    assert(s.push(co).drop_last() =~= s);
}

/// Replacing one record changes the count by what the two records count for.
pub proof fn lemma_live_count_update(s: Seq<Coroutine>, i: int, co: Coroutine)
    requires
        0 <= i < s.len(),
    ensures
        live_count(s.update(i, co)) + (if s[i].torn_down {
            0nat
        } else {
            1nat
        }) == live_count(s) + if co.torn_down {
            0nat
        } else {
            1nat
        },
    decreases s.len(),
{
    if i == s.len() - 1 {
        assert(s.update(i, co).drop_last() =~= s.drop_last());
    } else {
        lemma_live_count_update(s.drop_last(), i, co);
        assert(s.update(i, co).drop_last() =~= s.drop_last().update(i, co));
    }
}

} // verus!
