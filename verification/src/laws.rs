use vstd::prelude::*;
use crate::event::{EventSourceIndex, State, RW};
use crate::handle::MiocoHandle;
use crate::interest::{interest_flags, mode_of};
use crate::mask::{index_set, lemma_mask_clear_bit, mask_has, mask_set};
use crate::server::ServerView;
use crate::source::{asked, held, EventSourceShared, ReactorOp, SourceKind};

verus! {

/// Whether coroutine `c` waits for nothing that is still to be armed: so it
/// is when it was just spawned and after each maintenance.
pub open spec fn maintained(v: ServerView, c: int) -> bool {
    v.coroutines[c].blocked_on_mask == 0
}

/// A coroutine that was just spawned is `Running` and waits for nothing: so
/// it is at its first resume.
pub proof fn law_first_resume(v: ServerView, c: int)
    requires
        0 <= c < v.coroutines.len(),
        v.coroutines[c].is_fresh(),
    ensures
        v.coroutines[c].state == State::Running,
        maintained(v, c),
{
}

/// A ready event for a source in the table wakes the coroutine that owns
/// the source and leaves every other coroutine as it was; the same holds of
/// a message.
pub proof fn law_event_wakes_owner_alone(v: ServerView, t: usize, hup: bool, mode: RW, d: int)
    requires
        v.wf(),
        v.sources.contains_key(t),
        0 <= d < v.coroutines.len(),
        d != v.sources[t].coroutine,
    ensures
        v.after_ready(t, hup, mode).coroutines[d] == v.coroutines[d],
        v.after_notify(t).coroutines[d] == v.coroutines[d],
        v.after_ready(t, hup, mode).coroutines[v.sources[t].coroutine as int].state
            == State::Running,
        v.after_notify(t).coroutines[v.sources[t].coroutine as int].state == State::Running,
{
    assert(v.source_wf(t));
}

/// The arming pass leaves the coroutine maintained.
pub proof fn law_pass_maintains(v: ServerView, next: ServerView, c: int)
    requires
        v.wf(),
        0 <= c < v.coroutines.len(),
        v.armed_into(next, c),
    ensures
        maintained(next, c),
        next.coroutines[c].registered_mask == v.coroutines[c].blocked_on_mask,
        next.coroutines[c].state == v.coroutines[c].state,
{
}

/// Where every coroutine but `c` is maintained, every coroutine is once `c`
/// was maintained too, by the arming pass or by being taken down: between
/// two events no coroutine waits for anything that is still to be armed.
pub proof fn law_maintenance_restores_quiet(v: ServerView, next: ServerView, c: int, d: int)
    requires
        v.wf(),
        0 <= c < v.coroutines.len(),
        0 <= d < v.coroutines.len(),
        v.armed_into(next, c) || v.torn_down_into(next, c),
        d != c ==> maintained(v, d),
    ensures
        maintained(next, d),
{
}

/// A maintained coroutine that a ready event wakes is `Running` and waits
/// for nothing at the moment it is resumed.
pub proof fn law_resumed_by_event(v: ServerView, t: usize, hup: bool, mode: RW)
    requires
        v.wf(),
        v.sources.contains_key(t),
        maintained(v, v.sources[t].coroutine as int),
    ensures
        ({
            let c = v.sources[t].coroutine as int;
            let co = v.after_ready(t, hup, mode).coroutines[c];
            co.state == State::Running && co.blocked_on_mask == 0
        }),
{
    let c = v.sources[t].coroutine as int;
    assert(v.source_wf(t));
    assert(v.coroutine_wf(c));
    lemma_mask_clear_bit(v.coroutines[c].blocked_on_mask, v.sources[t].index as int);
}

/// A maintained coroutine that a message wakes is `Running` and waits for
/// nothing at the moment it is resumed, and its last event is what it was.
pub proof fn law_resumed_by_message(v: ServerView, t: usize)
    requires
        v.wf(),
        v.sources.contains_key(t),
        maintained(v, v.sources[t].coroutine as int),
    ensures
        ({
            let c = v.sources[t].coroutine as int;
            let co = v.after_notify(t).coroutines[c];
            co.state == State::Running && co.blocked_on_mask == 0 && co.last_event
                == v.coroutines[c].last_event
        }),
{
    let c = v.sources[t].coroutine as int;
    assert(v.source_wf(t));
    assert(v.coroutine_wf(c));
    lemma_mask_clear_bit(v.coroutines[c].blocked_on_mask, v.sources[t].index as int);
}

/// In every well-formed state an I/O source at a position that the mask of
/// armed positions selects is known to the reactor.
pub proof fn law_armed_is_registered(v: ServerView, c: int, k: int)
    requires
        v.wf(),
        0 <= c < v.coroutines.len(),
        0 <= k < v.coroutines[c].io@.len(),
        v.source_at(c, k).kind == SourceKind::Evented,
        mask_has(v.coroutines[c].registered_mask, k),
    ensures
        v.source_at(c, k).registered,
{
    assert(v.coroutine_wf(c));
    assert(v.position_wf(c, k));
}

/// After the arming pass, an I/O source that the reactor did not know before
/// is known to it exactly where the mask of armed positions selects it. (A
/// source that the reactor knew before stays known, disarmed, whether
/// selected or not.)
pub proof fn law_registered_after_pass(v: ServerView, next: ServerView, c: int, k: int)
    requires
        v.wf(),
        0 <= c < v.coroutines.len(),
        0 <= k < v.coroutines[c].io@.len(),
        v.armed_into(next, c),
        v.source_at(c, k).kind == SourceKind::Evented,
        !v.source_at(c, k).registered,
    ensures
        next.source_at(c, k).registered <==> mask_has(next.coroutines[c].registered_mask, k),
{
    assert(v.coroutine_wf(c));
    assert(v.position_wf(c, k));
    let t = v.token_at(c, k);
    assert(v.sources.contains_key(t));
    assert(next.sources[t] == v.source_after_pass(c, t));
}

/// After a finished coroutine was taken down, none of its tokens is in the
/// table, so that none of its sources is known to the reactor, and exactly
/// one coroutine fewer counts as alive.
pub proof fn law_teardown(v: ServerView, next: ServerView, c: int)
    requires
        v.wf(),
        0 <= c < v.coroutines.len(),
        v.torn_down_into(next, c),
    ensures
        forall|k: int|
            0 <= k < v.coroutines[c].io@.len() ==> !next.sources.contains_key(
                #[trigger] v.token_at(c, k),
            ),
        next.coroutines_no == v.coroutines_no - 1,
        next.coroutines[c].io@.len() == 0,
{
    assert(v.coroutine_wf(c));
    assert forall|k: int| 0 <= k < v.coroutines[c].io@.len() implies !next.sources.contains_key(
        #[trigger] v.token_at(c, k),
    ) by {
        assert(v.position_wf(c, k));
    }
}

/// Nothing is ever asked of the reactor for a message sink: neither by the
/// arming pass nor when its coroutine is taken down.
pub proof fn law_sink_never_armed(v: ServerView, c: int, k: int, rw: RW, op: ReactorOp)
    requires
        v.wf(),
        0 <= c < v.coroutines.len(),
        0 <= k < v.coroutines[c].io@.len(),
        v.source_at(c, k).kind == SourceKind::Notified,
        v.pass_fits(c, k, rw, op) || v.source_at(c, k).forgetting_fits(op),
    ensures
        op is Nothing,
        !v.source_at(c, k).registered,
{
    assert(v.coroutine_wf(c));
    assert(v.position_wf(c, k));
    assert(v.source_wf(v.token_at(c, k)));
}

/// Every request that the arming pass makes names the token of an I/O
/// source of the coroutine.
pub proof fn law_pass_names_io_sources(v: ServerView, c: int, k: int, rw: RW, op: ReactorOp)
    requires
        v.wf(),
        0 <= c < v.coroutines.len(),
        0 <= k < v.coroutines[c].io@.len(),
        v.pass_fits(c, k, rw, op),
        !(op is Nothing),
    ensures
        op.token() == Some(v.token_at(c, k)),
        v.source_at(c, k).kind == SourceKind::Evented,
{
    assert(v.coroutine_wf(c));
    assert(v.position_wf(c, k));
    assert(v.source_wf(v.token_at(c, k)));
}

/// After a select on chosen positions and the arming pass, a ready event on
/// a source that the pass armed leaves a last event whose index is one of
/// the chosen positions.
pub proof fn law_select_event_index(
    handle: MiocoHandle,
    v: ServerView,
    selected: ServerView,
    armed: ServerView,
    indices: Seq<EventSourceIndex>,
    rw: RW,
    t: usize,
    hup: bool,
    mode: RW,
)
    requires
        v.wf(),
        selected.wf(),
        handle.coroutine < v.coroutines.len(),
        handle.selected_from(v, selected, indices, rw),
        selected.armed_into(armed, handle.coroutine as int),
        armed.sources.contains_key(t),
        armed.sources[t].coroutine == handle.coroutine,
        mask_has(armed.coroutines[handle.coroutine as int].registered_mask, armed.sources[t].index as int),
        mode != RW::Notify,
    ensures
        ({
            let woken = armed.after_ready(t, hup, mode).coroutines[handle.coroutine as int];
            &&& woken.last_event.rw == mode
            &&& exists|k: int| 0 <= k < indices.len() && #[trigger] indices[k] == woken.last_event.index
        }),
{
    let c = handle.coroutine as int;
    let i = armed.sources[t].index as int;
    assert(mask_has(selected.coroutines[c].blocked_on_mask, i));
    assert(mask_set(selected.coroutines[c].blocked_on_mask).contains(i));
    assert(index_set(indices).contains(i));
    let k = choose|k: int| 0 <= k < indices.len() && #[trigger] indices[k].0 == i;
    assert(indices[k] == EventSourceIndex(armed.sources[t].index));
}

/// A ready event that reports no more than the interest armed for mode `rw`
/// wakes in a mode that fits: in `Read` where the coroutine waited to read,
/// and, unless the peer hung up, in `Write` where it waited to write. (A
/// hangup wakes a writer in a reading mode, for it to see the failure.)
pub proof fn law_select_event_mode(
    rw: RW,
    peer_hup: bool,
    readable: bool,
    writable: bool,
    hup: bool,
)
    requires
        rw != RW::Notify,
        readable ==> interest_flags(rw, peer_hup).0,
        writable ==> interest_flags(rw, peer_hup).1,
        hup ==> interest_flags(rw, peer_hup).2,
        readable || writable || hup,
    ensures
        mode_of(readable, writable, hup) is Some,
        rw == RW::Read ==> mode_of(readable, writable, hup) == Some(RW::Read),
        rw == RW::Write && !hup ==> mode_of(readable, writable, hup) == Some(RW::Write),
        rw == RW::Write ==> mode_of(readable, writable, hup)->Some_0.writes() || hup,
{
}

/// In every well-formed state the reactor knows exactly the sources whose
/// records say that it does. (The reactor here is what the runtime has asked
/// of it.)
pub proof fn law_reactor_knows_registered(v: ServerView, t: usize)
    requires
        v.wf(),
    ensures
        v.reactor.contains_key(t) <==> v.sources.contains_key(t) && v.sources[t].registered,
{
}

/// In every well-formed state the reactor knows no message sink: it was
/// never asked to arm one.
pub proof fn law_sink_unknown_to_reactor(v: ServerView, t: usize)
    requires
        v.wf(),
        v.sources.contains_key(t),
        v.sources[t].kind == SourceKind::Notified,
    ensures
        !v.reactor.contains_key(t),
{
    assert(v.source_wf(t));
}

/// After the arming pass on a blocked coroutine, the reactor holds each of
/// its I/O sources that it waits for armed with the interest of its mode,
/// and each that was armed and is no longer waited for armed with no flag.
/// What it holds of the sources of other coroutines is what it held.
pub proof fn law_pass_arms_what_is_waited_for(v: ServerView, next: ServerView, c: int, t: usize)
    requires
        v.wf(),
        0 <= c < v.coroutines.len(),
        v.armed_into(next, c),
        v.sources.contains_key(t),
    ensures
        ({
            let s = v.sources[t];
            let co = v.coroutines[c];
            let waited = mask_has(co.blocked_on_mask, s.index as int);
            let was_armed = mask_has(co.registered_mask, s.index as int);
            &&& s.coroutine == c && s.kind == SourceKind::Evented && waited
                ==> next.reactor.contains_key(t) && next.reactor[t] == interest_flags(
                co.state->BlockedOn_0,
                s.peer_hup,
            )
            &&& s.coroutine == c && s.kind == SourceKind::Evented && !waited && was_armed
                ==> next.reactor.contains_key(t) && next.reactor[t] == (false, false, false, false)
            &&& s.coroutine != c ==> next.reactor.contains_key(t) == v.reactor.contains_key(t) && (
            next.reactor.contains_key(t) ==> next.reactor[t] == v.reactor[t])
        }),
{
    assert(held(next.reactor, t) == v.flags_after_pass(c, t));
}

/// Asking the reactor the same thing twice in a row leaves it as asking
/// once does.
pub proof fn law_asking_twice_is_asking_once(
    reactor: Map<usize, (bool, bool, bool, bool)>,
    op: ReactorOp,
)
    ensures
        asked(asked(reactor, op), op) == asked(reactor, op),
{
    assert(asked(asked(reactor, op), op) =~= asked(reactor, op));
}

/// Arming a source twice in the same mode comes to arming it once: the
/// record is the same after the second time as after the first, and where
/// the reactor knew the source before, both requests are the same rearming.
pub proof fn law_arming_idempotent(s: EventSourceShared, rw: RW, first: ReactorOp, second: ReactorOp)
    requires
        s.arming_fits(rw, first),
        s.armed().arming_fits(rw, second),
    ensures
        s.armed().armed() == s.armed(),
        second.token() == first.token(),
        second.armed_flags() == first.armed_flags(),
        s.registered ==> (first is Reregister) == (second is Reregister) && (first is Nothing) == (
        second is Nothing),
        forall|reactor: Map<usize, (bool, bool, bool, bool)>|
            asked(#[trigger] asked(reactor, first), second) == asked(reactor, first),
{
    assert forall|reactor: Map<usize, (bool, bool, bool, bool)>|
        asked(#[trigger] asked(reactor, first), second) == asked(reactor, first) by {
        assert(asked(asked(reactor, first), second) =~= asked(reactor, first));
    }
}

/// A source that was wrapped and never armed leaves without a word to the
/// reactor.
pub proof fn law_unarmed_source_leaves_quietly(
    coroutine: usize,
    token: usize,
    index: usize,
    kind: SourceKind,
    op: ReactorOp,
)
    requires
        EventSourceShared::fresh(coroutine, token, index, kind).forgetting_fits(op),
    ensures
        op is Nothing,
        EventSourceShared::fresh(coroutine, token, index, kind).forgotten()
            == EventSourceShared::fresh(coroutine, token, index, kind),
{
}

} // verus!
