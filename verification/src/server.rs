use vstd::prelude::*;
use mio::EventSet;
use crate::coroutine::{
    lemma_live_count_push,
    lemma_live_count_update,
    live_count,
    Coroutine,
};
use crate::event::{EventSourceIndex, LastEvent, State, RW};
use crate::interest::{event_mode, mode_of, set_hup, set_readable, set_writable};
use crate::mask::{
    index_set,
    lemma_mask_clear_bit,
    lemma_mask_single,
    lemma_mask_zero,
    mask_has,
    mask_set,
    select_impl_set_mask_from_indices,
    select_impl_set_mask_rc_handles,
    MAX_SOURCES,
};
use crate::slab::{
    no_sources,
    slab_get,
    slab_insert_with,
    slab_limit,
    slab_new,
    slab_remove,
    slab_sources,
    slab_store,
    SourceSlab,
};
use crate::interest::interest_flags;
use crate::source::{asked, asked_all, held, EventSourceShared, ReactorOp, SourceKind};

verus! {

/// The number of slots in the table of sources.
pub const SLAB_CAPACITY: usize = 1024;

/// The state of the runtime as the contracts see it.
pub struct ServerView {
    /// The record of each source, by its token.
    pub sources: Map<usize, EventSourceShared>,
    /// The number of slots that the table of sources was made with.
    pub limit: nat,
    /// The record of each coroutine, by its number.
    pub coroutines: Seq<Coroutine>,
    /// The number of coroutines that count as alive.
    pub coroutines_no: nat,
    /// What the reactor holds, given that it was asked all that the runtime
    /// handed back to be asked: the flags that each source it knows is armed
    /// with.
    pub reactor: Map<usize, (bool, bool, bool, bool)>,
}

impl ServerView {
    /// The source with token `t` is bound to a position of a coroutine, and
    /// that position is bound to it. A message sink is never known to the
    /// reactor.
    pub open spec fn source_wf(self, t: usize) -> bool {
        let s = self.sources[t];
        &&& t < self.limit
        &&& s.token == t
        &&& s.coroutine < self.coroutines.len()
        &&& s.index < self.coroutines[s.coroutine as int].io@.len()
        &&& self.coroutines[s.coroutine as int].io@[s.index as int] == t
        &&& (s.kind == SourceKind::Notified ==> !s.registered)
    }

    /// The reactor knows exactly the sources whose records say so.
    pub open spec fn reactor_fits(self) -> bool {
        forall|t: usize| #[trigger]
            self.reactor.contains_key(t) <==> self.sources.contains_key(t)
                && self.sources[t].registered
    }

    /// Position `k` of coroutine `c` holds the token of a source that is
    /// bound to it. An I/O source that was armed when the coroutine last
    /// blocked is known to the reactor.
    pub open spec fn position_wf(self, c: int, k: int) -> bool {
        let co = self.coroutines[c];
        let t = co.io@[k];
        &&& self.sources.contains_key(t)
        &&& self.sources[t].coroutine == c
        &&& self.sources[t].index == k
        &&& (mask_has(co.registered_mask, k) && self.sources[t].kind == SourceKind::Evented
            ==> self.sources[t].registered)
    }

    /// Coroutine `c` owns at most 32 sources, its masks select owned
    /// positions only, each position is bound to a source, and the children
    /// it is about to start exist.
    pub open spec fn coroutine_wf(self, c: int) -> bool {
        let co = self.coroutines[c];
        &&& co.io@.len() <= MAX_SOURCES
        &&& co.masks_fit()
        &&& forall|k: int| 0 <= k < co.io@.len() ==> self.position_wf(c, k)
        &&& forall|j: int|
            0 <= j < co.children_to_start@.len() ==> #[trigger] co.children_to_start@[j]
                < self.coroutines.len()
    }

    /// The invariant of the runtime: sources and coroutines are bound to each
    /// other one to one, the table of sources is within its limit, and the
    /// count of live coroutines is right.
    pub open spec fn wf(self) -> bool {
        &&& self.sources.dom().finite()
        &&& self.sources.dom().len() <= self.limit
        &&& self.limit < usize::MAX
        &&& forall|t: usize| self.sources.contains_key(t) ==> self.source_wf(t)
        &&& forall|c: int| 0 <= c < self.coroutines.len() ==> self.coroutine_wf(c)
        &&& self.coroutines_no == live_count(self.coroutines)
        &&& self.reactor_fits()
    }

    /// The state with the record of coroutine `c` replaced.
    pub open spec fn with_coroutine(self, c: int, co: Coroutine) -> ServerView {
        ServerView { coroutines: self.coroutines.update(c, co), ..self }
    }

    /// The state with the record of the source with token `t` replaced.
    pub open spec fn with_source(self, t: usize, s: EventSourceShared) -> ServerView {
        ServerView { sources: self.sources.insert(t, s), ..self }
    }

    /// Whether `next` keeps every source where `self` has it, bound as it
    /// was, and changes at most what the reactor knows of I/O sources.
    pub open spec fn same_bindings(self, next: ServerView) -> bool {
        &&& next.limit == self.limit
        &&& next.sources.dom() == self.sources.dom()
        &&& forall|t: usize| #[trigger]
            self.sources.contains_key(t) ==> {
                let a = self.sources[t];
                let b = next.sources[t];
                &&& b.token == a.token
                &&& b.coroutine == a.coroutine
                &&& b.index == a.index
                &&& b.kind == a.kind
                &&& (b.kind == SourceKind::Notified ==> !b.registered)
            }
    }

    /// Whether `next` differs from `self` in the record of coroutine `c`
    /// alone, and there in neither the sources it owns, nor its children, nor
    /// whether it is alive.
    pub open spec fn same_ownership(self, next: ServerView, c: int) -> bool {
        &&& next.coroutines.len() == self.coroutines.len()
        &&& next.coroutines_no == self.coroutines_no
        &&& forall|d: int|
            0 <= d < self.coroutines.len() && d != c ==> next.coroutines[d] == self.coroutines[d]
        &&& next.coroutines[c].io@ == self.coroutines[c].io@
        &&& next.coroutines[c].children_to_start@ == self.coroutines[c].children_to_start@
        &&& next.coroutines[c].torn_down == self.coroutines[c].torn_down
    }

    /// Whether every I/O source that the masks call armed is known to the
    /// reactor.
    pub open spec fn armed_are_known(self) -> bool {
        forall|c: int, k: int|
            0 <= c < self.coroutines.len() && 0 <= k < self.coroutines[c].io@.len() && mask_has(
                self.coroutines[c].registered_mask,
                k,
            ) && (#[trigger] self.source_at(c, k)).kind == SourceKind::Evented ==> self.source_at(
                c,
                k,
            ).registered
    }

    /// A step that keeps bindings and ownership keeps the invariant, as long
    /// as the masks of the changed coroutine fit and what the masks call
    /// armed is known to the reactor.
    pub proof fn lemma_step_keeps_wf(self, next: ServerView, c: int)
        requires
            self.wf(),
            0 <= c < self.coroutines.len(),
            self.same_bindings(next),
            self.same_ownership(next, c),
            next.coroutines[c].masks_fit(),
            next.armed_are_known(),
            next.reactor_fits(),
        ensures
            next.wf(),
    {
        assert forall|t: usize| next.sources.contains_key(t) implies next.source_wf(t) by {
            assert(self.sources.contains_key(t));
            assert(self.source_wf(t));
            let d = self.sources[t].coroutine as int;
            assert(self.coroutine_wf(d));
        }
        assert forall|d: int| 0 <= d < next.coroutines.len() implies next.coroutine_wf(d) by {
            assert(self.coroutine_wf(d));
            assert forall|k: int| 0 <= k < next.coroutines[d].io@.len() implies next.position_wf(
                d,
                k,
            ) by {
                assert(self.position_wf(d, k));
                let t = self.coroutines[d].io@[k];
                assert(self.sources.contains_key(t));
                assert(next.source_at(d, k) == next.sources[t]);
            }
        }
        lemma_live_count_update(self.coroutines, c, next.coroutines[c]);
        assert(next.coroutines =~= self.coroutines.update(c, next.coroutines[c]));
    }

    /// The state after a ready event on the source with token `t` was
    /// dispatched: a hangup is noted on the source, and its owner is woken in
    /// the mode of the event.
    pub open spec fn after_ready(self, t: usize, hup: bool, mode: RW) -> ServerView {
        let s = self.sources[t];
        let c = s.coroutine as int;
        self.with_source(
            t,
            if hup {
                s.hung_up()
            } else {
                s
            },
        ).with_coroutine(c, self.coroutines[c].woken(s.index, mode))
    }

    /// The state after a message for the sink with token `t` was dispatched:
    /// its owner is woken by a message.
    pub open spec fn after_notify(self, t: usize) -> ServerView {
        let s = self.sources[t];
        let c = s.coroutine as int;
        self.with_coroutine(c, self.coroutines[c].woken(s.index, RW::Notify))
    }

    /// Why coroutine `c` cannot wrap another source, if it cannot: it owns 32
    /// already, or else no slot of the table is free.
    pub open spec fn wrap_error(self, c: int) -> Option<WrapError> {
        if self.coroutines[c].io@.len() >= MAX_SOURCES {
            Some(WrapError::TooManySources)
        } else if self.sources.dom().len() >= self.limit {
            Some(WrapError::SlabFull)
        } else {
            None
        }
    }

    /// What the arming pass asks of the reactor for position `k` of coroutine
    /// `c`, blocked in mode `rw`: to arm the source where the coroutine waits
    /// for it, to disarm it where it was armed and is no longer waited for,
    /// and nothing otherwise.
    pub open spec fn pass_fits(self, c: int, k: int, rw: RW, op: ReactorOp) -> bool {
        let co = self.coroutines[c];
        if mask_has(co.blocked_on_mask, k) {
            self.source_at(c, k).arming_fits(rw, op)
        } else if mask_has(co.registered_mask, k) {
            self.source_at(c, k).disarming_fits(op)
        } else {
            op is Nothing
        }
    }

    /// The record of the source with token `t` after the arming pass on
    /// coroutine `c`.
    pub open spec fn source_after_pass(self, c: int, t: usize) -> EventSourceShared {
        let s = self.sources[t];
        if s.coroutine == c && mask_has(self.coroutines[c].blocked_on_mask, s.index as int) {
            s.armed()
        } else {
            s
        }
    }

    /// The flags that the source with token `t` is armed with in the reactor
    /// after the arming pass on coroutine `c`, if the reactor knows it then:
    /// the interest of the mode where the coroutine waits for it, no flag
    /// where it was armed and is no longer waited for, and what it was
    /// otherwise.
    pub open spec fn flags_after_pass(self, c: int, t: usize) -> Option<(bool, bool, bool, bool)> {
        let s = self.sources[t];
        let co = self.coroutines[c];
        if s.coroutine == c && s.kind == SourceKind::Evented && mask_has(
            co.blocked_on_mask,
            s.index as int,
        ) {
            Some(interest_flags(co.state->BlockedOn_0, s.peer_hup))
        } else if s.coroutine == c && s.kind == SourceKind::Evented && mask_has(
            co.registered_mask,
            s.index as int,
        ) {
            Some((false, false, false, false))
        } else {
            held(self.reactor, t)
        }
    }

    /// Whether `next` is the state after the arming pass on coroutine `c`.
    pub open spec fn armed_into(self, next: ServerView, c: int) -> bool {
        &&& forall|t: usize| #[trigger]
            self.sources.contains_key(t) ==> held(next.reactor, t) == self.flags_after_pass(c, t)
        &&& next.limit == self.limit
        &&& next.coroutines_no == self.coroutines_no
        &&& next.coroutines == self.coroutines.update(c, self.coroutines[c].settled())
        &&& next.sources.dom() == self.sources.dom()
        &&& forall|t: usize| #[trigger]
            self.sources.contains_key(t) ==> next.sources[t] == self.source_after_pass(c, t)
    }

    /// Whether `next` is the state after coroutine `c` was taken down: its
    /// sources are gone from the table, all others are as they were, it owns
    /// nothing, and one coroutine fewer is alive.
    pub open spec fn torn_down_into(self, next: ServerView, c: int) -> bool {
        &&& next.limit == self.limit
        &&& next.coroutines_no + 1 == self.coroutines_no
        &&& next.coroutines.len() == self.coroutines.len()
        &&& forall|d: int|
            0 <= d < self.coroutines.len() && d != c ==> next.coroutines[d] == self.coroutines[d]
        &&& next.coroutines[c].io@ == Seq::<usize>::empty()
        &&& next.coroutines[c] == (Coroutine {
            io: next.coroutines[c].io,
            ..self.coroutines[c].laid_to_rest()
        })
        &&& forall|t: usize|
            next.sources.contains_key(t) <==> self.sources.contains_key(t)
                && self.sources[t].coroutine != c
        &&& forall|t: usize| #[trigger]
            next.sources.contains_key(t) ==> next.sources[t] == self.sources[t]
        &&& forall|t: usize| #[trigger]
            next.reactor.contains_key(t) ==> self.reactor.contains_key(t) && next.reactor[t]
                == self.reactor[t]
    }

    /// The token at position `k` of coroutine `c`.
    pub open spec fn token_at(self, c: int, k: int) -> usize {
        self.coroutines[c].io@[k]
    }

    /// The record of the source at position `k` of coroutine `c`.
    pub open spec fn source_at(self, c: int, k: int) -> EventSourceShared {
        self.sources[self.token_at(c, k)]
    }
}

/// Why a source could not be wrapped.
#[derive(Copy, Clone, Debug, PartialEq, Eq, Structural)]
pub enum WrapError {
    /// The coroutine owns 32 sources already.
    TooManySources,
    /// Every slot of the table of sources is taken.
    SlabFull,
}

/// What is to be done after a coroutine has yielded and was maintained.
#[derive(Debug)]
pub struct Maintenance {
    /// The requests to the reactor: one for each source that the coroutine
    /// owned, in the order of their positions.
    pub ops: Vec<ReactorOp>,
    /// The last coroutine is gone: the event loop is to shut down.
    pub shutdown: bool,
}

/// The runtime's state: the table of sources, the coroutines, and the count
/// of those alive.
pub struct Server {
    sources: SourceSlab,
    capacity: usize,
    coroutines: Vec<Coroutine>,
    coroutines_no: u32,
    reactor: Ghost<Map<usize, (bool, bool, bool, bool)>>,
}

impl View for Server {
    type V = ServerView;

    closed spec fn view(&self) -> ServerView {
        ServerView {
            sources: slab_sources(self.sources),
            limit: slab_limit(self.sources),
            coroutines: self.coroutines@,
            coroutines_no: self.coroutines_no as nat,
            reactor: self.reactor@,
        }
    }
}

impl Server {
    /// The invariant that every operation keeps.
    pub closed spec fn wf(&self) -> bool {
        &&& self@.wf()
        &&& self.capacity == slab_limit(self.sources)
    }

    /// A well-formed runtime has a well-formed view, and its count of live
    /// coroutines fits the machine's counter.
    pub proof fn lemma_wf(&self)
        requires
            self.wf(),
        ensures
            self@.wf(),
            self@.coroutines_no <= u32::MAX,
    {
    }

    /// A runtime with 1024 free slots and no coroutine.
    pub fn new() -> (server: Server)
        ensures
            server.wf(),
            server@.sources == no_sources(),
            server@.sources.dom().len() == 0,
            server@.limit == SLAB_CAPACITY,
            server@.coroutines == Seq::<Coroutine>::empty(),
            server@.coroutines_no == 0,
            forall|t: usize| !server@.reactor.contains_key(t),
    {
        assert(no_sources().dom() =~= Set::<usize>::empty());
        Server {
            sources: slab_new(SLAB_CAPACITY),
            capacity: SLAB_CAPACITY,
            coroutines: Vec::new(),
            coroutines_no: 0,
            reactor: Ghost(Map::empty()),
        }
    }

    /// The number of coroutines that count as alive.
    pub fn coroutines_no(&self) -> (n: u32)
        ensures
            n == self@.coroutines_no,
    {
        self.coroutines_no
    }

    /// The number of coroutines ever spawned.
    pub fn coroutines_len(&self) -> (n: usize)
        ensures
            n == self@.coroutines.len(),
    {
        self.coroutines.len()
    }

    /// The record of coroutine `co`.
    pub fn coroutine(&self, co: usize) -> (r: &Coroutine)
        requires
            co < self@.coroutines.len(),
        ensures
            *r == self@.coroutines[co as int],
    {
        &self.coroutines[co]
    }

    /// The record of the source with this token, if there is one.
    pub fn source(&self, token: usize) -> (r: Option<EventSourceShared>)
        requires
            self.wf(),
        ensures
            r == (if self@.sources.contains_key(token) {
                Some(self@.sources[token])
            } else {
                None
            }),
    {
        if token < self.capacity {
            slab_get(&self.sources, token)
        } else {
            assert(!self@.sources.contains_key(token)) by {
                if self@.sources.contains_key(token) {
                    assert(self@.source_wf(token));
                }
            }
            None
        }
    }

    /// Makes the record of a new coroutine and counts it as alive. Returns
    /// its number.
    pub fn spawn_impl(&mut self) -> (co: usize)
        requires
            old(self).wf(),
            old(self)@.coroutines_no < u32::MAX,
        ensures
            final(self).wf(),
            co == old(self)@.coroutines.len(),
            final(self)@.coroutines.len() == co + 1,
            final(self)@.coroutines[co as int].is_fresh(),
            forall|c: int| 0 <= c < co ==> final(self)@.coroutines[c] == old(self)@.coroutines[c],
            final(self)@.coroutines_no == old(self)@.coroutines_no + 1,
            final(self)@.sources == old(self)@.sources,
            final(self)@.limit == old(self)@.limit,
            final(self)@.reactor == old(self)@.reactor,
    {
        let co: usize = self.coroutines.len();
        let record = Coroutine::new();
        proof {
            lemma_live_count_push(self.coroutines@, record);
            lemma_mask_zero();
        }
        self.coroutines_no = self.coroutines_no + 1;
        self.coroutines.push(record);
        proof {
            let old_v = old(self)@;
            let new_v = self@;
            assert forall|c: int| 0 <= c < new_v.coroutines.len() implies new_v.coroutine_wf(c) by {
                if c < co {
                    assert(old_v.coroutine_wf(c));
                    assert(new_v.coroutines[c] == old_v.coroutines[c]);
                    assert forall|k: int| 0 <= k < new_v.coroutines[c].io@.len() implies new_v.position_wf(c, k) by {
                        assert(old_v.position_wf(c, k));
                    }
                }
            }
            assert forall|t: usize| new_v.sources.contains_key(t) implies new_v.source_wf(t) by {
                assert(old_v.source_wf(t));
            }
            assert forall|t: usize| #[trigger]
                new_v.reactor.contains_key(t) <==> new_v.sources.contains_key(t)
                    && new_v.sources[t].registered by {
                assert(old_v.reactor.contains_key(t) <==> old_v.sources.contains_key(t)
                    && old_v.sources[t].registered);
            }
        }
        co
    }

    /// Spawns a child of coroutine `parent`: makes its record, counts it as
    /// alive, and queues it to be started when the parent next yields.
    /// Returns the child's number.
    pub fn spawn(&mut self, parent: usize) -> (co: usize)
        requires
            old(self).wf(),
            parent < old(self)@.coroutines.len(),
            old(self)@.coroutines_no < u32::MAX,
        ensures
            final(self).wf(),
            co == old(self)@.coroutines.len(),
            final(self)@.coroutines.len() == co + 1,
            final(self)@.coroutines[co as int].is_fresh(),
            final(self)@.coroutines[parent as int] == (Coroutine {
                children_to_start: final(self)@.coroutines[parent as int].children_to_start,
                ..old(self)@.coroutines[parent as int]
            }),
            final(self)@.coroutines[parent as int].children_to_start@ == old(self)@.coroutines[parent as int].children_to_start@.push(co),
            forall|c: int|
                0 <= c < co && c != parent ==> final(self)@.coroutines[c] == old(self)@.coroutines[c],
            final(self)@.coroutines_no == old(self)@.coroutines_no + 1,
            final(self)@.sources == old(self)@.sources,
            final(self)@.limit == old(self)@.limit,
            final(self)@.reactor == old(self)@.reactor,
    {
        let co: usize = self.spawn_impl();
        let ghost mid = self@;
        self.coroutines[parent].children_to_start.push(co);
        proof {
            let next = self@;
            assert forall|t: usize| next.sources.contains_key(t) implies next.source_wf(t) by {
                assert(mid.source_wf(t));
                assert(mid.coroutine_wf(mid.sources[t].coroutine as int));
            }
            assert forall|d: int| 0 <= d < next.coroutines.len() implies next.coroutine_wf(d) by {
                assert(mid.coroutine_wf(d));
                assert forall|k: int| 0 <= k < next.coroutines[d].io@.len() implies next.position_wf(d, k) by {
                    assert(mid.position_wf(d, k));
                }
            }
            assert forall|t: usize| #[trigger]
                next.reactor.contains_key(t) <==> next.sources.contains_key(t)
                    && next.sources[t].registered by {
                assert(mid.reactor.contains_key(t) <==> mid.sources.contains_key(t)
                    && mid.sources[t].registered);
            }
            lemma_live_count_update(mid.coroutines, parent as int, next.coroutines[parent as int]);
            assert(next.coroutines =~= mid.coroutines.update(
                parent as int,
                next.coroutines[parent as int],
            ));
        }
        co
    }

    /// Takes the children that coroutine `co` has spawned and that were not
    /// started yet, in the order they were spawned. Each is to be resumed
    /// once and then maintained, one after the other.
    pub fn take_children(&mut self, co: usize) -> (children: Vec<usize>)
        requires
            old(self).wf(),
            co < old(self)@.coroutines.len(),
        ensures
            final(self).wf(),
            children@ == old(self)@.coroutines[co as int].children_to_start@,
            forall|j: int| 0 <= j < children@.len() ==> children@[j] < final(self)@.coroutines.len(),
            final(self)@.coroutines[co as int].children_to_start@ == Seq::<usize>::empty(),
            final(self)@.coroutines[co as int] == (Coroutine {
                children_to_start: final(self)@.coroutines[co as int].children_to_start,
                ..old(self)@.coroutines[co as int]
            }),
            final(self)@ == old(self)@.with_coroutine(co as int, final(self)@.coroutines[co as int]),
    {
        let ghost before = self@;
        let mut children: Vec<usize> = Vec::new();
        std::mem::swap(&mut children, &mut self.coroutines[co].children_to_start);
        proof {
            let next = self@;
            assert(before.coroutine_wf(co as int));
            assert forall|t: usize| next.sources.contains_key(t) implies next.source_wf(t) by {
                assert(before.source_wf(t));
                assert(before.coroutine_wf(before.sources[t].coroutine as int));
            }
            assert forall|d: int| 0 <= d < next.coroutines.len() implies next.coroutine_wf(d) by {
                assert(before.coroutine_wf(d));
                assert forall|k: int| 0 <= k < next.coroutines[d].io@.len() implies next.position_wf(d, k) by {
                    assert(before.position_wf(d, k));
                }
            }
            assert forall|t: usize| #[trigger]
                next.reactor.contains_key(t) <==> next.sources.contains_key(t)
                    && next.sources[t].registered by {
                assert(before.reactor.contains_key(t) <==> before.sources.contains_key(t)
                    && before.sources[t].registered);
            }
            lemma_live_count_update(before.coroutines, co as int, next.coroutines[co as int]);
            assert(next.coroutines =~= before.coroutines.update(co as int, next.coroutines[co as int]));
        }
        children
    }

    /// Notes that coroutine `co` blocks in mode `rw` on its source at
    /// position `index` alone.
    pub fn block_on(&mut self, co: usize, index: usize, rw: RW)
        requires
            old(self).wf(),
            co < old(self)@.coroutines.len(),
            index < old(self)@.coroutines[co as int].io@.len(),
        ensures
            final(self).wf(),
            final(self)@ == old(self)@.with_coroutine(
                co as int,
                old(self)@.coroutines[co as int].blocked(1u32 << (index as u32), rw),
            ),
            forall|i: int|
                mask_has(final(self)@.coroutines[co as int].blocked_on_mask, i) <==> i == index,
    {
        let ghost before = self@;
        proof {
            assert(before.coroutine_wf(co as int));
            lemma_mask_single(1u32 << (index as u32), index as int);
        }
        self.coroutines[co].state = State::BlockedOn(rw);
        self.coroutines[co].blocked_on_mask = 1u32 << (index as u32);
        proof {
            self.lemma_blocking_keeps_wf(before, co);
        }
    }

    /// Notes that coroutine `co` blocks in mode `rw` on all of its sources.
    pub fn select_all(&mut self, co: usize, rw: RW)
        requires
            old(self).wf(),
            co < old(self)@.coroutines.len(),
        ensures
            final(self).wf(),
            final(self)@ == old(self)@.with_coroutine(
                co as int,
                old(self)@.coroutines[co as int].blocked(
                    final(self)@.coroutines[co as int].blocked_on_mask,
                    rw,
                ),
            ),
            forall|i: int|
                mask_has(final(self)@.coroutines[co as int].blocked_on_mask, i) <==> 0 <= i < old(self)@.coroutines[co as int].io@.len(),
    {
        let ghost before = self@;
        proof {
            assert(before.coroutine_wf(co as int));
        }
        let mut mask: u32 = 0;
        select_impl_set_mask_rc_handles(self.coroutines[co].io.as_slice(), &mut mask);
        self.coroutines[co].state = State::BlockedOn(rw);
        self.coroutines[co].blocked_on_mask = mask;
        proof {
            self.lemma_blocking_keeps_wf(before, co);
        }
    }

    /// Notes that coroutine `co` blocks in mode `rw` on its sources at the
    /// positions in `indices`.
    pub fn select_from(&mut self, co: usize, indices: &[EventSourceIndex], rw: RW)
        requires
            old(self).wf(),
            co < old(self)@.coroutines.len(),
            forall|k: int|
                0 <= k < indices@.len() ==> (#[trigger] indices@[k]).0 < old(self)@.coroutines[co as int].io@.len(),
        ensures
            final(self).wf(),
            final(self)@ == old(self)@.with_coroutine(
                co as int,
                old(self)@.coroutines[co as int].blocked(
                    final(self)@.coroutines[co as int].blocked_on_mask,
                    rw,
                ),
            ),
            mask_set(final(self)@.coroutines[co as int].blocked_on_mask) == index_set(indices@),
            forall|i: int|
                mask_has(final(self)@.coroutines[co as int].blocked_on_mask, i) <==> exists|k: int|
                    0 <= k < indices@.len() && #[trigger] indices@[k].0 == i,
    {
        let ghost before = self@;
        proof {
            assert(before.coroutine_wf(co as int));
        }
        let mut mask: u32 = 0;
        select_impl_set_mask_from_indices(indices, &mut mask);
        self.coroutines[co].state = State::BlockedOn(rw);
        self.coroutines[co].blocked_on_mask = mask;
        proof {
            self.lemma_blocking_keeps_wf(before, co);
        }
    }

    /// Notes that the body of coroutine `co` has returned: it is finished and
    /// waits for nothing.
    pub fn finish(&mut self, co: usize)
        requires
            old(self).wf(),
            co < old(self)@.coroutines.len(),
        ensures
            final(self).wf(),
            final(self)@ == old(self)@.with_coroutine(
                co as int,
                old(self)@.coroutines[co as int].finished(),
            ),
    {
        let ghost before = self@;
        proof {
            assert(before.coroutine_wf(co as int));
            lemma_mask_zero();
        }
        self.coroutines[co].state = State::Finished;
        self.coroutines[co].blocked_on_mask = 0;
        proof {
            self.lemma_blocking_keeps_wf(before, co);
        }
    }

    /// A step that changes only the state and the mask of waited-for
    /// positions of one coroutine, to positions it owns, keeps the invariant.
    proof fn lemma_blocking_keeps_wf(&self, before: ServerView, co: usize)
        requires
            before.wf(),
            co < before.coroutines.len(),
            self.capacity == slab_limit(self.sources),
            self@.sources == before.sources,
            self@.limit == before.limit,
            self@.reactor == before.reactor,
            self@.coroutines_no == before.coroutines_no,
            self@.coroutines.len() == before.coroutines.len(),
            forall|d: int|
                0 <= d < before.coroutines.len() && d != co ==> self@.coroutines[d]
                    == before.coroutines[d],
            self@.coroutines[co as int] == (Coroutine {
                state: self@.coroutines[co as int].state,
                blocked_on_mask: self@.coroutines[co as int].blocked_on_mask,
                last_event: self@.coroutines[co as int].last_event,
                ..before.coroutines[co as int]
            }),
            forall|i: int|
                mask_has(self@.coroutines[co as int].blocked_on_mask, i) ==> i
                    < before.coroutines[co as int].io@.len(),
        ensures
            self.wf(),
            self@ == before.with_coroutine(co as int, self@.coroutines[co as int]),
    {
        let next = self@;
        assert(before.coroutine_wf(co as int));
        assert forall|c: int, k: int|
            0 <= c < next.coroutines.len() && 0 <= k < next.coroutines[c].io@.len() && mask_has(
                next.coroutines[c].registered_mask,
                k,
            ) && (#[trigger] next.source_at(c, k)).kind
                == SourceKind::Evented implies next.source_at(c, k).registered by {
            assert(before.coroutine_wf(c));
            assert(before.position_wf(c, k));
        }
        assert forall|t: usize| #[trigger]
            before.sources.contains_key(t) && before.sources[t].kind
                == SourceKind::Notified implies !before.sources[t].registered by {
            assert(before.source_wf(t));
        }
        before.lemma_step_keeps_wf(next, co as int);
        assert(next.coroutines =~= before.coroutines.update(co as int, next.coroutines[co as int]));
    }

    /// Wraps a new source of the given kind for coroutine `co`: takes a free
    /// slot of the table for it and appends it to the coroutine's list. The
    /// reactor is not asked anything yet. Returns the source's record.
    pub fn add_source(&mut self, co: usize, kind: SourceKind) -> (r: Result<
        EventSourceShared,
        WrapError,
    >)
        requires
            old(self).wf(),
            co < old(self)@.coroutines.len(),
        ensures
            final(self).wf(),
            match r {
                Err(e) => {
                    &&& e == old(self)@.wrap_error(co as int)->Some_0
                    &&& old(self)@.wrap_error(co as int) is Some
                    &&& final(self)@ == old(self)@
                },
                Ok(s) => {
                    &&& old(self)@.wrap_error(co as int) is None
                    &&& s == EventSourceShared::fresh(
                        co,
                        s.token,
                        old(self)@.coroutines[co as int].io@.len() as usize,
                        kind,
                    )
                    &&& !old(self)@.sources.contains_key(s.token)
                    &&& final(self)@.coroutines[co as int].io@ == old(self)@.coroutines[co as int].io@.push(s.token)
                    &&& final(self)@.coroutines[co as int] == (Coroutine {
                        io: final(self)@.coroutines[co as int].io,
                        ..old(self)@.coroutines[co as int]
                    })
                    &&& final(self)@ == old(self)@.with_source(s.token, s).with_coroutine(
                        co as int,
                        final(self)@.coroutines[co as int],
                    )
                },
            },
    {
        let ghost before = self@;
        proof {
            assert(before.coroutine_wf(co as int));
            assert forall|t: usize| before.sources.contains_key(t) implies t < before.limit by {
                assert(before.source_wf(t));
            }
        }
        let index: usize = self.coroutines[co].io.len();
        if index >= MAX_SOURCES {
            return Err(WrapError::TooManySources);
        }
        match slab_insert_with(&mut self.sources, co, index, kind) {
            None => Err(WrapError::SlabFull),
            Some(token) => {
                self.coroutines[co].io.push(token);
                let record = EventSourceShared::new(co, token, index, kind);
                proof {
                    let next = self@;
                    assert forall|t: usize| next.sources.contains_key(t) implies next.source_wf(
                        t,
                    ) by {
                        if t != token {
                            assert(before.source_wf(t));
                            assert(before.coroutine_wf(before.sources[t].coroutine as int));
                        }
                    }
                    assert forall|d: int| 0 <= d < next.coroutines.len() implies next.coroutine_wf(
                        d,
                    ) by {
                        assert(before.coroutine_wf(d));
                        assert forall|k: int|
                            0 <= k < next.coroutines[d].io@.len() implies next.position_wf(d, k) by {
                            if d == co && k == index {
                            } else {
                                assert(before.position_wf(d, k));
                            }
                        }
                    }
                    assert forall|t: usize| #[trigger]
                        next.reactor.contains_key(t) <==> next.sources.contains_key(t)
                            && next.sources[t].registered by {
                        assert(before.reactor.contains_key(t) <==> before.sources.contains_key(t)
                            && before.sources[t].registered);
                    }
                    lemma_live_count_update(before.coroutines, co as int, next.coroutines[co as int]);
                    assert(next.coroutines =~= before.coroutines.update(
                        co as int,
                        next.coroutines[co as int],
                    ));
                    assert(next.sources =~= before.sources.insert(token, record));
                }
                Ok(record)
            },
        }
    }

    /// Dispatches a ready event for the source with token `token`. Where no
    /// such source is in the table the event is dropped and nothing changes.
    /// Otherwise a hangup is noted on the source, and its owner is made ready
    /// to run: the source no longer counts as waited for, the state is
    /// `Running`, and the last event is this one. Returns the coroutine to
    /// resume. An event for a source in the table must report readable,
    /// writable or hangup.
    pub fn ready(&mut self, token: usize, events: &EventSet) -> (r: Option<usize>)
        requires
            old(self).wf(),
            old(self)@.sources.contains_key(token) ==> mode_of(
                set_readable(*events),
                set_writable(*events),
                set_hup(*events),
            ) is Some,
        ensures
            final(self).wf(),
            !old(self)@.sources.contains_key(token) ==> r is None && final(self)@ == old(self)@,
            old(self)@.sources.contains_key(token) ==> r == Some(
                old(self)@.sources[token].coroutine,
            ) && final(self)@ == old(self)@.after_ready(
                token,
                set_hup(*events),
                mode_of(set_readable(*events), set_writable(*events), set_hup(*events))->Some_0,
            ),
    {
        let ghost before = self@;
        let found = self.source(token);
        match found {
            None => None,
            Some(source) => {
                proof {
                    assert(before.source_wf(token));
                    assert(before.coroutine_wf(source.coroutine as int));
                }
                let mut source = source;
                if events.is_hup() {
                    source.hup();
                    slab_store(&mut self.sources, token, source);
                    proof {
                        self.lemma_hangup_keeps_wf(before, token);
                    }
                }
                let mode: RW = event_mode(events).unwrap();
                self.resume(source, mode);
                proof {
                    assert(self@.sources =~= before.after_ready(
                        token,
                        set_hup(*events),
                        mode,
                    ).sources);
                }
                Some(source.coroutine)
            },
        }
    }

    /// Dispatches a message for the source with token `token`. Where no such
    /// source is in the table, or the source is an I/O object, the message is
    /// dropped and nothing changes. Otherwise the message is to be handed to
    /// the sink, and the owner is made ready to run: the source no longer
    /// counts as waited for and the state is `Running`; the last event stays
    /// as it was. Returns the coroutine to resume.
    pub fn notify(&mut self, token: usize) -> (r: Option<usize>)
        requires
            old(self).wf(),
        ensures
            final(self).wf(),
            r is Some <==> old(self)@.sources.contains_key(token) && old(self)@.sources[token].kind
                == SourceKind::Notified,
            r is None ==> final(self)@ == old(self)@,
            r is Some ==> r == Some(old(self)@.sources[token].coroutine) && final(self)@ == old(self)@.after_notify(token),
    {
        let ghost before = self@;
        let found = self.source(token);
        match found {
            None => None,
            Some(source) => {
                match source.kind {
                    SourceKind::Evented => None,
                    SourceKind::Notified => {
                        proof {
                            assert(before.source_wf(token));
                        }
                        self.resume(source, RW::Notify);
                        Some(source.coroutine)
                    },
                }
            },
        }
    }

    /// Maintains coroutine `co` after it has yielded. A coroutine that was
    /// taken down already is left alone. One that has finished is taken
    /// down: each of its sources is taken out of the reactor and out of the
    /// table, the coroutine no longer counts as alive, and the event loop is
    /// to shut down where it was the last. One that has blocked gets the
    /// sources it waits for armed and those it no longer waits for disarmed.
    pub fn reregister(&mut self, co: usize) -> (r: Maintenance)
        requires
            old(self).wf(),
            co < old(self)@.coroutines.len(),
            old(self)@.coroutines[co as int].state != State::Running,
        ensures
            final(self).wf(),
            final(self)@.reactor == asked_all(old(self)@.reactor, r.ops@),
            old(self)@.coroutines[co as int].torn_down ==> final(self)@ == old(self)@
                && r.ops@.len() == 0 && !r.shutdown,
            !old(self)@.coroutines[co as int].torn_down ==> r.ops@.len() == old(self)@.coroutines[co as int].io@.len(),
            !old(self)@.coroutines[co as int].torn_down && old(self)@.coroutines[co as int].state
                == State::Finished ==> {
                &&& old(self)@.torn_down_into(final(self)@, co as int)
                &&& r.shutdown == (final(self)@.coroutines_no == 0)
                &&& forall|k: int|
                    0 <= k < r.ops@.len() ==> old(self)@.source_at(co as int, k).forgetting_fits(
                        #[trigger] r.ops@[k],
                    )
            },
            !old(self)@.coroutines[co as int].torn_down && old(self)@.coroutines[co as int].state
                != State::Finished ==> {
                &&& old(self)@.armed_into(final(self)@, co as int)
                &&& !r.shutdown
                &&& forall|k: int|
                    0 <= k < r.ops@.len() ==> old(self)@.pass_fits(
                        co as int,
                        k,
                        old(self)@.coroutines[co as int].state->BlockedOn_0,
                        #[trigger] r.ops@[k],
                    )
            },
    {
        if self.coroutines[co].torn_down {
            return Maintenance { ops: Vec::new(), shutdown: false };
        }
        match self.coroutines[co].state {
            State::Finished => {
                let ops = self.deregister_all(co);
                let shutdown: bool = self.coroutines_no == 0;
                Maintenance { ops, shutdown }
            },
            State::BlockedOn(rw) => {
                let ops = self.reregister_blocked_on(co, rw);
                Maintenance { ops, shutdown: false }
            },
            State::Running => Maintenance { ops: Vec::new(), shutdown: false },
        }
    }

    /// Takes down a finished coroutine: asks the reactor to forget each of
    /// its sources that it knows, frees their slots, and counts the coroutine
    /// out.
    fn deregister_all(&mut self, co: usize) -> (ops: Vec<ReactorOp>)
        requires
            old(self).wf(),
            co < old(self)@.coroutines.len(),
            !old(self)@.coroutines[co as int].torn_down,
        ensures
            final(self).wf(),
            final(self)@.reactor == asked_all(old(self)@.reactor, ops@),
            old(self)@.torn_down_into(final(self)@, co as int),
            ops@.len() == old(self)@.coroutines[co as int].io@.len(),
            forall|k: int|
                0 <= k < ops@.len() ==> old(self)@.source_at(co as int, k).forgetting_fits(
                    #[trigger] ops@[k],
                ),
    {
        let ghost before = self@;
        proof {
            assert(before.coroutine_wf(co as int));
        }
        let n: usize = self.coroutines[co].io.len();
        let mut ops: Vec<ReactorOp> = Vec::new();
        let mut k: usize = 0;
        while k < n
            invariant
                before.wf(),
                co < before.coroutines.len(),
                k <= n == before.coroutines[co as int].io@.len(),
                self.capacity == slab_limit(self.sources),
                self@.coroutines == before.coroutines,
                self@.coroutines_no == before.coroutines_no,
                self@.limit == before.limit,
                self@.sources.dom().finite(),
                self@.sources.dom().len() <= before.sources.dom().len(),
                self@.reactor == asked_all(before.reactor, ops@),
                self@.reactor_fits(),
                forall|t: usize| #[trigger]
                    self@.reactor.contains_key(t) ==> before.reactor.contains_key(t)
                        && self@.reactor[t] == before.reactor[t],
                forall|t: usize| #[trigger]
                    self@.sources.contains_key(t) ==> before.sources.contains_key(t) && !(
                    before.sources[t].coroutine == co && before.sources[t].index < k)
                        && self@.sources[t] == before.sources[t],
                forall|t: usize| #[trigger]
                    before.sources.contains_key(t) && !(before.sources[t].coroutine == co
                        && before.sources[t].index < k) ==> self@.sources.contains_key(t),
                ops@.len() == k,
                forall|j: int|
                    0 <= j < k ==> before.source_at(co as int, j).forgetting_fits(#[trigger] ops@[j]),
            decreases n - k,
        {
            let token: usize = self.coroutines[co].io[k];
            proof {
                assert(before.coroutine_wf(co as int));
                assert(before.position_wf(co as int, k as int));
                assert(before.source_wf(token));
                assert(self@.sources.contains_key(token));
            }
            let mut source: EventSourceShared = slab_get(&self.sources, token).unwrap();
            let op = source.deregister();
            let ghost mid = self@.sources;
            let ghost known = self@.reactor;
            slab_remove(&mut self.sources, token);
            proof {
                assert(ops@.push(op).drop_last() =~= ops@);
            }
            ops.push(op);
            self.reactor = Ghost(asked(known, op));
            proof {
                assert forall|t: usize| #[trigger]
                    self@.reactor.contains_key(t) <==> self@.sources.contains_key(t)
                        && self@.sources[t].registered by {
                    assert(known.contains_key(t) <==> mid.contains_key(t) && mid[t].registered);
                }
                assert(self@.sources.dom() =~= mid.dom().remove(token));
                assert forall|t: usize| #[trigger] self@.sources.contains_key(t) implies !(
                before.sources[t].coroutine == co && before.sources[t].index < k + 1) by {
                    assert(mid.contains_key(t));
                    assert(before.source_wf(t));
                }
                assert forall|t: usize| #[trigger]
                    before.sources.contains_key(t) && !(before.sources[t].coroutine == co
                        && before.sources[t].index < k + 1) implies self@.sources.contains_key(
                    t,
                ) by {
                    assert(mid.contains_key(t));
                    assert(t != token);
                }
            }
            k = k + 1;
        }
        let ghost left = self@.sources;
        self.coroutines[co].io.clear();
        self.coroutines[co].blocked_on_mask = 0;
        self.coroutines[co].registered_mask = 0;
        self.coroutines[co].torn_down = true;
        proof {
            let next = self@;
            lemma_mask_zero();
            lemma_live_count_update(before.coroutines, co as int, next.coroutines[co as int]);
            assert(next.coroutines =~= before.coroutines.update(co as int, next.coroutines[co as int]));
            assert(before.coroutines_no >= 1);
        }
        self.coroutines_no = self.coroutines_no - 1;
        proof {
            let next = self@;
            assert(next.sources == left);
            assert forall|t: usize| next.sources.contains_key(t) implies next.source_wf(t) by {
                assert(left.contains_key(t));
                assert(before.source_wf(t));
                let d = before.sources[t].coroutine as int;
                assert(before.coroutine_wf(d));
                assert(d != co);
            }
            assert forall|d: int| 0 <= d < next.coroutines.len() implies next.coroutine_wf(d) by {
                assert(before.coroutine_wf(d));
                assert forall|j: int| 0 <= j < next.coroutines[d].io@.len() implies next.position_wf(
                    d,
                    j,
                ) by {
                    assert(before.position_wf(d, j));
                }
            }
            assert forall|t: usize|
                next.sources.contains_key(t) <==> before.sources.contains_key(t)
                    && before.sources[t].coroutine != co by {
                if before.sources.contains_key(t) {
                    assert(before.source_wf(t));
                }
                if next.sources.contains_key(t) {
                    assert(left.contains_key(t));
                }
            }
            assert forall|t: usize| #[trigger] next.sources.contains_key(t) implies next.sources[t]
                == before.sources[t] by {
                assert(left.contains_key(t));
            }
        }
        ops
    }

    /// Arms the sources that a blocked coroutine waits for and disarms those
    /// that it waited for before and no longer does.
    fn reregister_blocked_on(&mut self, co: usize, rw: RW) -> (ops: Vec<ReactorOp>)
        requires
            old(self).wf(),
            co < old(self)@.coroutines.len(),
            old(self)@.coroutines[co as int].state == State::BlockedOn(rw),
        ensures
            final(self).wf(),
            final(self)@.reactor == asked_all(old(self)@.reactor, ops@),
            old(self)@.armed_into(final(self)@, co as int),
            ops@.len() == old(self)@.coroutines[co as int].io@.len(),
            forall|k: int|
                0 <= k < ops@.len() ==> old(self)@.pass_fits(co as int, k, rw, #[trigger] ops@[k]),
    {
        let ghost before = self@;
        proof {
            assert(before.coroutine_wf(co as int));
        }
        let n: usize = self.coroutines[co].io.len();
        let blocked: u32 = self.coroutines[co].blocked_on_mask;
        let registered: u32 = self.coroutines[co].registered_mask;
        let mut ops: Vec<ReactorOp> = Vec::new();
        let mut k: usize = 0;
        while k < n
            invariant
                before.wf(),
                co < before.coroutines.len(),
                k <= n == before.coroutines[co as int].io@.len(),
                n <= MAX_SOURCES,
                blocked == before.coroutines[co as int].blocked_on_mask,
                registered == before.coroutines[co as int].registered_mask,
                self.capacity == slab_limit(self.sources),
                self@.coroutines == before.coroutines,
                self@.coroutines_no == before.coroutines_no,
                self@.limit == before.limit,
                self@.sources.dom() == before.sources.dom(),
                before.coroutines[co as int].state == State::BlockedOn(rw),
                self@.reactor == asked_all(before.reactor, ops@),
                forall|t: usize| #[trigger]
                    self@.reactor.contains_key(t) ==> before.sources.contains_key(t),
                forall|t: usize| #[trigger]
                    before.sources.contains_key(t) ==> held(self@.reactor, t) == (if before.sources[t].index
                        < k {
                        before.flags_after_pass(co as int, t)
                    } else {
                        held(before.reactor, t)
                    }),
                forall|t: usize| #[trigger]
                    before.sources.contains_key(t) ==> self@.sources[t] == (if before.sources[t].index
                        < k {
                        before.source_after_pass(co as int, t)
                    } else {
                        before.sources[t]
                    }),
                ops@.len() == k,
                forall|j: int|
                    0 <= j < k ==> before.pass_fits(co as int, j, rw, #[trigger] ops@[j]),
            decreases n - k,
        {
            let token: usize = self.coroutines[co].io[k];
            proof {
                assert(before.coroutine_wf(co as int));
                assert(before.position_wf(co as int, k as int));
                assert(before.source_wf(token));
                assert(self@.sources.contains_key(token));
            }
            let bit: u32 = 1u32 << (k as u32);
            let ghost known = self@.reactor;
            let ghost asked_so_far = ops@;
            let op = if (blocked & bit) != 0 {
                let mut source: EventSourceShared = slab_get(&self.sources, token).unwrap();
                let op = source.reregister(rw);
                slab_store(&mut self.sources, token, source);
                op
            } else if (registered & bit) != 0 {
                let source: EventSourceShared = slab_get(&self.sources, token).unwrap();
                source.unreregister()
            } else {
                ReactorOp::Nothing
            };
            ops.push(op);
            self.reactor = Ghost(asked(known, op));
            proof {
                assert(ops@.drop_last() =~= asked_so_far);
                assert(before.pass_fits(co as int, k as int, rw, op));
                assert forall|t: usize| #[trigger] before.sources.contains_key(t) implies held(
                    self@.reactor,
                    t,
                ) == (if before.sources[t].index < k + 1 {
                    before.flags_after_pass(co as int, t)
                } else {
                    held(before.reactor, t)
                }) by {
                    assert(before.source_wf(t));
                    assert(before.coroutine_wf(before.sources[t].coroutine as int));
                    if t != token && before.sources[t].coroutine == co {
                        assert(before.sources[t].index != k);
                    }
                    if t == token {
                        assert(before.reactor.contains_key(t) == before.sources[t].registered);
                    }
                    if before.sources[t].coroutine != co && before.sources[t].index < k + 1 {
                        assert(before.flags_after_pass(co as int, t) == held(before.reactor, t));
                    }
                }
                assert(self@.sources.dom() =~= before.sources.dom());
                assert forall|t: usize| #[trigger] before.sources.contains_key(t) implies self@.sources[t]
                    == (if before.sources[t].index < k + 1 {
                    before.source_after_pass(co as int, t)
                } else {
                    before.sources[t]
                }) by {
                    assert(before.source_wf(t));
                    if t != token && before.sources[t].coroutine == co {
                        assert(before.sources[t].index != k);
                    }
                    if t != token && before.sources[t].coroutine != co {
                        assert(before.source_after_pass(co as int, t) == before.sources[t]);
                    }
                }
            }
            k = k + 1;
        }
        self.coroutines[co].registered_mask = blocked;
        self.coroutines[co].blocked_on_mask = 0;
        proof {
            let next = self@;
            lemma_mask_zero();
            assert(next.coroutines =~= before.coroutines.update(
                co as int,
                before.coroutines[co as int].settled(),
            ));
            assert forall|t: usize| #[trigger] before.sources.contains_key(t) implies next.sources[t]
                == before.source_after_pass(co as int, t) by {
                assert(before.source_wf(t));
                let d = before.sources[t].coroutine as int;
                assert(before.coroutine_wf(d));
            }
            assert forall|t: usize| #[trigger] before.sources.contains_key(t) implies {
                let a = before.sources[t];
                let b = next.sources[t];
                &&& b.token == a.token
                &&& b.coroutine == a.coroutine
                &&& b.index == a.index
                &&& b.kind == a.kind
                &&& (b.kind == SourceKind::Notified ==> !b.registered)
            } by {
                assert(before.source_wf(t));
                assert(next.sources[t] == before.source_after_pass(co as int, t));
            }
            assert forall|c: int, j: int|
                0 <= c < next.coroutines.len() && 0 <= j < next.coroutines[c].io@.len() && mask_has(
                    next.coroutines[c].registered_mask,
                    j,
                ) && (#[trigger] next.source_at(c, j)).kind
                    == SourceKind::Evented implies next.source_at(c, j).registered by {
                assert(before.coroutine_wf(c));
                assert(before.position_wf(c, j));
                let t = before.coroutines[c].io@[j];
                assert(next.sources[t] == before.source_after_pass(co as int, t));
            }
            assert forall|t: usize| #[trigger]
                next.reactor.contains_key(t) <==> next.sources.contains_key(t)
                    && next.sources[t].registered by {
                if before.sources.contains_key(t) {
                    assert(before.source_wf(t));
                    assert(before.coroutine_wf(before.sources[t].coroutine as int));
                    assert(before.reactor.contains_key(t) == before.sources[t].registered);
                    assert(next.sources[t] == before.source_after_pass(co as int, t));
                    if before.sources[t].coroutine == co {
                        assert(before.position_wf(co as int, before.sources[t].index as int));
                    }
                }
            }
            before.lemma_step_keeps_wf(next, co as int);
        }
        ops
    }

    /// Makes the owner of `source` ready to run after an event in mode
    /// `event` on it.
    fn resume(&mut self, source: EventSourceShared, event: RW)
        requires
            old(self).wf(),
            old(self)@.sources.contains_key(source.token),
            old(self)@.sources[source.token] == source,
        ensures
            final(self).wf(),
            final(self)@ == old(self)@.with_coroutine(
                source.coroutine as int,
                old(self)@.coroutines[source.coroutine as int].woken(source.index, event),
            ),
    {
        let ghost before = self@;
        let co: usize = source.coroutine;
        let index: usize = source.index;
        proof {
            assert(before.source_wf(source.token));
            assert(before.coroutine_wf(co as int));
            lemma_mask_clear_bit(before.coroutines[co as int].blocked_on_mask, index as int);
        }
        let mask: u32 = self.coroutines[co].blocked_on_mask;
        let cleared: u32 = mask & !(1u32 << (index as u32));
        assert(cleared == mask & !(1u32 << ((index as int) as u32)));
        assert(forall|i: int| mask_has(cleared, i) == (mask_has(mask, i) && i != index));
        self.coroutines[co].blocked_on_mask = cleared;
        self.coroutines[co].state = State::Running;
        if event != RW::Notify {
            self.coroutines[co].last_event = LastEvent { index: EventSourceIndex(index), rw: event };
        }
        proof {
            assert(self@.coroutines =~= before.coroutines.update(
                co as int,
                before.coroutines[co as int].woken(index, event),
            ));
            self.lemma_blocking_keeps_wf(before, co);
        }
    }

    /// Replacing the record of a source by one that differs in the hangup
    /// flag alone keeps the invariant.
    proof fn lemma_hangup_keeps_wf(&self, before: ServerView, token: usize)
        requires
            before.wf(),
            before.sources.contains_key(token),
            self.capacity == slab_limit(self.sources),
            self@ == before.with_source(token, before.sources[token].hung_up()),
        ensures
            self.wf(),
    {
        let next = self@;
        let c = before.sources[token].coroutine as int;
        assert(before.source_wf(token));
        assert(before.coroutine_wf(c));
        assert(next.sources.dom() =~= before.sources.dom());
        assert forall|t: usize| #[trigger] before.sources.contains_key(t) implies {
            let a = before.sources[t];
            let b = next.sources[t];
            &&& b.token == a.token
            &&& b.coroutine == a.coroutine
            &&& b.index == a.index
            &&& b.kind == a.kind
            &&& (b.kind == SourceKind::Notified ==> !b.registered)
        } by {
            assert(before.source_wf(t));
        }
        assert forall|c: int, k: int|
            0 <= c < next.coroutines.len() && 0 <= k < next.coroutines[c].io@.len() && mask_has(
                next.coroutines[c].registered_mask,
                k,
            ) && (#[trigger] next.source_at(c, k)).kind
                == SourceKind::Evented implies next.source_at(c, k).registered by {
            assert(before.coroutine_wf(c));
            assert(before.position_wf(c, k));
        }
        before.lemma_step_keeps_wf(next, c);
    }
}

} // verus!
