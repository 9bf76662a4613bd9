use vstd::prelude::*;
use mio::EventSet;
use crate::coroutine::Coroutine;
use crate::event::{EventSourceIndex, LastEvent, State, RW};
use crate::interest::{mode_of, set_hup, set_readable, set_writable};
use crate::mask::{index_set, lemma_mask_single, mask_has, mask_set};
use crate::server::{Server, ServerView, WrapError};
use crate::source::{EventSourceShared, SourceKind};

verus! {

/// What a coroutine's body uses the runtime through: it names the coroutine.
#[derive(Debug)]
pub struct MiocoHandle {
    pub coroutine: usize,
}

/// A wrapped source, as the coroutine that owns it holds it.
#[derive(Copy, Clone, Debug, PartialEq, Eq, Structural)]
pub struct TypedEventSource {
    pub coroutine: usize,
    pub token: usize,
    pub index: usize,
}

/// A source as the dispatcher finds it in the table, by its token.
#[derive(Copy, Clone, Debug, PartialEq, Eq, Structural)]
pub struct EventSource {
    pub token: usize,
}

/// The sending end of the wake channel, bound to one source.
#[derive(Copy, Clone, Debug, PartialEq, Eq, Structural)]
pub struct Sender {
    pub token: usize,
}

impl Sender {
    /// Addresses `msg` to the source that the sender is bound to: the pair
    /// to put on the wake channel.
    pub fn send<M>(&self, msg: M) -> (r: (usize, M))
        ensures
            r == (self.token, msg),
    {
        (self.token, msg)
    }
}

impl EventSource {
    /// Dispatches a ready event for this source: see [`Server::ready`].
    pub fn ready(&mut self, server: &mut Server, events: &EventSet) -> (r: Option<usize>)
        requires
            old(server).wf(),
            old(server)@.sources.contains_key(old(self).token) ==> mode_of(
                set_readable(*events),
                set_writable(*events),
                set_hup(*events),
            ) is Some,
        ensures
            *final(self) == *old(self),
            final(server).wf(),
            !old(server)@.sources.contains_key(old(self).token) ==> r is None && final(server)@
                == old(server)@,
            old(server)@.sources.contains_key(old(self).token) ==> r == Some(
                old(server)@.sources[old(self).token].coroutine,
            ) && final(server)@ == old(server)@.after_ready(
                old(self).token,
                set_hup(*events),
                mode_of(set_readable(*events), set_writable(*events), set_hup(*events))->Some_0,
            ),
    {
        server.ready(self.token, events)
    }

    /// Dispatches a message for this source: see [`Server::notify`].
    pub fn notify(&mut self, server: &mut Server) -> (r: Option<usize>)
        requires
            old(server).wf(),
        ensures
            *final(self) == *old(self),
            final(server).wf(),
            r is Some <==> old(server)@.sources.contains_key(old(self).token) && old(server)@.sources[old(self).token].kind == SourceKind::Notified,
            r is None ==> final(server)@ == old(server)@,
            r is Some ==> r == Some(old(server)@.sources[old(self).token].coroutine) && final(server)@ == old(server)@.after_notify(old(self).token),
    {
        server.notify(self.token)
    }
}

impl TypedEventSource {
    /// Whether the table of `v` has this source at this position of this
    /// coroutine.
    pub open spec fn bound_in(self, v: ServerView) -> bool {
        &&& self.coroutine < v.coroutines.len()
        &&& self.index < v.coroutines[self.coroutine as int].io@.len()
        &&& v.coroutines[self.coroutine as int].io@[self.index as int] == self.token
    }

    /// The state after the owner blocked on this source alone in mode `rw`.
    pub open spec fn blocks(self, v: ServerView, rw: RW) -> ServerView {
        v.with_coroutine(
            self.coroutine as int,
            v.coroutines[self.coroutine as int].blocked(1u32 << (self.index as u32), rw),
        )
    }

    /// After the owner blocked on this source alone, its mask of waited-for
    /// positions selects this source's position and no other.
    pub proof fn lemma_blocks_on_one(self, v: ServerView, rw: RW)
        requires
            v.wf(),
            self.bound_in(v),
        ensures
            forall|i: int|
                mask_has(self.blocks(v, rw).coroutines[self.coroutine as int].blocked_on_mask, i)
                    <==> i == self.index,
            self.blocks(v, rw).coroutines[self.coroutine as int].state == State::BlockedOn(rw),
    {
        assert(v.coroutine_wf(self.coroutine as int));
        lemma_mask_single(1u32 << (self.index as u32), self.index as int);
    }

    /// The source's position in its coroutine's list.
    pub fn index(&self) -> (r: EventSourceIndex)
        ensures
            r == EventSourceIndex(self.index),
    {
        EventSourceIndex(self.index)
    }

    /// Notes that the owner blocks on this source alone in mode `rw`; the
    /// coroutine is to be suspended next.
    pub fn block_on(&self, server: &mut Server, rw: RW)
        requires
            old(server).wf(),
            self.bound_in(old(server)@),
        ensures
            final(server).wf(),
            final(server)@ == self.blocks(old(server)@, rw),
            forall|i: int|
                mask_has(final(server)@.coroutines[self.coroutine as int].blocked_on_mask, i) <==> i
                    == self.index,
    {
        server.block_on(self.coroutine, self.index, rw);
    }

    /// Notes that the owner waits for a message to this source; the
    /// coroutine is to be suspended next.
    pub fn wait_notify(&self, server: &mut Server)
        requires
            old(server).wf(),
            self.bound_in(old(server)@),
        ensures
            final(server).wf(),
            final(server)@ == self.blocks(old(server)@, RW::Notify),
    {
        self.block_on(server, RW::Notify);
    }

    /// A sender bound to this source.
    pub fn channel(&self) -> (r: Sender)
        ensures
            r == (Sender { token: self.token }),
    {
        Sender { token: self.token }
    }

    /// Addresses `msg` to this source: the pair to put on the wake channel.
    pub fn send<M>(&self, msg: M) -> (r: (usize, M))
        ensures
            r == (self.token, msg),
    {
        (self.token, msg)
    }

    /// Decides what follows one attempt at a non-blocking operation. Where
    /// the object was not ready, the owner blocks on this source in mode `rw`
    /// and the attempt is to be made again after it was resumed: `None`.
    /// Otherwise the outcome, value or error, is the operation's result and
    /// nothing changes.
    pub fn retry<R, E>(&self, server: &mut Server, attempt: Result<Option<R>, E>, rw: RW) -> (r:
        Option<Result<R, E>>)
        requires
            old(server).wf(),
            self.bound_in(old(server)@),
        ensures
            final(server).wf(),
            r == (match attempt {
                Ok(None) => None,
                Ok(Some(v)) => Some(Ok(v)),
                Err(e) => Some(Err(e)),
            }),
            r is None ==> final(server)@ == self.blocks(old(server)@, rw),
            r is Some ==> final(server)@ == old(server)@,
    {
        match attempt {
            Ok(None) => {
                self.block_on(server, rw);
                None
            },
            Ok(Some(v)) => Some(Ok(v)),
            Err(e) => Some(Err(e)),
        }
    }

    /// One round of a blocking read: see [`TypedEventSource::retry`]; the
    /// owner blocks for reading.
    pub fn read<E>(&self, server: &mut Server, attempt: Result<Option<usize>, E>) -> (r: Option<
        Result<usize, E>,
    >)
        requires
            old(server).wf(),
            self.bound_in(old(server)@),
        ensures
            final(server).wf(),
            r == (match attempt {
                Ok(None) => None,
                Ok(Some(v)) => Some(Ok(v)),
                Err(e) => Some(Err(e)),
            }),
            r is None ==> final(server)@ == self.blocks(old(server)@, RW::Read),
            r is Some ==> final(server)@ == old(server)@,
    {
        self.retry(server, attempt, RW::Read)
    }

    /// One round of a blocking write: see [`TypedEventSource::retry`]; the
    /// owner blocks for writing.
    pub fn write<E>(&self, server: &mut Server, attempt: Result<Option<usize>, E>) -> (r: Option<
        Result<usize, E>,
    >)
        requires
            old(server).wf(),
            self.bound_in(old(server)@),
        ensures
            final(server).wf(),
            r == (match attempt {
                Ok(None) => None,
                Ok(Some(v)) => Some(Ok(v)),
                Err(e) => Some(Err(e)),
            }),
            r is None ==> final(server)@ == self.blocks(old(server)@, RW::Write),
            r is Some ==> final(server)@ == old(server)@,
    {
        self.retry(server, attempt, RW::Write)
    }

    /// One round of a blocking accept: see [`TypedEventSource::retry`]; the
    /// owner blocks for reading.
    pub fn accept<R, E>(&self, server: &mut Server, attempt: Result<Option<R>, E>) -> (r: Option<
        Result<R, E>,
    >)
        requires
            old(server).wf(),
            self.bound_in(old(server)@),
        ensures
            final(server).wf(),
            r == (match attempt {
                Ok(None) => None,
                Ok(Some(v)) => Some(Ok(v)),
                Err(e) => Some(Err(e)),
            }),
            r is None ==> final(server)@ == self.blocks(old(server)@, RW::Read),
            r is Some ==> final(server)@ == old(server)@,
    {
        self.retry(server, attempt, RW::Read)
    }
}

impl MiocoHandle {
    /// The handle of the runtime's first coroutine: spawns it, with no
    /// parent. It is to be resumed and maintained before the event loop runs.
    pub fn root(server: &mut Server) -> (r: MiocoHandle)
        requires
            old(server).wf(),
            old(server)@.coroutines_no < u32::MAX,
        ensures
            final(server).wf(),
            r.coroutine == old(server)@.coroutines.len(),
            final(server)@.coroutines.len() == r.coroutine + 1,
            final(server)@.coroutines[r.coroutine as int].is_fresh(),
            forall|c: int|
                0 <= c < r.coroutine ==> final(server)@.coroutines[c] == old(server)@.coroutines[c],
            final(server)@.coroutines_no == old(server)@.coroutines_no + 1,
            final(server)@.sources == old(server)@.sources,
            final(server)@.limit == old(server)@.limit,
            final(server)@.reactor == old(server)@.reactor,
    {
        MiocoHandle { coroutine: server.spawn_impl() }
    }

    /// Spawns a child of this coroutine. The child is counted as alive at
    /// once and started when this coroutine next yields.
    pub fn spawn(&self, server: &mut Server) -> (child: MiocoHandle)
        requires
            old(server).wf(),
            self.coroutine < old(server)@.coroutines.len(),
            old(server)@.coroutines_no < u32::MAX,
        ensures
            final(server).wf(),
            child.coroutine == old(server)@.coroutines.len(),
            final(server)@.coroutines.len() == child.coroutine + 1,
            final(server)@.coroutines[child.coroutine as int].is_fresh(),
            final(server)@.coroutines[self.coroutine as int].children_to_start@ == old(server)@.coroutines[self.coroutine as int].children_to_start@.push(child.coroutine),
            final(server)@.coroutines[self.coroutine as int] == (Coroutine {
                children_to_start: final(server)@.coroutines[self.coroutine as int].children_to_start,
                ..old(server)@.coroutines[self.coroutine as int]
            }),
            forall|c: int|
                0 <= c < child.coroutine && c != self.coroutine ==> final(server)@.coroutines[c]
                    == old(server)@.coroutines[c],
            final(server)@.coroutines_no == old(server)@.coroutines_no + 1,
            final(server)@.sources == old(server)@.sources,
            final(server)@.limit == old(server)@.limit,
            final(server)@.reactor == old(server)@.reactor,
    {
        MiocoHandle { coroutine: server.spawn(self.coroutine) }
    }

    /// What wrapping a source of `kind` comes to: the error, or the new
    /// source at the end of the coroutine's list, in a slot that was free.
    pub open spec fn wrapped(
        self,
        before: ServerView,
        after: ServerView,
        kind: SourceKind,
        r: Result<TypedEventSource, WrapError>,
    ) -> bool {
        let c = self.coroutine as int;
        let n = before.coroutines[c].io@.len();
        match r {
            Err(e) => {
                &&& before.wrap_error(c) == Some(e)
                &&& after == before
            },
            Ok(s) => {
                let record = EventSourceShared::fresh(self.coroutine, s.token, s.index, kind);
                &&& before.wrap_error(c) is None
                &&& s.coroutine == self.coroutine
                &&& s.index == n
                &&& !before.sources.contains_key(s.token)
                &&& s.bound_in(after)
                &&& after.coroutines[c].io@ == before.coroutines[c].io@.push(s.token)
                &&& after.coroutines[c] == (Coroutine {
                    io: after.coroutines[c].io,
                    ..before.coroutines[c]
                })
                &&& after == before.with_source(s.token, record).with_coroutine(
                    c,
                    after.coroutines[c],
                )
            },
        }
    }

    fn add_source(&mut self, server: &mut Server, kind: SourceKind) -> (r: Result<
        TypedEventSource,
        WrapError,
    >)
        requires
            old(server).wf(),
            old(self).coroutine < old(server)@.coroutines.len(),
        ensures
            *final(self) == *old(self),
            final(server).wf(),
            old(self).wrapped(old(server)@, final(server)@, kind, r),
    {
        match server.add_source(self.coroutine, kind) {
            Ok(record) => Ok(
                TypedEventSource {
                    coroutine: self.coroutine,
                    token: record.token,
                    index: record.index,
                },
            ),
            Err(e) => Err(e),
        }
    }

    /// Wraps an I/O object as a source of this coroutine. The reactor is not
    /// asked anything until the coroutine blocks on the source.
    pub fn wrap(&mut self, server: &mut Server) -> (r: Result<TypedEventSource, WrapError>)
        requires
            old(server).wf(),
            old(self).coroutine < old(server)@.coroutines.len(),
        ensures
            *final(self) == *old(self),
            final(server).wf(),
            old(self).wrapped(old(server)@, final(server)@, SourceKind::Evented, r),
    {
        self.add_source(server, SourceKind::Evented)
    }

    /// Wraps a message sink as a source of this coroutine. The reactor never
    /// hears of it.
    pub fn wrap_notified(&mut self, server: &mut Server) -> (r: Result<TypedEventSource, WrapError>)
        requires
            old(server).wf(),
            old(self).coroutine < old(server)@.coroutines.len(),
        ensures
            *final(self) == *old(self),
            final(server).wf(),
            old(self).wrapped(old(server)@, final(server)@, SourceKind::Notified, r),
    {
        self.add_source(server, SourceKind::Notified)
    }

    /// What blocking on all sources in mode `rw` comes to.
    pub open spec fn selected_all(self, before: ServerView, after: ServerView, rw: RW) -> bool {
        let c = self.coroutine as int;
        &&& after == before.with_coroutine(
            c,
            before.coroutines[c].blocked(after.coroutines[c].blocked_on_mask, rw),
        )
        &&& forall|i: int|
            mask_has(after.coroutines[c].blocked_on_mask, i) <==> 0 <= i
                < before.coroutines[c].io@.len()
    }

    /// What blocking on the sources at `indices` in mode `rw` comes to.
    pub open spec fn selected_from(
        self,
        before: ServerView,
        after: ServerView,
        indices: Seq<EventSourceIndex>,
        rw: RW,
    ) -> bool {
        let c = self.coroutine as int;
        &&& after == before.with_coroutine(
            c,
            before.coroutines[c].blocked(after.coroutines[c].blocked_on_mask, rw),
        )
        &&& mask_set(after.coroutines[c].blocked_on_mask) == index_set(indices)
    }

    /// Whether every position in `indices` is one that this coroutine owns.
    pub open spec fn owns_all(self, v: ServerView, indices: Seq<EventSourceIndex>) -> bool {
        forall|k: int|
            0 <= k < indices.len() ==> (#[trigger] indices[k]).0
                < v.coroutines[self.coroutine as int].io@.len()
    }

    fn select_impl(&mut self, server: &mut Server, rw: RW)
        requires
            old(server).wf(),
            old(self).coroutine < old(server)@.coroutines.len(),
        ensures
            *final(self) == *old(self),
            final(server).wf(),
            old(self).selected_all(old(server)@, final(server)@, rw),
    {
        server.select_all(self.coroutine, rw);
    }

    /// Notes that the coroutine waits for any of its sources to be readable
    /// or writable; it is to be suspended next, and finds the event that woke
    /// it in [`MiocoHandle::last_event`].
    pub fn select(&mut self, server: &mut Server)
        requires
            old(server).wf(),
            old(self).coroutine < old(server)@.coroutines.len(),
        ensures
            *final(self) == *old(self),
            final(server).wf(),
            old(self).selected_all(old(server)@, final(server)@, RW::Both),
    {
        self.select_impl(server, RW::Both);
    }

    /// As [`MiocoHandle::select`], for readable alone.
    pub fn select_read(&mut self, server: &mut Server)
        requires
            old(server).wf(),
            old(self).coroutine < old(server)@.coroutines.len(),
        ensures
            *final(self) == *old(self),
            final(server).wf(),
            old(self).selected_all(old(server)@, final(server)@, RW::Read),
    {
        self.select_impl(server, RW::Read);
    }

    /// As [`MiocoHandle::select`], for writable alone.
    pub fn select_write(&mut self, server: &mut Server)
        requires
            old(server).wf(),
            old(self).coroutine < old(server)@.coroutines.len(),
        ensures
            *final(self) == *old(self),
            final(server).wf(),
            old(self).selected_all(old(server)@, final(server)@, RW::Write),
    {
        self.select_impl(server, RW::Write);
    }

    /// Notes that the coroutine waits for any of its sources at `indices` to
    /// be readable or writable; it is to be suspended next.
    pub fn select_from(&mut self, server: &mut Server, indices: &[EventSourceIndex])
        requires
            old(server).wf(),
            old(self).coroutine < old(server)@.coroutines.len(),
            old(self).owns_all(old(server)@, indices@),
        ensures
            *final(self) == *old(self),
            final(server).wf(),
            old(self).selected_from(old(server)@, final(server)@, indices@, RW::Both),
    {
        server.select_from(self.coroutine, indices, RW::Both);
    }

    /// As [`MiocoHandle::select_from`], for writable alone.
    pub fn select_write_from(&mut self, server: &mut Server, indices: &[EventSourceIndex])
        requires
            old(server).wf(),
            old(self).coroutine < old(server)@.coroutines.len(),
            old(self).owns_all(old(server)@, indices@),
        ensures
            *final(self) == *old(self),
            final(server).wf(),
            old(self).selected_from(old(server)@, final(server)@, indices@, RW::Write),
    {
        server.select_from(self.coroutine, indices, RW::Write);
    }

    /// As [`MiocoHandle::select_from`], for readable alone.
    pub fn select_read_from(&mut self, server: &mut Server, indices: &[EventSourceIndex])
        requires
            old(server).wf(),
            old(self).coroutine < old(server)@.coroutines.len(),
            old(self).owns_all(old(server)@, indices@),
        ensures
            *final(self) == *old(self),
            final(server).wf(),
            old(self).selected_from(old(server)@, final(server)@, indices@, RW::Read),
    {
        server.select_from(self.coroutine, indices, RW::Read);
    }

    /// The event that last woke the coroutine: what a select returns once
    /// the coroutine runs again.
    pub fn last_event(&self, server: &Server) -> (r: LastEvent)
        requires
            self.coroutine < server@.coroutines.len(),
        ensures
            r == server@.coroutines[self.coroutine as int].last_event,
    {
        server.coroutine(self.coroutine).last_event
    }

    /// Notes that the coroutine's body has returned.
    pub fn finish(&self, server: &mut Server)
        requires
            old(server).wf(),
            self.coroutine < old(server)@.coroutines.len(),
        ensures
            final(server).wf(),
            final(server)@ == old(server)@.with_coroutine(
                self.coroutine as int,
                old(server)@.coroutines[self.coroutine as int].finished(),
            ),
    {
        server.finish(self.coroutine);
    }
}

} // verus!
