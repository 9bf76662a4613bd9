use vstd::prelude::*;
use mio::util::Slab;
use mio::Token;
use crate::source::{EventSourceShared, SourceKind};

verus! {

/// A `mio::util::Slab` of source records: a table of a fixed number of
/// slots that hands out the token of a free slot on insertion. The verifier
/// does not look inside; the functions below say what the slab's methods do.
#[verifier::external_body]
pub struct SourceSlab {
    slab: Slab<EventSourceShared>,
}

/// What a slab holds: the record in each filled slot, by the slot's token.
pub uninterp spec fn slab_sources(slab: SourceSlab) -> Map<usize, EventSourceShared>;

/// The number of slots that a slab was made with.
pub uninterp spec fn slab_limit(slab: SourceSlab) -> nat;

/// The contents of a slab with every slot free.
pub open spec fn no_sources() -> Map<usize, EventSourceShared> {
    Map::empty()
}

/// What holds of a slab whose slots were only ever released while filled: the
/// filled slots lie under the limit, and so does their number.
pub open spec fn slab_wf(slab: SourceSlab) -> bool {
    &&& slab_sources(slab).dom().finite()
    &&& slab_sources(slab).dom().len() <= slab_limit(slab)
    &&& forall|t: usize| slab_sources(slab).contains_key(t) ==> t < slab_limit(slab)
}

/// `Slab::new` makes a slab of `capacity` slots, all free. It counts up to
/// `capacity + 1`, which must not overflow.
#[verifier::external_body]
pub(crate) fn slab_new(capacity: usize) -> (made: SourceSlab)
    requires
        capacity < usize::MAX,
    ensures
        slab_sources(made) == no_sources(),
        slab_limit(made) == capacity,
{
    SourceSlab { slab: Slab::new(capacity) }
}

/// `Slab::get` finds the record in a slot, or nothing where the slot is
/// free. It is called for tokens under the limit only: the slab holds a
/// larger token against what it has allocated, not against the number of its
/// slots.
#[verifier::external_body]
pub(crate) fn slab_get(slab: &SourceSlab, token: usize) -> (r: Option<
    EventSourceShared,
>)
    requires
        token < slab_limit(*slab),
    ensures
        r == (if slab_sources(*slab).contains_key(token) {
            Some(slab_sources(*slab)[token])
        } else {
            None
        }),
{
    slab.slab.get(Token(token)).copied()
}

/// `Slab::insert_with` fills a free slot with the record made for that
/// slot's token and returns the token, or returns nothing and changes
/// nothing where every slot is filled. Which free slot it takes is left open.
/// That a slot is found whenever one is free rests on the slab's list of
/// free slots, which stays sound as long as only filled slots are released.
#[verifier::external_body]
pub(crate) fn slab_insert_with(
    slab: &mut SourceSlab,
    coroutine: usize,
    index: usize,
    kind: SourceKind,
) -> (r: Option<usize>)
    requires
        slab_wf(*old(slab)),
    ensures
        slab_limit(*final(slab)) == slab_limit(*old(slab)),
        slab_sources(*old(slab)).dom().len() >= slab_limit(*old(slab)) ==> r.is_none()
            && slab_sources(*final(slab)) == slab_sources(*old(slab)),
        slab_sources(*old(slab)).dom().len() < slab_limit(*old(slab)) ==> r.is_some() && r.unwrap()
            < slab_limit(*old(slab)) && !slab_sources(*old(slab)).contains_key(r.unwrap())
            && slab_sources(*final(slab)) == slab_sources(*old(slab)).insert(
            r.unwrap(),
            EventSourceShared::fresh(coroutine, r.unwrap(), index, kind),
        ),
{
    slab.slab.insert_with(|token: Token| EventSourceShared::new(coroutine, token.as_usize(), index, kind))
        .map(|token: Token| token.as_usize())
}

/// `Slab::remove` frees a filled slot and returns the record that was in it.
/// Releasing a free slot would spoil the slab's list of free slots, so the
/// slot must be filled.
#[verifier::external_body]
pub(crate) fn slab_remove(slab: &mut SourceSlab, token: usize) -> (r: Option<
    EventSourceShared,
>)
    requires
        slab_sources(*old(slab)).contains_key(token),
        token < slab_limit(*old(slab)),
    ensures
        r == Some(slab_sources(*old(slab))[token]),
        slab_sources(*final(slab)) == slab_sources(*old(slab)).remove(token),
        slab_limit(*final(slab)) == slab_limit(*old(slab)),
{
    slab.slab.remove(Token(token))
}

/// Indexing a slab by the token of a filled slot (`IndexMut::index_mut`)
/// reaches the record in it; storing through that replaces the record and
/// nothing else. On a free slot the indexing would panic.
#[verifier::external_body]
pub(crate) fn slab_store(slab: &mut SourceSlab, token: usize, record: EventSourceShared)
    requires
        slab_sources(*old(slab)).contains_key(token),
        token < slab_limit(*old(slab)),
    ensures
        slab_sources(*final(slab)) == slab_sources(*old(slab)).insert(token, record),
        slab_limit(*final(slab)) == slab_limit(*old(slab)),
{
    slab.slab[Token(token)] = record;
}

} // verus!
