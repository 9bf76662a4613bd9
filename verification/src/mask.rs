use vstd::prelude::*;
use crate::event::EventSourceIndex;

verus! {

/// Most sources that one coroutine can own: one bit of a mask each.
pub const MAX_SOURCES: usize = 32;

/// Whether position `i` is selected in `mask`.
pub open spec fn mask_has(mask: u32, i: int) -> bool {
    0 <= i < 32 && (mask & (1u32 << (i as u32))) != 0
}

/// The positions selected in `mask`, as a set.
pub open spec fn mask_set(mask: u32) -> Set<int> {
    Set::new(|i: int| mask_has(mask, i))
}

/// The positions named in `indices`, as a set.
pub open spec fn index_set(indices: Seq<EventSourceIndex>) -> Set<int> {
    Set::new(|i: int| exists|k: int| 0 <= k < indices.len() && #[trigger] indices[k].0 == i)
}

/// The first `n` positions, as a set.
pub open spec fn first_n(n: int) -> Set<int> {
    Set::new(|i: int| 0 <= i < n)
}

/// The empty mask selects nothing.
pub proof fn lemma_mask_zero()
    ensures
        forall|i: int| !mask_has(0u32, i),
        mask_set(0u32) =~= Set::<int>::empty(),
{
    assert forall|i: int| !mask_has(0u32, i) by {
        if 0 <= i < 32 {
            let s: u32 = i as u32;
            assert((0u32 & (1u32 << s)) == 0) by (bit_vector);
        }
    }
}

/// Setting bit `j` selects `j` and leaves the other positions as they were.
pub proof fn lemma_mask_set_bit(mask: u32, j: int)
    requires
        0 <= j < 32,
    ensures
        forall|i: int| mask_has(mask | (1u32 << (j as u32)), i) == (mask_has(mask, i) || i == j),
{
    let b: u32 = j as u32;
    assert forall|i: int| mask_has(mask | (1u32 << b), i) == (mask_has(mask, i) || i == j) by {
        if 0 <= i < 32 {
            let s: u32 = i as u32;
            assert(((mask | (1u32 << b)) & (1u32 << s) != 0) == ((mask & (1u32 << s)) != 0 || s
                == b)) by (bit_vector)
                requires
                    s < 32,
                    b < 32,
            ;
        }
    }
}

/// Clearing bit `j` deselects `j` and leaves the other positions as they were.
pub proof fn lemma_mask_clear_bit(mask: u32, j: int)
    requires
        0 <= j < 32,
    ensures
        forall|i: int| mask_has(mask & !(1u32 << (j as u32)), i) == (mask_has(mask, i) && i != j),
        mask == 0 ==> mask & !(1u32 << (j as u32)) == 0,
{
    let b: u32 = j as u32;
    assert forall|i: int| mask_has(mask & !(1u32 << b), i) == (mask_has(mask, i) && i != j) by {
        if 0 <= i < 32 {
            let s: u32 = i as u32;
            assert(((mask & !(1u32 << b)) & (1u32 << s) != 0) == ((mask & (1u32 << s)) != 0 && s
                != b)) by (bit_vector)
                requires
                    s < 32,
                    b < 32,
            ;
        }
    }
    assert(0u32 & !(1u32 << b) == 0) by (bit_vector);
}

/// The mask of bit `j` alone selects `j` and nothing else.
pub proof fn lemma_mask_single(mask: u32, j: int)
    requires
        0 <= j < 32,
        mask == 1u32 << (j as u32),
    ensures
        forall|i: int| mask_has(mask, i) == (i == j),
{
    let b: u32 = j as u32;
    lemma_mask_set_bit(0u32, j);
    lemma_mask_zero();
    assert(0u32 | (1u32 << b) == 1u32 << b) by (bit_vector);
    assert(mask == 0u32 | (1u32 << b));
    assert forall|i: int| mask_has(mask, i) == (i == j) by {
        assert(mask_has(0u32 | (1u32 << b), i) == (mask_has(0u32, i) || i == j));
    }
}

/// Sets `blocked_on_mask` to select exactly the positions named in
/// `indices`.
pub fn select_impl_set_mask_from_indices(indices: &[EventSourceIndex], blocked_on_mask: &mut u32)
    requires
        forall|k: int| 0 <= k < indices@.len() ==> (#[trigger] indices@[k]).0 < MAX_SOURCES,
    ensures
        mask_set(*final(blocked_on_mask)) == index_set(indices@),
        forall|i: int|
            mask_has(*final(blocked_on_mask), i) <==> exists|k: int|
                0 <= k < indices@.len() && #[trigger] indices@[k].0 == i,
{
    let mut mask: u32 = 0;
    let mut n: usize = 0;
    proof {
        lemma_mask_zero();
    }
    while n < indices.len()
        invariant
            n <= indices@.len(),
            forall|k: int| 0 <= k < indices@.len() ==> (#[trigger] indices@[k]).0 < MAX_SOURCES,
            forall|i: int|
                mask_has(mask, i) <==> exists|k: int| 0 <= k < n && #[trigger] indices@[k].0 == i,
        decreases indices@.len() - n,
    {
        let index: usize = indices[n].as_usize();
        let ghost before: u32 = mask;
        proof {
            lemma_mask_set_bit(mask, index as int);
        }
        mask = mask | (1u32 << (index as u32));
        assert(mask == before | (1u32 << ((index as int) as u32)));
        assert(forall|i: int| mask_has(mask, i) == (mask_has(before, i) || i == index));
        assert(indices@[n as int].0 == index);
        n = n + 1;
    }
    *blocked_on_mask = mask;
    assert(mask_set(mask) =~= index_set(indices@));
}

/// Sets `blocked_on_mask` to select every position of a coroutine that owns
/// `handles.len()` sources.
pub fn select_impl_set_mask_rc_handles(handles: &[usize], blocked_on_mask: &mut u32)
    requires
        handles@.len() <= MAX_SOURCES,
    ensures
        mask_set(*final(blocked_on_mask)) == first_n(handles@.len() as int),
        forall|i: int| mask_has(*final(blocked_on_mask), i) <==> 0 <= i < handles@.len(),
{
    let mut mask: u32 = 0;
    let mut n: usize = 0;
    proof {
        lemma_mask_zero();
    }
    while n < handles.len()
        invariant
            n <= handles@.len() <= MAX_SOURCES,
            forall|i: int| mask_has(mask, i) <==> 0 <= i < n,
        decreases handles@.len() - n,
    {
        let ghost before: u32 = mask;
        proof {
            lemma_mask_set_bit(mask, n as int);
        }
        mask = mask | (1u32 << (n as u32));
        assert(mask == before | (1u32 << ((n as int) as u32)));
        assert(forall|i: int| mask_has(mask, i) == (mask_has(before, i) || i == n));
        n = n + 1;
    }
    *blocked_on_mask = mask;
    assert(mask_set(mask) =~= first_n(handles@.len() as int));
}

} // verus!
