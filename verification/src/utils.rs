//! The slot adapter: a block of `N` elements seen either as a whole, which is
//! present or absent as a unit, or slot by slot, where each slot is empty or
//! occupied on its own.
//!
//! A slot is an `Option<T>`: `None` is an empty slot, `Some(v)` a slot
//! occupied by `v`. A whole block is an `Option<[T; N]>`.

use crate::core_array::map_block;
use vstd::prelude::*;

verus! {

/// The elements that a whole block holds, if it is present.
pub open spec fn whole_view<T, const N: usize>(whole: Option<[T; N]>) -> Option<Seq<T>> {
    match whole {
        Some(block) => Some(block@),
        None => None,
    }
}

/// The per-slot picture of a whole block of `n` elements: a present block
/// occupies every slot with its element, an absent one leaves every slot
/// empty.
pub open spec fn widened<T>(whole: Option<Seq<T>>, n: nat) -> Seq<Option<T>> {
    match whole {
        Some(elems) => Seq::new(n, |i: int| Some(elems[i])),
        None => Seq::new(n, |i: int| None),
    }
}

/// Every slot holds a value.
pub open spec fn all_occupied<T>(slots: Seq<Option<T>>) -> bool {
    forall|i: int| 0 <= i < slots.len() ==> (#[trigger] slots[i]) is Some
}

/// The values held by the slots, in slot order. Meaningful where every slot
/// is occupied.
pub open spec fn occupants<T>(slots: Seq<Option<T>>) -> Seq<T> {
    Seq::new(slots.len(), |i: int| slots[i]->0)
}

/// The whole block that a run of slots amounts to: present exactly when no
/// slot is empty.
pub open spec fn narrowed<T>(slots: Seq<Option<T>>) -> Option<Seq<T>> {
    if all_occupied(slots) {
        Some(occupants(slots))
    } else {
        None
    }
}

/// The slots after the first `k` of them have been filled, by index, with
/// the first `k` values of `vals`.
pub open spec fn filled<T>(slots: Seq<Option<T>>, vals: Seq<T>, k: nat) -> Seq<Option<T>>
    decreases k,
{
    if k == 0 {
        slots
    } else {
        filled(slots, vals, (k - 1) as nat).update(k - 1, Some(vals[k - 1]))
    }
}

/// Reinterpret a possibly-present array of things as an array of
/// possibly-present things.
pub fn push_maybe_uninit<T, const N: usize>(arr: Option<[T; N]>) -> (slots: [Option<T>; N])
    ensures
        slots@ == widened(whole_view(arr), N as nat),
{
    match arr {
        Some(block) => {
            let slots = map_block(block, |item: T| -> (slot: Option<T>)
                ensures slot == Some(item),
            { Some(item) });
            assert(slots@ =~= widened(Some(block@), N as nat));
            slots
        },
        None => {
            let slots = core::array::from_fn(|_i: usize| -> (slot: Option<T>)
                ensures slot is None,
            { None });
            assert(slots@ =~= widened(None::<Seq<T>>, N as nat));
            slots
        },
    }
}

/// Reinterpret an array of possibly-present things as a possibly-present
/// array of things. The array is present exactly when every slot is
/// occupied; with an empty slot among them the block is absent, and what
/// the other slots held is released.
pub fn pull_maybe_uninit<T, const N: usize>(arr: [Option<T>; N]) -> (whole: Option<[T; N]>)
    ensures
        whole_view(whole) == narrowed(arr@),
{
    let mut i: usize = 0;
    while i < N
        invariant
            i <= N,
            forall|j: int| 0 <= j < i ==> (#[trigger] arr@[j]) is Some,
        decreases N - i,
    {
        if arr[i].is_none() {
            return None;
        }
        i += 1;
    }
    let block = map_block(arr, |slot: Option<T>| -> (item: T)
        requires slot is Some,
        ensures Some(item) == slot,
    { slot.unwrap() });
    assert(block@ =~= occupants(arr@));
    Some(block)
}

/// Take the value out of slot `i`, leaving the slot empty. Every other slot
/// is left as it was.
pub fn extract<T, const N: usize>(arr: &mut [Option<T>; N], i: usize) -> (item: T)
    requires
        i < N,
        old(arr)@[i as int] is Some,
    ensures
        Some(item) == old(arr)@[i as int],
        final(arr)@ == old(arr)@.update(i as int, None),
    opens_invariants none
    no_unwind
{
    let mut slot: Option<T> = None;
    core::mem::swap(&mut arr[i], &mut slot);
    match slot {
        Some(item) => item,
        None => vstd::pervasive::unreached(),
    }
}

/// Filling the first `k` slots leaves the length alone, occupies exactly
/// those slots with the given values and keeps the rest.
pub proof fn lemma_filled<T>(slots: Seq<Option<T>>, vals: Seq<T>, k: nat)
    requires
        k <= slots.len(),
    ensures
        filled(slots, vals, k).len() == slots.len(),
        forall|i: int| 0 <= i < k ==> (#[trigger] filled(slots, vals, k)[i]) == Some(vals[i]),
        forall|i: int| k <= i < slots.len() ==> (#[trigger] filled(slots, vals, k)[i]) == slots[i],
    decreases k,
{
    if k > 0 {
        lemma_filled(slots, vals, (k - 1) as nat);
    }
}

/// Widening a present block and narrowing it again gives the block back.
/// An absent block comes back absent as long as there is a slot at all:
/// with no slot, nothing is empty, and the block of no elements is present.
pub proof fn lemma_widen_then_narrow<T>(whole: Option<Seq<T>>, n: nat)
    requires
        whole is Some ==> whole->0.len() == n,
    ensures
        whole is Some || n > 0 ==> narrowed(widened(whole, n)) == whole,
        whole is None && n == 0 ==> narrowed(widened(whole, n)) == Some(Seq::<T>::empty()),
{
    let slots = widened(whole, n);
    match whole {
        Some(elems) => {
            assert(occupants(slots) =~= elems);
        },
        None => {
            if n > 0 {
                assert(slots[0] is None);
            } else {
                assert(occupants(slots) =~= Seq::<T>::empty());
            }
        },
    }
}

/// Widening an absent block, filling every slot by index and narrowing
/// gives the same whole block as holding those values from the start.
pub proof fn lemma_fill_then_narrow<T>(vals: Seq<T>)
    ensures
        filled(widened(None, vals.len()), vals, vals.len()) == widened(Some(vals), vals.len()),
        narrowed(filled(widened(None, vals.len()), vals, vals.len())) == Some(vals),
{
    let n = vals.len();
    let slots = filled(widened(None, n), vals, n);
    lemma_filled(widened(None, n), vals, n);
    assert(slots =~= widened(Some(vals), n));
    lemma_widen_then_narrow(Some(vals), n);
}

} // verus!
