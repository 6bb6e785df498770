//! An owning walk over a fully occupied block: each element is handed out
//! once, left to right, and whatever has not been handed out is released
//! when the walk is dropped.

use crate::core_array::feed;
use crate::utils::{extract, push_maybe_uninit, widened};
use core::ops::ControlFlow;
use vstd::prelude::*;

verus! {

/// The cursor discipline over a run of slots: the slots before `ptr` are
/// empty, the slots from `ptr` on are occupied.
pub open spec fn cursor_splits<T>(slots: Seq<Option<T>>, ptr: int) -> bool {
    &&& 0 <= ptr <= slots.len()
    &&& forall|i: int| 0 <= i < slots.len() ==> ((#[trigger] slots[i]) is Some <==> ptr <= i)
}

/// The values that the slots from `ptr` on hold, in slot order.
pub open spec fn remaining<T>(slots: Seq<Option<T>>, ptr: int) -> Seq<T> {
    Seq::new((slots.len() - ptr) as nat, |i: int| slots[ptr + i]->0)
}

/// What one advance yields from the elements `items`: the first of them, or
/// nothing when none is left.
pub open spec fn front<T>(items: Seq<T>) -> Option<T> {
    if items.len() > 0 {
        Some(items[0])
    } else {
        None
    }
}

/// What one advance leaves of the elements `items`: all but the first.
/// With none left, nothing changes.
pub open spec fn rest<T>(items: Seq<T>) -> Seq<T> {
    if items.len() > 0 {
        items.skip(1)
    } else {
        items
    }
}

/// What `k` advances leave of the elements `items`.
pub open spec fn advanced<T>(items: Seq<T>, k: nat) -> Seq<T>
    decreases k,
{
    if k == 0 {
        items
    } else {
        rest(advanced(items, (k - 1) as nat))
    }
}

/// The visit of `items[j]` takes the accumulator `states[j]`, asks to go on
/// and hands back `states[j + 1]`.
pub open spec fn visit_continues<B, T, R, F: FnMut(B, T) -> ControlFlow<R, B>>(
    f: F,
    items: Seq<T>,
    states: Seq<B>,
    j: int,
) -> bool {
    call_ensures(f, (states[j], items[j]), ControlFlow::Continue(states[j + 1]))
}

/// A fold of `f` over `items`, started with `init`, can get as far as
/// having visited the first `k` elements, in order, each visit asking to go
/// on: `states` are the accumulators it passes through on the way, from
/// `init` to the one that comes out of the `k`-th visit.
pub open spec fn reaches<B, T, R, F: FnMut(B, T) -> ControlFlow<R, B>>(
    f: F,
    items: Seq<T>,
    init: B,
    states: Seq<B>,
    k: int,
) -> bool {
    &&& 0 <= k <= items.len()
    &&& states.len() == k + 1
    &&& states[0] == init
    &&& forall|j: int| 0 <= j < k ==> #[trigger] visit_continues(f, items, states, j)
}

/// A fold of `f` over `items`, started with `init`, that gets through the
/// first `k` elements by way of `states` and then ends with `out`, leaving
/// `left`. Either it has run out of elements and ends with its last
/// accumulator, nothing being left, or it visits `items[k]`, is told to
/// stop with some value, and leaves what follows `items[k]`.
pub open spec fn folded<B, T, R, F: FnMut(B, T) -> ControlFlow<R, B>>(
    f: F,
    items: Seq<T>,
    init: B,
    states: Seq<B>,
    k: int,
    out: ControlFlow<R, B>,
    left: Seq<T>,
) -> bool {
    &&& reaches(f, items, init, states, k)
    &&& match out {
        ControlFlow::Continue(acc) => {
            &&& k == items.len()
            &&& acc == states[k]
            &&& left == items.skip(k)
        },
        ControlFlow::Break(stop) => {
            &&& k < items.len()
            &&& call_ensures(f, (states[k], items[k]), ControlFlow::Break(stop))
            &&& left == items.skip(k + 1)
        },
    }
}

/// Array iterator: owns a block of `N` slots and a cursor into it.
///
/// `arr[0..ptr]` is empty. `arr[ptr..N]` holds the elements that the
/// iterator has yet to yield.
pub struct IntoIter<T, const N: usize> {
    arr: [Option<T>; N],
    ptr: usize,
}

/// Create an `IntoIter` from a full array.
pub fn new<T, const N: usize>(arr: [T; N]) -> (iter: IntoIter<T, N>)
    ensures
        iter@ == arr@,
        iter.position() == 0,
        iter.slots() == widened(Some(arr@), N as nat),
{
    let slots = push_maybe_uninit(Some(arr));
    let iter = IntoIter { arr: slots, ptr: 0 };
    assert(iter@ =~= arr@);
    iter
}

/// Take the element under the cursor and step the cursor past it.
fn take_front<T, const N: usize>(slots: &mut [Option<T>; N], ptr: &mut usize) -> (item: T)
    requires
        cursor_splits(old(slots)@, *old(ptr) as int),
        *old(ptr) < N,
    ensures
        cursor_splits(final(slots)@, *final(ptr) as int),
        *final(ptr) == *old(ptr) + 1,
        final(slots)@ == old(slots)@.update(*old(ptr) as int, None),
        item == remaining(old(slots)@, *old(ptr) as int)[0],
        remaining(final(slots)@, *final(ptr) as int) == remaining(
            old(slots)@,
            *old(ptr) as int,
        ).skip(1),
    opens_invariants none
    no_unwind
{
    let item = extract(slots, *ptr);
    *ptr += 1;
    assert(remaining(slots@, *ptr as int) =~= remaining(old(slots)@, *old(ptr) as int).skip(1));
    item
}

impl<T, const N: usize> IntoIter<T, N> {
    /// The state of each of the `N` slots.
    pub closed spec fn slots(&self) -> Seq<Option<T>> {
        self.arr@
    }

    /// The cursor: how many elements have been yielded.
    pub closed spec fn position(&self) -> nat {
        self.ptr as nat
    }

    /// The elements not yet yielded, in the order in which they will be.
    pub open spec fn view(&self) -> Seq<T> {
        remaining(self.slots(), self.position() as int)
    }

    /// Holds of every `IntoIter`: there are `N` slots, those already walked
    /// are empty and those still to come are occupied.
    #[verifier::type_invariant]
    pub open spec fn cursor_inv(&self) -> bool {
        &&& self.slots().len() == N
        &&& cursor_splits(self.slots(), self.position() as int)
    }

    /// Yield the next element, if one is left. Once the iterator is
    /// exhausted every call returns `None` and changes nothing.
    pub fn next(&mut self) -> (item: Option<T>)
        ensures
            item == front(old(self)@),
            final(self)@ == rest(old(self)@),
            final(self).position() == old(self).position() + (if item is Some {
                1nat
            } else {
                0nat
            }),
            final(self).slots() == (if item is Some {
                old(self).slots().update(old(self).position() as int, None)
            } else {
                old(self).slots()
            }),
    {
        proof {
            use_type_invariant(&*self);
        }
        if self.ptr < N {
            let item = take_front(&mut self.arr, &mut self.ptr);
            Some(item)
        } else {
            None
        }
    }

    /// The exact number of elements left.
    pub fn len(&self) -> (n: usize)
        ensures
            n == self@.len(),
            n == N - self.position(),
    {
        proof {
            use_type_invariant(self);
        }
        N - self.ptr
    }

    /// Lower and upper bound on the number of elements left. Both are exact.
    pub fn size_hint(&self) -> (hint: (usize, Option<usize>))
        ensures
            hint.0 == self@.len(),
            hint.1 == Some(hint.0),
    {
        let out = self.len();
        (out, Some(out))
    }

    /// The element `i` places after the cursor, without yielding it.
    pub fn peek(&self, i: usize) -> (item: &T)
        requires
            i < self@.len(),
        ensures
            *item == self@[i as int],
    {
        proof {
            use_type_invariant(self);
        }
        match &self.arr[self.ptr + i] {
            Some(item) => item,
            None => vstd::pervasive::unreached(),
        }
    }

    /// Consume elements one by one, threading an accumulator through `f`,
    /// until `f` says to stop or no element is left. Each element visited
    /// is yielded exactly as `next` would yield it, the one on which `f`
    /// stops included, and the elements after it stay in the iterator.
    ///
    /// `f` has to accept every accumulator that the fold can reach,
    /// together with the element that is then next.
    #[verifier::loop_isolation(false)]
    pub fn try_fold<B, R, F>(&mut self, init: B, mut f: F) -> (out: ControlFlow<R, B>) where
        F: FnMut(B, T) -> ControlFlow<R, B>,

        requires
            forall|states: Seq<B>, k: int|
                #[trigger] reaches(f, old(self)@, init, states, k) && k < old(self)@.len()
                    ==> call_requires(f, (states[k], old(self)@[k])),
        ensures
            exists|states: Seq<B>, k: int| #[trigger]
                folded(f, old(self)@, init, states, k, out, final(self)@),
            final(self).position() == N - final(self)@.len(),
    {
        proof {
            use_type_invariant(&*self);
        }
        let ghost items = self@;
        let ghost visit = f;
        let ghost mut states: Seq<B> = seq![init];
        let ghost mut k: int = 0;
        let mut state = init;
        while self.ptr < N
            invariant
                self.cursor_inv(),
                f == visit,
                self@ == items.skip(k),
                states[k] == state,
                reaches(visit, items, init, states, k),
            decreases N - self.ptr,
        {
            let item = take_front(&mut self.arr, &mut self.ptr);
            assert(item == items[k]);
            match f(state, item) {
                ControlFlow::Continue(acc) => {
                    proof {
                        let grown = states.push(acc);
                        assert forall|j: int| 0 <= j < k + 1 implies #[trigger] visit_continues(
                            visit,
                            items,
                            grown,
                            j,
                        ) by {
                            if j < k {
                                assert(visit_continues(visit, items, states, j));
                            }
                        }
                        assert(self@ =~= items.skip(k + 1));
                        states = grown;
                        k = k + 1;
                    }
                    state = acc;
                },
                ControlFlow::Break(stop) => {
                    proof {
                        assert(self@ =~= items.skip(k + 1));
                        assert(folded(visit, items, init, states, k, ControlFlow::Break(stop), self@));
                    }
                    return ControlFlow::Break(stop);
                },
            }
        }
        proof {
            assert(folded(visit, items, init, states, k, ControlFlow::Continue(state), self@));
        }
        ControlFlow::Continue(state)
    }

    /// Release every element that is left, in order, and say how many
    /// there were. Slots that were walked before stay as they are: empty.
    /// Dropping the iterator does exactly this.
    pub fn release_remaining(&mut self) -> (released: usize)
        ensures
            released == old(self)@.len(),
            final(self)@ == Seq::<T>::empty(),
            final(self).position() == N,
            final(self).slots() == widened(None::<Seq<T>>, N as nat),
        opens_invariants none
        no_unwind
    {
        proof {
            use_type_invariant(&*self);
        }
        let mut released: usize = 0;
        while self.ptr < N
            invariant
                self.cursor_inv(),
                old(self).position() <= self.position(),
                released == self.position() - old(self).position(),
            decreases N - self.ptr,
        {
            let _item = take_front(&mut self.arr, &mut self.ptr);
            released += 1;
        }
        assert(self.slots() =~= widened(None::<Seq<T>>, N as nat));
        assert(self@ =~= Seq::<T>::empty());
        released
    }
}

impl<T, const N: usize> Drop for IntoIter<T, N> {
    /// Releases the elements that were never yielded, each once, and
    /// leaves every slot empty.
    fn drop(&mut self)
        ensures
            final(self)@ == Seq::<T>::empty(),
            final(self).position() == N,
            final(self).slots() == widened(None::<Seq<T>>, N as nat),
        opens_invariants none
        no_unwind
    {
        let _released = self.release_remaining();
    }
}

impl<T: Clone, const N: usize> Clone for IntoIter<T, N> {
    /// Clones the elements that are left, and only those. The clone stands
    /// at the same cursor as `self`.
    fn clone(&self) -> (res: Self)
        ensures
            res.position() == self.position(),
            res@.len() == self@.len(),
            forall|i: int|
                #![trigger self@[i]]
                #![trigger res@[i]]
                0 <= i < self@.len() ==> cloned(self@[i], res@[i]),
    {
        proof {
            use_type_invariant(self);
        }
        let mut arr: [Option<T>; N] = push_maybe_uninit(None);
        let mut i: usize = self.ptr;
        while i < N
            invariant
                self.ptr <= i <= N,
                self.cursor_inv(),
                forall|j: int| 0 <= j < N ==> ((#[trigger] arr@[j]) is Some <==> self.ptr <= j < i),
                forall|j: int|
                    self.ptr <= j < i ==> cloned(self.arr@[j]->0, (#[trigger] arr@[j])->0),
            decreases N - i,
        {
            let item = self.peek(i - self.ptr).clone();
            arr[i] = Some(item);
            i += 1;
        }
        let res = IntoIter { arr, ptr: self.ptr };
        assert forall|k: int| 0 <= k < self@.len() implies cloned(#[trigger] self@[k], res@[k]) by {
            assert(cloned(self.arr@[self.ptr + k]->0, arr@[self.ptr + k]->0));
        }
        res
    }
}

impl<T: core::hash::Hash, const N: usize> core::hash::Hash for IntoIter<T, N> {
    /// Feeds the number of elements left and then each of them, in order,
    /// into the hasher. Iterators with equal elements left hash alike,
    /// wherever their cursors stand.
    fn hash<H: core::hash::Hasher>(&self, state: &mut H) {
        let n = self.len();
        feed(&n, state);
        let mut i: usize = 0;
        while i < n
            invariant
                i <= n,
                n == self@.len(),
            decreases n - i,
        {
            feed(self.peek(i), state);
            i += 1;
        }
    }
}

impl<T: Default, const N: usize> Default for IntoIter<T, N> {
    /// An iterator over `N` default values, none of them yielded yet.
    fn default() -> (iter: Self)
        ensures
            iter.position() == 0,
            iter@.len() == N,
            forall|i: int| 0 <= i < N ==> call_ensures(T::default, (), #[trigger] iter@[i]),
    {
        let arr: [T; N] = crate::new(|_i: usize| -> (item: T)
            ensures call_ensures(T::default, (), item),
        { T::default() });
        new(arr)
    }
}

/// `k` advances leave the elements from index `k` on, and nothing at all
/// once `k` has reached the number of elements.
pub proof fn lemma_advanced<T>(items: Seq<T>, k: nat)
    ensures
        k <= items.len() ==> advanced(items, k) == items.skip(k as int),
        k >= items.len() ==> advanced(items, k) == Seq::<T>::empty(),
    decreases k,
{
    if k == 0 {
        assert(items.skip(0) =~= items);
    } else {
        lemma_advanced(items, (k - 1) as nat);
        if k <= items.len() {
            assert(items.skip(k - 1).skip(1) =~= items.skip(k as int));
        }
    }
    if k >= items.len() {
        assert(advanced(items, k) =~= Seq::<T>::empty());
    }
}

/// A walk yields each element exactly once, in the order of the array: the
/// advance that follows `k` earlier ones yields `items[k]`. Once all have
/// been yielded every further advance reports that none is left and
/// changes nothing.
pub proof fn lemma_yields_in_order<T>(items: Seq<T>, k: nat)
    ensures
        k < items.len() ==> front(advanced(items, k)) == Some(items[k as int]),
        k >= items.len() ==> front(advanced(items, k)) is None,
        k >= items.len() ==> advanced(items, k + 1) == advanced(items, k),
{
    lemma_advanced(items, k);
    lemma_advanced(items, k + 1);
}

/// After `k` advances exactly `items.len() - k` elements are left.
pub proof fn lemma_remaining_count<T>(items: Seq<T>, k: nat)
    requires
        k <= items.len(),
    ensures
        advanced(items, k).len() == items.len() - k,
{
    lemma_advanced(items, k);
}

/// What a walk still holds after `k` advances, and so what
/// `release_remaining` or a drop then releases, are the `items.len() - k`
/// elements from `items[k]` on, each once and in order. None of the `k`
/// elements yielded before is among them.
pub proof fn lemma_released_after_advances<T>(items: Seq<T>, k: nat)
    requires
        k <= items.len(),
    ensures
        advanced(items, k).len() == items.len() - k,
        forall|i: int| 0 <= i < items.len() - k ==> advanced(items, k)[i] == items[k + i],
{
    lemma_advanced(items, k);
}

/// A fold leaves in the iterator what as many advances as it has visited
/// elements would leave: `k` of them where it ran to the end, `k + 1` where
/// the visit of `items[k]` stopped it.
pub proof fn lemma_fold_leaves_what_advances_leave<B, T, R, F: FnMut(B, T) -> ControlFlow<R, B>>(
    f: F,
    items: Seq<T>,
    init: B,
    states: Seq<B>,
    k: nat,
    out: ControlFlow<R, B>,
    left: Seq<T>,
)
    requires
        folded(f, items, init, states, k as int, out, left),
    ensures
        out is Continue ==> left == advanced(items, k),
        out is Break ==> left == advanced(items, k + 1),
{
    lemma_advanced(items, k);
    lemma_advanced(items, k + 1);
}

} // verus!
