//! Equality and order of iterators. Both look at the elements that are left
//! and at nothing else: how many elements an iterator has yielded already
//! makes no difference.

use crate::into_iter::IntoIter;
use core::cmp::Ordering;
use vstd::prelude::*;
use vstd::std_specs::cmp::OrdSpec;
use vstd::std_specs::cmp::PartialEqSpec;
use vstd::std_specs::cmp::PartialEqSpecImpl;
use vstd::std_specs::cmp::PartialOrdSpec;
use vstd::std_specs::cmp::PartialOrdSpecImpl;

verus! {

/// The elements of `items` from index `i` on.
spec fn suffix<T>(items: Seq<T>, i: usize) -> Seq<T> {
    items.skip(i as int)
}

/// A suffix that starts inside the sequence begins with the element at its
/// start and goes on with the suffix that starts one further.
proof fn lemma_suffix<T>(items: Seq<T>, i: usize)
    requires
        i < items.len(),
        i < usize::MAX,
    ensures
        suffix(items, 0) == items,
        suffix(items, i).len() == items.len() - i,
        suffix(items, i)[0] == items[i as int],
        suffix(items, i).skip(1) == suffix(items, (i + 1) as usize),
{
    assert(suffix(items, 0) =~= items);
    assert(suffix(items, i).skip(1) =~= suffix(items, (i + 1) as usize));
}

/// Two runs of elements are equal when they are equally long and equal
/// index by index, by the equality of the element type.
pub open spec fn elementwise_eq<T: PartialEq>(a: Seq<T>, b: Seq<T>) -> bool {
    &&& a.len() == b.len()
    &&& forall|i: int| 0 <= i < a.len() ==> (#[trigger] a[i]).eq_spec(&b[i])
}

/// Lexicographic order by the partial order of the element type: the first
/// pair of elements that does not compare as equal decides, a pair that
/// cannot be compared included. Where one run is a prefix of the other, the
/// shorter one is less.
pub open spec fn lex_partial_cmp<T: PartialOrd>(a: Seq<T>, b: Seq<T>) -> Option<Ordering>
    decreases a.len(),
{
    if a.len() == 0 {
        if b.len() == 0 {
            Some(Ordering::Equal)
        } else {
            Some(Ordering::Less)
        }
    } else if b.len() == 0 {
        Some(Ordering::Greater)
    } else {
        match a[0].partial_cmp_spec(&b[0]) {
            Some(Ordering::Equal) => lex_partial_cmp(a.skip(1), b.skip(1)),
            other => other,
        }
    }
}

/// Lexicographic order by the total order of the element type: the first
/// pair of elements that does not compare as equal decides. Where one run
/// is a prefix of the other, the shorter one is less.
pub open spec fn lex_cmp<T: Ord>(a: Seq<T>, b: Seq<T>) -> Ordering
    decreases a.len(),
{
    if a.len() == 0 {
        if b.len() == 0 {
            Ordering::Equal
        } else {
            Ordering::Less
        }
    } else if b.len() == 0 {
        Ordering::Greater
    } else {
        match a[0].cmp_spec(&b[0]) {
            Ordering::Equal => lex_cmp(a.skip(1), b.skip(1)),
            other => other,
        }
    }
}

impl<T: PartialEq, const N: usize> PartialEq for IntoIter<T, N> {
    /// Whether the elements left in `self` equal those left in `other`, in
    /// order.
    fn eq(&self, other: &Self) -> (r: bool) {
        let n = self.len();
        if n != other.len() {
            return false;
        }
        let mut i: usize = 0;
        while i < n
            invariant
                i <= n,
                n == self@.len(),
                n == other@.len(),
                T::obeys_eq_spec() ==> forall|j: int|
                    0 <= j < i ==> (#[trigger] self@[j]).eq_spec(&other@[j]),
            decreases n - i,
        {
            if !(*self.peek(i) == *other.peek(i)) {
                return false;
            }
            i += 1;
        }
        true
    }
}

impl<T: PartialEq, const N: usize> PartialEqSpecImpl for IntoIter<T, N> {
    open spec fn obeys_eq_spec() -> bool {
        T::obeys_eq_spec()
    }

    open spec fn eq_spec(&self, other: &Self) -> bool {
        elementwise_eq(self@, other@)
    }
}

impl<T: Eq, const N: usize> Eq for IntoIter<T, N> {

}

impl<T: PartialOrd, const N: usize> PartialOrd for IntoIter<T, N> {
    /// How the elements left in `self` compare to those left in `other`,
    /// lexicographically.
    fn partial_cmp(&self, other: &Self) -> (r: Option<Ordering>) {
        let n = self.len();
        let m = other.len();
        let mut i: usize = 0;
        proof {
            if 0 < n {
                lemma_suffix(self@, 0);
            }
            if 0 < m {
                lemma_suffix(other@, 0);
            }
            assert(suffix(self@, 0) =~= self@);
            assert(suffix(other@, 0) =~= other@);
        }
        while i < n && i < m
            invariant
                i <= n,
                i <= m,
                n == self@.len(),
                m == other@.len(),
                T::obeys_partial_cmp_spec() ==> lex_partial_cmp(self@, other@) == lex_partial_cmp(
                    suffix(self@, i),
                    suffix(other@, i),
                ),
            decreases n - i,
        {
            proof {
                lemma_suffix(self@, i);
                lemma_suffix(other@, i);
            }
            let c = self.peek(i).partial_cmp(other.peek(i));
            match c {
                Some(Ordering::Equal) => {},
                _ => {
                    return c;
                },
            }
            i += 1;
        }
        proof {
            if i < n {
                lemma_suffix(self@, i);
            }
            if i < m {
                lemma_suffix(other@, i);
            }
        }
        if n < m {
            Some(Ordering::Less)
        } else if n == m {
            Some(Ordering::Equal)
        } else {
            Some(Ordering::Greater)
        }
    }
}

impl<T: PartialOrd, const N: usize> PartialOrdSpecImpl for IntoIter<T, N> {
    open spec fn obeys_partial_cmp_spec() -> bool {
        T::obeys_partial_cmp_spec()
    }

    open spec fn partial_cmp_spec(&self, other: &Self) -> Option<Ordering> {
        lex_partial_cmp(self@, other@)
    }
}

impl<T: Ord, const N: usize> IntoIter<T, N> {
    /// How the elements left in `self` compare to those left in `other`,
    /// lexicographically.
    pub fn cmp(&self, other: &Self) -> (r: Ordering)
        ensures
            T::obeys_cmp_spec() ==> r == lex_cmp(self@, other@),
    {
        let n = self.len();
        let m = other.len();
        let mut i: usize = 0;
        proof {
            assert(suffix(self@, 0) =~= self@);
            assert(suffix(other@, 0) =~= other@);
        }
        while i < n && i < m
            invariant
                i <= n,
                i <= m,
                n == self@.len(),
                m == other@.len(),
                T::obeys_cmp_spec() ==> lex_cmp(self@, other@) == lex_cmp(
                    suffix(self@, i),
                    suffix(other@, i),
                ),
            decreases n - i,
        {
            proof {
                lemma_suffix(self@, i);
                lemma_suffix(other@, i);
            }
            let c = self.peek(i).cmp(other.peek(i));
            match c {
                Ordering::Equal => {},
                _ => {
                    return c;
                },
            }
            i += 1;
        }
        proof {
            if i < n {
                lemma_suffix(self@, i);
            }
            if i < m {
                lemma_suffix(other@, i);
            }
        }
        if n < m {
            Ordering::Less
        } else if n == m {
            Ordering::Equal
        } else {
            Ordering::Greater
        }
    }
}

} // verus!
