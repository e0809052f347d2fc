//! Finding a largest element of a slice, for machine integers and for any
//! ordered element type.

use core::cmp::Ordering;
use vstd::prelude::*;
use vstd::slice::slice_index_get;
use vstd::std_specs::cmp::PartialOrdSpec;

verus! {

/// `x` compares strictly above `y`.
pub open spec fn spec_gt<T: PartialOrd + PartialOrdSpec>(x: T, y: T) -> bool {
    x.partial_cmp_spec(&y) == Some(Ordering::Greater)
}

/// Where the left-to-right scan for a largest element ends, starting from
/// `acc`: every element comparing strictly above the accumulator replaces it.
pub open spec fn scan_largest<T: PartialOrd + PartialOrdSpec>(s: Seq<T>, acc: T) -> T
    decreases s.len(),
{
    if s.len() == 0 {
        acc
    } else {
        scan_largest(
            s.subrange(1, s.len() as int),
            if spec_gt(s[0], acc) {
                s[0]
            } else {
                acc
            },
        )
    }
}

/// A reference to the largest number in a non-empty slice.
pub fn find_largest(list: &[i32]) -> (r: &i32)
    requires
        list@.len() > 0,
    ensures
        list@.contains(*r),
        forall|j: int| 0 <= j < list@.len() ==> list@[j] <= *r,
{
    let mut mi: usize = 0;
    let mut k: usize = 1;
    let n = list.len();
    while k < n
        invariant
            mi < k <= n,
            n == list@.len(),
            forall|j: int| 0 <= j < k ==> list@[j] <= #[trigger] list@[mi as int],
        decreases n - k,
    {
        if list[k] > list[mi] {
            mi = k;
        }
        k = k + 1;
    }
    slice_index_get(list, mi)
}

/// A reference to the element of a non-empty slice that the left-to-right
/// scan keeps: the result of replacing the running candidate by every
/// element that compares strictly above it.
pub fn find_largest_number<T: PartialOrd + PartialOrdSpec>(list: &[T]) -> (r: &T)
    requires
        list@.len() > 0,
        T::obeys_partial_cmp_spec(),
    ensures
        *r == scan_largest(list@.subrange(1, list@.len() as int), list@[0]),
{
    let n = list.len();
    let mut largest: &T = slice_index_get(list, 0);
    let mut k: usize = 1;
    while k < n
        invariant
            1 <= k <= n,
            n == list@.len(),
            T::obeys_partial_cmp_spec(),
            scan_largest(list@.subrange(k as int, n as int), *largest) == scan_largest(
                list@.subrange(1, n as int),
                list@[0],
            ),
        decreases n - k,
    {
        let ghost before: T = *largest;
        let item = slice_index_get(list, k);
        if item.gt(largest) {
            largest = item;
        }
        proof {
            let tail = list@.subrange(k as int, n as int);
            assert(tail[0] == list@[k as int]);
            assert(tail.subrange(1, tail.len() as int) =~= list@.subrange(
                k as int + 1,
                n as int,
            ));
            assert(scan_largest(tail, before) == scan_largest(
                list@.subrange(k as int + 1, n as int),
                *largest,
            ));
        }
        k = k + 1;
    }
    proof {
        assert(list@.subrange(n as int, n as int) =~= Seq::<T>::empty());
    }
    largest
}

} // verus!
