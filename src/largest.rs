//! The largest element of a non-empty slice, found by one left-to-right scan.
use vstd::prelude::*;
use vstd::std_specs::cmp::PartialOrdSpec;

verus! {

/// Whether `a > b` under `T`'s ordering.
pub open spec fn greater<T: PartialOrd>(a: T, b: T) -> bool {
    a.partial_cmp_spec(&b) == Some(core::cmp::Ordering::Greater)
}

/// The element that a left-to-right scan keeps: it starts from the first
/// element and takes each later one that is greater than the one it holds.
pub open spec fn scan_max<T: PartialOrd>(s: Seq<T>) -> T
    recommends
        s.len() > 0,
    decreases s.len(),
{
    if s.len() <= 1 {
        s[0]
    } else {
        let m = scan_max(s.drop_last());
        if greater(s.last(), m) {
            s.last()
        } else {
            m
        }
    }
}

/// The scan always keeps one of the elements.
pub proof fn lemma_scan_max_is_element<T: PartialOrd>(s: Seq<T>)
    requires
        s.len() > 0,
    ensures
        exists|i: int| 0 <= i < s.len() && s[i] == scan_max(s),
    decreases s.len(),
{
    if s.len() > 1 {
        lemma_scan_max_is_element(s.drop_last());
        let i = choose|i: int| 0 <= i < s.drop_last().len() && s.drop_last()[i] == scan_max(s.drop_last());
        assert(s[i] == s.drop_last()[i]);
    } else {
        assert(s[0] == scan_max(s));
    }
}

/// Over integers the scan finds the maximum: no element exceeds it.
pub proof fn lemma_scan_max_is_maximum(s: Seq<i64>)
    requires
        s.len() > 0,
    ensures
        forall|j: int| 0 <= j < s.len() ==> s[j] <= scan_max(s),
    decreases s.len(),
{
    if s.len() > 1 {
        lemma_scan_max_is_maximum(s.drop_last());
        assert forall|j: int| 0 <= j < s.len() implies s[j] <= scan_max(s) by {
            if j < s.len() - 1 {
                assert(s[j] == s.drop_last()[j]);
            }
        }
    }
}

/// The largest element of `list`, as the scan finds it: the first element,
/// replaced in turn by each later element greater than the one held.
pub fn tlargest<T: PartialOrd>(list: &[T]) -> (r: &T)
    requires
        list@.len() > 0,
        T::obeys_partial_cmp_spec(),
    ensures
        *r == scan_max(list@),
        exists|i: int| 0 <= i < list@.len() && list@[i] == *r,
{
    let mut p: &T = &list[0];
    let mut i: usize = 1;
    proof {
        assert(list@.subrange(0, 1).drop_last().len() == 0);
    }
    while i < list.len()
        invariant
            1 <= i <= list@.len(),
            T::obeys_partial_cmp_spec(),
            *p == scan_max(list@.subrange(0, i as int)),
        decreases list@.len() - i,
    {
        let item: &T = &list[i];
        proof {
            assert(list@.subrange(0, i + 1).drop_last() =~= list@.subrange(0, i as int));
            assert(list@.subrange(0, i + 1).last() == *item);
        }
        let bigger = item.gt(p);
        proof {
            assert(bigger == greater(*item, *p));
        }
        if bigger {
            p = item;
        }
        i = i + 1;
    }
    proof {
        assert(list@.subrange(0, list@.len() as int) =~= list@);
        lemma_scan_max_is_element(list@);
    }
    p
}

} // verus!
