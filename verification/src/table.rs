//! Tables of optional slots, in which a new object takes the first free slot.
use vstd::prelude::*;

verus! {

/// `i` is the first free slot of `s`.
pub open spec fn is_first_free<T>(s: Seq<Option<T>>, i: int) -> bool {
    &&& 0 <= i < s.len()
    &&& s[i] is None
    &&& forall|j: int| 0 <= j < i ==> s[j] is Some
}

/// The first free slot of `s`, if it has one.
pub open spec fn first_free<T>(s: Seq<Option<T>>) -> Option<int> {
    if exists|i: int| is_first_free(s, i) {
        Some(choose|i: int| is_first_free(s, i))
    } else {
        None
    }
}

/// Where `i` is the first free slot, it is the one `first_free` gives.
pub proof fn lemma_first_free_at<T>(s: Seq<Option<T>>, i: int)
    requires
        is_first_free(s, i),
    ensures
        first_free(s) == Some(i),
{
    let k = choose|k: int| is_first_free(s, k);
    if k < i {
        assert(s[k] is Some);
    }
    if i < k {
        assert(s[i] is Some);
    }
}

/// Where `s` has a free slot at all, the first one exists.
pub proof fn lemma_free_slot_has_first<T>(s: Seq<Option<T>>, k: int)
    requires
        0 <= k < s.len(),
        s[k] is None,
    ensures
        first_free(s) is Some,
        0 <= first_free(s)->0 <= k,
    decreases k,
{
    if exists|j: int| 0 <= j < k && s[j] is None {
        let j = choose|j: int| 0 <= j < k && s[j] is None;
        lemma_free_slot_has_first(s, j);
    } else {
        assert(is_first_free(s, k));
    }
    let f = choose|i: int| is_first_free(s, i);
    if f > k {
        assert(s[k] is Some);
    }
}

/// Finds the first free slot of `v`.
pub fn find_free_slot<T>(v: &Vec<Option<T>>) -> (r: Option<usize>)
    ensures
        match first_free(v@) {
            Some(i) => r == Some(i as usize),
            None => r is None,
        },
{
    let mut i: usize = 0;
    while i < v.len()
        invariant
            0 <= i <= v@.len(),
            forall|j: int| 0 <= j < i ==> v@[j] is Some,
        decreases v@.len() - i,
    {
        if v[i].is_none() {
            proof {
                assert(is_first_free(v@, i as int));
                let k = choose|k: int| is_first_free(v@, k);
                assert(k == i);
            }
            return Some(i);
        }
        i = i + 1;
    }
    None
}

} // verus!
