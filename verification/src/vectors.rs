//! Copies of slices, and vectors of one value.

use vstd::prelude::*;

verus! {

/// Copies a slice into a vector.
pub fn copy_of<T: Copy>(items: &[T]) -> (copy: Vec<T>)
    ensures
        copy@ == items@,
{
    let mut copy: Vec<T> = Vec::new();
    let mut i: usize = 0;
    while i < items.len()
        invariant
            i <= items.len(),
            copy@ == items@.subrange(0, i as int),
        decreases items.len() - i,
    {
        copy.push(items[i]);
        i += 1;
        assert(copy@ == items@.subrange(0, i as int));
    }
    assert(copy@ == items@);
    copy
}

/// The vector of `n` entries, each of them `val`.
pub fn filled<T: Copy>(n: usize, val: T) -> (v: Vec<T>)
    ensures
        v@ == Seq::new(n as nat, |i: int| val),
{
    let mut v: Vec<T> = Vec::new();
    let mut i: usize = 0;
    while i < n
        invariant
            i <= n,
            v@ == Seq::new(i as nat, |k: int| val),
        decreases n - i,
    {
        v.push(val);
        i += 1;
        assert(v@ == Seq::new(i as nat, |k: int| val));
    }
    v
}

} // verus!
