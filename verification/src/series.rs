//! Time series: one count per reporting date, added date by date.

use vstd::prelude::*;

verus! {

/// Whether `source` can be added onto `dest`: it covers every date of `dest`,
/// and every sum fits a `u32`.
pub open spec fn can_sum(source: Seq<u32>, dest: Seq<u32>) -> bool {
    &&& source.len() >= dest.len()
    &&& forall|i: int| 0 <= i < dest.len() ==> dest[i] + source[i] <= u32::MAX
}

/// Whether `source` can be added onto `dest`.
pub fn can_sum_vectors(source: &Vec<u32>, dest: &Vec<u32>) -> (b: bool)
    ensures
        b == can_sum(source@, dest@),
{
    let n = dest.len();
    if source.len() < n {
        return false;
    }
    let mut i: usize = 0;
    while i < n
        invariant
            i <= n,
            n == dest@.len(),
            source@.len() >= n,
            forall|j: int| 0 <= j < i ==> dest@[j] + source@[j] <= u32::MAX,
        decreases n - i,
    {
        if source[i] > u32::MAX - dest[i] {
            return false;
        }
        i += 1;
    }
    true
}

/// A series of `n` zeros.
pub fn zeros(n: usize) -> (r: Vec<u32>)
    ensures
        r@.len() == n,
        forall|i: int| 0 <= i < n ==> r@[i] == 0,
{
    let mut r: Vec<u32> = Vec::new();
    let mut i: usize = 0;
    while i < n
        invariant
            i <= n,
            r@.len() == i,
            forall|j: int| 0 <= j < i ==> r@[j] == 0,
        decreases n - i,
    {
        r.push(0);
        i += 1;
    }
    r
}

/// A copy of a series.
pub fn copy_series(series: &Vec<u32>) -> (r: Vec<u32>)
    ensures
        r@ == series@,
{
    let r = series.clone();
    assert(r@ =~= series@);
    r
}

/// Adds `source` onto `dest`, date by date. Entries of `source` past the end
/// of `dest` are left out.
pub fn sum_vectors(source: &Vec<u32>, dest: &mut Vec<u32>)
    requires
        can_sum(source@, old(dest)@),
    ensures
        final(dest)@.len() == old(dest)@.len(),
        forall|i: int| 0 <= i < old(dest)@.len() ==> final(dest)@[i] == old(dest)@[i] + source@[i],
{
    let n = dest.len();
    let mut i: usize = 0;
    while i < n
        invariant
            n == dest@.len(),
            n == old(dest)@.len(),
            i <= n,
            can_sum(source@, old(dest)@),
            forall|j: int| 0 <= j < i ==> dest@[j] == old(dest)@[j] + source@[j],
            forall|j: int| i <= j < n ==> dest@[j] == old(dest)@[j],
        decreases n - i,
    {
        let v = dest[i] + source[i];
        dest[i] = v;
        i += 1;
    }
}

} // verus!
