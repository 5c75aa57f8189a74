//! Small helpers that the decomposers share.

use vstd::prelude::*;

verus! {

/// The values of an array of options that are all `Some`, from the array
/// method `map` with `Option::unwrap`. That entry `i` of the result is the
/// value in entry `i` of the argument is taken from the documentation of
/// `map`, not proved.
#[verifier::external_body]
fn unwrap_each<T, const N: usize>(arr: [Option<T>; N]) -> (r: [T; N])
    requires
        forall|i: int| 0 <= i < N ==> (#[trigger] arr[i]) is Some,
    ensures
        forall|i: int| 0 <= i < N ==> Some(#[trigger] r[i]) == arr[i],
{
    arr.map(Option::unwrap)
}

/// The values of the array, if none is missing.
pub fn opt_array_transpose<T, const N: usize>(arr: [Option<T>; N]) -> (r: Option<[T; N]>)
    ensures
        r is Some <==> forall|i: int| 0 <= i < N ==> (#[trigger] arr[i]) is Some,
        r matches Some(a) ==> forall|i: int| 0 <= i < N ==> Some(#[trigger] a[i]) == arr[i],
{
    let mut i: usize = 0;
    while i < N
        invariant
            i <= N,
            forall|j: int| 0 <= j < i ==> (#[trigger] arr[j]) is Some,
        decreases N - i,
    {
        if arr[i].is_none() {
            return None;
        }
        i += 1;
    }
    Some(unwrap_each(arr))
}

} // verus!
