//! Fixed-length array columns.

use vstd::prelude::*;
use crate::error::InvalidArray;

verus! {

/// Relies on `<[T; N] as TryFrom<Vec<T>>>::try_from`: succeeds exactly when
/// the vector holds `N` items, which keep their order.
#[verifier::external_body]
fn vec_to_array<T, const N: usize>(v: Vec<T>) -> (r: Option<[T; N]>)
    ensures
        r is Some <==> v@.len() == N,
        r is Some ==> r.unwrap()@ == v@,
{
    v.try_into().ok()
}

/// Whether every item is present.
pub open spec fn all_present<T>(items: Seq<Option<T>>) -> bool {
    forall|i: int| 0 <= i < items.len() ==> #[trigger] items[i] is Some
}

/// The items of a sequence whose items are all present.
pub open spec fn unwrapped<T>(items: Seq<Option<T>>) -> Seq<T> {
    items.map_values(|o: Option<T>| o.unwrap())
}

/// Takes the items out of their `Some`, or `None` when an item is absent.
fn unwrap_items<T>(raw: Vec<Option<T>>) -> (r: Option<Vec<T>>)
    ensures
        r is Some <==> all_present(raw@),
        r is Some ==> r.unwrap()@ == unwrapped(raw@),
{
    let ghost orig = raw@;
    let n = raw.len();
    let mut rest = raw;
    let mut reversed: Vec<T> = Vec::new();
    while rest.len() > 0
        invariant
            orig == raw@,
            n == orig.len(),
            rest@ == orig.take(rest.len() as int),
            reversed.len() + rest.len() == n,
            forall|k: int|
                0 <= k < reversed.len() ==> #[trigger] reversed@[k] == orig[n - 1 - k].unwrap()
                    && orig[n - 1 - k] is Some,
        decreases rest.len(),
    {
        let ghost before = rest@;
        let ghost old_reversed = reversed@;
        let ghost j = rest.len() - 1;
        assert(before[j] == orig[j]);
        let item = match rest.pop() {
            Some(item) => item,
            None => {
                return None;
            },
        };
        assert(orig[j] == item);
        let x = match item {
            Some(x) => x,
            None => {
                assert(!all_present(orig));
                return None;
            },
        };
        reversed.push(x);
        assert(rest@ =~= orig.take(rest.len() as int));
        assert forall|k: int| 0 <= k < reversed.len() implies #[trigger] reversed@[k]
            == orig[n - 1 - k].unwrap() && orig[n - 1 - k] is Some by {
            if k < old_reversed.len() {
                assert(reversed@[k] == old_reversed[k]);
            }
        }
    }
    assert(all_present(orig)) by {
        assert forall|i: int| 0 <= i < orig.len() implies #[trigger] orig[i] is Some by {
            assert(reversed@[n - 1 - i] == orig[n - 1 - (n - 1 - i)].unwrap());
        }
    }
    let mut out: Vec<T> = Vec::new();
    while reversed.len() > 0
        invariant
            orig == raw@,
            n == orig.len(),
            reversed.len() + out.len() == n,
            forall|k: int|
                0 <= k < reversed.len() ==> #[trigger] reversed@[k] == orig[n - 1 - k].unwrap()
                    && orig[n - 1 - k] is Some,
            forall|k: int|
                0 <= k < out.len() ==> #[trigger] out@[k] == orig[k].unwrap() && orig[k] is Some,
        decreases reversed.len(),
    {
        let ghost before = reversed@;
        let ghost old_out = out@;
        let ghost m = reversed.len() - 1;
        match reversed.pop() {
            Some(x) => {
                assert(x == before[m]);
                out.push(x);
                assert forall|k: int| 0 <= k < out.len() implies #[trigger] out@[k] == orig[k].unwrap()
                    && orig[k] is Some by {
                    if k < old_out.len() {
                        assert(out@[k] == old_out[k]);
                    }
                }
                assert forall|k: int| 0 <= k < reversed.len() implies #[trigger] reversed@[k]
                    == orig[n - 1 - k].unwrap() && orig[n - 1 - k] is Some by {
                    assert(reversed@[k] == before[k]);
                }
            },
            None => {},
        }
    }
    assert(out@ =~= unwrapped(orig));
    Some(out)
}

/// A fixed-length array column whose items are never null.
#[derive(Debug)]
pub struct Array<T, const N: usize>([T; N]);

impl<T, const N: usize> Array<T, N> {
    /// The items held.
    pub closed spec fn items(self) -> Seq<T> {
        self.0@
    }

    /// Wraps `values`.
    pub fn new(values: [T; N]) -> (r: Array<T, N>)
        ensures
            r.items() == values@,
    {
        Array(values)
    }

    /// Unwraps the items.
    pub fn into_inner(self) -> (r: [T; N])
        ensures
            r@ == self.items(),
    {
        self.0
    }

    /// Builds the array from the items of a stored array: every item must be
    /// present, and there must be exactly `N` of them.
    pub fn from_items(raw: Vec<Option<T>>) -> (r: Result<Array<T, N>, InvalidArray>)
        ensures
            !all_present(raw@) ==> r == Err::<Array<T, N>, InvalidArray>(
                InvalidArray::UnexpectedNullValue,
            ),
            all_present(raw@) && raw@.len() != N ==> r == Err::<Array<T, N>, InvalidArray>(
                InvalidArray::UnexpectedLength,
            ),
            all_present(raw@) && raw@.len() == N ==> r is Ok && r.unwrap().items() == unwrapped(
                raw@,
            ),
    {
        match unwrap_items(raw) {
            None => Err(InvalidArray::UnexpectedNullValue),
            Some(items) => match vec_to_array(items) {
                Some(values) => Ok(Array(values)),
                None => Err(InvalidArray::UnexpectedLength),
            },
        }
    }
}

/// A fixed-length array column whose items may be null.
#[derive(Debug)]
pub struct ArrayWithNullableItems<T, const N: usize>([Option<T>; N]);

impl<T, const N: usize> ArrayWithNullableItems<T, N> {
    /// The items held.
    pub closed spec fn items(self) -> Seq<Option<T>> {
        self.0@
    }

    /// Wraps `values`.
    pub fn new(values: [Option<T>; N]) -> (r: ArrayWithNullableItems<T, N>)
        ensures
            r.items() == values@,
    {
        ArrayWithNullableItems(values)
    }

    /// Unwraps the items.
    pub fn into_inner(self) -> (r: [Option<T>; N])
        ensures
            r@ == self.items(),
    {
        self.0
    }

    /// Builds the array from the items of a stored array, which must number
    /// exactly `N`.
    pub fn from_items(raw: Vec<Option<T>>) -> (r: Result<
        ArrayWithNullableItems<T, N>,
        InvalidArray,
    >)
        ensures
            raw@.len() != N ==> r == Err::<ArrayWithNullableItems<T, N>, InvalidArray>(
                InvalidArray::UnexpectedLength,
            ),
            raw@.len() == N ==> r is Ok && r.unwrap().items() == raw@,
    {
        match vec_to_array(raw) {
            Some(values) => Ok(ArrayWithNullableItems(values)),
            None => Err(InvalidArray::UnexpectedLength),
        }
    }
}

} // verus!
