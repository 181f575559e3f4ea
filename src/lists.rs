use vstd::prelude::*;

use crate::exception::Exception;
use crate::number::{index_spec, to_integer};
use crate::value::Value;

verus! {

/// The elements in reverse order.
pub fn reversed(xs: &Vec<Value>) -> (r: Vec<Value>)
    ensures
        r@.len() == xs@.len(),
        forall|i: int| 0 <= i < xs@.len() ==> r@[i] == xs@[xs@.len() - 1 - i],
{
    let mut r: Vec<Value> = Vec::new();
    let mut k: usize = xs.len();
    while k > 0
        invariant
            k <= xs@.len(),
            r@.len() == xs@.len() - k,
            forall|i: int| 0 <= i < r@.len() ==> r@[i] == xs@[xs@.len() - 1 - i],
        decreases k,
    {
        r.push(xs[k - 1]);
        k = k - 1;
    }
    r
}

/// The elements of one list followed by those of another.
pub fn concatenated(a: &Vec<Value>, b: &Vec<Value>) -> (r: Vec<Value>)
    ensures
        r@ == a@ + b@,
{
    let mut r: Vec<Value> = Vec::new();
    let mut k: usize = 0;
    while k < a.len()
        invariant
            k <= a@.len(),
            r@ == a@.take(k as int),
        decreases a@.len() - k,
    {
        assert(a@.take(k + 1) =~= r@.push(a@[k as int]));
        r.push(a[k]);
        k = k + 1;
    }
    let mut k: usize = 0;
    while k < b.len()
        invariant
            k <= b@.len(),
            r@ == a@ + b@.take(k as int),
        decreases b@.len() - k,
    {
        assert(a@ + b@.take(k + 1) =~= r@.push(b@[k as int]));
        r.push(b[k]);
        k = k + 1;
    }
    assert(a@.take(a@.len() as int) =~= a@);
    assert(b@.take(b@.len() as int) =~= b@);
    r
}

/// An index clamped into `[0, len]`.
pub open spec fn clamp_index(i: int, len: nat) -> int {
    if i < 0 {
        0
    } else if i > len {
        len as int
    } else {
        i
    }
}

/// The range of a list of `len` elements that a slice from `start` to `end`
/// (doubles as bit patterns) takes: both ends truncated and clamped into
/// `[0, len]`, and empty where the end comes before the start.
pub fn slice_bounds(len: usize, start: u64, end: u64) -> (r: Result<(usize, usize), Exception>)
    ensures
        index_spec(start) is None ==> r == Err::<(usize, usize), _>(Exception::InvalidIndex(start)),
        index_spec(start) is Some && index_spec(end) is None ==> r == Err::<(usize, usize), _>(
            Exception::InvalidIndex(end),
        ),
        index_spec(start) is Some && index_spec(end) is Some ==> (r matches Ok((s, e)) && s as int
            == clamp_index(index_spec(start)->Some_0, len as nat) && e as int == if clamp_index(
            index_spec(end)->Some_0,
            len as nat,
        ) < s {
            s as int
        } else {
            clamp_index(index_spec(end)->Some_0, len as nat)
        }),
{
    let s = match to_integer(start) {
        None => return Err(Exception::InvalidIndex(start)),
        Some(i) => if i < 0 {
            0
        } else if i > len as i128 {
            len
        } else {
            i as usize
        },
    };
    let e = match to_integer(end) {
        None => return Err(Exception::InvalidIndex(end)),
        Some(i) => if i < 0 {
            0
        } else if i > len as i128 {
            len
        } else {
            i as usize
        },
    };
    if e < s {
        Ok((s, s))
    } else {
        Ok((s, e))
    }
}

} // verus!
