//! Vectors of run-time length. Only lengths 2 and 3 are supported: any
//! other length is refused with `LinalgError::UnsupportedDimension`.
use vstd::prelude::*;
use crate::dims::Dimension;
use crate::error::LinalgError;
use crate::scalar::{is_det2, is_dot, total2};

verus! {

/// A vector length that dimension-dispatched operations accept.
pub open spec fn supported(n: nat) -> bool {
    n == 2 || n == 3
}

/// The error for two operands `a` and `b` of a component-wise operation,
/// if any: the dimension of `a` is checked first, then that `b` matches it.
pub open spec fn pair_error(a_len: nat, b_len: nat) -> Option<LinalgError> {
    if !supported(a_len) {
        Some(LinalgError::UnsupportedDimension(a_len as usize))
    } else if b_len != a_len {
        Some(LinalgError::LengthMismatch(a_len as usize, b_len as usize))
    } else {
        None
    }
}

fn check_pair(a_len: usize, b_len: usize) -> (r: Result<(), LinalgError>)
    ensures
        pair_error(a_len as nat, b_len as nat) matches Some(e) ==> r == Err::<(), LinalgError>(e),
        pair_error(a_len as nat, b_len as nat) is None ==> r is Ok,
{
    match Dimension::of_length(a_len) {
        Err(e) => Err(e),
        Ok(_) => {
            if b_len != a_len {
                Err(LinalgError::LengthMismatch(a_len, b_len))
            } else {
                Ok(())
            }
        },
    }
}

/// Combines two vectors of the same supported length component by
/// component with `f`.
pub fn zip_components<T: Copy, F: Fn(T, T) -> T>(a: &Vec<T>, b: &Vec<T>, f: &F) -> (r: Result<Vec<T>, LinalgError>)
    requires
        total2(*f),
    ensures
        pair_error(a.len() as nat, b.len() as nat) matches Some(e) ==> r == Err::<Vec<T>, LinalgError>(e),
        pair_error(a.len() as nat, b.len() as nat) is None ==> r is Ok,
        r matches Ok(c) ==> {
            &&& c.len() == a.len()
            &&& forall|i: int| 0 <= i < a.len() ==> call_ensures(*f, (a@[i], b@[i]), #[trigger] c@[i])
        },
{
    match check_pair(a.len(), b.len()) {
        Err(e) => return Err(e),
        Ok(()) => {},
    }
    let mut c: Vec<T> = Vec::new();
    let mut i: usize = 0;
    while i < a.len()
        invariant
            a.len() == b.len(),
            total2(*f),
            0 <= i <= a.len(),
            c.len() == i,
            forall|k: int| 0 <= k < i ==> call_ensures(*f, (a@[k], b@[k]), #[trigger] c@[k]),
        decreases a.len() - i,
    {
        let v = f(a[i], b[i]);
        c.push(v);
        i += 1;
    }
    Ok(c)
}

/// Applies `f` to every component of a vector of supported length.
pub fn map_components<T: Copy, F: Fn(T) -> T>(a: &Vec<T>, f: &F) -> (r: Result<Vec<T>, LinalgError>)
    requires
        forall|x: T| call_requires(*f, (x,)),
    ensures
        !supported(a.len() as nat) ==> r == Err::<Vec<T>, LinalgError>(LinalgError::UnsupportedDimension(a.len())),
        supported(a.len() as nat) ==> r is Ok,
        r matches Ok(c) ==> {
            &&& c.len() == a.len()
            &&& forall|i: int| 0 <= i < a.len() ==> call_ensures(*f, (a@[i],), #[trigger] c@[i])
        },
{
    match Dimension::of_length(a.len()) {
        Err(e) => return Err(e),
        Ok(_) => {},
    }
    let mut c: Vec<T> = Vec::new();
    let mut i: usize = 0;
    while i < a.len()
        invariant
            forall|x: T| call_requires(*f, (x,)),
            0 <= i <= a.len(),
            c.len() == i,
            forall|k: int| 0 <= k < i ==> call_ensures(*f, (a@[k],), #[trigger] c@[k]),
        decreases a.len() - i,
    {
        let v = f(a[i]);
        c.push(v);
        i += 1;
    }
    Ok(c)
}

/// The dot product of two vectors of the same supported length, summed
/// left to right from `zero`.
pub fn dot_with<T: Copy, A: Fn(T, T) -> T, M: Fn(T, T) -> T>(
    a: &Vec<T>,
    b: &Vec<T>,
    zero: T,
    plus: &A,
    times: &M,
) -> (r: Result<T, LinalgError>)
    requires
        total2(*plus),
        total2(*times),
    ensures
        pair_error(a.len() as nat, b.len() as nat) matches Some(e) ==> r == Err::<T, LinalgError>(e),
        pair_error(a.len() as nat, b.len() as nat) is None ==> r is Ok,
        r matches Ok(d) ==> is_dot(zero, *plus, *times, a@, b@, d),
{
    match check_pair(a.len(), b.len()) {
        Err(e) => return Err(e),
        Ok(()) => {},
    }
    let mut acc = zero;
    let mut k: usize = 0;
    assert(a@.take(0) =~= Seq::<T>::empty());
    while k < a.len()
        invariant
            a.len() == b.len(),
            total2(*plus),
            total2(*times),
            0 <= k <= a.len(),
            is_dot(zero, *plus, *times, a@.take(k as int), b@, acc),
        decreases a.len() - k,
    {
        let p = times(a[k], b[k]);
        let prev = acc;
        acc = plus(prev, p);
        proof {
            let xs = a@.take(k + 1);
            let kk: int = xs.len() - 1;
            assert(kk == k);
            assert(xs.take(kk) =~= a@.take(k as int));
            assert(is_dot(zero, *plus, *times, xs.take(kk), b@, prev) && call_ensures(*times, (xs[kk], b@[kk]), p)
                && call_ensures(*plus, (prev, p), acc));
        }
        k += 1;
    }
    assert(a@.take(a.len() as int) =~= a@);
    Ok(acc)
}

/// The cross product `(a1 b2 - a2 b1, a2 b0 - a0 b2, a0 b1 - a1 b0)` of two
/// vectors of length 3; it exists for no other length.
pub fn cross_with<T: Copy, S: Fn(T, T) -> T, M: Fn(T, T) -> T>(
    a: &Vec<T>,
    b: &Vec<T>,
    minus: &S,
    times: &M,
) -> (r: Result<Vec<T>, LinalgError>)
    requires
        total2(*minus),
        total2(*times),
    ensures
        a.len() != 3 ==> r == Err::<Vec<T>, LinalgError>(LinalgError::UnsupportedDimension(a.len())),
        a.len() == 3 && b.len() != 3 ==> r == Err::<Vec<T>, LinalgError>(LinalgError::LengthMismatch(3, b.len())),
        a.len() == 3 && b.len() == 3 ==> r is Ok,
        r matches Ok(c) ==> {
            &&& c.len() == 3
            &&& is_det2(*minus, *times, a@[1], b@[2], a@[2], b@[1], c@[0])
            &&& is_det2(*minus, *times, a@[2], b@[0], a@[0], b@[2], c@[1])
            &&& is_det2(*minus, *times, a@[0], b@[1], a@[1], b@[0], c@[2])
        },
{
    if a.len() != 3 {
        return Err(LinalgError::UnsupportedDimension(a.len()));
    }
    if b.len() != 3 {
        return Err(LinalgError::LengthMismatch(3, b.len()));
    }
    let mut c: Vec<T> = Vec::new();
    c.push(crate::scalar::det2_with(minus, times, a[1], b[2], a[2], b[1]));
    c.push(crate::scalar::det2_with(minus, times, a[2], b[0], a[0], b[2]));
    c.push(crate::scalar::det2_with(minus, times, a[0], b[1], a[1], b[0]));
    Ok(c)
}

} // verus!
