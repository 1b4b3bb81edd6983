//! Vectors of three components.
use vstd::prelude::*;
use crate::dims::Axis;
use crate::error::LinalgError;
use crate::scalar::{associative, commutative, computes, deterministic2, is_det2, is_sum2, ring_laws, total2};

verus! {

/// A vector with components `x`, `y` and `z`.
#[derive(Debug, Clone, Copy, PartialEq)]
pub struct Vector3<T> {
    pub x: T,
    pub y: T,
    pub z: T,
}

/// `r` combines `a` and `b` component by component with `f`.
pub open spec fn zipped<T, F: Fn(T, T) -> T>(f: F, a: Vector3<T>, b: Vector3<T>, r: Vector3<T>) -> bool {
    call_ensures(f, (a.x, b.x), r.x) && call_ensures(f, (a.y, b.y), r.y) && call_ensures(f, (a.z, b.z), r.z)
}

/// `r` applies `f` to every component of `a`.
pub open spec fn mapped<T, F: Fn(T) -> T>(f: F, a: Vector3<T>, r: Vector3<T>) -> bool {
    call_ensures(f, (a.x,), r.x) && call_ensures(f, (a.y,), r.y) && call_ensures(f, (a.z,), r.z)
}

/// `r` is a value of the cross product of `a` and `b`.
pub open spec fn is_cross<T, S: Fn(T, T) -> T, M: Fn(T, T) -> T>(
    minus: S,
    times: M,
    a: Vector3<T>,
    b: Vector3<T>,
    r: Vector3<T>,
) -> bool {
    &&& is_det2(minus, times, a.y, b.z, a.z, b.y, r.x)
    &&& is_det2(minus, times, a.z, b.x, a.x, b.z, r.y)
    &&& is_det2(minus, times, a.x, b.y, a.y, b.x, r.z)
}

/// `d` is a value of `a0 * b0 + a1 * b1 + a2 * b2`, summed left to right.
pub open spec fn is_dot3<T, A: Fn(T, T) -> T, M: Fn(T, T) -> T>(
    plus: A,
    times: M,
    a: Vector3<T>,
    b: Vector3<T>,
    d: T,
) -> bool {
    exists|p: T, q: T, r: T, s: T|
        #![trigger call_ensures(times, (a.x, b.x), p), call_ensures(times, (a.y, b.y), q), call_ensures(times, (a.z, b.z), r), call_ensures(plus, (p, q), s)]
        call_ensures(times, (a.x, b.x), p) && call_ensures(times, (a.y, b.y), q)
            && call_ensures(times, (a.z, b.z), r) && call_ensures(plus, (p, q), s)
            && call_ensures(plus, (s, r), d)
}

/// `r` is `v` rotated about the x axis by the angle of cosine `c` and sine
/// `s`: `(x, y c - z s, y s + z c)`.
pub open spec fn is_rotation_x<T, A: Fn(T, T) -> T, S: Fn(T, T) -> T, M: Fn(T, T) -> T>(
    plus: A,
    minus: S,
    times: M,
    v: Vector3<T>,
    c: T,
    s: T,
    r: Vector3<T>,
) -> bool {
    &&& r.x == v.x
    &&& is_det2(minus, times, v.y, c, v.z, s, r.y)
    &&& is_sum2(plus, times, v.y, s, v.z, c, r.z)
}

/// `r` is `v` rotated about the y axis by the angle of cosine `c` and sine
/// `s`: `(x c + z s, y, z c - x s)`.
pub open spec fn is_rotation_y<T, A: Fn(T, T) -> T, S: Fn(T, T) -> T, M: Fn(T, T) -> T>(
    plus: A,
    minus: S,
    times: M,
    v: Vector3<T>,
    c: T,
    s: T,
    r: Vector3<T>,
) -> bool {
    &&& is_sum2(plus, times, v.x, c, v.z, s, r.x)
    &&& r.y == v.y
    &&& is_det2(minus, times, v.z, c, v.x, s, r.z)
}

/// `r` is `v` rotated about the z axis by the angle of cosine `c` and sine
/// `s`: `(x c - y s, x s + y c, z)`.
pub open spec fn is_rotation_z<T, A: Fn(T, T) -> T, S: Fn(T, T) -> T, M: Fn(T, T) -> T>(
    plus: A,
    minus: S,
    times: M,
    v: Vector3<T>,
    c: T,
    s: T,
    r: Vector3<T>,
) -> bool {
    &&& is_det2(minus, times, v.x, c, v.y, s, r.x)
    &&& is_sum2(plus, times, v.x, s, v.y, c, r.y)
    &&& r.z == v.z
}

impl<T: Copy> Vector3<T> {
    /// Component `i`, in `(x, y, z)` order.
    pub open spec fn at(self, i: int) -> T {
        if i == 0 {
            self.x
        } else if i == 1 {
            self.y
        } else {
            self.z
        }
    }

    /// The vector with the given components.
    pub fn new(x: T, y: T, z: T) -> (r: Vector3<T>)
        ensures
            r == (Vector3 { x, y, z }),
    {
        Vector3 { x, y, z }
    }

    /// The component on the given axis.
    pub fn component(&self, axis: Axis) -> (r: T)
        ensures
            r == self.at(axis.spec_index() as int),
    {
        match axis {
            Axis::X => self.x,
            Axis::Y => self.y,
            Axis::Z => self.z,
        }
    }

    /// Component `i`, in `(x, y, z)` order; an index past 2 is refused.
    pub fn element(&self, i: usize) -> (r: Result<T, LinalgError>)
        ensures
            i < 3 ==> r == Ok::<T, LinalgError>(self.at(i as int)),
            i >= 3 ==> r == Err::<T, LinalgError>(LinalgError::IndexOutOfRange(i)),
    {
        match Axis::from_index(i) {
            Ok(axis) => Ok(self.component(axis)),
            Err(e) => Err(e),
        }
    }

    /// Combines two vectors component by component with `f`.
    pub fn zip_with<F: Fn(T, T) -> T>(&self, other: &Vector3<T>, f: &F) -> (r: Vector3<T>)
        requires
            total2(*f),
        ensures
            zipped(*f, *self, *other, r),
    {
        Vector3 { x: f(self.x, other.x), y: f(self.y, other.y), z: f(self.z, other.z) }
    }

    /// Applies `f` to every component.
    pub fn map<F: Fn(T) -> T>(&self, f: &F) -> (r: Vector3<T>)
        requires
            forall|v: T| call_requires(*f, (v,)),
        ensures
            mapped(*f, *self, r),
    {
        Vector3 { x: f(self.x), y: f(self.y), z: f(self.z) }
    }

    /// The dot product `x1 x2 + y1 y2 + z1 z2`.
    pub fn dot_with<A: Fn(T, T) -> T, M: Fn(T, T) -> T>(&self, other: &Vector3<T>, plus: &A, times: &M) -> (r: T)
        requires
            total2(*plus),
            total2(*times),
        ensures
            is_dot3(*plus, *times, *self, *other, r),
    {
        let p = times(self.x, other.x);
        let q = times(self.y, other.y);
        let r = times(self.z, other.z);
        let s = plus(p, q);
        let d = plus(s, r);
        assert(call_ensures(*times, (self.x, other.x), p) && call_ensures(*times, (self.y, other.y), q)
            && call_ensures(*times, (self.z, other.z), r) && call_ensures(*plus, (p, q), s)
            && call_ensures(*plus, (s, r), d));
        d
    }

    /// The cross product `(y1 z2 - z1 y2, z1 x2 - x1 z2, x1 y2 - y1 x2)`.
    pub fn cross_with<S: Fn(T, T) -> T, M: Fn(T, T) -> T>(&self, other: &Vector3<T>, minus: &S, times: &M) -> (r: Vector3<T>)
        requires
            total2(*minus),
            total2(*times),
        ensures
            is_cross(*minus, *times, *self, *other, r),
    {
        Vector3 {
            x: crate::scalar::det2_with(minus, times, self.y, other.z, self.z, other.y),
            y: crate::scalar::det2_with(minus, times, self.z, other.x, self.x, other.z),
            z: crate::scalar::det2_with(minus, times, self.x, other.y, self.y, other.x),
        }
    }
    /// This vector rotated about the x axis by the angle of cosine `c` and
    /// sine `s`.
    pub fn rotate_about_x_with<A: Fn(T, T) -> T, S: Fn(T, T) -> T, M: Fn(T, T) -> T>(
        &self,
        c: T,
        s: T,
        plus: &A,
        minus: &S,
        times: &M,
    ) -> (r: Vector3<T>)
        requires
            total2(*plus),
            total2(*minus),
            total2(*times),
        ensures
            is_rotation_x(*plus, *minus, *times, *self, c, s, r),
    {
        Vector3 {
            x: self.x,
            y: crate::scalar::det2_with(minus, times, self.y, c, self.z, s),
            z: crate::scalar::sum2_with(plus, times, self.y, s, self.z, c),
        }
    }

    /// This vector rotated about the y axis by the angle of cosine `c` and
    /// sine `s`.
    pub fn rotate_about_y_with<A: Fn(T, T) -> T, S: Fn(T, T) -> T, M: Fn(T, T) -> T>(
        &self,
        c: T,
        s: T,
        plus: &A,
        minus: &S,
        times: &M,
    ) -> (r: Vector3<T>)
        requires
            total2(*plus),
            total2(*minus),
            total2(*times),
        ensures
            is_rotation_y(*plus, *minus, *times, *self, c, s, r),
    {
        Vector3 {
            x: crate::scalar::sum2_with(plus, times, self.x, c, self.z, s),
            y: self.y,
            z: crate::scalar::det2_with(minus, times, self.z, c, self.x, s),
        }
    }

    /// This vector rotated about the z axis by the angle of cosine `c` and
    /// sine `s`.
    pub fn rotate_about_z_with<A: Fn(T, T) -> T, S: Fn(T, T) -> T, M: Fn(T, T) -> T>(
        &self,
        c: T,
        s: T,
        plus: &A,
        minus: &S,
        times: &M,
    ) -> (r: Vector3<T>)
        requires
            total2(*plus),
            total2(*minus),
            total2(*times),
        ensures
            is_rotation_z(*plus, *minus, *times, *self, c, s, r),
    {
        Vector3 {
            x: crate::scalar::det2_with(minus, times, self.x, c, self.y, s),
            y: crate::scalar::sum2_with(plus, times, self.x, s, self.y, c),
            z: self.z,
        }
    }
}

/// Adding vectors with a commutative operation does not depend on the
/// order of the operands: `a + b == b + a`.
pub proof fn lemma_zip_commutative<T, F: Fn(T, T) -> T>(
    f: F,
    a: Vector3<T>,
    b: Vector3<T>,
    ab: Vector3<T>,
    ba: Vector3<T>,
)
    requires
        commutative(f),
        zipped(f, a, b, ab),
        zipped(f, b, a, ba),
    ensures
        ab == ba,
{
}

/// Adding vectors with an associative operation does not depend on the
/// grouping: `(a + b) + c == a + (b + c)`.
pub proof fn lemma_zip_associative<T, F: Fn(T, T) -> T>(
    f: F,
    a: Vector3<T>,
    b: Vector3<T>,
    c: Vector3<T>,
    ab: Vector3<T>,
    ab_c: Vector3<T>,
    bc: Vector3<T>,
    a_bc: Vector3<T>,
)
    requires
        associative(f),
        zipped(f, a, b, ab),
        zipped(f, ab, c, ab_c),
        zipped(f, b, c, bc),
        zipped(f, a, bc, a_bc),
    ensures
        ab_c == a_bc,
{
}

/// A vector minus itself is the zero vector, for an operation that takes
/// every value minus itself to `zero`: `a - a == 0`.
pub proof fn lemma_minus_self<T, S: Fn(T, T) -> T>(minus: S, zero: T, a: Vector3<T>, d: Vector3<T>)
    requires
        forall|x: T, r: T| call_ensures(minus, (x, x), r) ==> r == zero,
        zipped(minus, a, a, d),
    ensures
        d == (Vector3 { x: zero, y: zero, z: zero }),
{
}

/// The cross product is anti-commutative: `a x b == (b x a) * -1`, where
/// `neg` is the scaling by -1, for a commutative `times` and a `minus` with
/// `p - q == neg(q - p)`.
pub proof fn lemma_cross_anticommutative<T, S: Fn(T, T) -> T, M: Fn(T, T) -> T, N: Fn(T) -> T>(
    minus: S,
    times: M,
    neg: N,
    a: Vector3<T>,
    b: Vector3<T>,
    ab: Vector3<T>,
    ba: Vector3<T>,
    nba: Vector3<T>,
)
    requires
        deterministic2(times),
        commutative(times),
        forall|p: T, q: T, u: T, v: T, w: T|
            call_ensures(minus, (p, q), u) && call_ensures(minus, (q, p), v) && call_ensures(neg, (v,), w) ==> u == w,
        is_cross(minus, times, a, b, ab),
        is_cross(minus, times, b, a, ba),
        mapped(neg, ba, nba),
    ensures
        ab == nba,
{
    lemma_det2_swapped(minus, times, neg, a.y, b.z, a.z, b.y, ab.x, ba.x, nba.x);
    lemma_det2_swapped(minus, times, neg, a.z, b.x, a.x, b.z, ab.y, ba.y, nba.y);
    lemma_det2_swapped(minus, times, neg, a.x, b.y, a.y, b.x, ab.z, ba.z, nba.z);
}

proof fn lemma_det2_swapped<T, S: Fn(T, T) -> T, M: Fn(T, T) -> T, N: Fn(T) -> T>(
    minus: S,
    times: M,
    neg: N,
    p: T,
    q: T,
    r: T,
    s: T,
    u: T,
    v: T,
    w: T,
)
    requires
        deterministic2(times),
        commutative(times),
        forall|p: T, q: T, u: T, v: T, w: T|
            call_ensures(minus, (p, q), u) && call_ensures(minus, (q, p), v) && call_ensures(neg, (v,), w) ==> u == w,
        is_det2(minus, times, p, q, r, s, u),
        is_det2(minus, times, s, r, q, p, v),
        call_ensures(neg, (v,), w),
    ensures
        u == w,
{
    let (pq, rs) = choose|x: T, y: T|
        call_ensures(times, (p, q), x) && call_ensures(times, (r, s), y) && call_ensures(minus, (x, y), u);
    let (sr, qp) = choose|x: T, y: T|
        call_ensures(times, (s, r), x) && call_ensures(times, (q, p), y) && call_ensures(minus, (x, y), v);
    assert(sr == rs);
    assert(qp == pq);
}

/// The cross product is orthogonal to both factors:
/// `a . (a x b) == zero` and `b . (a x b) == zero`, when `plus`, `minus`
/// and `times` compute the operations `sum`, `diff` and `prod` of a
/// commutative ring with zero `zero`.
pub proof fn lemma_cross_orthogonal<T, A: Fn(T, T) -> T, S: Fn(T, T) -> T, M: Fn(T, T) -> T>(
    plus: A,
    minus: S,
    times: M,
    zero: T,
    sum: spec_fn(T, T) -> T,
    neg: spec_fn(T) -> T,
    diff: spec_fn(T, T) -> T,
    prod: spec_fn(T, T) -> T,
    a: Vector3<T>,
    b: Vector3<T>,
    ab: Vector3<T>,
    da: T,
    db: T,
)
    requires
        computes(plus, sum),
        computes(minus, diff),
        computes(times, prod),
        ring_laws(zero, sum, neg, diff, prod),
        is_cross(minus, times, a, b, ab),
        is_dot3(plus, times, a, ab, da),
        is_dot3(plus, times, b, ab, db),
    ensures
        da == zero,
        db == zero,
{
    crate::scalar::lemma_det2_value(minus, times, diff, prod, a.y, b.z, a.z, b.y, ab.x);
    crate::scalar::lemma_det2_value(minus, times, diff, prod, a.z, b.x, a.x, b.z, ab.y);
    crate::scalar::lemma_det2_value(minus, times, diff, prod, a.x, b.y, a.y, b.x, ab.z);
    lemma_dot3_value(plus, times, sum, prod, a, ab, da);
    lemma_dot3_value(plus, times, sum, prod, b, ab, db);
    let (px, py, pz) = (prod(a.y, b.z), prod(a.z, b.x), prod(a.x, b.y));
    let (qx, qy, qz) = (prod(a.z, b.y), prod(a.x, b.z), prod(a.y, b.x));
    crate::scalar::lemma_times_diff(zero, sum, neg, diff, prod, a.x, px, qx);
    crate::scalar::lemma_times_diff(zero, sum, neg, diff, prod, a.y, py, qy);
    crate::scalar::lemma_times_diff(zero, sum, neg, diff, prod, a.z, pz, qz);
    crate::scalar::lemma_times_diff(zero, sum, neg, diff, prod, b.x, px, qx);
    crate::scalar::lemma_times_diff(zero, sum, neg, diff, prod, b.y, py, qy);
    crate::scalar::lemma_times_diff(zero, sum, neg, diff, prod, b.z, pz, qz);
    crate::scalar::lemma_prod3(sum, prod, a.x, a.y, b.z);
    crate::scalar::lemma_prod3(sum, prod, a.x, a.z, b.y);
    crate::scalar::lemma_prod3(sum, prod, a.y, a.z, b.x);
    crate::scalar::lemma_cancel_c(
        zero,
        sum,
        neg,
        diff,
        prod(a.x, prod(a.y, b.z)),
        prod(a.x, prod(a.z, b.y)),
        prod(a.y, prod(a.z, b.x)),
    );
    crate::scalar::lemma_prod3(sum, prod, b.x, a.z, b.y);
    crate::scalar::lemma_prod3(sum, prod, b.y, a.x, b.z);
    crate::scalar::lemma_prod3(sum, prod, b.x, a.y, b.z);
    crate::scalar::lemma_cancel_d(
        zero,
        sum,
        neg,
        diff,
        prod(b.x, prod(a.y, b.z)),
        prod(b.x, prod(a.z, b.y)),
        prod(b.y, prod(a.x, b.z)),
    );
}

/// The value of `u . v` when the operations compute `sum` and `prod`.
proof fn lemma_dot3_value<T, A: Fn(T, T) -> T, M: Fn(T, T) -> T>(
    plus: A,
    times: M,
    sum: spec_fn(T, T) -> T,
    prod: spec_fn(T, T) -> T,
    u: Vector3<T>,
    v: Vector3<T>,
    d: T,
)
    requires
        computes(plus, sum),
        computes(times, prod),
        is_dot3(plus, times, u, v, d),
    ensures
        d == sum(sum(prod(u.x, v.x), prod(u.y, v.y)), prod(u.z, v.z)),
{
    let (p, q, r, s) = choose|p: T, q: T, r: T, s: T|
        #![trigger call_ensures(times, (u.x, v.x), p), call_ensures(times, (u.y, v.y), q), call_ensures(times, (u.z, v.z), r), call_ensures(plus, (p, q), s)]
        call_ensures(times, (u.x, v.x), p) && call_ensures(times, (u.y, v.y), q)
            && call_ensures(times, (u.z, v.z), r) && call_ensures(plus, (p, q), s)
            && call_ensures(plus, (s, r), d);
}

/// A rotation by the angle of cosine `one` and sine `zero` leaves every
/// vector as it is, about each of the three axes, for operations where
/// `x * one == x`, `x * zero == zero`, `x - zero == x`, `x + zero == x` and
/// `zero + x == x`.
pub proof fn lemma_rotation_by_zero_angle<T, A: Fn(T, T) -> T, S: Fn(T, T) -> T, M: Fn(T, T) -> T>(
    plus: A,
    minus: S,
    times: M,
    zero: T,
    one: T,
    v: Vector3<T>,
    rx: Vector3<T>,
    ry: Vector3<T>,
    rz: Vector3<T>,
)
    requires
        forall|x: T, r: T| call_ensures(times, (x, one), r) ==> r == x,
        forall|x: T, r: T| call_ensures(times, (x, zero), r) ==> r == zero,
        forall|x: T, r: T| call_ensures(minus, (x, zero), r) ==> r == x,
        forall|x: T, r: T| call_ensures(plus, (x, zero), r) ==> r == x,
        forall|x: T, r: T| call_ensures(plus, (zero, x), r) ==> r == x,
        is_rotation_x(plus, minus, times, v, one, zero, rx),
        is_rotation_y(plus, minus, times, v, one, zero, ry),
        is_rotation_z(plus, minus, times, v, one, zero, rz),
    ensures
        rx == v,
        ry == v,
        rz == v,
{
}

} // verus!
