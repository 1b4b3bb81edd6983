//! Matrices of three rows and three columns, held as their rows.
use vstd::prelude::*;
use crate::dims::Axis;
use crate::error::LinalgError;
use crate::scalar::{commutative, computes, deterministic2, is_det2, ring_laws, total2};
use crate::vector3::{is_dot3, Vector3};

verus! {

/// A 3 by 3 matrix, row-major.
#[derive(Debug, Clone, Copy, PartialEq)]
pub struct Matrix3<T> {
    pub rows: [Vector3<T>; 3],
}

/// The lower of the two indices in `0..3` other than `i`.
pub open spec fn lower_other(i: int) -> int {
    if i == 0 {
        1
    } else {
        0
    }
}

/// The higher of the two indices in `0..3` other than `i`.
pub open spec fn higher_other(i: int) -> int {
    if i == 2 {
        1
    } else {
        2
    }
}

impl<T: Copy> Matrix3<T> {
    /// Entry `(i, j)`.
    pub open spec fn at(self, i: int, j: int) -> T {
        self.rows[i].at(j)
    }

    /// Column `j`, top to bottom.
    pub open spec fn spec_column(self, j: int) -> Vector3<T> {
        Vector3 { x: self.at(0, j), y: self.at(1, j), z: self.at(2, j) }
    }

    /// The transpose: entry `(i, j)` is entry `(j, i)` of `self`.
    pub open spec fn spec_transpose(self) -> Matrix3<T> {
        Matrix3 { rows: [self.spec_column(0), self.spec_column(1), self.spec_column(2)] }
    }

    /// `out` holds, at `(i, j)`, the determinant of `self` without row `i`
    /// and column `j`, in the closed form of a 2 by 2 determinant.
    pub open spec fn is_minors<S: Fn(T, T) -> T, M: Fn(T, T) -> T>(self, minus: S, times: M, out: Matrix3<T>) -> bool {
        forall|i: int, j: int|
            0 <= i < 3 && 0 <= j < 3 ==> is_det2(
                minus,
                times,
                self.at(lower_other(i), lower_other(j)),
                self.at(higher_other(i), higher_other(j)),
                self.at(lower_other(i), higher_other(j)),
                self.at(higher_other(i), lower_other(j)),
                #[trigger] out.at(i, j),
            )
    }

    /// `out` is `self` with the entries at odd `i + j` negated by `neg`.
    pub open spec fn is_signed<N: Fn(T) -> T>(self, neg: N, out: Matrix3<T>) -> bool {
        forall|i: int, j: int|
            0 <= i < 3 && 0 <= j < 3 ==> if (i + j) % 2 == 0 {
                #[trigger] out.at(i, j) == self.at(i, j)
            } else {
                call_ensures(neg, (self.at(i, j),), out.at(i, j))
            }
    }

    /// `out` is the cofactor matrix of `self`: its minors, with the entries
    /// at odd `i + j` negated by `neg`.
    pub open spec fn is_cofactors<S: Fn(T, T) -> T, M: Fn(T, T) -> T, N: Fn(T) -> T>(
        self,
        minus: S,
        times: M,
        neg: N,
        out: Matrix3<T>,
    ) -> bool {
        exists|minors: Matrix3<T>| #[trigger] self.is_minors(minus, times, minors) && minors.is_signed(neg, out)
    }

    /// `d` is a value of the determinant of `self` by cofactor expansion
    /// along the first row, in closed form:
    /// `a00 (a11 a22 - a12 a21) - a01 (a10 a22 - a12 a20) + a02 (a10 a21 - a11 a20)`.
    pub open spec fn is_det3<A: Fn(T, T) -> T, S: Fn(T, T) -> T, M: Fn(T, T) -> T>(
        self,
        plus: A,
        minus: S,
        times: M,
        d: T,
    ) -> bool {
        exists|c0: T, c1: T, c2: T, t0: T, t1: T, t2: T, s: T|
            #![trigger call_ensures(times, (self.at(0, 0), c0), t0), call_ensures(times, (self.at(0, 1), c1), t1), call_ensures(times, (self.at(0, 2), c2), t2), call_ensures(minus, (t0, t1), s)]
            is_det2(minus, times, self.at(1, 1), self.at(2, 2), self.at(1, 2), self.at(2, 1), c0)
                && is_det2(minus, times, self.at(1, 0), self.at(2, 2), self.at(1, 2), self.at(2, 0), c1)
                && is_det2(minus, times, self.at(1, 0), self.at(2, 1), self.at(1, 1), self.at(2, 0), c2)
                && call_ensures(times, (self.at(0, 0), c0), t0)
                && call_ensures(times, (self.at(0, 1), c1), t1)
                && call_ensures(times, (self.at(0, 2), c2), t2)
                && call_ensures(minus, (t0, t1), s)
                && call_ensures(plus, (s, t2), d)
    }

    /// The matrix with the given rows, top to bottom.
    pub fn new(row1: Vector3<T>, row2: Vector3<T>, row3: Vector3<T>) -> (r: Matrix3<T>)
        ensures
            r.rows[0] == row1,
            r.rows[1] == row2,
            r.rows[2] == row3,
    {
        Matrix3 { rows: [row1, row2, row3] }
    }

    /// Row `i`; an index past 2 is refused.
    pub fn row(&self, i: usize) -> (r: Result<Vector3<T>, LinalgError>)
        ensures
            i < 3 ==> r == Ok::<Vector3<T>, LinalgError>(self.rows[i as int]),
            i >= 3 ==> r == Err::<Vector3<T>, LinalgError>(LinalgError::IndexOutOfRange(i)),
    {
        if i < 3 {
            Ok(self.rows[i])
        } else {
            Err(LinalgError::IndexOutOfRange(i))
        }
    }

    /// The column on the given axis, top to bottom.
    pub fn column_on(&self, axis: Axis) -> (r: Vector3<T>)
        ensures
            r == self.spec_column(axis.spec_index() as int),
    {
        Vector3 {
            x: self.rows[0].component(axis),
            y: self.rows[1].component(axis),
            z: self.rows[2].component(axis),
        }
    }

    /// Column `j`, top to bottom; an index past 2 is refused.
    pub fn column(&self, j: usize) -> (r: Result<Vector3<T>, LinalgError>)
        ensures
            j < 3 ==> r == Ok::<Vector3<T>, LinalgError>(self.spec_column(j as int)),
            j >= 3 ==> r == Err::<Vector3<T>, LinalgError>(LinalgError::IndexOutOfRange(j)),
    {
        match Axis::from_index(j) {
            Ok(axis) => Ok(self.column_on(axis)),
            Err(e) => Err(e),
        }
    }

    /// The matrix whose rows are the columns of `self`.
    pub fn transpose(&self) -> (r: Matrix3<T>)
        ensures
            r == self.spec_transpose(),
    {
        Matrix3 { rows: [self.column_on(Axis::X), self.column_on(Axis::Y), self.column_on(Axis::Z)] }
    }

    /// Combines two matrices entry by entry with `f`.
    pub fn zip_with<F: Fn(T, T) -> T>(&self, other: &Matrix3<T>, f: &F) -> (r: Matrix3<T>)
        requires
            total2(*f),
        ensures
            forall|i: int, j: int|
                0 <= i < 3 && 0 <= j < 3 ==> call_ensures(*f, (self.at(i, j), other.at(i, j)), #[trigger] r.at(i, j)),
    {
        Matrix3 {
            rows: [
                self.rows[0].zip_with(&other.rows[0], f),
                self.rows[1].zip_with(&other.rows[1], f),
                self.rows[2].zip_with(&other.rows[2], f),
            ],
        }
    }

    /// Applies `f` to every entry.
    pub fn map<F: Fn(T) -> T>(&self, f: &F) -> (r: Matrix3<T>)
        requires
            forall|v: T| call_requires(*f, (v,)),
        ensures
            forall|i: int, j: int| 0 <= i < 3 && 0 <= j < 3 ==> call_ensures(*f, (self.at(i, j),), #[trigger] r.at(i, j)),
    {
        Matrix3 { rows: [self.rows[0].map(f), self.rows[1].map(f), self.rows[2].map(f)] }
    }
    /// The determinant, by cofactor expansion along the first row.
    pub fn determinant_with<A: Fn(T, T) -> T, S: Fn(T, T) -> T, M: Fn(T, T) -> T>(
        &self,
        plus: &A,
        minus: &S,
        times: &M,
    ) -> (r: T)
        requires
            total2(*plus),
            total2(*minus),
            total2(*times),
        ensures
            self.is_det3(*plus, *minus, *times, r),
    {
        let a = &self.rows;
        let c0 = crate::scalar::det2_with(minus, times, a[1].y, a[2].z, a[1].z, a[2].y);
        let c1 = crate::scalar::det2_with(minus, times, a[1].x, a[2].z, a[1].z, a[2].x);
        let c2 = crate::scalar::det2_with(minus, times, a[1].x, a[2].y, a[1].y, a[2].x);
        let t0 = times(a[0].x, c0);
        let t1 = times(a[0].y, c1);
        let t2 = times(a[0].z, c2);
        let s = minus(t0, t1);
        let d = plus(s, t2);
        assert(call_ensures(*times, (self.at(0, 0), c0), t0) && call_ensures(*times, (self.at(0, 1), c1), t1)
            && call_ensures(*times, (self.at(0, 2), c2), t2) && call_ensures(*minus, (t0, t1), s));
        d
    }

    /// The matrix product of `self` and `other`: entry `(i, j)` is row `i`
    /// of `self` dotted with column `j` of `other`.
    pub fn product_with<A: Fn(T, T) -> T, M: Fn(T, T) -> T>(&self, other: &Matrix3<T>, plus: &A, times: &M) -> (r: Matrix3<T>)
        requires
            total2(*plus),
            total2(*times),
        ensures
            forall|i: int, j: int|
                0 <= i < 3 && 0 <= j < 3 ==> is_dot3(*plus, *times, self.rows[i], other.spec_column(j), #[trigger] r.at(i, j)),
    {
        let k0 = other.column_on(Axis::X);
        let k1 = other.column_on(Axis::Y);
        let k2 = other.column_on(Axis::Z);
        let mut rows = [self.rows[0], self.rows[1], self.rows[2]];
        let mut i: usize = 0;
        while i < 3
            invariant
                total2(*plus),
                total2(*times),
                k0 == other.spec_column(0),
                k1 == other.spec_column(1),
                k2 == other.spec_column(2),
                0 <= i <= 3,
                forall|t: int| 0 <= t < i ==> {
                    &&& is_dot3(*plus, *times, self.rows[t], k0, (#[trigger] rows[t]).x)
                    &&& is_dot3(*plus, *times, self.rows[t], k1, rows[t].y)
                    &&& is_dot3(*plus, *times, self.rows[t], k2, rows[t].z)
                },
            decreases 3 - i,
        {
            let row = self.rows[i];
            rows[i] = Vector3 {
                x: row.dot_with(&k0, plus, times),
                y: row.dot_with(&k1, plus, times),
                z: row.dot_with(&k2, plus, times),
            };
            i += 1;
        }
        Matrix3 { rows }
    }

    /// The product of `self` with the column vector `v`: component `i` is
    /// row `i` dotted with `v`.
    pub fn apply_with<A: Fn(T, T) -> T, M: Fn(T, T) -> T>(&self, v: &Vector3<T>, plus: &A, times: &M) -> (r: Vector3<T>)
        requires
            total2(*plus),
            total2(*times),
        ensures
            is_dot3(*plus, *times, self.rows[0], *v, r.x),
            is_dot3(*plus, *times, self.rows[1], *v, r.y),
            is_dot3(*plus, *times, self.rows[2], *v, r.z),
    {
        Vector3 {
            x: self.rows[0].dot_with(v, plus, times),
            y: self.rows[1].dot_with(v, plus, times),
            z: self.rows[2].dot_with(v, plus, times),
        }
    }

    fn minor_entry<S: Fn(T, T) -> T, M: Fn(T, T) -> T>(&self, i: usize, j: usize, minus: &S, times: &M) -> (r: T)
        requires
            i < 3,
            j < 3,
            total2(*minus),
            total2(*times),
        ensures
            is_det2(
                *minus,
                *times,
                self.at(lower_other(i as int), lower_other(j as int)),
                self.at(higher_other(i as int), higher_other(j as int)),
                self.at(lower_other(i as int), higher_other(j as int)),
                self.at(higher_other(i as int), lower_other(j as int)),
                r,
            ),
    {
        let li: usize = if i == 0 { 1 } else { 0 };
        let hi: usize = if i == 2 { 1 } else { 2 };
        let lj = if j == 0 { Axis::Y } else { Axis::X };
        let hj = if j == 2 { Axis::Y } else { Axis::Z };
        let a = &self.rows;
        crate::scalar::det2_with(minus, times, a[li].component(lj), a[hi].component(hj), a[li].component(hj), a[hi].component(lj))
    }

    /// The matrix of minors: entry `(i, j)` is the determinant of `self`
    /// without row `i` and column `j`.
    pub fn minors_with<S: Fn(T, T) -> T, M: Fn(T, T) -> T>(&self, minus: &S, times: &M) -> (r: Matrix3<T>)
        requires
            total2(*minus),
            total2(*times),
        ensures
            self.is_minors(*minus, *times, r),
    {
        let mut rows = [self.rows[0], self.rows[1], self.rows[2]];
        let mut i: usize = 0;
        while i < 3
            invariant
                total2(*minus),
                total2(*times),
                0 <= i <= 3,
                forall|t: int, j: int| 0 <= t < i && 0 <= j < 3 ==> is_det2(
                    *minus,
                    *times,
                    self.at(lower_other(t), lower_other(j)),
                    self.at(higher_other(t), higher_other(j)),
                    self.at(lower_other(t), higher_other(j)),
                    self.at(higher_other(t), lower_other(j)),
                    #[trigger] rows[t].at(j),
                ),
            decreases 3 - i,
        {
            rows[i] = Vector3 {
                x: self.minor_entry(i, 0, minus, times),
                y: self.minor_entry(i, 1, minus, times),
                z: self.minor_entry(i, 2, minus, times),
            };
            i += 1;
        }
        Matrix3 { rows }
    }

    /// `self` with the entries at odd `i + j` negated by `neg`: the sign
    /// pattern `+ - + / - + - / + - +`.
    pub fn signed_with<N: Fn(T) -> T>(&self, neg: &N) -> (r: Matrix3<T>)
        requires
            forall|v: T| call_requires(*neg, (v,)),
        ensures
            self.is_signed(*neg, r),
    {
        let a = &self.rows;
        Matrix3 {
            rows: [
                Vector3 { x: a[0].x, y: neg(a[0].y), z: a[0].z },
                Vector3 { x: neg(a[1].x), y: a[1].y, z: neg(a[1].z) },
                Vector3 { x: a[2].x, y: neg(a[2].y), z: a[2].z },
            ],
        }
    }

    /// The cofactor matrix: the minors with the alternating sign pattern.
    pub fn cofactors_with<S: Fn(T, T) -> T, M: Fn(T, T) -> T, N: Fn(T) -> T>(
        &self,
        minus: &S,
        times: &M,
        neg: &N,
    ) -> (r: Matrix3<T>)
        requires
            total2(*minus),
            total2(*times),
            forall|v: T| call_requires(*neg, (v,)),
        ensures
            self.is_cofactors(*minus, *times, *neg, r),
    {
        let minors = self.minors_with(minus, times);
        minors.signed_with(neg)
    }

    /// The adjugate: the transpose of the cofactor matrix.
    pub fn adjugate_with<S: Fn(T, T) -> T, M: Fn(T, T) -> T, N: Fn(T) -> T>(
        &self,
        minus: &S,
        times: &M,
        neg: &N,
    ) -> (r: Matrix3<T>)
        requires
            total2(*minus),
            total2(*times),
            forall|v: T| call_requires(*neg, (v,)),
        ensures
            exists|c: Matrix3<T>| #[trigger] self.is_cofactors(*minus, *times, *neg, c) && r == c.spec_transpose(),
    {
        let c = self.cofactors_with(minus, times, neg);
        c.transpose()
    }
}

/// `r` is a value of `p * q * t`, multiplied left to right.
pub open spec fn is_triple_product<T, M: Fn(T, T) -> T>(times: M, p: T, q: T, t: T, r: T) -> bool {
    exists|pq: T| #[trigger] call_ensures(times, (p, q), pq) && call_ensures(times, (pq, t), r)
}

/// `r` is a value of `c + k * k * t`.
pub open spec fn is_diagonal_term<T, A: Fn(T, T) -> T, M: Fn(T, T) -> T>(plus: A, times: M, c: T, k: T, t: T, r: T) -> bool {
    exists|u: T| #[trigger] is_triple_product(times, k, k, t, u) && call_ensures(plus, (c, u), r)
}

/// `r` is a value of `p * q * t + m * s`, or of `p * q * t - m * s` when
/// `subtract` holds.
pub open spec fn is_off_diagonal_term<T, A: Fn(T, T) -> T, S: Fn(T, T) -> T, M: Fn(T, T) -> T>(
    plus: A,
    minus: S,
    times: M,
    p: T,
    q: T,
    t: T,
    m: T,
    s: T,
    subtract: bool,
    r: T,
) -> bool {
    exists|u: T, w: T|
        #![trigger is_triple_product(times, p, q, t, u), call_ensures(times, (m, s), w)]
        is_triple_product(times, p, q, t, u) && call_ensures(times, (m, s), w) && if subtract {
            call_ensures(minus, (u, w), r)
        } else {
            call_ensures(plus, (u, w), r)
        }
}

/// `r` is the matrix `c I + s [k]x + t k k^T` of Rodrigues' formula, each
/// entry in the order `c + k_i k_i t` on the diagonal and
/// `k_i k_j t -/+ k_m s` off it.
pub open spec fn is_rodrigues_terms<T, A: Fn(T, T) -> T, S: Fn(T, T) -> T, M: Fn(T, T) -> T>(
    plus: A,
    minus: S,
    times: M,
    k: Vector3<T>,
    c: T,
    s: T,
    t: T,
    r: Matrix3<T>,
) -> bool {
    &&& is_diagonal_term(plus, times, c, k.x, t, r.rows[0].x)
    &&& is_off_diagonal_term(plus, minus, times, k.x, k.y, t, k.z, s, true, r.rows[0].y)
    &&& is_off_diagonal_term(plus, minus, times, k.x, k.z, t, k.y, s, false, r.rows[0].z)
    &&& is_off_diagonal_term(plus, minus, times, k.y, k.x, t, k.z, s, false, r.rows[1].x)
    &&& is_diagonal_term(plus, times, c, k.y, t, r.rows[1].y)
    &&& is_off_diagonal_term(plus, minus, times, k.y, k.z, t, k.x, s, true, r.rows[1].z)
    &&& is_off_diagonal_term(plus, minus, times, k.z, k.x, t, k.y, s, true, r.rows[2].x)
    &&& is_off_diagonal_term(plus, minus, times, k.z, k.y, t, k.x, s, false, r.rows[2].y)
    &&& is_diagonal_term(plus, times, c, k.z, t, r.rows[2].z)
}

/// `r` is the matrix of Rodrigues' formula for the rotation about the unit
/// axis `k` whose angle has cosine `c` and sine `s`: its terms with
/// `t = one - c`, that difference taken with `minus`.
pub open spec fn is_rodrigues<T, A: Fn(T, T) -> T, S: Fn(T, T) -> T, M: Fn(T, T) -> T>(
    plus: A,
    minus: S,
    times: M,
    k: Vector3<T>,
    c: T,
    s: T,
    one: T,
    r: Matrix3<T>,
) -> bool {
    exists|t: T| #[trigger] call_ensures(minus, (one, c), t) && is_rodrigues_terms(plus, minus, times, k, c, s, t, r)
}

fn triple_product<T: Copy, M: Fn(T, T) -> T>(times: &M, p: T, q: T, t: T) -> (r: T)
    requires
        total2(*times),
    ensures
        is_triple_product(*times, p, q, t, r),
{
    let pq = times(p, q);
    times(pq, t)
}

fn diagonal_term<T: Copy, A: Fn(T, T) -> T, M: Fn(T, T) -> T>(plus: &A, times: &M, c: T, k: T, t: T) -> (r: T)
    requires
        total2(*plus),
        total2(*times),
    ensures
        is_diagonal_term(*plus, *times, c, k, t, r),
{
    let u = triple_product(times, k, k, t);
    plus(c, u)
}

fn off_diagonal_term<T: Copy, A: Fn(T, T) -> T, S: Fn(T, T) -> T, M: Fn(T, T) -> T>(
    plus: &A,
    minus: &S,
    times: &M,
    p: T,
    q: T,
    t: T,
    m: T,
    s: T,
    subtract: bool,
) -> (r: T)
    requires
        total2(*plus),
        total2(*minus),
        total2(*times),
    ensures
        is_off_diagonal_term(*plus, *minus, *times, p, q, t, m, s, subtract, r),
{
    let u = triple_product(times, p, q, t);
    let w = times(m, s);
    let r = if subtract {
        minus(u, w)
    } else {
        plus(u, w)
    };
    assert(is_triple_product(*times, p, q, t, u) && call_ensures(*times, (m, s), w));
    r
}

/// The matrix of Rodrigues' formula for the rotation about the axis `k`
/// whose angle has cosine `c` and sine `s`; `one` is the unit of the
/// scalars. `k` must be a unit vector for the matrix to be a rotation; it
/// is not normalized here.
pub fn rodrigues_with<T: Copy, A: Fn(T, T) -> T, S: Fn(T, T) -> T, M: Fn(T, T) -> T>(
    k: &Vector3<T>,
    c: T,
    s: T,
    one: T,
    plus: &A,
    minus: &S,
    times: &M,
) -> (r: Matrix3<T>)
    requires
        total2(*plus),
        total2(*minus),
        total2(*times),
    ensures
        is_rodrigues(*plus, *minus, *times, *k, c, s, one, r),
{
    let t = minus(one, c);
    let r = Matrix3 {
        rows: [
            Vector3 {
                x: diagonal_term(plus, times, c, k.x, t),
                y: off_diagonal_term(plus, minus, times, k.x, k.y, t, k.z, s, true),
                z: off_diagonal_term(plus, minus, times, k.x, k.z, t, k.y, s, false),
            },
            Vector3 {
                x: off_diagonal_term(plus, minus, times, k.y, k.x, t, k.z, s, false),
                y: diagonal_term(plus, times, c, k.y, t),
                z: off_diagonal_term(plus, minus, times, k.y, k.z, t, k.x, s, true),
            },
            Vector3 {
                x: off_diagonal_term(plus, minus, times, k.z, k.x, t, k.y, s, true),
                y: off_diagonal_term(plus, minus, times, k.z, k.y, t, k.x, s, false),
                z: diagonal_term(plus, times, c, k.z, t),
            },
        ],
    };
    assert(call_ensures(*minus, (one, c), t) && is_rodrigues_terms(*plus, *minus, *times, *k, c, s, t, r));
    r
}

/// A matrix with two equal rows has determinant `zero`, when `plus`,
/// `minus` and `times` compute the operations `sum`, `diff` and `prod` of
/// a commutative ring with zero `zero`.
pub proof fn lemma_det_repeated_row<T: Copy, A: Fn(T, T) -> T, S: Fn(T, T) -> T, M: Fn(T, T) -> T>(
    plus: A,
    minus: S,
    times: M,
    zero: T,
    sum: spec_fn(T, T) -> T,
    neg: spec_fn(T) -> T,
    diff: spec_fn(T, T) -> T,
    prod: spec_fn(T, T) -> T,
    m: Matrix3<T>,
    d: T,
)
    requires
        computes(plus, sum),
        computes(minus, diff),
        computes(times, prod),
        ring_laws(zero, sum, neg, diff, prod),
        m.rows[0] == m.rows[1] || m.rows[0] == m.rows[2] || m.rows[1] == m.rows[2],
        m.is_det3(plus, minus, times, d),
    ensures
        d == zero,
{
    let (c0, c1, c2, t0, t1, t2, s) = choose|c0: T, c1: T, c2: T, t0: T, t1: T, t2: T, s: T|
        is_det2(minus, times, m.at(1, 1), m.at(2, 2), m.at(1, 2), m.at(2, 1), c0)
            && is_det2(minus, times, m.at(1, 0), m.at(2, 2), m.at(1, 2), m.at(2, 0), c1)
            && is_det2(minus, times, m.at(1, 0), m.at(2, 1), m.at(1, 1), m.at(2, 0), c2)
            && call_ensures(times, (m.at(0, 0), c0), t0)
            && call_ensures(times, (m.at(0, 1), c1), t1)
            && call_ensures(times, (m.at(0, 2), c2), t2)
            && call_ensures(minus, (t0, t1), s)
            && call_ensures(plus, (s, t2), d);
    crate::scalar::lemma_det2_value(minus, times, diff, prod, m.at(1, 1), m.at(2, 2), m.at(1, 2), m.at(2, 1), c0);
    crate::scalar::lemma_det2_value(minus, times, diff, prod, m.at(1, 0), m.at(2, 2), m.at(1, 2), m.at(2, 0), c1);
    crate::scalar::lemma_det2_value(minus, times, diff, prod, m.at(1, 0), m.at(2, 1), m.at(1, 1), m.at(2, 0), c2);
    assert(d == det3_value(sum, diff, prod, m));
    lemma_det3_value_repeated_row(zero, sum, neg, diff, prod, m);
}

/// The closed-form determinant of `m` in the operations `sum`, `diff` and
/// `prod`: `a00 (a11 a22 - a12 a21) - a01 (a10 a22 - a12 a20) + a02 (a10 a21 - a11 a20)`.
pub open spec fn det3_value<T: Copy>(
    sum: spec_fn(T, T) -> T,
    diff: spec_fn(T, T) -> T,
    prod: spec_fn(T, T) -> T,
    m: Matrix3<T>,
) -> T {
    sum(
        diff(
            prod(m.at(0, 0), diff(prod(m.at(1, 1), m.at(2, 2)), prod(m.at(1, 2), m.at(2, 1)))),
            prod(m.at(0, 1), diff(prod(m.at(1, 0), m.at(2, 2)), prod(m.at(1, 2), m.at(2, 0)))),
        ),
        prod(m.at(0, 2), diff(prod(m.at(1, 0), m.at(2, 1)), prod(m.at(1, 1), m.at(2, 0)))),
    )
}

/// In a commutative ring the closed-form determinant of a matrix with two
/// equal rows is zero.
pub(crate) proof fn lemma_det3_value_repeated_row<T: Copy>(
    zero: T,
    sum: spec_fn(T, T) -> T,
    neg: spec_fn(T) -> T,
    diff: spec_fn(T, T) -> T,
    prod: spec_fn(T, T) -> T,
    m: Matrix3<T>,
)
    requires
        ring_laws(zero, sum, neg, diff, prod),
        m.rows[0] == m.rows[1] || m.rows[0] == m.rows[2] || m.rows[1] == m.rows[2],
    ensures
        det3_value(sum, diff, prod, m) == zero,
{
    let (a, b, c) = (m.rows[0].x, m.rows[0].y, m.rows[0].z);
    if m.rows[0] == m.rows[1] {
        let (g, h, i) = (m.rows[2].x, m.rows[2].y, m.rows[2].z);
        crate::scalar::lemma_times_diff(zero, sum, neg, diff, prod, a, prod(b, i), prod(c, h));
        crate::scalar::lemma_times_diff(zero, sum, neg, diff, prod, b, prod(a, i), prod(c, g));
        crate::scalar::lemma_times_diff(zero, sum, neg, diff, prod, c, prod(a, h), prod(b, g));
        crate::scalar::lemma_prod3(sum, prod, a, b, i);
        crate::scalar::lemma_prod3(sum, prod, a, c, h);
        crate::scalar::lemma_prod3(sum, prod, b, c, g);
        crate::scalar::lemma_cancel_a(zero, sum, neg, diff, prod(a, prod(b, i)), prod(a, prod(c, h)), prod(b, prod(c, g)));
    } else if m.rows[0] == m.rows[2] {
        let (e, f, g) = (m.rows[1].x, m.rows[1].y, m.rows[1].z);
        crate::scalar::lemma_times_diff(zero, sum, neg, diff, prod, a, prod(f, c), prod(g, b));
        crate::scalar::lemma_times_diff(zero, sum, neg, diff, prod, b, prod(e, c), prod(g, a));
        crate::scalar::lemma_times_diff(zero, sum, neg, diff, prod, c, prod(e, b), prod(f, a));
        crate::scalar::lemma_prod3(sum, prod, a, f, c);
        crate::scalar::lemma_prod3(sum, prod, a, g, b);
        crate::scalar::lemma_prod3(sum, prod, b, e, c);
        crate::scalar::lemma_cancel_b(zero, sum, neg, diff, prod(a, prod(f, c)), prod(a, prod(g, b)), prod(b, prod(e, c)));
    } else {
        let (e, f, g) = (m.rows[1].x, m.rows[1].y, m.rows[1].z);
        crate::scalar::lemma_prod3(sum, prod, e, f, zero);
        assert(prod(f, g) == prod(g, f) && prod(e, g) == prod(g, e) && prod(e, f) == prod(f, e)) by {
            reveal(crate::scalar::product_laws);
        }
        crate::scalar::lemma_diff_self(zero, sum, neg, diff, prod(f, g));
        crate::scalar::lemma_diff_self(zero, sum, neg, diff, prod(e, g));
        crate::scalar::lemma_diff_self(zero, sum, neg, diff, prod(e, f));
        crate::scalar::lemma_times_zero(zero, sum, neg, diff, prod, a);
        crate::scalar::lemma_times_zero(zero, sum, neg, diff, prod, b);
        crate::scalar::lemma_times_zero(zero, sum, neg, diff, prod, c);
        crate::scalar::lemma_diff_self(zero, sum, neg, diff, zero);
    }
}

/// A matrix whose second and third rows are equal has determinant `zero`,
/// for a commutative `times` that takes anything times `zero` to `zero`,
/// a `minus` that takes anything minus itself to `zero`, and `zero + zero`
/// equal to `zero`.
pub proof fn lemma_det_equal_rows<T: Copy, A: Fn(T, T) -> T, S: Fn(T, T) -> T, M: Fn(T, T) -> T>(
    plus: A,
    minus: S,
    times: M,
    zero: T,
    m: Matrix3<T>,
    d: T,
)
    requires
        deterministic2(times),
        commutative(times),
        forall|x: T, r: T| call_ensures(times, (x, zero), r) ==> r == zero,
        forall|x: T, r: T| call_ensures(minus, (x, x), r) ==> r == zero,
        forall|r: T| call_ensures(plus, (zero, zero), r) ==> r == zero,
        m.rows[1] == m.rows[2],
        m.is_det3(plus, minus, times, d),
    ensures
        d == zero,
{
    let (c0, c1, c2, t0, t1, t2, s) = choose|c0: T, c1: T, c2: T, t0: T, t1: T, t2: T, s: T|
        is_det2(minus, times, m.at(1, 1), m.at(2, 2), m.at(1, 2), m.at(2, 1), c0)
            && is_det2(minus, times, m.at(1, 0), m.at(2, 2), m.at(1, 2), m.at(2, 0), c1)
            && is_det2(minus, times, m.at(1, 0), m.at(2, 1), m.at(1, 1), m.at(2, 0), c2)
            && call_ensures(times, (m.at(0, 0), c0), t0)
            && call_ensures(times, (m.at(0, 1), c1), t1)
            && call_ensures(times, (m.at(0, 2), c2), t2)
            && call_ensures(minus, (t0, t1), s)
            && call_ensures(plus, (s, t2), d);
    crate::scalar::lemma_det2_of_equal_rows(minus, times, zero, m.at(1, 1), m.at(1, 2), c0);
    crate::scalar::lemma_det2_of_equal_rows(minus, times, zero, m.at(1, 0), m.at(1, 2), c1);
    crate::scalar::lemma_det2_of_equal_rows(minus, times, zero, m.at(1, 0), m.at(1, 1), c2);
}


} // verus!
