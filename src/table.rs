//! Tables: matrices of any size, held row by row in a `Vec<Vec<T>>`.
//!
//! Shapes are checked, never assumed: an operation whose operands do not
//! fit returns an error instead of reading out of bounds.
use vstd::prelude::*;
use crate::error::LinalgError;
use crate::matrix3::{det3_value, Matrix3};
use crate::scalar::{commutative, computes, deterministic2, is_det2, is_dot, ring_laws, total2};
use crate::vector3::Vector3;

verus! {

/// The entries of a table, row by row.
pub open spec fn entries<T>(a: Seq<Vec<T>>) -> Seq<Seq<T>> {
    a.map_values(|r: Vec<T>| r@)
}

/// Every row of `m` has `w` entries.
pub open spec fn has_width<T>(m: Seq<Seq<T>>, w: nat) -> bool {
    forall|i: int| 0 <= i < m.len() ==> #[trigger] m[i].len() == w
}

/// The length of the first row, or 0 for a table without rows.
pub open spec fn width<T>(m: Seq<Seq<T>>) -> nat {
    if m.len() == 0 {
        0
    } else {
        m[0].len()
    }
}

/// All rows of `m` have the same length.
pub open spec fn is_rectangular<T>(m: Seq<Seq<T>>) -> bool {
    has_width(m, width(m))
}

/// `m` has as many entries in each row as it has rows.
pub open spec fn is_square<T>(m: Seq<Seq<T>>) -> bool {
    has_width(m, m.len())
}

/// `m` and `n` have the same number of rows, and rows of equal index have
/// the same length.
pub open spec fn same_shape<T, U>(m: Seq<Seq<T>>, n: Seq<Seq<U>>) -> bool {
    m.len() == n.len() && forall|i: int| 0 <= i < m.len() ==> #[trigger] m[i].len() == n[i].len()
}

/// Column `j` of `m`, top to bottom.
pub open spec fn column<T>(m: Seq<Seq<T>>, j: int) -> Seq<T> {
    Seq::new(m.len(), |k: int| m[k][j])
}

/// The transpose of `m`: row `i` of the result is column `i` of `m`.
pub open spec fn transposed<T>(m: Seq<Seq<T>>) -> Seq<Seq<T>> {
    Seq::new(width(m), |i: int| column(m, i))
}

/// The `n` by `n` table with `one` on the diagonal and `zero` elsewhere.
pub open spec fn identity_table<T>(n: nat, zero: T, one: T) -> Seq<Seq<T>> {
    Seq::new(n, |i: int| Seq::new(n, |j: int| if i == j { one } else { zero }))
}

/// `m` without its first row and without column `col`.
pub open spec fn minor_of<T>(m: Seq<Seq<T>>, col: int) -> Seq<Seq<T>> {
    Seq::new((m.len() - 1) as nat, |j: int| m[j + 1].remove(col))
}

/// `d` is a value of the determinant of `m` under the given operations:
/// the closed form `m00 * m11 - m01 * m10` for a 2 by 2 table, and for a
/// larger one the cofactor expansion along the first row. Tables of fewer
/// than two rows have no value here.
pub open spec fn is_determinant<T, A: Fn(T, T) -> T, S: Fn(T, T) -> T, M: Fn(T, T) -> T>(
    zero: T,
    plus: A,
    minus: S,
    times: M,
    m: Seq<Seq<T>>,
    d: T,
) -> bool {
    if m.len() < 2 {
        false
    } else if m.len() == 2 {
        is_det2(minus, times, m[0][0], m[1][1], m[0][1], m[1][0], d)
    } else {
        is_expansion(zero, plus, minus, times, m, m.len(), d)
    }
}

/// `acc` is a value of the first `k` terms of the cofactor expansion of `m`
/// along its first row, summed left to right from `zero`: term `i` is
/// `m[0][i]` times the determinant of `minor_of(m, i)`, added for even `i`
/// and subtracted for odd `i`. Only tables of three or more rows have an
/// expansion here.
pub open spec fn is_expansion<T, A: Fn(T, T) -> T, S: Fn(T, T) -> T, M: Fn(T, T) -> T>(
    zero: T,
    plus: A,
    minus: S,
    times: M,
    m: Seq<Seq<T>>,
    k: nat,
    acc: T,
) -> bool
    decreases m.len(), k,
{
    if m.len() < 3 {
        false
    } else if k == 0 {
        acc == zero
    } else {
        let i = k - 1;
        let sub = minor_of(m, i);
        exists|prev: T, sub_det: T, p: T|
            #![trigger call_ensures(times, (m[0][i], sub_det), p), signed_step(plus, minus, i, prev, p, acc)]
            is_expansion(zero, plus, minus, times, m, i as nat, prev)
                && (if sub.len() == 2 {
                    is_det2(minus, times, sub[0][0], sub[1][1], sub[0][1], sub[1][0], sub_det)
                } else {
                    is_expansion(zero, plus, minus, times, sub, sub.len(), sub_det)
                })
                && call_ensures(times, (m[0][i], sub_det), p)
                && signed_step(plus, minus, i, prev, p, acc)
    }
}

/// `acc` is `prev + p` for even `i` and `prev - p` for odd `i`.
pub open spec fn signed_step<T, A: Fn(T, T) -> T, S: Fn(T, T) -> T>(
    plus: A,
    minus: S,
    i: int,
    prev: T,
    p: T,
    acc: T,
) -> bool {
    if i % 2 == 0 {
        call_ensures(plus, (prev, p), acc)
    } else {
        call_ensures(minus, (prev, p), acc)
    }
}

/// `c` is a value of the matrix product of `a` and `b`: it has the rows of
/// `a` and the width of `b`, and entry `(i, j)` is row `i` of `a` dotted
/// with column `j` of `b`.
pub open spec fn is_product<T, A: Fn(T, T) -> T, M: Fn(T, T) -> T>(
    zero: T,
    plus: A,
    times: M,
    a: Seq<Seq<T>>,
    b: Seq<Seq<T>>,
    c: Seq<Seq<T>>,
) -> bool {
    &&& c.len() == a.len()
    &&& has_width(c, width(b))
    &&& forall|i: int, j: int|
        0 <= i < c.len() && 0 <= j < width(b) ==> is_dot(zero, plus, times, a[i], column(b, j), #[trigger] c[i][j])
}

/// The number of entries in each row, when all rows agree.
pub fn width_of<T>(a: &Vec<Vec<T>>) -> (r: Result<usize, LinalgError>)
    ensures
        is_rectangular(entries(a@)) ==> (r matches Ok(w) && w == width(entries(a@))),
        !is_rectangular(entries(a@)) ==> r == Err::<usize, LinalgError>(LinalgError::Ragged),
{
    let ghost m = entries(a@);
    if a.len() == 0 {
        return Ok(0);
    }
    let w = a[0].len();
    let mut i: usize = 1;
    while i < a.len()
        invariant
            m == entries(a@),
            1 <= i <= a.len(),
            w == m[0].len(),
            forall|k: int| 0 <= k < i ==> #[trigger] m[k].len() == w,
        decreases a.len() - i,
    {
        if a[i].len() != w {
            assert(m[i as int].len() != width(m));
            return Err(LinalgError::Ragged);
        }
        i += 1;
    }
    Ok(w)
}

/// The transpose of a non-empty rectangular table: entry `(i, j)` of the
/// result is entry `(j, i)` of `a`. A table without rows, whose width is
/// unknown, and a ragged table are refused.
pub fn transpose<T: Copy>(a: &Vec<Vec<T>>) -> (r: Result<Vec<Vec<T>>, LinalgError>)
    ensures
        a.len() == 0 ==> r == Err::<Vec<Vec<T>>, LinalgError>(LinalgError::Empty),
        a.len() > 0 && is_rectangular(entries(a@)) ==> (r matches Ok(t) && entries(t@) == transposed(entries(a@))),
        a.len() > 0 && !is_rectangular(entries(a@)) ==> r == Err::<Vec<Vec<T>>, LinalgError>(LinalgError::Ragged),
{
    let ghost m = entries(a@);
    if a.len() == 0 {
        return Err(LinalgError::Empty);
    }
    let w = match width_of(a) {
        Ok(w) => w,
        Err(e) => return Err(e),
    };
    let n = a.len();
    let mut r: Vec<Vec<T>> = Vec::new();
    let mut i: usize = 0;
    while i < w
        invariant
            m == entries(a@),
            n == a.len(),
            w == width(m),
            has_width(m, w as nat),
            0 <= i <= w,
            r.len() == i,
            forall|t: int| 0 <= t < i ==> (#[trigger] r@[t])@ == column(m, t),
        decreases w - i,
    {
        let mut row: Vec<T> = Vec::new();
        let mut j: usize = 0;
        while j < n
            invariant
                m == entries(a@),
                n == a.len(),
                has_width(m, w as nat),
                0 <= i < w,
                0 <= j <= n,
                row@ == column(m, i as int).take(j as int),
            decreases n - j,
        {
            assert(m[j as int].len() == w);
            row.push(a[j][i]);
            assert(column(m, i as int).take(j + 1) =~= column(m, i as int).take(j as int).push(m[j as int][i as int]));
            j += 1;
        }
        assert(column(m, i as int).take(n as int) =~= column(m, i as int));
        r.push(row);
        i += 1;
    }
    assert(entries(r@) =~= transposed(m));
    Ok(r)
}

/// The `n` by `n` identity table over the given `zero` and `one`.
pub fn identity_with<T: Copy>(n: usize, zero: T, one: T) -> (r: Vec<Vec<T>>)
    ensures
        entries(r@) == identity_table(n as nat, zero, one),
{
    let ghost id = identity_table(n as nat, zero, one);
    let mut r: Vec<Vec<T>> = Vec::new();
    let mut i: usize = 0;
    while i < n
        invariant
            id == identity_table(n as nat, zero, one),
            0 <= i <= n,
            r.len() == i,
            forall|t: int| 0 <= t < i ==> (#[trigger] r@[t])@ == id[t],
        decreases n - i,
    {
        let mut row: Vec<T> = Vec::new();
        let mut j: usize = 0;
        while j < n
            invariant
                id == identity_table(n as nat, zero, one),
                0 <= i < n,
                0 <= j <= n,
                row@ == id[i as int].take(j as int),
            decreases n - j,
        {
            if i == j {
                row.push(one);
            } else {
                row.push(zero);
            }
            assert(id[i as int].take(j + 1) =~= id[i as int].take(j as int).push(id[i as int][j as int]));
            j += 1;
        }
        assert(id[i as int].take(n as int) =~= id[i as int]);
        r.push(row);
        i += 1;
    }
    assert(entries(r@) =~= id);
    r
}

/// Combines two tables of the same shape entry by entry with `f`; tables
/// of different shapes are refused.
pub fn zip_entries<T: Copy, F: Fn(T, T) -> T>(a: &Vec<Vec<T>>, b: &Vec<Vec<T>>, f: &F) -> (r: Result<Vec<Vec<T>>, LinalgError>)
    requires
        total2(*f),
    ensures
        same_shape(entries(a@), entries(b@)) <==> r is Ok,
        !same_shape(entries(a@), entries(b@)) ==> r == Err::<Vec<Vec<T>>, LinalgError>(LinalgError::ShapeMismatch),
        r matches Ok(c) ==> {
            &&& same_shape(entries(c@), entries(a@))
            &&& forall|i: int, j: int|
                0 <= i < a.len() && 0 <= j < a@[i].len()
                    ==> call_ensures(*f, (a@[i]@[j], b@[i]@[j]), #[trigger] c@[i]@[j])
        },
{
    let ghost ma = entries(a@);
    let ghost mb = entries(b@);
    if a.len() != b.len() {
        return Err(LinalgError::ShapeMismatch);
    }
    let n = a.len();
    let mut r: Vec<Vec<T>> = Vec::new();
    let mut i: usize = 0;
    while i < n
        invariant
            ma == entries(a@),
            mb == entries(b@),
            n == a.len(),
            n == b.len(),
            total2(*f),
            0 <= i <= n,
            r.len() == i,
            forall|t: int| 0 <= t < i ==> ma[t].len() == #[trigger] mb[t].len(),
            forall|t: int| 0 <= t < i ==> (#[trigger] r@[t])@.len() == a@[t]@.len(),
            forall|t: int, j: int|
                0 <= t < i && 0 <= j < a@[t].len() ==> call_ensures(*f, (a@[t]@[j], b@[t]@[j]), #[trigger] r@[t]@[j]),
        decreases n - i,
    {
        if a[i].len() != b[i].len() {
            assert(ma[i as int].len() != mb[i as int].len());
            return Err(LinalgError::ShapeMismatch);
        }
        let w = a[i].len();
        let mut row: Vec<T> = Vec::new();
        let mut j: usize = 0;
        while j < w
            invariant
                n == a.len(),
                n == b.len(),
                0 <= i < n,
                w == a@[i as int].len(),
                w == b@[i as int].len(),
                total2(*f),
                0 <= j <= w,
                row.len() == j,
                forall|k: int| 0 <= k < j ==> call_ensures(*f, (a@[i as int]@[k], b@[i as int]@[k]), #[trigger] row@[k]),
            decreases w - j,
        {
            let v = f(a[i][j], b[i][j]);
            row.push(v);
            j += 1;
        }
        r.push(row);
        i += 1;
    }
    proof {
        assert(same_shape(ma, mb));
        assert(same_shape(entries(r@), ma));
    }
    Ok(r)
}

/// Applies `f` to every entry of a table.
pub fn map_entries<T: Copy, F: Fn(T) -> T>(a: &Vec<Vec<T>>, f: &F) -> (r: Vec<Vec<T>>)
    requires
        forall|x: T| call_requires(*f, (x,)),
    ensures
        same_shape(entries(r@), entries(a@)),
        forall|i: int, j: int|
            0 <= i < a.len() && 0 <= j < a@[i].len() ==> call_ensures(*f, (a@[i]@[j],), #[trigger] r@[i]@[j]),
{
    let n = a.len();
    let mut r: Vec<Vec<T>> = Vec::new();
    let mut i: usize = 0;
    while i < n
        invariant
            n == a.len(),
            forall|x: T| call_requires(*f, (x,)),
            0 <= i <= n,
            r.len() == i,
            forall|t: int| 0 <= t < i ==> (#[trigger] r@[t])@.len() == a@[t]@.len(),
            forall|t: int, j: int|
                0 <= t < i && 0 <= j < a@[t].len() ==> call_ensures(*f, (a@[t]@[j],), #[trigger] r@[t]@[j]),
        decreases n - i,
    {
        let w = a[i].len();
        let mut row: Vec<T> = Vec::new();
        let mut j: usize = 0;
        while j < w
            invariant
                n == a.len(),
                0 <= i < n,
                w == a@[i as int].len(),
                forall|x: T| call_requires(*f, (x,)),
                0 <= j <= w,
                row.len() == j,
                forall|k: int| 0 <= k < j ==> call_ensures(*f, (a@[i as int]@[k],), #[trigger] row@[k]),
            decreases w - j,
        {
            let v = f(a[i][j]);
            row.push(v);
            j += 1;
        }
        r.push(row);
        i += 1;
    }
    r
}

/// The matrix product of `a` and `b`, with the scalar arithmetic done by
/// `zero`, `plus` and `times`: entry `(i, j)` is row `i` of `a` dotted with
/// column `j` of `b`. `b` must be rectangular with at least one row, and
/// every row of `a` must have as many entries as `b` has rows.
pub fn product_with<T: Copy, A: Fn(T, T) -> T, M: Fn(T, T) -> T>(
    a: &Vec<Vec<T>>,
    b: &Vec<Vec<T>>,
    zero: T,
    plus: &A,
    times: &M,
) -> (r: Result<Vec<Vec<T>>, LinalgError>)
    requires
        total2(*plus),
        total2(*times),
    ensures
        (b.len() > 0 && is_rectangular(entries(b@)) && has_width(entries(a@), b.len() as nat)) <==> r is Ok,
        !is_rectangular(entries(b@)) ==> r == Err::<Vec<Vec<T>>, LinalgError>(LinalgError::Ragged),
        b.len() == 0 ==> r == Err::<Vec<Vec<T>>, LinalgError>(LinalgError::Empty),
        b.len() > 0 && is_rectangular(entries(b@)) && !has_width(entries(a@), b.len() as nat)
            ==> r == Err::<Vec<Vec<T>>, LinalgError>(LinalgError::ShapeMismatch),
        r matches Ok(c) ==> is_product(zero, *plus, *times, entries(a@), entries(b@), entries(c@)),
{
    let ghost ma = entries(a@);
    let ghost mb = entries(b@);
    if b.len() == 0 {
        return Err(LinalgError::Empty);
    }
    let w = match width_of(b) {
        Ok(w) => w,
        Err(e) => return Err(e),
    };
    let n = a.len();
    let inner = b.len();
    let mut i: usize = 0;
    while i < n
        invariant
            ma == entries(a@),
            mb == entries(b@),
            is_rectangular(mb),
            n == a.len(),
            inner == b.len(),
            inner > 0,
            0 <= i <= n,
            forall|t: int| 0 <= t < i ==> #[trigger] ma[t].len() == inner,
        decreases n - i,
    {
        if a[i].len() != inner {
            assert(ma[i as int].len() != inner);
            return Err(LinalgError::ShapeMismatch);
        }
        i += 1;
    }
    let mut r: Vec<Vec<T>> = Vec::new();
    let mut i: usize = 0;
    while i < n
        invariant
            ma == entries(a@),
            mb == entries(b@),
            n == a.len(),
            inner == b.len(),
            w == width(mb),
            has_width(mb, w as nat),
            has_width(ma, inner as nat),
            total2(*plus),
            total2(*times),
            0 <= i <= n,
            r.len() == i,
            forall|t: int| 0 <= t < i ==> (#[trigger] r@[t])@.len() == w,
            forall|t: int, j: int|
                0 <= t < i && 0 <= j < w ==> is_dot(zero, *plus, *times, a@[t]@, column(mb, j), #[trigger] r@[t]@[j]),
        decreases n - i,
    {
        let mut row: Vec<T> = Vec::new();
        let mut j: usize = 0;
        while j < w
            invariant
                ma == entries(a@),
                mb == entries(b@),
                n == a.len(),
                inner == b.len(),
                has_width(mb, w as nat),
                has_width(ma, inner as nat),
                total2(*plus),
                total2(*times),
                0 <= i < n,
                0 <= j <= w,
                row.len() == j,
                forall|k: int| 0 <= k < j ==> is_dot(zero, *plus, *times, a@[i as int]@, column(mb, k), #[trigger] row@[k]),
            decreases w - j,
        {
            assert(ma[i as int].len() == inner);
            assert forall|k: int| 0 <= k < b.len() implies j < (#[trigger] b@[k])@.len() by {
                assert(mb[k].len() == w);
            }
            let v = row_times_column(&a[i], b, j, zero, plus, times);
            row.push(v);
            j += 1;
        }
        r.push(row);
        i += 1;
    }
    assert(has_width(entries(r@), width(mb)));
    assert forall|i: int, j: int| 0 <= i < r.len() && 0 <= j < width(mb) implies is_dot(
        zero,
        *plus,
        *times,
        ma[i],
        column(mb, j),
        #[trigger] entries(r@)[i][j],
    ) by {
        assert(r@[i]@[j] == entries(r@)[i][j]);
    }
    Ok(r)
}

/// Row `x` dotted with column `j` of `b`.
fn row_times_column<T: Copy, A: Fn(T, T) -> T, M: Fn(T, T) -> T>(
    x: &Vec<T>,
    b: &Vec<Vec<T>>,
    j: usize,
    zero: T,
    plus: &A,
    times: &M,
) -> (r: T)
    requires
        x.len() == b.len(),
        forall|k: int| 0 <= k < b.len() ==> j < (#[trigger] b@[k])@.len(),
        total2(*plus),
        total2(*times),
    ensures
        is_dot(zero, *plus, *times, x@, column(entries(b@), j as int), r),
{
    let ghost ys = column(entries(b@), j as int);
    let mut acc = zero;
    let mut k: usize = 0;
    assert(x@.take(0) =~= Seq::<T>::empty());
    while k < x.len()
        invariant
            ys == column(entries(b@), j as int),
            x.len() == b.len(),
            forall|t: int| 0 <= t < b.len() ==> j < (#[trigger] b@[t])@.len(),
            total2(*plus),
            total2(*times),
            0 <= k <= x.len(),
            is_dot(zero, *plus, *times, x@.take(k as int), ys, acc),
        decreases x.len() - k,
    {
        assert(j < b@[k as int]@.len());
        let p = times(x[k], b[k][j]);
        let prev = acc;
        acc = plus(prev, p);
        proof {
            let xs = x@.take(k + 1);
            assert(xs.len() == k + 1);
            assert(xs.take(k as int) =~= x@.take(k as int));
            assert(xs[k as int] == x@[k as int]);
            assert(ys[k as int] == b@[k as int]@[j as int]);
            assert(call_ensures(*times, (xs[k as int], ys[k as int]), p));
            assert(call_ensures(*plus, (prev, p), acc));
            let kk: int = xs.len() - 1;
            assert(kk == k);
            assert(is_dot(zero, *plus, *times, xs.take(kk), ys, prev) && call_ensures(*times, (xs[kk], ys[kk]), p)
                && call_ensures(*plus, (prev, p), acc));
            assert(is_dot(zero, *plus, *times, xs, ys, acc));
        }
        k += 1;
    }
    assert(x@.take(x.len() as int) =~= x@);
    acc
}

/// The table `a` without its first row and without column `col`.
pub fn minor<T: Copy>(a: &Vec<Vec<T>>, col: usize) -> (r: Vec<Vec<T>>)
    requires
        is_square(entries(a@)),
        col < a.len(),
    ensures
        entries(r@) == minor_of(entries(a@), col as int),
        is_square(entries(r@)),
{
    let ghost m = entries(a@);
    let n = a.len();
    let mut r: Vec<Vec<T>> = Vec::new();
    let mut j: usize = 1;
    while j < n
        invariant
            m == entries(a@),
            is_square(m),
            n == a.len(),
            col < n,
            1 <= j <= n,
            r.len() == j - 1,
            forall|t: int| 0 <= t < j - 1 ==> (#[trigger] r@[t])@ == m[t + 1].remove(col as int),
        decreases n - j,
    {
        let mut row: Vec<T> = Vec::new();
        let mut k: usize = 0;
        assert(m[j as int].len() == n);
        while k < n
            invariant
                m == entries(a@),
                n == a.len(),
                a@[j as int]@ == m[j as int],
                m[j as int].len() == n,
                col < n,
                1 <= j < n,
                0 <= k <= n,
                row@ == (if k <= col { m[j as int].take(k as int) } else { m[j as int].take(k as int).remove(col as int) }),
            decreases n - k,
        {
            if k != col {
                row.push(a[j][k]);
            }
            proof {
                let s = m[j as int];
                if k < col {
                    assert(s.take(k + 1) =~= s.take(k as int).push(s[k as int]));
                } else if k == col {
                    assert(s.take(k + 1).remove(col as int) =~= s.take(k as int));
                } else {
                    assert(s.take(k + 1).remove(col as int) =~= s.take(k as int).remove(col as int).push(s[k as int]));
                }
            }
            k += 1;
        }
        assert(m[j as int].take(n as int) =~= m[j as int]);
        r.push(row);
        j += 1;
    }
    proof {
        let mr = minor_of(m, col as int);
        assert(entries(r@) =~= mr);
        assert forall|t: int| 0 <= t < mr.len() implies #[trigger] mr[t].len() == mr.len() by {
            assert(m[t + 1].len() == n);
        }
    }
    r
}

/// The determinant of a square table of order 2 or more, by cofactor
/// expansion along the first row down to the closed form for 2 by 2
/// tables; the arithmetic is done with `zero`, `plus`, `minus` and `times`.
/// A table of fewer than two rows is refused. The work grows with the
/// factorial of the order, so it suits small tables only.
pub fn determinant_with<T: Copy, A: Fn(T, T) -> T, S: Fn(T, T) -> T, M: Fn(T, T) -> T>(
    a: &Vec<Vec<T>>,
    zero: T,
    plus: &A,
    minus: &S,
    times: &M,
) -> (r: Result<T, LinalgError>)
    requires
        total2(*plus),
        total2(*minus),
        total2(*times),
    ensures
        (a.len() >= 2 && is_square(entries(a@))) <==> r is Ok,
        r matches Ok(d) ==> is_determinant(zero, *plus, *minus, *times, entries(a@), d),
        a.len() < 2 ==> r == Err::<T, LinalgError>(LinalgError::TooSmall),
        a.len() >= 2 && !is_square(entries(a@)) ==> r == Err::<T, LinalgError>(LinalgError::NotSquare),
{
    let n = a.len();
    if n < 2 {
        return Err(LinalgError::TooSmall);
    }
    let mut i: usize = 0;
    while i < n
        invariant
            n == a.len(),
            n >= 2,
            0 <= i <= n,
            forall|k: int| 0 <= k < i ==> #[trigger] entries(a@)[k].len() == n,
        decreases n - i,
    {
        if a[i].len() != n {
            assert(entries(a@)[i as int].len() != n);
            return Err(LinalgError::NotSquare);
        }
        i += 1;
    }
    Ok(square_determinant(a, zero, plus, minus, times))
}

fn square_determinant<T: Copy, A: Fn(T, T) -> T, S: Fn(T, T) -> T, M: Fn(T, T) -> T>(
    a: &Vec<Vec<T>>,
    zero: T,
    plus: &A,
    minus: &S,
    times: &M,
) -> (d: T)
    requires
        a.len() >= 2,
        is_square(entries(a@)),
        total2(*plus),
        total2(*minus),
        total2(*times),
    ensures
        is_determinant(zero, *plus, *minus, *times, entries(a@), d),
    decreases a.len(),
{
    let ghost m = entries(a@);
    let n = a.len();
    if n == 2 {
        assert(m[0].len() == 2 && m[1].len() == 2);
        return crate::scalar::det2_with(minus, times, a[0][0], a[1][1], a[0][1], a[1][0]);
    }
    let mut acc = zero;
    let mut i: usize = 0;
    while i < n
        invariant
            m == entries(a@),
            is_square(m),
            n == a.len(),
            n >= 3,
            0 <= i <= n,
            total2(*plus),
            total2(*minus),
            total2(*times),
            is_expansion(zero, *plus, *minus, *times, m, i as nat, acc),
        decreases n - i,
    {
        let sub_table = minor(a, i);
        let sub_det = square_determinant(&sub_table, zero, plus, minus, times);
        assert(m[0].len() == n);
        let p = times(a[0][i], sub_det);
        let prev = acc;
        if i % 2 == 0 {
            acc = plus(prev, p);
        } else {
            acc = minus(prev, p);
        }
        proof {
            let k = (i + 1) as nat;
            assert(k - 1 == i);
            assert(m.len() == n);
            assert(a@[0]@[i as int] == m[0][i as int]);
            let step = is_expansion(zero, *plus, *minus, *times, m, i as nat, prev)
                && is_determinant(zero, *plus, *minus, *times, minor_of(m, i as int), sub_det)
                && call_ensures(*times, (m[0][i as int], sub_det), p)
                && signed_step(*plus, *minus, i as int, prev, p, acc);
            assert(step);
            assert(is_expansion(zero, *plus, *minus, *times, m, k, acc));
        }
        i += 1;
    }
    acc
}

/// Multiplying by the identity on the left gives back the other factor,
/// for operations where `one` and `zero` act as units:
/// `identity(n) * m == m` for every rectangular `m` of `n` rows.
pub proof fn lemma_identity_product<T, A: Fn(T, T) -> T, M: Fn(T, T) -> T>(
    zero: T,
    one: T,
    plus: A,
    times: M,
    m: Seq<Seq<T>>,
    c: Seq<Seq<T>>,
)
    requires
        forall|x: T, r: T| call_ensures(times, (one, x), r) ==> r == x,
        forall|x: T, r: T| call_ensures(times, (zero, x), r) ==> r == zero,
        forall|x: T, r: T| call_ensures(plus, (zero, x), r) ==> r == x,
        forall|x: T, r: T| call_ensures(plus, (x, zero), r) ==> r == x,
        is_rectangular(m),
        is_product(zero, plus, times, identity_table(m.len(), zero, one), m, c),
    ensures
        c == m,
{
    let n = m.len();
    let id = identity_table(n, zero, one);
    assert forall|i: int| 0 <= i < n implies #[trigger] c[i] == m[i] by {
        assert forall|j: int| 0 <= j < width(m) implies #[trigger] c[i][j] == m[i][j] by {
            assert(id[i].take(n as int) =~= id[i]);
            assert(is_dot(zero, plus, times, id[i], column(m, j), c[i][j]));
            lemma_unit_row_dot(zero, one, plus, times, n, i, column(m, j), n, c[i][j]);
        }
        assert(c[i] =~= m[i]);
    }
    assert(c =~= m);
}

/// A 3 by 3 table with two equal rows has determinant `zero`, when `plus`,
/// `minus` and `times` compute the operations `sum`, `diff` and `prod` of
/// a commutative ring with zero `zero`.
pub proof fn lemma_determinant_repeated_row<T: Copy, A: Fn(T, T) -> T, S: Fn(T, T) -> T, M: Fn(T, T) -> T>(
    zero: T,
    plus: A,
    minus: S,
    times: M,
    sum: spec_fn(T, T) -> T,
    neg: spec_fn(T) -> T,
    diff: spec_fn(T, T) -> T,
    prod: spec_fn(T, T) -> T,
    m: Seq<Seq<T>>,
    d: T,
)
    requires
        computes(plus, sum),
        computes(minus, diff),
        computes(times, prod),
        ring_laws(zero, sum, neg, diff, prod),
        m.len() == 3,
        is_square(m),
        m[0] == m[1] || m[0] == m[2] || m[1] == m[2],
        is_determinant(zero, plus, minus, times, m, d),
    ensures
        d == zero,
{
    let (prev2, sd2, p2) = lemma_expansion_step(zero, plus, minus, times, m, 3, d);
    let (prev1, sd1, p1) = lemma_expansion_step(zero, plus, minus, times, m, 2, prev2);
    let (prev0, sd0, p0) = lemma_expansion_step(zero, plus, minus, times, m, 1, prev1);
    assert(prev0 == zero);
    assert(m[0].len() == 3 && m[1].len() == 3 && m[2].len() == 3);
    let n0 = minor_of(m, 0);
    let n1 = minor_of(m, 1);
    let n2 = minor_of(m, 2);
    assert(n0[0] =~= seq![m[1][1], m[1][2]] && n0[1] =~= seq![m[2][1], m[2][2]]);
    assert(n1[0] =~= seq![m[1][0], m[1][2]] && n1[1] =~= seq![m[2][0], m[2][2]]);
    assert(n2[0] =~= seq![m[1][0], m[1][1]] && n2[1] =~= seq![m[2][0], m[2][1]]);
    crate::scalar::lemma_det2_value(minus, times, diff, prod, n0[0][0], n0[1][1], n0[0][1], n0[1][0], sd0);
    crate::scalar::lemma_det2_value(minus, times, diff, prod, n1[0][0], n1[1][1], n1[0][1], n1[1][0], sd1);
    crate::scalar::lemma_det2_value(minus, times, diff, prod, n2[0][0], n2[1][1], n2[0][1], n2[1][0], sd2);
    crate::scalar::lemma_zero_sum(zero, sum, neg, diff, p0);
    let row = |i: int| Vector3 { x: m[i][0], y: m[i][1], z: m[i][2] };
    let mm = Matrix3 { rows: [row(0), row(1), row(2)] };
    assert(d == det3_value(sum, diff, prod, mm));
    assert(mm.rows[0] == mm.rows[1] || mm.rows[0] == mm.rows[2] || mm.rows[1] == mm.rows[2]);
    crate::matrix3::lemma_det3_value_repeated_row(zero, sum, neg, diff, prod, mm);
}

/// One step of the cofactor expansion: the first `k` terms are the first
/// `k - 1` and term `k - 1`.
proof fn lemma_expansion_step<T, A: Fn(T, T) -> T, S: Fn(T, T) -> T, M: Fn(T, T) -> T>(
    zero: T,
    plus: A,
    minus: S,
    times: M,
    m: Seq<Seq<T>>,
    k: nat,
    acc: T,
) -> (w: (T, T, T))
    requires
        m.len() >= 3,
        0 < k,
        is_expansion(zero, plus, minus, times, m, k, acc),
    ensures
        is_expansion(zero, plus, minus, times, m, (k - 1) as nat, w.0),
        is_determinant(zero, plus, minus, times, minor_of(m, k - 1), w.1),
        call_ensures(times, (m[0][k - 1], w.1), w.2),
        signed_step(plus, minus, k - 1, w.0, w.2, acc),
{
    let i: int = k - 1;
    let sub = minor_of(m, i);
    let (prev, sub_det, p) = choose|prev: T, sub_det: T, p: T|
        #![trigger call_ensures(times, (m[0][i], sub_det), p), signed_step(plus, minus, i, prev, p, acc)]
        is_expansion(zero, plus, minus, times, m, i as nat, prev)
            && (if sub.len() == 2 {
                is_det2(minus, times, sub[0][0], sub[1][1], sub[0][1], sub[1][0], sub_det)
            } else {
                is_expansion(zero, plus, minus, times, sub, sub.len(), sub_det)
            })
            && call_ensures(times, (m[0][i], sub_det), p)
            && signed_step(plus, minus, i, prev, p, acc);
    (prev, sub_det, p)
}

/// A 3 by 3 table whose second and third rows are equal has determinant
/// `zero`, for a commutative `times` that takes anything times `zero` to
/// `zero`, a `minus` that takes anything minus itself to `zero`, and
/// `zero + zero` equal to `zero`.
pub proof fn lemma_determinant_equal_rows<T, A: Fn(T, T) -> T, S: Fn(T, T) -> T, M: Fn(T, T) -> T>(
    zero: T,
    plus: A,
    minus: S,
    times: M,
    m: Seq<Seq<T>>,
    d: T,
)
    requires
        deterministic2(times),
        commutative(times),
        forall|x: T, r: T| call_ensures(times, (x, zero), r) ==> r == zero,
        forall|x: T, r: T| call_ensures(minus, (x, x), r) ==> r == zero,
        forall|r: T| call_ensures(plus, (zero, zero), r) ==> r == zero,
        m.len() == 3,
        is_square(m),
        m[1] == m[2],
        is_determinant(zero, plus, minus, times, m, d),
    ensures
        d == zero,
{
    lemma_expansion_equal_rows(zero, plus, minus, times, m, 3, d);
}

proof fn lemma_expansion_equal_rows<T, A: Fn(T, T) -> T, S: Fn(T, T) -> T, M: Fn(T, T) -> T>(
    zero: T,
    plus: A,
    minus: S,
    times: M,
    m: Seq<Seq<T>>,
    k: nat,
    acc: T,
)
    requires
        deterministic2(times),
        commutative(times),
        forall|x: T, r: T| call_ensures(times, (x, zero), r) ==> r == zero,
        forall|x: T, r: T| call_ensures(minus, (x, x), r) ==> r == zero,
        forall|r: T| call_ensures(plus, (zero, zero), r) ==> r == zero,
        m.len() == 3,
        is_square(m),
        m[1] == m[2],
        k <= 3,
        is_expansion(zero, plus, minus, times, m, k, acc),
    ensures
        acc == zero,
    decreases k,
{
    if k > 0 {
        let i: int = k - 1;
        let sub = minor_of(m, i);
        let (prev, sub_det, p) = choose|prev: T, sub_det: T, p: T|
            #![trigger call_ensures(times, (m[0][i], sub_det), p), signed_step(plus, minus, i, prev, p, acc)]
            is_expansion(zero, plus, minus, times, m, i as nat, prev)
                && (if sub.len() == 2 {
                    is_det2(minus, times, sub[0][0], sub[1][1], sub[0][1], sub[1][0], sub_det)
                } else {
                    is_expansion(zero, plus, minus, times, sub, sub.len(), sub_det)
                })
                && call_ensures(times, (m[0][i], sub_det), p)
                && signed_step(plus, minus, i, prev, p, acc);
        lemma_expansion_equal_rows(zero, plus, minus, times, m, i as nat, prev);
        assert(sub.len() == 2);
        assert(m[1].len() == 3);
        assert(sub[0] == sub[1]);
        crate::scalar::lemma_det2_of_equal_rows(minus, times, zero, sub[0][0], sub[0][1], sub_det);
    }
}

/// Multiplying by the identity on the right gives back the other factor,
/// for operations where `one` and `zero` act as units:
/// `m * identity(w) == m` for every rectangular `m` of width `w`.
pub proof fn lemma_product_identity<T, A: Fn(T, T) -> T, M: Fn(T, T) -> T>(
    zero: T,
    one: T,
    plus: A,
    times: M,
    m: Seq<Seq<T>>,
    c: Seq<Seq<T>>,
)
    requires
        forall|x: T, r: T| call_ensures(times, (x, one), r) ==> r == x,
        forall|x: T, r: T| call_ensures(times, (x, zero), r) ==> r == zero,
        forall|x: T, r: T| call_ensures(plus, (zero, x), r) ==> r == x,
        forall|x: T, r: T| call_ensures(plus, (x, zero), r) ==> r == x,
        is_rectangular(m),
        is_product(zero, plus, times, m, identity_table(width(m), zero, one), c),
    ensures
        c == m,
{
    let w = width(m);
    let id = identity_table(w, zero, one);
    assert(width(id) == w);
    assert forall|i: int| 0 <= i < m.len() implies #[trigger] c[i] == m[i] by {
        assert(m[i].len() == w);
        assert(c[i].len() == w);
        assert forall|j: int| 0 <= j < w implies #[trigger] c[i][j] == m[i][j] by {
            assert(m[i].take(w as int) =~= m[i]);
            assert(is_dot(zero, plus, times, m[i], column(id, j), c[i][j]));
            lemma_dot_unit_column(zero, one, plus, times, w, j, m[i], w, c[i][j]);
        }
        assert(c[i] =~= m[i]);
    }
    assert(c =~= m);
}

/// A dot product of a prefix of `xs` with column `j` of the identity picks
/// out entry `j` of `xs`, once the prefix reaches it.
proof fn lemma_dot_unit_column<T, A: Fn(T, T) -> T, M: Fn(T, T) -> T>(
    zero: T,
    one: T,
    plus: A,
    times: M,
    n: nat,
    j: int,
    xs: Seq<T>,
    k: nat,
    acc: T,
)
    requires
        forall|x: T, r: T| call_ensures(times, (x, one), r) ==> r == x,
        forall|x: T, r: T| call_ensures(times, (x, zero), r) ==> r == zero,
        forall|x: T, r: T| call_ensures(plus, (zero, x), r) ==> r == x,
        forall|x: T, r: T| call_ensures(plus, (x, zero), r) ==> r == x,
        0 <= j < n,
        k <= n,
        xs.len() == n,
        is_dot(zero, plus, times, xs.take(k as int), column(identity_table(n, zero, one), j), acc),
    ensures
        acc == (if j < k { xs[j] } else { zero }),
    decreases k,
{
    let ys = column(identity_table(n, zero, one), j);
    let pre = xs.take(k as int);
    if k > 0 {
        let kk: int = k - 1;
        assert(pre.take(kk) =~= xs.take(kk));
        let (prev, p) = choose|prev: T, p: T|
            #![trigger call_ensures(times, (pre[kk], ys[kk]), p), call_ensures(plus, (prev, p), acc)]
            is_dot(zero, plus, times, pre.take(kk), ys, prev) && call_ensures(times, (pre[kk], ys[kk]), p)
                && call_ensures(plus, (prev, p), acc);
        lemma_dot_unit_column(zero, one, plus, times, n, j, xs, kk as nat, prev);
        if kk == j {
            assert(ys[kk] == one);
        } else {
            assert(ys[kk] == zero);
        }
    }
}

/// A dot product whose left operand is a prefix of row `i` of the identity
/// picks out entry `i` of the right operand, once the prefix reaches it.
proof fn lemma_unit_row_dot<T, A: Fn(T, T) -> T, M: Fn(T, T) -> T>(
    zero: T,
    one: T,
    plus: A,
    times: M,
    n: nat,
    i: int,
    ys: Seq<T>,
    k: nat,
    acc: T,
)
    requires
        forall|x: T, r: T| call_ensures(times, (one, x), r) ==> r == x,
        forall|x: T, r: T| call_ensures(times, (zero, x), r) ==> r == zero,
        forall|x: T, r: T| call_ensures(plus, (zero, x), r) ==> r == x,
        forall|x: T, r: T| call_ensures(plus, (x, zero), r) ==> r == x,
        0 <= i < n,
        k <= n,
        ys.len() == n,
        is_dot(zero, plus, times, identity_table(n, zero, one)[i].take(k as int), ys, acc),
    ensures
        acc == (if i < k { ys[i] } else { zero }),
    decreases k,
{
    let row = identity_table(n, zero, one)[i];
    let xs = row.take(k as int);
    if k > 0 {
        let kk: int = k - 1;
        assert(xs.take(kk) =~= row.take(kk));
        let (prev, p) = choose|prev: T, p: T|
            is_dot(zero, plus, times, xs.take(kk), ys, prev) && call_ensures(times, (xs[kk], ys[kk]), p)
                && call_ensures(plus, (prev, p), acc);
        lemma_unit_row_dot(zero, one, plus, times, n, i, ys, kk as nat, prev);
        if kk == i {
            assert(xs[kk] == one);
        } else {
            assert(xs[kk] == zero);
        }
    }
}

} // verus!
