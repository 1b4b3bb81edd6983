//! What the library knows of the caller's scalar arithmetic.
//!
//! The scalar operations are closures handed in by the caller. The
//! contracts of the operations assume nothing of them: a result is
//! described as one that the given operations can produce, step by step,
//! in the order in which the library applies them. The algebraic laws of
//! the library name, as hypotheses, the properties of the operations that
//! they need, such as commutativity or the laws of a commutative ring.
use vstd::prelude::*;

verus! {

/// `r` is a value of `a * b - c * d` under the given `minus` and `times`.
pub open spec fn is_det2<T, S: Fn(T, T) -> T, M: Fn(T, T) -> T>(
    minus: S,
    times: M,
    a: T,
    b: T,
    c: T,
    d: T,
    r: T,
) -> bool {
    exists|p: T, q: T|
        call_ensures(times, (a, b), p) && call_ensures(times, (c, d), q) && call_ensures(minus, (p, q), r)
}

/// `r` is a value of `a * b + c * d` under the given `plus` and `times`.
pub open spec fn is_sum2<T, A: Fn(T, T) -> T, M: Fn(T, T) -> T>(
    plus: A,
    times: M,
    a: T,
    b: T,
    c: T,
    d: T,
    r: T,
) -> bool {
    exists|p: T, q: T|
        call_ensures(times, (a, b), p) && call_ensures(times, (c, d), q) && call_ensures(plus, (p, q), r)
}

/// Computes `a * b + c * d`.
pub fn sum2_with<T: Copy, A: Fn(T, T) -> T, M: Fn(T, T) -> T>(
    plus: &A,
    times: &M,
    a: T,
    b: T,
    c: T,
    d: T,
) -> (r: T)
    requires
        total2(*plus),
        total2(*times),
    ensures
        is_sum2(*plus, *times, a, b, c, d, r),
{
    let p = times(a, b);
    let q = times(c, d);
    let r = plus(p, q);
    assert(call_ensures(*times, (a, b), p) && call_ensures(*times, (c, d), q) && call_ensures(*plus, (p, q), r));
    r
}

/// `acc` is a value of the dot product of `xs` with the first `xs.len()`
/// entries of `ys`: the products are added one by one, left to right,
/// starting from `zero`.
pub open spec fn is_dot<T, A: Fn(T, T) -> T, M: Fn(T, T) -> T>(
    zero: T,
    plus: A,
    times: M,
    xs: Seq<T>,
    ys: Seq<T>,
    acc: T,
) -> bool
    decreases xs.len(),
{
    if xs.len() == 0 {
        acc == zero
    } else {
        let k = xs.len() - 1;
        exists|prev: T, p: T|
            #![trigger call_ensures(times, (xs[k], ys[k]), p), call_ensures(plus, (prev, p), acc)]
            is_dot(zero, plus, times, xs.take(k), ys, prev) && call_ensures(times, (xs[k], ys[k]), p)
                && call_ensures(plus, (prev, p), acc)
    }
}

/// `f` gives at most one result for each pair of arguments.
pub open spec fn deterministic2<T, F: Fn(T, T) -> T>(f: F) -> bool {
    forall|x: T, y: T, u: T, v: T| call_ensures(f, (x, y), u) && call_ensures(f, (x, y), v) ==> u == v
}

/// `f` gives the same result when its arguments are swapped.
pub open spec fn commutative<T, F: Fn(T, T) -> T>(f: F) -> bool {
    forall|x: T, y: T, u: T, v: T| call_ensures(f, (x, y), u) && call_ensures(f, (y, x), v) ==> u == v
}

/// `f` gives the same result however three operands are grouped.
pub open spec fn associative<T, F: Fn(T, T) -> T>(f: F) -> bool {
    forall|x: T, y: T, z: T, xy: T, yz: T, l: T, r: T|
        call_ensures(f, (x, y), xy) && call_ensures(f, (xy, z), l) && call_ensures(f, (y, z), yz)
            && call_ensures(f, (x, yz), r) ==> l == r
}

/// The closures may be called on any arguments.
pub open spec fn total2<T, F: Fn(T, T) -> T>(f: F) -> bool {
    forall|x: T, y: T| call_requires(f, (x, y))
}

/// Computes `a * b - c * d`.
pub fn det2_with<T: Copy, S: Fn(T, T) -> T, M: Fn(T, T) -> T>(
    minus: &S,
    times: &M,
    a: T,
    b: T,
    c: T,
    d: T,
) -> (r: T)
    requires
        total2(*minus),
        total2(*times),
    ensures
        is_det2(*minus, *times, a, b, c, d, r),
{
    let p = times(a, b);
    let q = times(c, d);
    let r = minus(p, q);
    assert(call_ensures(*times, (a, b), p) && call_ensures(*times, (c, d), q) && call_ensures(*minus, (p, q), r));
    r
}

/// `p q - q p` is `zero`.
pub(crate) proof fn lemma_det2_of_equal_rows<T, S: Fn(T, T) -> T, M: Fn(T, T) -> T>(minus: S, times: M, zero: T, p: T, q: T, r: T)
    requires
        deterministic2(times),
        commutative(times),
        forall|x: T, r: T| call_ensures(minus, (x, x), r) ==> r == zero,
        is_det2(minus, times, p, q, q, p, r),
    ensures
        r == zero,
{
    let (pq, qp) = choose|x: T, y: T|
        call_ensures(times, (p, q), x) && call_ensures(times, (q, p), y) && call_ensures(minus, (x, y), r);
    assert(pq == qp);
}

/// `f` computes the function `g`: every result of `f` on `(x, y)` is
/// `g(x, y)`.
pub open spec fn computes<T, F: Fn(T, T) -> T>(f: F, g: spec_fn(T, T) -> T) -> bool {
    forall|x: T, y: T, r: T| call_ensures(f, (x, y), r) ==> r == g(x, y)
}

/// `sum` is commutative and associative with identity `zero`, `neg(x)` is
/// the inverse of `x`, and `diff(x, y)` is `sum(x, neg(y))`.
#[verifier::opaque]
pub open spec fn group_laws<T>(zero: T, sum: spec_fn(T, T) -> T, neg: spec_fn(T) -> T, diff: spec_fn(T, T) -> T) -> bool {
    &&& forall|x: T, y: T| #[trigger] sum(x, y) == sum(y, x)
    &&& forall|x: T, y: T, z: T| #[trigger] sum(sum(x, y), z) == sum(x, sum(y, z))
    &&& forall|x: T| #[trigger] sum(x, zero) == x
    &&& forall|x: T| #[trigger] sum(x, neg(x)) == zero
    &&& forall|x: T, y: T| #[trigger] diff(x, y) == sum(x, neg(y))
}

/// `prod` is commutative and associative, and distributes over `sum`.
#[verifier::opaque]
pub open spec fn product_laws<T>(sum: spec_fn(T, T) -> T, prod: spec_fn(T, T) -> T) -> bool {
    &&& forall|x: T, y: T| #[trigger] prod(x, y) == prod(y, x)
    &&& forall|x: T, y: T, z: T| #[trigger] prod(prod(x, y), z) == prod(x, prod(y, z))
    &&& forall|x: T, y: T, z: T| #[trigger] prod(x, sum(y, z)) == sum(prod(x, y), prod(x, z))
}

/// `sum`, `neg`, `diff` and `prod` are the operations of a commutative
/// ring with zero `zero`.
pub open spec fn ring_laws<T>(
    zero: T,
    sum: spec_fn(T, T) -> T,
    neg: spec_fn(T) -> T,
    diff: spec_fn(T, T) -> T,
    prod: spec_fn(T, T) -> T,
) -> bool {
    group_laws(zero, sum, neg, diff) && product_laws(sum, prod)
}

/// `((x - y) - (x - z)) + (y - z) == zero`.
pub(crate) proof fn lemma_cancel_a<T>(zero: T, sum: spec_fn(T, T) -> T, neg: spec_fn(T) -> T, diff: spec_fn(T, T) -> T, x: T, y: T, z: T)
    requires
        group_laws(zero, sum, neg, diff),
    ensures
        sum(diff(diff(x, y), diff(x, z)), diff(y, z)) == zero,
{
    reveal(group_laws);
}

/// `((x - y) - (z - y)) + (z - x) == zero`.
pub(crate) proof fn lemma_cancel_b<T>(zero: T, sum: spec_fn(T, T) -> T, neg: spec_fn(T) -> T, diff: spec_fn(T, T) -> T, x: T, y: T, z: T)
    requires
        group_laws(zero, sum, neg, diff),
    ensures
        sum(diff(diff(x, y), diff(z, y)), diff(z, x)) == zero,
{
    reveal(group_laws);
}

/// `((x - y) + (z - x)) + (y - z) == zero`.
pub(crate) proof fn lemma_cancel_c<T>(zero: T, sum: spec_fn(T, T) -> T, neg: spec_fn(T) -> T, diff: spec_fn(T, T) -> T, x: T, y: T, z: T)
    requires
        group_laws(zero, sum, neg, diff),
    ensures
        sum(sum(diff(x, y), diff(z, x)), diff(y, z)) == zero,
{
    reveal(group_laws);
}

/// `((x - y) + (y - z)) + (z - x) == zero`.
pub(crate) proof fn lemma_cancel_d<T>(zero: T, sum: spec_fn(T, T) -> T, neg: spec_fn(T) -> T, diff: spec_fn(T, T) -> T, x: T, y: T, z: T)
    requires
        group_laws(zero, sum, neg, diff),
    ensures
        sum(sum(diff(x, y), diff(y, z)), diff(z, x)) == zero,
{
    reveal(group_laws);
}

/// `x * zero == zero`.
pub(crate) proof fn lemma_times_zero<T>(
    zero: T,
    sum: spec_fn(T, T) -> T,
    neg: spec_fn(T) -> T,
    diff: spec_fn(T, T) -> T,
    prod: spec_fn(T, T) -> T,
    x: T,
)
    requires
        group_laws(zero, sum, neg, diff),
        product_laws(sum, prod),
    ensures
        prod(x, zero) == zero,
{
    let p = prod(x, zero);
    assert(prod(x, sum(zero, zero)) == sum(p, p)) by {
        reveal(product_laws);
    }
    assert(sum(zero, zero) == zero && sum(sum(p, p), neg(p)) == sum(p, sum(p, neg(p)))) by {
        reveal(group_laws);
    }
    assert(sum(p, neg(p)) == zero && sum(p, zero) == p) by {
        reveal(group_laws);
    }
}

/// `x * -y == -(x * y)`.
pub(crate) proof fn lemma_times_neg<T>(
    zero: T,
    sum: spec_fn(T, T) -> T,
    neg: spec_fn(T) -> T,
    diff: spec_fn(T, T) -> T,
    prod: spec_fn(T, T) -> T,
    x: T,
    y: T,
)
    requires
        group_laws(zero, sum, neg, diff),
        product_laws(sum, prod),
    ensures
        prod(x, neg(y)) == neg(prod(x, y)),
{
    lemma_times_zero(zero, sum, neg, diff, prod, x);
    let p = prod(x, y);
    let q = prod(x, neg(y));
    assert(sum(p, q) == prod(x, sum(y, neg(y)))) by {
        reveal(product_laws);
    }
    assert(sum(y, neg(y)) == zero) by {
        reveal(group_laws);
    }
    assert(sum(neg(p), sum(p, q)) == sum(sum(neg(p), p), q)) by {
        reveal(group_laws);
    }
    assert(sum(neg(p), p) == zero) by {
        reveal(group_laws);
    }
    assert(sum(zero, q) == q) by {
        reveal(group_laws);
    }
    assert(sum(neg(p), zero) == neg(p)) by {
        reveal(group_laws);
    }
}

/// `x * (y - z) == x * y - x * z`.
pub(crate) proof fn lemma_times_diff<T>(
    zero: T,
    sum: spec_fn(T, T) -> T,
    neg: spec_fn(T) -> T,
    diff: spec_fn(T, T) -> T,
    prod: spec_fn(T, T) -> T,
    x: T,
    y: T,
    z: T,
)
    requires
        group_laws(zero, sum, neg, diff),
        product_laws(sum, prod),
    ensures
        prod(x, diff(y, z)) == diff(prod(x, y), prod(x, z)),
{
    lemma_times_neg(zero, sum, neg, diff, prod, x, z);
    assert(diff(y, z) == sum(y, neg(z))) by {
        reveal(group_laws);
    }
    assert(diff(prod(x, y), prod(x, z)) == sum(prod(x, y), neg(prod(x, z)))) by {
        reveal(group_laws);
    }
    assert(prod(x, sum(y, neg(z))) == sum(prod(x, y), prod(x, neg(z)))) by {
        reveal(product_laws);
    }
}

/// A product of three factors does not depend on their order.
pub(crate) proof fn lemma_prod3<T>(sum: spec_fn(T, T) -> T, prod: spec_fn(T, T) -> T, x: T, y: T, z: T)
    requires
        product_laws(sum, prod),
    ensures
        prod(x, prod(y, z)) == prod(x, prod(z, y)),
        prod(x, prod(y, z)) == prod(y, prod(x, z)),
        prod(x, prod(y, z)) == prod(y, prod(z, x)),
        prod(x, prod(y, z)) == prod(z, prod(x, y)),
        prod(x, prod(y, z)) == prod(z, prod(y, x)),
{
    assert(prod(prod(x, y), z) == prod(x, prod(y, z))) by {
        reveal(product_laws);
    }
    assert(prod(prod(y, x), z) == prod(y, prod(x, z))) by {
        reveal(product_laws);
    }
    assert(prod(prod(x, y), z) == prod(z, prod(x, y))) by {
        reveal(product_laws);
    }
    assert(prod(x, y) == prod(y, x)) by {
        reveal(product_laws);
    }
    assert(prod(x, z) == prod(z, x)) by {
        reveal(product_laws);
    }
    assert(prod(y, z) == prod(z, y)) by {
        reveal(product_laws);
    }
}

/// `x - x == zero` and `zero + zero == zero`.
pub(crate) proof fn lemma_diff_self<T>(zero: T, sum: spec_fn(T, T) -> T, neg: spec_fn(T) -> T, diff: spec_fn(T, T) -> T, x: T)
    requires
        group_laws(zero, sum, neg, diff),
    ensures
        diff(x, x) == zero,
        sum(zero, zero) == zero,
{
    reveal(group_laws);
}

/// The value of `a * b - c * d` when the operations compute `diff` and
/// `prod`.
pub(crate) proof fn lemma_det2_value<T, S: Fn(T, T) -> T, M: Fn(T, T) -> T>(
    minus: S,
    times: M,
    diff: spec_fn(T, T) -> T,
    prod: spec_fn(T, T) -> T,
    a: T,
    b: T,
    c: T,
    d: T,
    r: T,
)
    requires
        computes(minus, diff),
        computes(times, prod),
        is_det2(minus, times, a, b, c, d, r),
    ensures
        r == diff(prod(a, b), prod(c, d)),
{
    let (p, q) = choose|p: T, q: T|
        call_ensures(times, (a, b), p) && call_ensures(times, (c, d), q) && call_ensures(minus, (p, q), r);
}

/// `zero + x == x`.
pub(crate) proof fn lemma_zero_sum<T>(zero: T, sum: spec_fn(T, T) -> T, neg: spec_fn(T) -> T, diff: spec_fn(T, T) -> T, x: T)
    requires
        group_laws(zero, sum, neg, diff),
    ensures
        sum(zero, x) == x,
{
    reveal(group_laws);
    assert(sum(zero, x) == sum(x, zero));
}

} // verus!
