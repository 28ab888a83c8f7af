//! Integer arithmetic as the contracts compute it.
use vstd::arithmetic::div_mod::{lemma_div_is_ordered, lemma_div_multiples_vanish};
use vstd::arithmetic::mul::lemma_mul_is_commutative;
use vstd::prelude::*;

verus! {

/// `x` is representable as an `i128`.
pub open spec fn fits_i128(x: int) -> bool {
    i128::MIN <= x <= i128::MAX
}

/// `x` is representable as a `u128`.
pub open spec fn fits_u128(x: int) -> bool {
    0 <= x <= u128::MAX
}

/// `x` is representable as a `u64`.
pub open spec fn fits_u64(x: int) -> bool {
    0 <= x <= u64::MAX
}

/// Integer division rounding toward zero, as Rust's `/` on signed integers.
pub open spec fn div_trunc(a: int, b: int) -> int {
    if a == 0 {
        0
    } else if a > 0 && b > 0 {
        a / b
    } else if a < 0 && b < 0 {
        (-a) / (-b)
    } else if a < 0 {
        -((-a) / b)
    } else {
        -(a / (-b))
    }
}

/// Signed division as `i128::checked_div` computes it: `None` on a zero
/// divisor or when the quotient leaves the range of `i128`.
pub open spec fn checked_div_i128(a: int, b: int) -> Option<int> {
    if b == 0 || !fits_i128(div_trunc(a, b)) {
        None
    } else {
        Some(div_trunc(a, b))
    }
}

/// Signed division of two `i128`s with the quotient rounded toward zero;
/// `None` where `i128::checked_div` gives `None`.
pub fn checked_div(a: i128, b: i128) -> (r: Option<i128>)
    ensures
        match r {
            Some(q) => checked_div_i128(a as int, b as int) == Some(q as int),
            None => checked_div_i128(a as int, b as int) is None,
        },
{
    a.checked_div(b)
}

/// A sum that lies between `lo * w` and `hi * w` has a quotient by `w`
/// between `lo` and `hi`.
pub proof fn lemma_div_trunc_between(s: int, w: int, lo: int, hi: int)
    requires
        w > 0,
        lo * w <= s <= hi * w,
    ensures
        lo <= div_trunc(s, w) <= hi,
{
    lemma_mul_is_commutative(lo, w);
    lemma_mul_is_commutative(hi, w);
    lemma_mul_is_commutative(-lo, w);
    lemma_mul_is_commutative(-hi, w);
    assert((-lo) * w == -(lo * w)) by (nonlinear_arith);
    assert((-hi) * w == -(hi * w)) by (nonlinear_arith);
    lemma_div_multiples_vanish(lo, w);
    lemma_div_multiples_vanish(hi, w);
    lemma_div_multiples_vanish(-lo, w);
    lemma_div_multiples_vanish(-hi, w);
    if s >= 0 {
        lemma_div_is_ordered(lo * w, s, w);
        lemma_div_is_ordered(s, hi * w, w);
    } else {
        lemma_div_is_ordered(-s, (-lo) * w, w);
        lemma_div_is_ordered((-hi) * w, -s, w);
    }
}

/// A quotient of an `i128` by a positive divisor is an `i128`.
pub proof fn lemma_div_trunc_fits(s: int, w: int)
    requires
        fits_i128(s),
        w >= 1,
    ensures
        fits_i128(div_trunc(s, w)),
{
    if s >= 0 {
        assert(0 * w <= s <= s * w) by (nonlinear_arith)
            requires
                s >= 0,
                w >= 1,
        ;
        lemma_div_trunc_between(s, w, 0, s);
    } else {
        assert(s * w <= s <= 0 * w) by (nonlinear_arith)
            requires
                s < 0,
                w >= 1,
        ;
        lemma_div_trunc_between(s, w, s, 0);
    }
}

/// The sum of `f` over a finite set; 0 for an infinite one.
pub open spec fn sum_over<A>(s: Set<A>, f: spec_fn(A) -> int) -> int
    decreases s.len(),
{
    if s.finite() && s.len() > 0 {
        let x = s.choose();
        f(x) + sum_over(s.remove(x), f)
    } else {
        0
    }
}

/// Any element can be taken out of a sum first.
pub proof fn lemma_sum_over_remove<A>(s: Set<A>, f: spec_fn(A) -> int, y: A)
    requires
        s.finite(),
        s.contains(y),
    ensures
        sum_over(s, f) == f(y) + sum_over(s.remove(y), f),
    decreases s.len(),
{
    let x = s.choose();
    assert(s.len() > 0);
    if x != y {
        lemma_sum_over_remove(s.remove(x), f, y);
        lemma_sum_over_remove(s.remove(y), f, x);
        assert(s.remove(x).remove(y) =~= s.remove(y).remove(x));
    }
}

/// Sums of two functions that agree on a finite set are equal.
pub proof fn lemma_sum_over_congruent<A>(s: Set<A>, f: spec_fn(A) -> int, g: spec_fn(A) -> int)
    requires
        s.finite(),
        forall|x: A| s.contains(x) ==> f(x) == g(x),
    ensures
        sum_over(s, f) == sum_over(s, g),
    decreases s.len(),
{
    if s.len() > 0 {
        let x = s.choose();
        lemma_sum_over_congruent(s.remove(x), f, g);
    }
}

/// A sum of non-negative terms bounds each of them.
pub proof fn lemma_sum_over_bounds_term<A>(s: Set<A>, f: spec_fn(A) -> int, y: A)
    requires
        s.finite(),
        forall|x: A| s.contains(x) ==> f(x) >= 0,
    ensures
        sum_over(s, f) >= 0,
        s.contains(y) ==> f(y) <= sum_over(s, f),
    decreases s.len(),
{
    if s.len() > 0 {
        let x = s.choose();
        lemma_sum_over_bounds_term(s.remove(x), f, y);
        if s.contains(y) {
            lemma_sum_over_remove(s, f, y);
            lemma_sum_over_bounds_term(s.remove(y), f, y);
        }
    }
}

/// Changing one term of a sum changes the sum by the difference.
pub proof fn lemma_sum_over_update<A>(s: Set<A>, f: spec_fn(A) -> int, g: spec_fn(A) -> int, y: A)
    requires
        s.finite(),
        s.contains(y),
        forall|x: A| s.contains(x) && x != y ==> f(x) == g(x),
    ensures
        sum_over(s, g) == sum_over(s, f) - f(y) + g(y),
{
    lemma_sum_over_remove(s, f, y);
    lemma_sum_over_remove(s, g, y);
    lemma_sum_over_congruent(s.remove(y), f, g);
}

/// Adding a new element adds its term to the sum.
pub proof fn lemma_sum_over_insert<A>(s: Set<A>, f: spec_fn(A) -> int, g: spec_fn(A) -> int, y: A)
    requires
        s.finite(),
        !s.contains(y),
        forall|x: A| s.contains(x) ==> f(x) == g(x),
    ensures
        sum_over(s.insert(y), g) == sum_over(s, f) + g(y),
{
    lemma_sum_over_remove(s.insert(y), g, y);
    assert(s.insert(y).remove(y) =~= s);
    lemma_sum_over_congruent(s, f, g);
}

/// Dropping an element drops its term from the sum.
pub proof fn lemma_sum_over_drop<A>(s: Set<A>, f: spec_fn(A) -> int, g: spec_fn(A) -> int, y: A)
    requires
        s.finite(),
        s.contains(y),
        forall|x: A| s.contains(x) && x != y ==> f(x) == g(x),
    ensures
        sum_over(s.remove(y), g) == sum_over(s, f) - f(y),
{
    lemma_sum_over_remove(s, f, y);
    lemma_sum_over_congruent(s.remove(y), f, g);
}

} // verus!
