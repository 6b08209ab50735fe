//! Parts-per-billion ratios, computed by `sp_runtime::Perbill`.
use vstd::prelude::*;
use sp_runtime::Perbill;

verus! {

/// The number of parts in a whole `Perbill`.
pub const PERBILL_ACCURACY: u32 = 1_000_000_000u32;

/// The parts of `Perbill::from_rational(p, q)`, as an integer: `p / q` rounded
/// down, or a whole when the ratio cannot be formed (`q == 0` or `p > q`).
pub open spec fn perbill_parts_int(p: u128, q: u128) -> int {
    if q == 0 || p > q {
        PERBILL_ACCURACY as int
    } else {
        (PERBILL_ACCURACY as int * p as int) / (q as int)
    }
}

/// The parts of `Perbill::from_rational(p, q)`.
pub open spec fn perbill_parts_of(p: u128, q: u128) -> u32 {
    perbill_parts_int(p, q) as u32
}

/// What `Perbill::from_parts(parts) * x` gives for a balance `x`, as an integer:
/// the product `x * parts / 10^9`, with the remainder's share rounded to the
/// nearest integer (a tie rounds down).
pub open spec fn perbill_mul_int(parts: u32, x: u128) -> int {
    let a = PERBILL_ACCURACY as int;
    let xi = x as int;
    let pi = parts as int;
    let rem = xi % a;
    let carry = if (rem * pi) % a > a / 2 { 1int } else { 0int };
    (xi / a) * pi + (rem * pi) / a + carry
}

/// What `Perbill::from_parts(parts) * x` gives for a balance `x`.
pub open spec fn perbill_mul_spec(parts: u32, x: u128) -> u128 {
    perbill_mul_int(parts, x) as u128
}

/// `sp_runtime::Perbill::from_rational(p, q)`, given by its parts (`deconstruct`).
/// The claim is that the parts are `floor(10^9 * p / q)` when `q != 0` and
/// `p <= q`, and `10^9` (one whole) otherwise, as `from_rational_with_rounding`
/// with `Rounding::Down` and its `unwrap_or_else(one)` show.
#[verifier::external_body]
pub(crate) fn perbill_from_rational(p: u128, q: u128) -> (parts: u32)
    ensures
        parts == perbill_parts_of(p, q),
{
    Perbill::from_rational(p, q).deconstruct()
}

/// `Perbill::from_parts(parts) * x` (the `Mul<u128>` of `Perbill`). The claim is
/// the formula of `overflow_prune_mul` with `Rounding::NearestPrefDown`, stated by
/// `perbill_mul_spec`.
#[verifier::external_body]
pub(crate) fn perbill_mul(parts: u32, x: u128) -> (r: u128)
    requires
        parts <= PERBILL_ACCURACY,
    ensures
        r == perbill_mul_spec(parts, x),
{
    Perbill::from_parts(parts) * x
}

/// A ratio is between nothing and a whole.
pub proof fn lemma_perbill_parts_bounded(p: u128, q: u128)
    ensures
        0 <= perbill_parts_int(p, q) <= PERBILL_ACCURACY,
        perbill_parts_of(p, q) == perbill_parts_int(p, q),
        perbill_parts_of(p, q) <= PERBILL_ACCURACY,
{
    if q != 0 && p <= q {
        let a = PERBILL_ACCURACY as int;
        assert((a * (p as int)) / (q as int) <= (a * (q as int)) / (q as int)) by {
            assert(a * (p as int) <= a * (q as int)) by (nonlinear_arith)
                requires
                    0 <= p <= q,
                    a > 0,
            ;
            vstd::arithmetic::div_mod::lemma_div_is_ordered(a * (p as int), a * (q as int), q as int);
        }
        assert((a * (q as int)) / (q as int) == a) by {
            vstd::arithmetic::div_mod::lemma_div_by_multiple(a, q as int);
        }
        assert(0 <= (a * (p as int)) / (q as int)) by {
            assert(a * (p as int) >= 0) by (nonlinear_arith)
                requires
                    p >= 0,
                    a > 0,
            ;
            vstd::arithmetic::div_mod::lemma_div_is_ordered(0, a * (p as int), q as int);
        }
    }
}

/// A share of at most a whole is between nothing and the amount it is taken of.
pub proof fn lemma_perbill_mul_within(parts: u32, x: u128)
    requires
        parts <= PERBILL_ACCURACY,
    ensures
        0 <= perbill_mul_int(parts, x) <= x,
        perbill_mul_spec(parts, x) == perbill_mul_int(parts, x),
        perbill_mul_spec(parts, x) <= x,
{
    let a = PERBILL_ACCURACY as int;
    let xi = x as int;
    let p = parts as int;
    let q = xi / a;
    let r = xi % a;
    vstd::arithmetic::div_mod::lemma_fundamental_div_mod(xi, a);
    assert(0 <= r < a);
    assert(q >= 0);
    assert(0 <= q * p <= q * a) by (nonlinear_arith)
        requires
            q >= 0,
            0 <= p <= a,
    ;
    let carry = if (r * p) % a > a / 2 { 1int } else { 0int };
    assert(r * p >= 0) by (nonlinear_arith)
        requires
            r >= 0,
            p >= 0,
    ;
    vstd::arithmetic::div_mod::lemma_div_is_ordered(0, r * p, a);
    if r == 0 {
        assert(r * p == 0) by (nonlinear_arith)
            requires
                r == 0,
        ;
        assert((r * p) / a == 0 && (r * p) % a == 0);
    } else if p == a {
        assert((r * p) / a == r && (r * p) % a == 0) by {
            vstd::arithmetic::div_mod::lemma_mod_multiples_basic(r, a);
            vstd::arithmetic::div_mod::lemma_div_by_multiple(r, a);
        }
    } else {
        assert(r * p < r * a) by (nonlinear_arith)
            requires
                r >= 1,
                0 <= p < a,
        ;
        assert((r * p) / a < r) by (nonlinear_arith)
            requires
                r * p < r * a,
                a > 0,
                r * p >= 0,
        {
            vstd::arithmetic::div_mod::lemma_fundamental_div_mod(r * p, a);
            vstd::arithmetic::div_mod::lemma_mod_pos_bound(r * p, a);
        }
    }
    assert(q * p + (r * p) / a + carry <= xi);
}

/// A whole share of an amount is the amount.
pub proof fn lemma_perbill_mul_whole(x: u128)
    ensures
        perbill_mul_spec(PERBILL_ACCURACY, x) == x,
{
    let a = PERBILL_ACCURACY as int;
    let xi = x as int;
    let r = xi % a;
    vstd::arithmetic::div_mod::lemma_fundamental_div_mod(xi, a);
    assert((r * a) / a == r && (r * a) % a == 0) by {
        vstd::arithmetic::div_mod::lemma_mod_multiples_basic(r, a);
        vstd::arithmetic::div_mod::lemma_div_by_multiple(r, a);
    }
    assert((xi / a) * a + r == xi) by (nonlinear_arith)
        requires
            xi == a * (xi / a) + r,
    ;
}

/// Rounding `n / a` to the nearest integer, a tie down, is a floor division.
proof fn lemma_round_half_down(n: int, a: int)
    requires
        n >= 0,
        a >= 2,
        a % 2 == 0,
    ensures
        n / a + (if n % a > a / 2 { 1int } else { 0int }) == (n + a / 2 - 1) / a,
{
    let k = n / a;
    let m = n % a;
    let h = a / 2;
    vstd::arithmetic::div_mod::lemma_fundamental_div_mod(n, a);
    vstd::arithmetic::div_mod::lemma_fundamental_div_mod(a, 2);
    assert(a == 2 * h);
    assert(0 <= m < a);
    if m > h {
        assert(n + h - 1 == (k + 1) * a + (m - h - 1)) by (nonlinear_arith)
            requires
                n == a * k + m,
                a == 2 * h,
        ;
        vstd::arithmetic::div_mod::lemma_fundamental_div_mod_converse(n + h - 1, a, k + 1, m - h - 1);
    } else {
        assert(n + h - 1 == k * a + (m + h - 1)) by (nonlinear_arith)
            requires
                n == a * k + m,
        ;
        vstd::arithmetic::div_mod::lemma_fundamental_div_mod_converse(n + h - 1, a, k, m + h - 1);
    }
}

/// A larger share of an amount is never smaller.
pub proof fn lemma_perbill_mul_monotone(p1: u32, p2: u32, x: u128)
    requires
        p1 <= p2 <= PERBILL_ACCURACY,
    ensures
        perbill_mul_spec(p1, x) <= perbill_mul_spec(p2, x),
{
    let a = PERBILL_ACCURACY as int;
    let xi = x as int;
    let r = xi % a;
    let q = xi / a;
    vstd::arithmetic::div_mod::lemma_fundamental_div_mod(xi, a);
    assert(q * (p1 as int) <= q * (p2 as int)) by (nonlinear_arith)
        requires
            q >= 0,
            p1 <= p2,
    ;
    assert(0 <= r * (p1 as int) <= r * (p2 as int)) by (nonlinear_arith)
        requires
            r >= 0,
            0 <= p1 <= p2,
    ;
    lemma_round_half_down(r * (p1 as int), a);
    lemma_round_half_down(r * (p2 as int), a);
    vstd::arithmetic::div_mod::lemma_div_is_ordered(
        r * (p1 as int) + a / 2 - 1,
        r * (p2 as int) + a / 2 - 1,
        a,
    );
    lemma_perbill_mul_within(p1, x);
    lemma_perbill_mul_within(p2, x);
}

/// A larger part of the same total is never a smaller ratio.
pub proof fn lemma_perbill_parts_monotone(p1: u128, p2: u128, q: u128)
    requires
        p1 <= p2 <= q,
        q > 0,
    ensures
        perbill_parts_of(p1, q) <= perbill_parts_of(p2, q),
{
    let a = PERBILL_ACCURACY as int;
    assert(a * (p1 as int) <= a * (p2 as int)) by (nonlinear_arith)
        requires
            a > 0,
            p1 <= p2,
    ;
    vstd::arithmetic::div_mod::lemma_div_is_ordered(a * (p1 as int), a * (p2 as int), q as int);
    lemma_perbill_parts_bounded(p1, q);
    lemma_perbill_parts_bounded(p2, q);
}

/// The ratio of `p` to `q` (with `p <= q`, `q > 0`) is `p / q` rounded down to
/// parts per billion: `parts * q <= 10^9 * p < (parts + 1) * q`, for amounts of
/// any size.
pub proof fn law_perbill_ratio_is_floor(p: u128, q: u128)
    requires
        0 < q,
        p <= q,
    ensures
        perbill_parts_of(p, q) as int * q <= PERBILL_ACCURACY as int * p,
        PERBILL_ACCURACY as int * p < (perbill_parts_of(p, q) as int + 1) * q,
{
    let a = PERBILL_ACCURACY as int;
    let n = a * (p as int);
    lemma_perbill_parts_bounded(p, q);
    vstd::arithmetic::div_mod::lemma_fundamental_div_mod(n, q as int);
    let k = n / (q as int);
    assert(perbill_parts_of(p, q) as int == k);
    assert(k * q <= n && n < (k + 1) * q) by (nonlinear_arith)
        requires
            n == (q as int) * k + n % (q as int),
            0 <= n % (q as int) < q,
    ;
}

/// A share is at most the exact fraction of the amount plus one unit:
/// `10^9 * (parts * x / 10^9 rounded) <= parts * x + 10^9`.
pub proof fn lemma_perbill_mul_upper(parts: u32, x: u128)
    requires
        parts <= PERBILL_ACCURACY,
    ensures
        PERBILL_ACCURACY as int * perbill_mul_spec(parts, x) <= (parts as int) * (x as int)
            + PERBILL_ACCURACY as int,
{
    let a = PERBILL_ACCURACY as int;
    let xi = x as int;
    let k = parts as int;
    let qq = xi / a;
    let r = xi % a;
    lemma_perbill_mul_within(parts, x);
    vstd::arithmetic::div_mod::lemma_fundamental_div_mod(xi, a);
    assert(r * k >= 0) by (nonlinear_arith)
        requires
            r >= 0,
            k >= 0,
    ;
    vstd::arithmetic::div_mod::lemma_fundamental_div_mod(r * k, a);
    let f = (r * k) / a;
    let carry = if (r * k) % a > a / 2 { 1int } else { 0int };
    assert(a * f <= r * k);
    assert(a * (qq * k) + r * k == xi * k) by (nonlinear_arith)
        requires
            xi == a * qq + r,
    ;
    assert(a * (qq * k + f + carry) == a * (qq * k) + a * f + a * carry) by (nonlinear_arith);
    assert(a * carry <= a);
    assert(a * (qq * k + f + carry) <= xi * k + a);
}

/// An amount's ratio to itself is a whole.
pub proof fn lemma_perbill_parts_whole(q: u128)
    requires
        q > 0,
    ensures
        perbill_parts_of(q, q) == PERBILL_ACCURACY,
{
    let a = PERBILL_ACCURACY as int;
    assert((a * (q as int)) / (q as int) == a) by {
        vstd::arithmetic::div_mod::lemma_div_by_multiple(a, q as int);
    }
}

} // verus!
