//! Exact decimal time values.
//!
//! A [`Dec`] holds the parts of a `rust_decimal::Decimal` in normalized form:
//! the represented number is `mantissa / 10^scale`, the scale is at most 28,
//! the mantissa fits in 96 bits and carries no trailing decimal zeros.  At the
//! specification level a decimal is identified with the integer
//! `mantissa * 10^(28 - scale)`, that is, its numeric value in units of
//! 10^-28; all contracts about decimal arithmetic are stated over these
//! integers.  Normalization makes the representation a function of the value
//! ([`lemma_value_injective`]), so equal numbers are equal `Dec` structures.
//!
//! The arithmetic itself is done by `rust_decimal` behind the trusted
//! wrappers at the end of this file; the checked operations in front of them
//! decide, in verified code, whether an operation stays exact.

use vstd::arithmetic::div_mod::{lemma_div_multiples_vanish, lemma_mod_multiples_basic};
use vstd::arithmetic::mul::lemma_mul_is_distributive_add_other_way;
use vstd::math::abs;
use vstd::prelude::*;

verus! {

/// Largest magnitude a mantissa may take: 2^96.
pub const MANT_LIMIT: i128 = 0x1000000000000000000000000;

/// Largest scale (count of fractional digits) a decimal may carry.
pub const SCALE_LIMIT: u32 = 28;

/// 10^e.
pub open spec fn pow10(e: nat) -> int
    decreases e,
{
    if e == 0 {
        1
    } else {
        10 * pow10((e - 1) as nat)
    }
}

/// A decimal number `mantissa / 10^scale`, kept normalized.
#[derive(Clone, Copy, PartialEq, Eq, Structural, Debug)]
pub struct Dec {
    pub mantissa: i128,
    pub scale: u32,
}

impl Dec {
    /// The numeric value in units of 10^-28.
    pub open spec fn value(self) -> int {
        self.mantissa * pow10((SCALE_LIMIT - self.scale) as nat)
    }

    /// Normal form: bounded scale and mantissa, no trailing zeros, zero has
    /// scale zero.
    pub open spec fn wf(self) -> bool {
        &&& self.scale <= SCALE_LIMIT
        &&& -MANT_LIMIT < self.mantissa < MANT_LIMIT
        &&& self.scale > 0 ==> self.mantissa % 10 != 0
        &&& self.mantissa == 0 ==> self.scale == 0
    }

    /// The decimal zero.
    pub fn zero() -> (r: Dec)
        ensures
            r.wf(),
            r.value() == 0,
    {
        Dec { mantissa: 0, scale: 0 }
    }
}

/// Mantissa after stripping trailing zeros from `m`, at most `s` of them.
pub open spec fn strip_mant(m: int, s: nat) -> int
    decreases s,
{
    if m == 0 {
        0
    } else if s == 0 || m % 10 != 0 {
        m
    } else {
        strip_mant(m / 10, (s - 1) as nat)
    }
}

/// Scale left over after stripping trailing zeros from `m`.
pub open spec fn strip_scale(m: int, s: nat) -> nat
    decreases s,
{
    if m == 0 {
        0
    } else if s == 0 || m % 10 != 0 {
        s
    } else {
        strip_scale(m / 10, (s - 1) as nat)
    }
}

/// Mantissa of the normal form of the value `v` (in units of 10^-28).
pub open spec fn norm_mant(v: int) -> int {
    strip_mant(v, SCALE_LIMIT as nat)
}

/// Scale of the normal form of the value `v`.
pub open spec fn norm_scale(v: int) -> nat {
    strip_scale(v, SCALE_LIMIT as nat)
}

/// The larger of the two normal-form scales.
pub open spec fn norm_scale_max(a: int, b: int) -> nat {
    if norm_scale(a) >= norm_scale(b) {
        norm_scale(a)
    } else {
        norm_scale(b)
    }
}

/// The decimal sum of values `a` and `b` is exact: aligned to the larger of
/// the two scales, the mantissa magnitudes sum below 2^96.
pub open spec fn sum_fits(a: int, b: int) -> bool {
    abs(a) + abs(b) < (MANT_LIMIT as int) * pow10((SCALE_LIMIT - norm_scale_max(a, b)) as nat)
}

/// The decimal product of value `a` by the integer `n` is exact: the product
/// mantissa stays below 2^96 at `a`'s own scale.
pub open spec fn prod_fits(a: int, n: nat) -> bool {
    abs(a) * n < (MANT_LIMIT as int) * pow10((SCALE_LIMIT - norm_scale(a)) as nat)
}

/// Same condition as [`sum_fits`], over the stored parts of two normal forms.
pub open spec fn add_fits(a: Dec, b: Dec) -> bool {
    let smax = if a.scale >= b.scale {
        a.scale
    } else {
        b.scale
    };
    abs(a.mantissa as int) * pow10((smax - a.scale) as nat) + abs(b.mantissa as int) * pow10(
        (smax - b.scale) as nat,
    ) < MANT_LIMIT as int
}

/// Same condition as [`prod_fits`], over the stored parts of a normal form.
pub open spec fn mul_fits(a: Dec, n: u32) -> bool {
    abs(a.mantissa as int) * n < MANT_LIMIT as int
}

pub proof fn lemma_pow10_pos(e: nat)
    ensures
        pow10(e) >= 1,
    decreases e,
{
    if e > 0 {
        lemma_pow10_pos((e - 1) as nat);
    }
}

pub proof fn lemma_pow10_adds(a: nat, b: nat)
    ensures
        pow10((a + b) as nat) == pow10(a) * pow10(b),
    decreases a,
{
    if a == 0 {
        assert(pow10(b) == 1 * pow10(b));
    } else {
        lemma_pow10_adds((a - 1) as nat, b);
        assert(pow10((a + b) as nat) == 10 * (pow10((a - 1) as nat) * pow10(b)));
        assert(10 * (pow10((a - 1) as nat) * pow10(b)) == (10 * pow10((a - 1) as nat)) * pow10(b))
            by (nonlinear_arith);
    }
}

pub proof fn lemma_pow10_mono(a: nat, b: nat)
    requires
        a <= b,
    ensures
        pow10(a) <= pow10(b),
    decreases b,
{
    if a < b {
        lemma_pow10_mono(a, (b - 1) as nat);
        lemma_pow10_pos((b - 1) as nat);
    }
}

pub proof fn lemma_pow10_28()
    ensures
        pow10(28) == 10000000000000000000000000000,
{
    reveal_with_fuel(pow10, 29);
}

/// Stripping is unchanged by first appending `k` zero digits and widening the
/// scale budget by `k`.
proof fn lemma_strip_shift(m: int, s: nat, k: nat)
    ensures
        strip_mant(m * pow10(k), s + k) == strip_mant(m, s),
        strip_scale(m * pow10(k), s + k) == strip_scale(m, s),
    decreases k,
{
    lemma_pow10_pos(k);
    if m == 0 {
        assert(m * pow10(k) == 0);
    } else if k == 0 {
        assert(m * pow10(0) == m);
    } else {
        let prev = m * pow10((k - 1) as nat);
        let mk = m * pow10(k);
        assert(mk == prev * 10) by (nonlinear_arith)
            requires
                mk == m * pow10(k),
                prev == m * pow10((k - 1) as nat),
                pow10(k) == 10 * pow10((k - 1) as nat),
        ;
        assert(mk != 0) by (nonlinear_arith)
            requires
                m != 0,
                pow10(k) >= 1,
                mk == m * pow10(k),
        ;
        assert(mk % 10 == 0) by {
            lemma_mod_multiples_basic(prev, 10);
        }
        assert(mk / 10 == prev) by {
            lemma_div_multiples_vanish(prev, 10);
            assert(10 * prev == prev * 10) by (nonlinear_arith);
        }
        lemma_strip_shift(m, s, (k - 1) as nat);
    }
}

/// A well-formed `Dec` is the normal form of its own value.
pub proof fn lemma_wf_norm(d: Dec)
    requires
        d.wf(),
    ensures
        norm_mant(d.value()) == d.mantissa,
        norm_scale(d.value()) == d.scale,
{
    let k = (SCALE_LIMIT - d.scale) as nat;
    lemma_strip_shift(d.mantissa as int, d.scale as nat, k);
}

/// Distinct well-formed decimals have distinct values: the normal form is a
/// function of the value alone.  This is what merges differently written but
/// numerically equal frame times into a single representation.
pub proof fn lemma_value_injective(a: Dec, b: Dec)
    requires
        a.wf(),
        b.wf(),
        a.value() == b.value(),
    ensures
        a == b,
{
    lemma_wf_norm(a);
    lemma_wf_norm(b);
}

/// |m * 10^e| == |m| * 10^e.
proof fn lemma_abs_mul_pow10(m: int, e: nat)
    ensures
        abs(m * pow10(e)) == abs(m) * pow10(e),
{
    lemma_pow10_pos(e);
    assert(abs(m * pow10(e)) == abs(m) * pow10(e)) by (nonlinear_arith)
        requires
            pow10(e) >= 1,
    ;
}

/// The magnitude of a bounded-scale decimal, in units of 10^-28.
proof fn lemma_abs_value(d: Dec)
    requires
        d.scale <= SCALE_LIMIT,
    ensures
        abs(d.value()) == abs(d.mantissa as int) * pow10((SCALE_LIMIT - d.scale) as nat),
{
    lemma_abs_mul_pow10(d.mantissa as int, (SCALE_LIMIT - d.scale) as nat);
}

/// For well-formed operands the value-level condition [`sum_fits`] coincides
/// with the stored-parts condition [`add_fits`].
pub proof fn lemma_sum_fits_equiv(a: Dec, b: Dec)
    requires
        a.wf(),
        b.wf(),
    ensures
        sum_fits(a.value(), b.value()) == add_fits(a, b),
{
    let smax: u32 = if a.scale >= b.scale {
        a.scale
    } else {
        b.scale
    };
    let p = pow10((SCALE_LIMIT - smax) as nat);
    let pa = pow10((smax - a.scale) as nat);
    let pb = pow10((smax - b.scale) as nat);
    let ma = abs(a.mantissa as int);
    let mb = abs(b.mantissa as int);
    lemma_wf_norm(a);
    lemma_wf_norm(b);
    lemma_abs_value(a);
    lemma_abs_value(b);
    lemma_pow10_pos((SCALE_LIMIT - smax) as nat);
    lemma_pow10_adds((smax - a.scale) as nat, (SCALE_LIMIT - smax) as nat);
    lemma_pow10_adds((smax - b.scale) as nat, (SCALE_LIMIT - smax) as nat);
    assert(abs(a.value()) == ma * (pa * p));
    assert(abs(b.value()) == mb * (pb * p));
    assert(ma * (pa * p) == (ma * pa) * p) by (nonlinear_arith);
    assert(mb * (pb * p) == (mb * pb) * p) by (nonlinear_arith);
    lemma_mul_is_distributive_add_other_way(p, ma * pa, mb * pb);
    assert(abs(a.value()) + abs(b.value()) == (ma * pa + mb * pb) * p);
    assert(((ma * pa + mb * pb) * p < (MANT_LIMIT as int) * p) == (ma * pa + mb * pb
        < MANT_LIMIT as int)) by (nonlinear_arith)
        requires
            p >= 1,
    ;
}

/// For a well-formed operand the value-level condition [`prod_fits`]
/// coincides with the stored-parts condition [`mul_fits`].
pub proof fn lemma_prod_fits_equiv(a: Dec, n: u32)
    requires
        a.wf(),
    ensures
        prod_fits(a.value(), n as nat) == mul_fits(a, n),
{
    let p = pow10((SCALE_LIMIT - a.scale) as nat);
    let ma = abs(a.mantissa as int);
    lemma_wf_norm(a);
    lemma_abs_value(a);
    lemma_pow10_pos((SCALE_LIMIT - a.scale) as nat);
    assert(abs(a.value()) * n == (ma * p) * n);
    assert((ma * p) * n == (ma * n) * p) by (nonlinear_arith);
    assert(((ma * n) * p < (MANT_LIMIT as int) * p) == (ma * n < MANT_LIMIT as int))
        by (nonlinear_arith)
        requires
            p >= 1,
    ;
}

/// 10^e as a `u128`, for exponents up to the scale limit.
fn pow10_u128(e: u32) -> (r: u128)
    requires
        e <= SCALE_LIMIT,
    ensures
        r == pow10(e as nat),
{
    let mut r: u128 = 1;
    let mut i: u32 = 0;
    while i < e
        invariant
            i <= e <= SCALE_LIMIT,
            r == pow10(i as nat),
        decreases e - i,
    {
        proof {
            lemma_pow10_28();
            lemma_pow10_mono((i + 1) as nat, 28);
            lemma_pow10_pos(i as nat);
            assert(pow10((i + 1) as nat) == 10 * pow10(i as nat));
        }
        r = r * 10;
        i = i + 1;
    }
    r
}

/// The magnitude of a mantissa, as a `u128`.
fn mant_abs_u128(m: i128) -> (r: u128)
    requires
        -MANT_LIMIT < m < MANT_LIMIT,
    ensures
        r == abs(m as int),
{
    if m < 0 {
        (-m) as u128
    } else {
        m as u128
    }
}

/// Exact decimal addition, checked: `None` exactly when the sum cannot be
/// represented exactly, that is, when [`sum_fits`] fails.
pub fn dec_add_checked(a: &Dec, b: &Dec) -> (r: Option<Dec>)
    requires
        a.wf(),
        b.wf(),
    ensures
        r is Some <==> sum_fits(a.value(), b.value()),
        r matches Some(d) ==> d.wf() && d.value() == a.value() + b.value(),
{
    proof {
        lemma_sum_fits_equiv(*a, *b);
    }
    let smax = if a.scale >= b.scale {
        a.scale
    } else {
        b.scale
    };
    let pa = pow10_u128(smax - a.scale);
    let pb = pow10_u128(smax - b.scale);
    let ma = mant_abs_u128(a.mantissa);
    let mb = mant_abs_u128(b.mantissa);
    match (ma.checked_mul(pa), mb.checked_mul(pb)) {
        (Some(x), Some(y)) => match x.checked_add(y) {
            Some(s) => {
                if s < MANT_LIMIT as u128 {
                    Some(dec_add_raw(a, b))
                } else {
                    None
                }
            },
            None => None,
        },
        _ => None,
    }
}

/// Exact decimal-by-integer multiplication, checked: `None` exactly when the
/// product cannot be represented exactly, that is, when [`prod_fits`] fails.
pub fn dec_mul_u32_checked(a: &Dec, n: u32) -> (r: Option<Dec>)
    requires
        a.wf(),
    ensures
        r is Some <==> prod_fits(a.value(), n as nat),
        r matches Some(d) ==> d.wf() && d.value() == a.value() * n,
{
    proof {
        lemma_prod_fits_equiv(*a, n);
    }
    let ma = mant_abs_u128(a.mantissa);
    match ma.checked_mul(n as u128) {
        Some(p) => {
            if p < MANT_LIMIT as u128 {
                Some(dec_mul_u32_raw(a, n))
            } else {
                None
            }
        },
        None => None,
    }
}

/// What `rust_decimal`'s string parser makes of a piece of text: the value of
/// the parsed decimal in units of 10^-28, or nothing if the text is rejected.
/// The parse is a function of the text alone.
pub uninterp spec fn dec_of_text(s: Seq<char>) -> Option<int>;

/// Relies on `rust_decimal::Decimal`'s `FromStr` for the parse itself, and on
/// `normalize`, `mantissa` and `scale` to take the result apart; `normalize`
/// strips trailing zeros and keeps the numeric value.
#[verifier::external_body]
pub(crate) fn dec_parse(s: &str) -> (r: Option<Dec>)
    ensures
        match r {
            Some(d) => d.wf() && dec_of_text(s@) == Some(d.value()),
            None => dec_of_text(s@) is None,
        },
{
    match s.parse::<rust_decimal::Decimal>() {
        Ok(d) => {
            let d = d.normalize();
            Some(Dec { mantissa: d.mantissa(), scale: d.scale() })
        },
        Err(_) => None,
    }
}

/// Relies on `rust_decimal::Decimal::checked_add`: the sum is exact whenever
/// the mantissas, aligned to the larger scale, sum below 2^96 (ops/add.rs),
/// and on `normalize`, which keeps the value.
#[verifier::external_body]
fn dec_add_raw(a: &Dec, b: &Dec) -> (r: Dec)
    requires
        a.wf(),
        b.wf(),
        add_fits(*a, *b),
    ensures
        r.wf(),
        r.value() == a.value() + b.value(),
{
    let x = rust_decimal::Decimal::from_i128_with_scale(a.mantissa, a.scale);
    let y = rust_decimal::Decimal::from_i128_with_scale(b.mantissa, b.scale);
    let s = x.checked_add(y).unwrap_or_default().normalize();
    Dec { mantissa: s.mantissa(), scale: s.scale() }
}

/// Relies on `rust_decimal::Decimal::checked_mul`: the product of a decimal
/// by an integer is exact whenever the product mantissa stays below 2^96
/// (ops/mul.rs), and on `normalize`, which keeps the value.
#[verifier::external_body]
fn dec_mul_u32_raw(a: &Dec, n: u32) -> (r: Dec)
    requires
        a.wf(),
        mul_fits(*a, n),
    ensures
        r.wf(),
        r.value() == a.value() * n,
{
    let x = rust_decimal::Decimal::from_i128_with_scale(a.mantissa, a.scale);
    let y = rust_decimal::Decimal::from(n);
    let p = x.checked_mul(y).unwrap_or_default().normalize();
    Dec { mantissa: p.mantissa(), scale: p.scale() }
}

/// Relies on `rust_decimal::Decimal`'s `Ord`: `cmp` orders decimals by their
/// exact numeric value (ops/cmp.rs).
#[verifier::external_body]
pub(crate) fn dec_lt(a: &Dec, b: &Dec) -> (r: bool)
    requires
        a.wf(),
        b.wf(),
    ensures
        r == (a.value() < b.value()),
{
    let x = rust_decimal::Decimal::from_i128_with_scale(a.mantissa, a.scale);
    let y = rust_decimal::Decimal::from_i128_with_scale(b.mantissa, b.scale);
    x < y
}

} // verus!
