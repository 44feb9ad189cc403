//! Exchange rates between two currency units.
//!
//! An `ExchangeRate<N, D>` carries an exact rational factor: applied to a
//! minor-unit count of the denominator unit `D`, it yields minor units of the
//! numerator unit `N`, rounded to the nearest integer with halves away from
//! zero, and clamped to the 64-bit range. The two units are fixed at the type
//! level, so a rate can never be applied to an amount of the wrong currency.

use vstd::prelude::*;

use core::marker::PhantomData;

use crate::conversions::currency::{Currency, CurrencyType};

verus! {

/// A conversion factor from minor units of `D` to minor units of `N`.
#[derive(Debug, PartialEq, Eq)]
pub struct ExchangeRate<N: CurrencyType, D: CurrencyType> {
    num: u64,
    den: u64,
    to_unit: PhantomData<N>,
    from_unit: PhantomData<D>,
}

impl<N: CurrencyType, D: CurrencyType> Clone for ExchangeRate<N, D> {
    fn clone(&self) -> (r: Self)
        ensures
            r == *self,
    {
        ExchangeRate { num: self.num, den: self.den, to_unit: PhantomData, from_unit: PhantomData }
    }
}

/// The nearest integer to `a / b`, halves rounded away from zero.
pub open spec fn rdiv(a: int, b: int) -> int
    recommends
        b >= 1,
{
    if a >= 0 {
        (2 * a + b) / (2 * b)
    } else {
        -((2 * (-a) + b) / (2 * b))
    }
}

/// `x` clamped to the signed 64-bit range.
pub open spec fn sat_i64(x: int) -> int {
    if x > i64::MAX {
        i64::MAX as int
    } else if x < i64::MIN {
        i64::MIN as int
    } else {
        x
    }
}

/// What converting a minor-unit count by the factor `num / den` yields.
pub open spec fn convert_value(raw: int, num: int, den: int) -> int
    recommends
        num >= 1,
        den >= 1,
{
    sat_i64(rdiv(raw * num, den))
}

/// Rounding to the nearest multiple errs by at most half the divisor:
/// `2 * |rdiv(a, b) * b - a| <= b`.
pub proof fn lemma_rdiv_error(a: int, b: int)
    requires
        b >= 1,
    ensures
        2 * (rdiv(a, b) * b - a) <= b,
        2 * (a - rdiv(a, b) * b) <= b,
{
    if a >= 0 {
        let q = (2 * a + b) / (2 * b);
        let r = (2 * a + b) % (2 * b);
        vstd::arithmetic::div_mod::lemma_fundamental_div_mod(2 * a + b, 2 * b);
        vstd::arithmetic::div_mod::lemma_mod_bound(2 * a + b, 2 * b);
        assert(2 * (q * b) == (2 * b) * q) by (nonlinear_arith);
        assert(2 * (q * b - a) == b - r);
    } else {
        let m = -a;
        let q = (2 * m + b) / (2 * b);
        let r = (2 * m + b) % (2 * b);
        vstd::arithmetic::div_mod::lemma_fundamental_div_mod(2 * m + b, 2 * b);
        vstd::arithmetic::div_mod::lemma_mod_bound(2 * m + b, 2 * b);
        assert(2 * (q * b) == (2 * b) * q) by (nonlinear_arith);
        assert(2 * (q * b - m) == b - r);
        assert(rdiv(a, b) * b == -(q * b)) by (nonlinear_arith)
            requires
                rdiv(a, b) == -q,
        ;
    }
}

/// Converting with the factor `num / den` and back with the inverted factor
/// recovers the original count to within one unit, provided the factor is
/// greater than a third.
pub proof fn lemma_rdiv_round_trip(raw: int, num: int, den: int)
    requires
        num >= 1,
        den >= 1,
        den < 3 * num,
    ensures
        -1 <= rdiv(rdiv(raw * num, den) * den, num) - raw <= 1,
{
    let y = rdiv(raw * num, den);
    let z = rdiv(y * den, num);
    lemma_rdiv_error(raw * num, den);
    lemma_rdiv_error(y * den, num);
    assert(2 * (y * den - raw * num) <= den);
    assert(2 * (raw * num - y * den) <= den);
    assert(2 * (z * num - y * den) <= num);
    assert(2 * (y * den - z * num) <= num);
    assert(2 * ((z - raw) * num) <= den + num) by (nonlinear_arith)
        requires
            2 * (z * num - y * den) <= num,
            2 * (y * den - raw * num) <= den,
    ;
    assert(2 * ((raw - z) * num) <= den + num) by (nonlinear_arith)
        requires
            2 * (y * den - z * num) <= num,
            2 * (raw * num - y * den) <= den,
    ;
    if z - raw >= 2 {
        assert((z - raw) * num >= 2 * num) by (nonlinear_arith)
            requires
                z - raw >= 2,
                num >= 1,
        ;
        assert(false);
    }
    if raw - z >= 2 {
        assert((raw - z) * num >= 2 * num) by (nonlinear_arith)
            requires
                raw - z >= 2,
                num >= 1,
        ;
        assert(false);
    }
}

impl<N: CurrencyType, D: CurrencyType> ExchangeRate<N, D> {
    /// The numerator of the stored minor-unit factor.
    pub closed spec fn spec_num(self) -> int {
        self.num as int
    }

    /// The denominator of the stored minor-unit factor.
    pub closed spec fn spec_den(self) -> int {
        self.den as int
    }

    /// Both parts of the stored factor are positive and small enough for
    /// conversion arithmetic.
    pub open spec fn wf(self) -> bool {
        &&& 1 <= self.spec_num() <= 1099511627776
        &&& 1 <= self.spec_den() <= 1099511627776
    }

    /// Builds the rate from a human major-unit-to-major-unit ratio
    /// `rate_num / rate_den`, scaling it by the two units' minor-unit
    /// factors.
    pub fn new(rate_num: u32, rate_den: u32) -> (r: Self)
        requires
            rate_num >= 1,
            rate_den >= 1,
        ensures
            r.spec_num() == rate_num * 100,
            r.spec_den() == rate_den * 100,
            r.wf(),
    {
        let num = (rate_num as u64) * N::store_factor();
        let den = (rate_den as u64) * D::store_factor();
        ExchangeRate { num, den, to_unit: PhantomData, from_unit: PhantomData }
    }

    /// The human major-unit-to-major-unit ratio, as a fraction: the stored
    /// factor with the two units' scales divided back out.
    pub fn rate(&self) -> (r: (u128, u128))
        ensures
            r.0 == self.spec_num() * 100,
            r.1 == self.spec_den() * 100,
    {
        let d_factor = D::store_factor();
        let n_factor = N::store_factor();
        proof {
            assert((self.num as int) * 100 <= 0xffffffffffffffff * 100) by (nonlinear_arith)
                requires
                    self.num <= 0xffffffffffffffff,
            ;
            assert((self.den as int) * 100 <= 0xffffffffffffffff * 100) by (nonlinear_arith)
                requires
                    self.den <= 0xffffffffffffffff,
            ;
        }
        ((self.num as u128) * (d_factor as u128), (self.den as u128) * (n_factor as u128))
    }

    /// The reciprocal rate, converting minor units of `N` back to `D`.
    pub fn invert(&self) -> (r: ExchangeRate<D, N>)
        requires
            self.wf(),
        ensures
            r.spec_num() == self.spec_den(),
            r.spec_den() == self.spec_num(),
            r.wf(),
    {
        ExchangeRate { num: self.den, den: self.num, to_unit: PhantomData, from_unit: PhantomData }
    }

    /// Converts an amount of `D` to `N`: the minor-unit count is multiplied
    /// by the stored factor and rounded to the nearest integer, halves away
    /// from zero, clamped to the 64-bit range.
    pub fn convert(&self, from_amount: Currency<D>) -> (r: Currency<N>)
        requires
            self.wf(),
        ensures
            r.spec_raw() == convert_value(from_amount.spec_raw(), self.spec_num(), self.spec_den()),
    {
        let raw = from_amount.raw_amount();
        let neg = raw < 0;
        let mag: u128 = if raw < 0 {
            (-(raw as i128)) as u128
        } else {
            raw as u128
        };
        let num = self.num as u128;
        let den = self.den as u128;
        proof {
            assert(2 * mag * num + den <= (2 * 0x8000000000000000) * 1099511627776
                + 1099511627776) by (nonlinear_arith)
                requires
                    mag <= 0x8000000000000000,
                    1 <= num <= 1099511627776,
                    1 <= den <= 1099511627776,
            ;
        }
        let q = (2 * mag * num + den) / (2 * den);
        proof {
            let a = from_amount.spec_raw() * self.spec_num();
            let p = (mag as int) * (num as int);
            assert((2 * mag * num) as int == 2 * p) by (nonlinear_arith)
                requires
                    p == (mag as int) * (num as int),
                    2 * mag * num <= u128::MAX,
            ;
            assert(q as int == (2 * p + den) / (2 * (den as int)));
            if neg {
                assert(p == -a) by (nonlinear_arith)
                    requires
                        p == (mag as int) * (num as int),
                        a == from_amount.spec_raw() * self.spec_num(),
                        mag == -from_amount.spec_raw(),
                        num == self.spec_num(),
                ;
                assert(a < 0) by (nonlinear_arith)
                    requires
                        a == from_amount.spec_raw() * self.spec_num(),
                        from_amount.spec_raw() < 0,
                        self.spec_num() >= 1,
                ;
                assert(rdiv(a, self.spec_den()) == -(q as int));
            } else {
                assert(p == a) by (nonlinear_arith)
                    requires
                        p == (mag as int) * (num as int),
                        a == from_amount.spec_raw() * self.spec_num(),
                        mag == from_amount.spec_raw(),
                        num == self.spec_num(),
                ;
                assert(a >= 0) by (nonlinear_arith)
                    requires
                        a == from_amount.spec_raw() * self.spec_num(),
                        from_amount.spec_raw() >= 0,
                        self.spec_num() >= 1,
                ;
                assert(rdiv(a, self.spec_den()) == q as int);
            }
        }
        if neg {
            if q >= 9223372036854775808u128 {
                Currency::from_raw_amount(i64::MIN)
            } else {
                Currency::from_raw_amount(-(q as i64))
            }
        } else {
            if q > 9223372036854775807u128 {
                Currency::from_raw_amount(i64::MAX)
            } else {
                Currency::from_raw_amount(q as i64)
            }
        }
    }
}

/// Converting an amount and converting the result back with the inverted
/// rate recovers the original amount to within one minor unit — never more —
/// provided the rate's minor-unit factor is greater than a third and the
/// first conversion does not leave the 64-bit range.
pub proof fn lemma_invert_round_trip<N: CurrencyType, D: CurrencyType>(
    rate: ExchangeRate<N, D>,
    m: Currency<D>,
)
    requires
        rate.wf(),
        rate.spec_den() < 3 * rate.spec_num(),
        i64::MIN <= rdiv(m.spec_raw() * rate.spec_num(), rate.spec_den()) <= i64::MAX,
    ensures
        -1 <= convert_value(
            convert_value(m.spec_raw(), rate.spec_num(), rate.spec_den()),
            rate.spec_den(),
            rate.spec_num(),
        ) - m.spec_raw() <= 1,
{
    let raw = m.spec_raw();
    let num = rate.spec_num();
    let den = rate.spec_den();
    let y = rdiv(raw * num, den);
    assert(convert_value(raw, num, den) == y);
    lemma_rdiv_round_trip(raw, num, den);
    let z = rdiv(y * den, num);
    assert(raw - 1 <= z <= raw + 1);
    m.lemma_raw_in_range();
    assert(-1 <= sat_i64(z) - raw <= 1);
}

} // verus!
