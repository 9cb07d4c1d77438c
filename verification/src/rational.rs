//! Positive rationals for exact sample-boundary calculations.
use vstd::prelude::*;

use crate::error::Error;

verus! {

/// Rational used for exact sample-boundary calculations.
#[derive(Clone, Copy, Debug)]
pub struct Rational {
    /// Numerator.
    pub numerator: u128,
    /// Denominator; positive in every rational the library builds.
    pub denominator: u128,
}

/// Greatest common divisor by Euclid's algorithm.
pub open spec fn spec_gcd(left: nat, right: nat) -> nat
    decreases right,
{
    if right == 0 {
        left
    } else {
        spec_gcd(right, left % right)
    }
}

/// The product of two naturals.
pub open spec fn times(left: nat, right: nat) -> nat {
    left * right
}

/// Whether `divisor` divides `value`.
pub open spec fn divides(divisor: nat, value: nat) -> bool {
    exists|k: nat| value == #[trigger] times(divisor, k)
}

/// The greatest common divisor divides both arguments, and every common
/// divisor divides it.
pub proof fn lemma_gcd_is_greatest_common_divisor(left: nat, right: nat, common: nat)
    ensures
        divides(spec_gcd(left, right), left),
        divides(spec_gcd(left, right), right),
        divides(common, left) && divides(common, right) ==> divides(common, spec_gcd(left, right)),
    decreases right,
{
    if right == 0 {
        assert(left == times(left, 1));
        assert(0nat == times(left, 0));
    } else {
        let r = left % right;
        let q = left / right;
        lemma_gcd_is_greatest_common_divisor(right, r, common);
        let g = spec_gcd(right, r);
        vstd::arithmetic::div_mod::lemma_fundamental_div_mod(left as int, right as int);
        assert(left == right * q + r);
        let a = choose|k: nat| right == times(g, k);
        let b = choose|k: nat| r == times(g, k);
        assert(left == g * (a * q + b)) by (nonlinear_arith)
            requires
                left == right * q + r,
                right == g * a,
                r == g * b,
        ;
        assert(left == times(g, a * q + b));
        assert(divides(g, left));
        if divides(common, left) && divides(common, right) {
            let c1 = choose|k: nat| left == times(common, k);
            let c2 = choose|k: nat| right == times(common, k);
            assert(r == common * (c1 - c2 * q)) by (nonlinear_arith)
                requires
                    left == right * q + r,
                    left == common * c1,
                    right == common * c2,
            ;
            if common > 0 {
                assert(c1 - c2 * q >= 0) by (nonlinear_arith)
                    requires
                        r == common * (c1 - c2 * q),
                        r >= 0,
                        common > 0,
                ;
            } else {
                assert(right == times(common, c2));
                assert(common * c2 == 0) by (nonlinear_arith)
                    requires common == 0;
                assert(false);
            }
            assert(divides(common, r)) by {
                if common > 0 {
                    assert(r == times(common, (c1 - c2 * q) as nat));
                } else {
                    assert(r == times(common, 0));
                }
            }
        }
    }
}

/// Returns the greatest common divisor for ratio reduction.
pub fn greatest_common_divisor(left: u128, right: u128) -> (divisor: u128)
    ensures
        divisor == spec_gcd(left as nat, right as nat),
{
    let ghost original = (left, right);
    let mut left = left;
    let mut right = right;
    while right != 0
        invariant
            spec_gcd(left as nat, right as nat) == spec_gcd(original.0 as nat, original.1 as nat),
        decreases right,
    {
        let remainder = left % right;
        left = right;
        right = remainder;
    }
    left
}

/// Divides a numerator by a positive denominator, rounding upward.
pub fn divide_ceiling(numerator: u128, denominator: u128) -> (quotient: Result<u128, Error>)
    requires
        denominator > 0,
    ensures
        numerator + denominator - 1 <= u128::MAX ==> quotient == Ok::<u128, Error>(
            ((numerator + denominator - 1) / denominator as int) as u128,
        ),
        numerator + denominator - 1 > u128::MAX ==> (quotient matches Err(Error::UnsupportedWorkload { .. })),
{
    match numerator.checked_add(denominator.saturating_sub(1)) {
        Some(value) => Ok(value / denominator),
        None => Err(Error::unsupported_workload("sample timeline ceiling overflow")),
    }
}

/// `(numerator + denominator - 1) / denominator` is the least multiple count
/// that covers the numerator.
pub proof fn lemma_divide_ceiling_is_ceiling(numerator: nat, denominator: nat)
    requires
        denominator > 0,
    ensures
        ({
            let q = (numerator + denominator - 1) / denominator as int;
            q * denominator >= numerator && (q - 1) * denominator < numerator
        }),
{
    let x = numerator + denominator - 1;
    let q = x / denominator as int;
    vstd::arithmetic::div_mod::lemma_fundamental_div_mod(x, denominator as int);
    assert(q * denominator >= numerator && (q - 1) * denominator < numerator) by (nonlinear_arith)
        requires
            x == denominator * q + x % (denominator as int),
            0 <= x % (denominator as int) < denominator,
            x == numerator + denominator - 1,
            denominator > 0,
    ;
}

/// The product `value * multiplier` rounded to the nearest whole unit, halves
/// rounding up.
pub open spec fn spec_rounded_product(value: Rational, multiplier: int) -> int {
    (value.numerator * multiplier + value.denominator as int / 2) / value.denominator as int
}

/// The product `value * multiplier` rounded upward to a whole unit.
pub open spec fn spec_ceiling_product(value: Rational, multiplier: int) -> int {
    (value.numerator * multiplier + value.denominator - 1) / value.denominator as int
}

impl Rational {
    /// Multiplies and rounds to the nearest whole unit, halves rounding up.
    pub fn rounded_product(self, multiplier: u128) -> (product: Result<u64, Error>)
        requires
            self.denominator > 0,
        ensures
            self.numerator * multiplier + self.denominator / 2 <= u128::MAX && spec_rounded_product(
                self,
                multiplier as int,
            ) <= u64::MAX ==> product == Ok::<u64, Error>(
                spec_rounded_product(self, multiplier as int) as u64,
            ),
            !(self.numerator * multiplier + self.denominator / 2 <= u128::MAX
                && spec_rounded_product(self, multiplier as int) <= u64::MAX) ==> (product matches Err(
                Error::UnsupportedWorkload { .. },
            )),
    {
        let scaled = match self.numerator.checked_mul(multiplier) {
            Some(scaled) => scaled,
            None => {
                return Err(Error::unsupported_workload("sample timeline multiplication overflow"));
            },
        };
        let rounded = match scaled.checked_add(self.denominator / 2) {
            Some(sum) => sum / self.denominator,
            None => {
                return Err(Error::unsupported_workload("sample timeline rounding overflow"));
            },
        };
        if rounded > u64::MAX as u128 {
            return Err(Error::unsupported_workload("sample count exceeds supported range"));
        }
        Ok(rounded as u64)
    }

    /// Multiplies and rounds upward to a whole unit.
    pub fn ceiling_product(self, multiplier: u128) -> (product: Result<u64, Error>)
        requires
            self.denominator > 0,
        ensures
            self.numerator * multiplier + self.denominator - 1 <= u128::MAX && spec_ceiling_product(
                self,
                multiplier as int,
            ) <= u64::MAX ==> product == Ok::<u64, Error>(
                spec_ceiling_product(self, multiplier as int) as u64,
            ),
            !(self.numerator * multiplier + self.denominator - 1 <= u128::MAX
                && spec_ceiling_product(self, multiplier as int) <= u64::MAX) ==> (product matches Err(
                Error::UnsupportedWorkload { .. },
            )),
    {
        let scaled = match self.numerator.checked_mul(multiplier) {
            Some(scaled) => scaled,
            None => {
                return Err(Error::unsupported_workload("sample timeline multiplication overflow"));
            },
        };
        let ceiling = divide_ceiling(scaled, self.denominator)?;
        if ceiling > u64::MAX as u128 {
            return Err(Error::unsupported_workload("sample count exceeds supported range"));
        }
        Ok(ceiling as u64)
    }
}

/// Largest denominator retained while recovering a decimal ratio.
pub const MAX_RATIONAL_DENOMINATOR: u128 = 1_000_000_000;

/// The last two convergents `p/q` of a continued fraction expansion.
#[derive(Clone, Copy, Debug, PartialEq, Eq, Structural)]
pub struct Convergents {
    /// Numerator of the convergent before the current one.
    pub previous_numerator: u128,
    /// Numerator of the current convergent.
    pub numerator: u128,
    /// Denominator of the convergent before the current one.
    pub previous_denominator: u128,
    /// Denominator of the current convergent.
    pub denominator: u128,
}

/// The cross determinant `p_k * q_(k-1) - p_(k-1) * q_k` of two successive
/// convergents.
pub open spec fn determinant(c: Convergents) -> int {
    c.numerator * c.previous_denominator - c.previous_numerator * c.denominator
}

impl Convergents {
    /// The seed of the expansion: `0/1` before `1/0`.
    pub fn start() -> (c: Self)
        ensures
            c == (Convergents { previous_numerator: 0, numerator: 1, previous_denominator: 1, denominator: 0 }),
            determinant(c) == 1,
    {
        Convergents { previous_numerator: 0, numerator: 1, previous_denominator: 1, denominator: 0 }
    }

    /// The next convergent for the partial quotient `whole`:
    /// `(whole * p + p', whole * q + q')`. `None` when a term overflows or the
    /// denominator would exceed [`MAX_RATIONAL_DENOMINATOR`].
    pub fn next(self, whole: u128) -> (next: Option<Self>)
        ensures
            ({
                let numerator = whole * self.numerator + self.previous_numerator;
                let denominator = whole * self.denominator + self.previous_denominator;
                &&& (numerator <= u128::MAX && denominator <= u128::MAX && denominator
                    <= MAX_RATIONAL_DENOMINATOR) ==> next == Some(
                    Convergents {
                        previous_numerator: self.numerator,
                        numerator: numerator as u128,
                        previous_denominator: self.denominator,
                        denominator: denominator as u128,
                    },
                )
                &&& !(numerator <= u128::MAX && denominator <= u128::MAX && denominator
                    <= MAX_RATIONAL_DENOMINATOR) ==> next is None
            }),
    {
        let numerator = match whole.checked_mul(self.numerator) {
            Some(term) => match term.checked_add(self.previous_numerator) {
                Some(value) => value,
                None => {
                    return None;
                },
            },
            None => {
                assert(whole * self.numerator + self.previous_numerator > u128::MAX);
                return None;
            },
        };
        let denominator = match whole.checked_mul(self.denominator) {
            Some(term) => match term.checked_add(self.previous_denominator) {
                Some(value) => value,
                None => {
                    return None;
                },
            },
            None => {
                assert(whole * self.denominator + self.previous_denominator > u128::MAX);
                return None;
            },
        };
        if denominator > MAX_RATIONAL_DENOMINATOR {
            return None;
        }
        Some(
            Convergents {
                previous_numerator: self.numerator,
                numerator,
                previous_denominator: self.denominator,
                denominator,
            },
        )
    }
}

/// Successive convergents have cross determinant +1 or -1, and each step
/// flips its sign.
pub proof fn lemma_convergent_determinant(c: Convergents, whole: u128, next: Convergents)
    requires
        next.previous_numerator == c.numerator,
        next.previous_denominator == c.denominator,
        next.numerator == whole * c.numerator + c.previous_numerator,
        next.denominator == whole * c.denominator + c.previous_denominator,
    ensures
        determinant(next) == -determinant(c),
{
    assert(determinant(next) == -determinant(c)) by (nonlinear_arith)
        requires
            next.previous_numerator == c.numerator,
            next.previous_denominator == c.denominator,
            next.numerator == whole * c.numerator + c.previous_numerator,
            next.denominator == whole * c.denominator + c.previous_denominator,
    ;
}

impl Rational {
    /// The fraction `numerator / denominator` divided through by the greatest
    /// common divisor of its terms; fails when the denominator is zero.
    pub fn reduced(numerator: u128, denominator: u128) -> (reduced: Result<Rational, Error>)
        ensures
            denominator == 0 ==> (reduced matches Err(Error::UnsupportedWorkload { .. })),
            denominator > 0 ==> (reduced matches Ok(r) && ({
                let g = spec_gcd(numerator as nat, denominator as nat);
                &&& g > 0
                &&& r.numerator * g == numerator
                &&& r.denominator * g == denominator
            })),
    {
        if denominator == 0 {
            return Err(Error::unsupported_workload("could not represent the value as a rational value"));
        }
        let divisor = greatest_common_divisor(numerator, denominator);
        proof {
            lemma_gcd_is_greatest_common_divisor(numerator as nat, denominator as nat, 1);
            lemma_gcd_positive(numerator as nat, denominator as nat);
            let g = divisor as nat;
            let a = choose|k: nat| numerator == #[trigger] times(g, k);
            let b = choose|k: nat| denominator == #[trigger] times(g, k);
            vstd::arithmetic::div_mod::lemma_div_multiples_vanish(a as int, g as int);
            vstd::arithmetic::div_mod::lemma_div_multiples_vanish(b as int, g as int);
            assert(a * g == numerator) by (nonlinear_arith)
                requires numerator == times(g, a);
            assert(b * g == denominator) by (nonlinear_arith)
                requires denominator == times(g, b);
            assert(numerator / divisor == a);
            assert(denominator / divisor == b);
        }
        Ok(Rational { numerator: numerator / divisor, denominator: denominator / divisor })
    }
}

/// The greatest common divisor of a pair with a positive member is positive.
proof fn lemma_gcd_positive(left: nat, right: nat)
    requires
        right > 0,
    ensures
        spec_gcd(left, right) > 0,
    decreases right,
{
    let r = left % right;
    if r > 0 {
        lemma_gcd_positive(right, r);
    } else {
        assert(spec_gcd(right, 0) == right);
    }
}

} // verus!
