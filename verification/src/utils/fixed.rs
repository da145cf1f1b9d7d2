//! Saturating fixed-point numbers with nine decimal places.
use vstd::prelude::*;

verus! {

/// Raw units per whole unit.
pub const SCALE: i64 = 1_000_000_000;

/// Largest magnitude of a raw value. Results beyond it saturate to `LIMIT` or `-LIMIT`.
pub const LIMIT: i64 = 9_223_372_036_854_775_807;

/// The value of the range `-LIMIT ..= LIMIT` that is nearest to `v`.
pub open spec fn clamp(v: int) -> int {
    if v > LIMIT {
        LIMIT as int
    } else if v < -LIMIT {
        -LIMIT
    } else {
        v
    }
}

/// The absolute value of `v`.
pub open spec fn magnitude(v: int) -> int {
    if v < 0 {
        -v
    } else {
        v
    }
}

/// The quotient `n / d` rounded toward zero, and zero where `d` is zero.
pub open spec fn trunc_div(n: int, d: int) -> int {
    if d == 0 {
        0
    } else if (n < 0) == (d < 0) {
        magnitude(n) / magnitude(d)
    } else {
        -(magnitude(n) / magnitude(d))
    }
}

/// `r` is the largest natural number whose square does not exceed `n`.
pub open spec fn is_floor_sqrt(n: int, r: int) -> bool {
    0 <= r && r * r <= n < (r + 1) * (r + 1)
}

/// The integer square root of `n`, for `n >= 0`.
pub open spec fn floor_sqrt(n: int) -> int {
    choose|r: int| is_floor_sqrt(n, r)
}

/// At most one number is the integer square root of `n`.
pub proof fn lemma_floor_sqrt_unique(n: int, r1: int, r2: int)
    requires
        is_floor_sqrt(n, r1),
        is_floor_sqrt(n, r2),
    ensures
        r1 == r2,
{
    if r1 < r2 {
        assert((r1 + 1) * (r1 + 1) <= r2 * r2) by (nonlinear_arith)
            requires
                0 <= r1,
                r1 + 1 <= r2,
        ;
    } else if r2 < r1 {
        assert((r2 + 1) * (r2 + 1) <= r1 * r1) by (nonlinear_arith)
            requires
                0 <= r2,
                r2 + 1 <= r1,
        ;
    }
}

/// Every `n >= 0` has an integer square root, and `floor_sqrt` names it.
pub proof fn lemma_floor_sqrt(n: int)
    requires
        n >= 0,
    ensures
        is_floor_sqrt(n, floor_sqrt(n)),
    decreases n,
{
    if n == 0 {
        assert(is_floor_sqrt(0, 0));
    } else {
        lemma_floor_sqrt(n - 1);
        let r = floor_sqrt(n - 1);
        if n < (r + 1) * (r + 1) {
            assert(is_floor_sqrt(n, r));
        } else {
            assert((r + 2) * (r + 2) > (r + 1) * (r + 1)) by (nonlinear_arith)
                requires
                    0 <= r,
            ;
            assert(is_floor_sqrt(n, r + 1));
        }
    }
}

/// Twice the quotient and the quotient of twice the dividend differ by one unit at most.
pub proof fn lemma_trunc_div_of_double(n: int)
    ensures
        -1 <= trunc_div(2 * n, SCALE as int) - 2 * trunc_div(n, SCALE as int) <= 1,
{
    let size = magnitude(n);
    assert(magnitude(2 * n) == 2 * size);
    assert(0 <= (2 * size) / 1_000_000_000 - 2 * (size / 1_000_000_000) <= 1) by (nonlinear_arith)
        requires
            size >= 0,
    ;
}

/// Adding `step` twice, saturating each time, is adding twice `step` and saturating once.
pub proof fn lemma_clamp_twice(start: int, step: int)
    requires
        -LIMIT <= start <= LIMIT,
    ensures
        clamp(clamp(start + step) + step) == clamp(start + 2 * step),
{
}

/// A fixed-point number: `raw` units of `1 / SCALE`, with `-LIMIT <= raw <= LIMIT`.
#[derive(Clone, Copy, Debug, PartialEq, Eq, Structural)]
pub struct Fixed {
    raw: i64,
}

impl View for Fixed {
    type V = int;

    /// The number of raw units.
    closed spec fn view(&self) -> int {
        self.raw as int
    }
}

impl Fixed {
    /// Every value lies in the symmetric range, so that negation is exact.
    #[verifier::type_invariant]
    pub open spec fn in_range(self) -> bool {
        -LIMIT <= self@ <= LIMIT
    }

    /// The number of `v` raw units, saturated.
    pub closed spec fn of(v: int) -> Fixed {
        Fixed { raw: clamp(v) as i64 }
    }

    /// The sum, saturated.
    pub open spec fn spec_add(self, rhs: Fixed) -> Fixed {
        Fixed::of(self@ + rhs@)
    }

    /// The difference, saturated.
    pub open spec fn spec_sub(self, rhs: Fixed) -> Fixed {
        Fixed::of(self@ - rhs@)
    }

    /// The negation, which is exact for a value in range.
    pub open spec fn spec_neg(self) -> Fixed {
        Fixed::of(-self@)
    }

    /// The product, rounded toward zero to nine decimal places and saturated.
    pub open spec fn spec_mul(self, rhs: Fixed) -> Fixed {
        Fixed::of(trunc_div(self@ * rhs@, SCALE as int))
    }

    /// The quotient, rounded toward zero to nine decimal places and
    /// saturated; zero where `rhs` is zero.
    pub open spec fn spec_div(self, rhs: Fixed) -> Fixed {
        Fixed::of(trunc_div(self@ * SCALE, rhs@))
    }

    /// The square root of a value that is not negative, rounded down to nine decimal places.
    pub open spec fn spec_sqrt(self) -> Fixed {
        Fixed::of(floor_sqrt(self@ * SCALE))
    }

    /// `of` saturates, and a value in range is `of` its own view.
    pub proof fn lemma_of(v: int)
        ensures
            Fixed::of(v)@ == clamp(v),
            Fixed::of(v).in_range(),
    {
    }

    /// A value in range is `of` its own view.
    pub proof fn lemma_of_view(a: Fixed)
        requires
            a.in_range(),
        ensures
            Fixed::of(a@) == a,
    {
    }

    /// A product with a factor that is not negative has the sign of the
    /// other factor, or is zero.
    pub proof fn lemma_mul_keeps_sign(a: Fixed, b: Fixed)
        requires
            b@ >= 0,
        ensures
            a@ >= 0 ==> a.spec_mul(b)@ >= 0,
            a@ <= 0 ==> a.spec_mul(b)@ <= 0,
    {
        assert((a@ >= 0 ==> a@ * b@ >= 0) && (a@ <= 0 ==> a@ * b@ <= 0)) by (nonlinear_arith)
            requires
                b@ >= 0,
        ;
        Fixed::lemma_of(trunc_div(a@ * b@, SCALE as int));
    }

    /// A quotient of two values that are not negative is not negative.
    pub proof fn lemma_div_keeps_sign(a: Fixed, b: Fixed)
        requires
            a@ >= 0,
            b@ >= 0,
        ensures
            a.spec_div(b)@ >= 0,
    {
        assert(a@ * SCALE >= 0) by (nonlinear_arith)
            requires
                a@ >= 0,
                SCALE >= 0,
        ;
        if b@ > 0 {
            vstd::arithmetic::div_mod::lemma_div_pos_is_pos(a@ * SCALE, b@);
        }
        Fixed::lemma_of(trunc_div(a@ * SCALE, b@));
    }

    /// The product with a negated factor is the negated product.
    pub proof fn lemma_mul_of_negation(a: Fixed, b: Fixed)
        requires
            a.in_range(),
        ensures
            a.spec_neg().spec_mul(b)@ == -a.spec_mul(b)@,
    {
        Fixed::lemma_of(-a@);
        assert((-a@) * b@ == -(a@ * b@)) by (nonlinear_arith);
        Fixed::lemma_of(trunc_div(a@ * b@, SCALE as int));
        Fixed::lemma_of(trunc_div(-(a@ * b@), SCALE as int));
    }

    fn saturate(v: i128) -> (r: Fixed)
        ensures
            r == Fixed::of(v as int),
    {
        if v > LIMIT as i128 {
            Fixed { raw: LIMIT }
        } else if v < -(LIMIT as i128) {
            Fixed { raw: -LIMIT }
        } else {
            Fixed { raw: v as i64 }
        }
    }

    /// The value of `raw` units; `i64::MIN` saturates to `-LIMIT`.
    pub fn from_raw(raw: i64) -> (r: Fixed)
        ensures
            r == Fixed::of(raw as int),
            r@ == clamp(raw as int),
    {
        Fixed::saturate(raw as i128)
    }

    /// The number of raw units.
    pub fn raw(self) -> (r: i64)
        ensures
            r == self@,
            -LIMIT <= r <= LIMIT,
    {
        proof {
            use_type_invariant(&self);
        }
        self.raw
    }

    /// The number zero.
    pub fn zero() -> (r: Fixed)
        ensures
            r == Fixed::of(0),
            r@ == 0,
    {
        Fixed { raw: 0 }
    }

    /// The number one.
    pub fn one() -> (r: Fixed)
        ensures
            r == Fixed::of(SCALE as int),
            r@ == SCALE,
    {
        Fixed { raw: SCALE }
    }

    /// Adds, saturating at `LIMIT` and `-LIMIT`.
    pub fn add(self, rhs: Fixed) -> (r: Fixed)
        ensures
            r == self.spec_add(rhs),
            r@ == clamp(self@ + rhs@),
    {
        Fixed::saturate(self.raw as i128 + rhs.raw as i128)
    }

    /// Subtracts, saturating at `LIMIT` and `-LIMIT`.
    pub fn sub(self, rhs: Fixed) -> (r: Fixed)
        ensures
            r == self.spec_sub(rhs),
            r@ == clamp(self@ - rhs@),
    {
        Fixed::saturate(self.raw as i128 - rhs.raw as i128)
    }

    /// Negates, which never saturates.
    pub fn neg(self) -> (r: Fixed)
        ensures
            r == self.spec_neg(),
            r@ == -self@,
    {
        proof {
            use_type_invariant(&self);
        }
        Fixed { raw: -self.raw }
    }

    /// Multiplies, rounding toward zero and saturating.
    pub fn mul(self, rhs: Fixed) -> (r: Fixed)
        ensures
            r == self.spec_mul(rhs),
            r@ == clamp(trunc_div(self@ * rhs@, SCALE as int)),
    {
        let a: i128 = self.raw as i128;
        let b: i128 = rhs.raw as i128;
        assert(-0x4000_0000_0000_0000_0000_0000_0000_0000 <= a * b
            <= 0x4000_0000_0000_0000_0000_0000_0000_0000) by (nonlinear_arith)
            requires
                -0x8000_0000_0000_0000 <= a <= 0x8000_0000_0000_0000,
                -0x8000_0000_0000_0000 <= b <= 0x8000_0000_0000_0000,
        ;
        let p: i128 = a * b;
        Fixed::saturate(p / (SCALE as i128))
    }

    /// Divides, rounding toward zero and saturating; `None` where `rhs` is zero.
    pub fn checked_div(self, rhs: Fixed) -> (r: Option<Fixed>)
        ensures
            r == (if rhs@ == 0 {
                None
            } else {
                Some(self.spec_div(rhs))
            }),
    {
        if rhs.raw == 0 {
            return None;
        }
        proof {
            use_type_invariant(&self);
            use_type_invariant(&rhs);
        }
        let a: u128 = if self.raw < 0 {
            (-self.raw) as u128
        } else {
            self.raw as u128
        };
        let d: u128 = if rhs.raw < 0 {
            (-rhs.raw) as u128
        } else {
            rhs.raw as u128
        };
        let scale: u128 = SCALE as u128;
        assert(a * scale < 0x4000_0000_0000_0000_0000_0000) by (nonlinear_arith)
            requires
                0 <= a <= 0x8000_0000_0000_0000,
                scale == 1_000_000_000,
        ;
        let q: u128 = (a * scale) / d;
        assert(magnitude(self@ * SCALE) == a * scale && ((self@ * SCALE < 0) == (self@ < 0)))
            by (nonlinear_arith)
            requires
                a == magnitude(self@),
                scale == SCALE,
                SCALE == 1_000_000_000,
        ;
        assert(q <= a * scale) by (nonlinear_arith)
            requires
                q == (a * scale) / (d as int),
                d >= 1,
        ;
        let signed: i128 = if (self.raw < 0) == (rhs.raw < 0) {
            q as i128
        } else {
            -(q as i128)
        };
        Some(Fixed::saturate(signed))
    }

    /// The square root, rounded down; `None` where the value is negative.
    pub fn sqrt(self) -> (r: Option<Fixed>)
        ensures
            r == (if self@ < 0 {
                None
            } else {
                Some(self.spec_sqrt())
            }),
    {
        if self.raw < 0 {
            return None;
        }
        let a: u128 = self.raw as u128;
        let scale: u128 = SCALE as u128;
        assert(a * scale < 0x4000_0000_0000_0000_0000_0000) by (nonlinear_arith)
            requires
                0 <= a <= 0x8000_0000_0000_0000,
                scale == 1_000_000_000,
        ;
        let n: u128 = a * scale;
        let mut lo: u64 = 0;
        let mut hi: u64 = 0x8000_0000_0000;
        assert(0x8000_0000_0000int * 0x8000_0000_0000int == 0x4000_0000_0000_0000_0000_0000int);
        while hi - lo > 1
            invariant
                lo < hi <= 0x8000_0000_0000,
                lo * lo <= n < hi * hi,
            decreases hi - lo,
        {
            let mid: u64 = lo + (hi - lo) / 2;
            assert(mid * mid < 0x4000_0000_0000_0000_0000_0000) by (nonlinear_arith)
                requires
                    0 <= mid < 0x8000_0000_0000,
            ;
            let sq: u128 = (mid as u128) * (mid as u128);
            if sq <= n {
                lo = mid;
            } else {
                hi = mid;
            }
        }
        proof {
            assert(is_floor_sqrt(n as int, lo as int));
            lemma_floor_sqrt(n as int);
            lemma_floor_sqrt_unique(n as int, lo as int, floor_sqrt(n as int));
        }
        Some(Fixed { raw: lo as i64 })
    }
}

} // verus!
