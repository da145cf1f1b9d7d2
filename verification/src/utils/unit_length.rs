//! How close a normalised vector comes to length one.
use crate::utils::array_logic::{Length, Normalise, Vec2};
use crate::utils::fixed::{
    clamp, floor_sqrt, is_floor_sqrt, lemma_floor_sqrt, magnitude, trunc_div, Fixed, LIMIT, SCALE,
};
use vstd::arithmetic::div_mod::{lemma_fundamental_div_mod, lemma_mod_bound};
use vstd::prelude::*;

verus! {

/// From `inv * len <= s * s` and `p * s <= a * inv` follows `p * len <= a * s`.
proof fn lemma_component_at_most(s: int, a: int, len: int, inv: int, p: int)
    requires
        s >= 1,
        a >= 0,
        len >= 0,
        inv * len <= s * s,
        p * s <= a * inv,
    ensures
        p * len <= a * s,
{
    assert((p * s) * len <= (a * inv) * len) by (nonlinear_arith)
        requires
            p * s <= a * inv,
            len >= 0,
    ;
    assert(a * (inv * len) <= a * (s * s)) by (nonlinear_arith)
        requires
            inv * len <= s * s,
            a >= 0,
    ;
    assert((a * inv) * len == a * (inv * len)) by (nonlinear_arith);
    assert((p * s) * len == (p * len) * s) by (nonlinear_arith);
    assert(a * (s * s) == (a * s) * s) by (nonlinear_arith);
    assert(p * len <= a * s) by (nonlinear_arith)
        requires
            (p * len) * s <= (a * s) * s,
            s >= 1,
    ;
}

/// The length of a normalised vector exceeds one by two raw units at most.
proof fn lemma_direction_at_most(
    s: int,
    a: int,
    b: int,
    len: int,
    inv: int,
    p: int,
    q: int,
    dd: int,
    dd2: int,
    len2: int,
)
    requires
        s >= 1,
        a >= 0,
        b >= 0,
        len >= s,
        p >= 0,
        q >= 0,
        len2 >= 0,
        inv * len <= s * s,
        p * s <= a * inv,
        q * s <= b * inv,
        a * a + b * b < dd + 2 * s,
        dd < (len + 1) * (len + 1),
        dd2 <= p * p + q * q,
        len2 * len2 <= dd2,
    ensures
        len2 <= s + 2,
{
    lemma_component_at_most(s, a, len, inv, p);
    lemma_component_at_most(s, b, len, inv, q);
    let pl = p * len;
    let ql = q * len;
    let sa = a * s;
    let sb = b * s;
    let ll = len * len;
    let ss = s * s;
    let pq = p * p + q * q;
    let ab = a * a + b * b;
    assert(0 <= pl && 0 <= ql) by (nonlinear_arith)
        requires
            p >= 0,
            q >= 0,
            len >= 0,
            pl == p * len,
            ql == q * len,
    ;
    assert(pl * pl <= sa * sa) by (nonlinear_arith)
        requires
            0 <= pl <= sa,
    ;
    assert(ql * ql <= sb * sb) by (nonlinear_arith)
        requires
            0 <= ql <= sb,
    ;
    assert(pl * pl + ql * ql == pq * ll) by (nonlinear_arith)
        requires
            pl == p * len,
            ql == q * len,
            ll == len * len,
            pq == p * p + q * q,
    ;
    assert(sa * sa + sb * sb == ab * ss) by (nonlinear_arith)
        requires
            sa == a * s,
            sb == b * s,
            ss == s * s,
            ab == a * a + b * b,
    ;
    assert((len + 1) * (len + 1) == ll + 2 * len + 1) by (nonlinear_arith)
        requires
            ll == len * len,
    ;
    assert(ab * ss <= (ll + 2 * len + 2 * s) * ss) by (nonlinear_arith)
        requires
            ab <= ll + 2 * len + 2 * s,
            ss >= 0,
    ;
    if len2 >= s + 3 {
        assert(len2 * len2 >= (s + 3) * (s + 3)) by (nonlinear_arith)
            requires
                len2 >= s + 3,
                s >= 1,
        ;
        assert(pq * ll >= ((s + 3) * (s + 3)) * ll) by (nonlinear_arith)
            requires
                pq >= (s + 3) * (s + 3),
                ll >= 0,
        ;
        let k = len - s;
        assert(((s + 3) * (s + 3)) * ll > (ll + 2 * len + 2 * s) * ss) by (nonlinear_arith)
            requires
                len == s + k,
                k >= 0,
                s >= 1,
                ll == len * len,
                ss == s * s,
        ;
        assert(false);
    }
}

/// From `s * s < inv * len + len` and `a * inv < p * s + s` follows that
/// `(p * s) * len` falls short of `a * (s * s)` by `(a + s) * len` at most.
proof fn lemma_component_at_least(s: int, a: int, len: int, inv: int, p: int)
    requires
        s >= 1,
        a >= 0,
        len >= 0,
        s * s < inv * len + len,
        a * inv < p * s + s,
    ensures
        (p * s) * len + (a + s) * len >= a * (s * s),
{
    assert((a * inv) * len <= (p * s + s - 1) * len) by (nonlinear_arith)
        requires
            a * inv <= p * s + s - 1,
            len >= 0,
    ;
    assert(a * (inv * len) >= a * (s * s - len + 1)) by (nonlinear_arith)
        requires
            inv * len >= s * s - len + 1,
            a >= 0,
    ;
    assert((a * inv) * len == a * (inv * len)) by (nonlinear_arith);
    assert((p * s + s - 1) * len == (p * s) * len + s * len - len) by (nonlinear_arith);
    assert(a * (s * s - len + 1) == a * (s * s) - a * len + a) by (nonlinear_arith);
    assert((a + s) * len == a * len + s * len) by (nonlinear_arith);
}

/// A value that falls short of `y` by `e` at most has a square that falls
/// short of the square of `y` by `2 * y * e` at most.
proof fn lemma_square_of_shortfall(x: int, y: int, e: int)
    requires
        x >= 0,
        y >= 0,
        e >= 0,
        x + e >= y,
    ensures
        x * x + 2 * (y * e) >= y * y,
{
    if y >= e {
        assert(x * x >= (y - e) * (y - e)) by (nonlinear_arith)
            requires
                x >= y - e,
                y - e >= 0,
        ;
        assert((y - e) * (y - e) == y * y - 2 * (y * e) + e * e) by (nonlinear_arith);
        assert(e * e >= 0) by (nonlinear_arith);
    } else {
        assert(y * y <= y * e) by (nonlinear_arith)
            requires
                0 <= y < e,
        ;
        assert(y * e >= 0) by (nonlinear_arith)
            requires
                y >= 0,
                e >= 0,
        ;
        assert(x * x >= 0) by (nonlinear_arith);
    }
}

/// The square of `(p * s) * len` is `((p * p) * (len * len)) * (s * s)`.
proof fn lemma_square_of_product(p: int, s: int, len: int, x: int)
    requires
        x == (p * s) * len,
    ensures
        x * x == ((p * p) * (len * len)) * (s * s),
{
    let ps = p * s;
    let pp = p * p;
    let ss = s * s;
    let ll = len * len;
    assert(ps * ps == pp * ss) by (nonlinear_arith)
        requires
            ps == p * s,
            pp == p * p,
            ss == s * s,
    ;
    assert(x * x == (ps * ps) * ll) by (nonlinear_arith)
        requires
            x == ps * len,
            ll == len * len,
    ;
    assert((pp * ss) * ll == (pp * ll) * ss) by (nonlinear_arith);
}

/// The length of a normalised vector falls short of one by 4002 raw units
/// at most, where the vector is at most a thousand long.
proof fn lemma_direction_at_least(
    s: int,
    a: int,
    b: int,
    len: int,
    inv: int,
    p: int,
    q: int,
    dd: int,
    dd2: int,
    len2: int,
)
    requires
        s == 1_000_000_000,
        a >= 0,
        b >= 0,
        s <= len <= 1000 * s,
        p >= 0,
        q >= 0,
        len2 >= 0,
        s * s < inv * len + len,
        a * inv < p * s + s,
        b * inv < q * s + s,
        dd <= a * a + b * b < dd + 2 * s,
        len * len <= dd < (len + 1) * (len + 1),
        p * p + q * q < dd2 + 2 * s,
        dd2 < (len2 + 1) * (len2 + 1),
    ensures
        len2 >= s - 4002,
{
    let ll = len * len;
    let ss = s * s;
    let pq = p * p + q * q;
    let ab = a * a + b * b;
    let slack = (2 * len + 1) * len;
    assert((len + 2) * (len + 2) == ll + 4 * len + 4 && (len + 1) * (len + 1) == ll + 2 * len + 1)
        by (nonlinear_arith)
        requires
            ll == len * len,
    ;
    assert(a * a >= 0 && b * b >= 0) by (nonlinear_arith);
    assert(a <= len + 1) by (nonlinear_arith)
        requires
            a * a < (len + 2) * (len + 2),
            a >= 0,
            len >= 0,
    ;
    assert(b <= len + 1) by (nonlinear_arith)
        requires
            b * b < (len + 2) * (len + 2),
            b >= 0,
            len >= 0,
    ;
    lemma_component_at_least(s, a, len, inv, p);
    lemma_component_at_least(s, b, len, inv, q);
    assert((a + s) * len <= slack && (b + s) * len <= slack) by (nonlinear_arith)
        requires
            a + s <= 2 * len + 1,
            b + s <= 2 * len + 1,
            len >= 0,
            slack == (2 * len + 1) * len,
    ;
    let xp = (p * s) * len;
    let xq = (q * s) * len;
    let ya = a * ss;
    let yb = b * ss;
    assert(xp >= 0 && xq >= 0 && ya >= 0 && yb >= 0 && slack >= 0) by (nonlinear_arith)
        requires
            p >= 0,
            q >= 0,
            a >= 0,
            b >= 0,
            s >= 0,
            len >= 0,
            xp == (p * s) * len,
            xq == (q * s) * len,
            ya == a * (s * s),
            yb == b * (s * s),
            slack == (2 * len + 1) * len,
    ;
    lemma_square_of_shortfall(xp, ya, slack);
    lemma_square_of_shortfall(xq, yb, slack);
    let pp = p * p;
    let qq = q * q;
    lemma_square_of_product(p, s, len, xp);
    lemma_square_of_product(q, s, len, xq);
    assert((pp * ll) * ss + (qq * ll) * ss == ((pp + qq) * ll) * ss) by (nonlinear_arith);
    assert(xp * xp + xq * xq == (pq * ll) * ss);
    assert(ya * ya + yb * yb == (ab * ss) * ss) by (nonlinear_arith)
        requires
            ya == a * ss,
            yb == b * ss,
            ab == a * a + b * b,
    ;
    assert(2 * (ya * slack) + 2 * (yb * slack) == (2 * ((a + b) * slack)) * ss) by (nonlinear_arith)
        requires
            ya == a * ss,
            yb == b * ss,
    ;
    // Everything is a multiple of `ss`, which is positive.
    assert(pq * ll + 2 * ((a + b) * slack) >= ab * ss) by (nonlinear_arith)
        requires
            (pq * ll) * ss + (2 * ((a + b) * slack)) * ss >= (ab * ss) * ss,
            ss > 0,
    ;
    assert(ab * ss >= ll * ss) by (nonlinear_arith)
        requires
            ab >= ll,
            ss >= 0,
    ;
    assert(ll > 0) by (nonlinear_arith)
        requires
            ll == len * len,
            len >= 1,
    ;
    assert(2 * ((a + b) * slack) <= (8 * len + 13) * ll) by (nonlinear_arith)
        requires
            0 <= a + b <= 2 * len + 2,
            slack == (2 * len + 1) * len,
            ll == len * len,
            len >= 4,
    ;
    assert(pq + 8 * len + 13 >= ss) by (nonlinear_arith)
        requires
            pq * ll + (8 * len + 13) * ll >= ss * ll,
            ll > 0,
    ;
    if len2 + 1 <= s - 4002 {
        assert((len2 + 1) * (len2 + 1) <= (s - 4002) * (s - 4002)) by (nonlinear_arith)
            requires
                0 <= len2 + 1 <= s - 4002,
        ;
        assert((s - 4002) * (s - 4002) == ss - 8004 * s + 16016004) by (nonlinear_arith)
            requires
                ss == s * s,
        ;
        assert(false);
    }
}

/// The product of a value with itself is the square of its magnitude,
/// rounded down and saturated.
proof fn lemma_square_view(f: Fixed)
    ensures
        f.spec_mul(f)@ == clamp((magnitude(f@) * magnitude(f@)) / (SCALE as int)),
        magnitude(f@) * magnitude(f@) >= 0,
{
    let m = magnitude(f@);
    assert(f@ * f@ == m * m && m * m >= 0) by (nonlinear_arith)
        requires
            m == magnitude(f@),
    ;
    Fixed::lemma_of(trunc_div(f@ * f@, SCALE as int));
}

/// Scaling by a factor between zero and one scales the magnitude, rounded
/// down, and never saturates.
proof fn lemma_scaled_magnitude(f: Fixed, k: Fixed)
    requires
        f.in_range(),
        0 <= k@ <= SCALE,
    ensures
        magnitude(f.spec_mul(k)@) == (magnitude(f@) * k@) / (SCALE as int),
        magnitude(f@) * k@ >= 0,
{
    let m = magnitude(f@);
    assert(magnitude(f@ * k@) == m * k@ && m * k@ >= 0 && m * k@ <= m * SCALE && (f@ * k@ < 0 ==> f@
        < 0) && (f@ * k@ > 0 ==> f@ > 0)) by (nonlinear_arith)
        requires
            m == magnitude(f@),
            0 <= k@ <= SCALE,
    ;
    Fixed::lemma_of(trunc_div(f@ * k@, SCALE as int));
}

/// The square root of a value that is not negative is the integer square
/// root of its scaled view, and never saturates.
proof fn lemma_root_view(n: Fixed)
    requires
        n.in_range(),
        n@ >= 0,
    ensures
        is_floor_sqrt(n@ * SCALE, n.spec_sqrt()@),
{
    let scaled = n@ * SCALE;
    lemma_floor_sqrt(scaled);
    let root = floor_sqrt(scaled);
    Fixed::lemma_of(root);
    if root > LIMIT {
        assert(root * root > LIMIT * SCALE) by (nonlinear_arith)
            requires
                root > LIMIT,
                LIMIT > SCALE,
                SCALE > 0,
        ;
    }
}

/// Scaling a value of at most two by a factor between zero and two scales
/// the magnitude, rounded down, keeps the sign and never saturates.
proof fn lemma_scaled_view(f: Fixed, k: Fixed)
    requires
        magnitude(f@) <= 2 * SCALE,
        0 <= k@ <= 2 * SCALE,
    ensures
        f.spec_mul(k)@ == (if f@ < 0 {
            -((magnitude(f@) * k@) / (SCALE as int))
        } else {
            (magnitude(f@) * k@) / (SCALE as int)
        }),
        magnitude(f@) * k@ >= 0,
{
    let m = magnitude(f@);
    assert(magnitude(f@ * k@) == m * k@ && m * k@ >= 0 && m * k@ <= 4 * (SCALE * SCALE) && (f@ * k@
        < 0 ==> f@ < 0) && (f@ >= 0 ==> f@ * k@ == m * k@) && (f@ < 0 ==> f@ * k@ == -(m * k@)))
        by (nonlinear_arith)
        requires
            m == magnitude(f@),
            0 <= m <= 2 * SCALE,
            0 <= k@ <= 2 * SCALE,
            SCALE > 0,
    ;
    Fixed::lemma_of(trunc_div(f@ * k@, SCALE as int));
}

/// A component of a direction changes by 4004 raw units at most when the
/// direction is normalised again.
proof fn lemma_component_again(s: int, len2: int, inv2: int, p: int, renewed: int)
    requires
        s == 1_000_000_000,
        s - 4002 <= len2 <= s + 2,
        inv2 * len2 <= s * s < inv2 * len2 + len2,
        0 <= p <= s + 1,
        renewed * s <= p * inv2 < renewed * s + s,
    ensures
        s - 3 <= inv2 <= s + 4003,
        p - 4 <= renewed <= p + 4004,
{
    if inv2 >= s + 4004 {
        assert(inv2 * len2 >= (s + 4004) * (s - 4002)) by (nonlinear_arith)
            requires
                inv2 >= s + 4004,
                len2 >= s - 4002,
                s - 4002 >= 0,
        ;
        assert((s + 4004) * (s - 4002) == s * s + 2 * s - 16024008) by (nonlinear_arith);
    }
    if inv2 <= s - 4 {
        assert(inv2 * len2 <= (s - 4) * (s + 2)) by (nonlinear_arith)
            requires
                inv2 <= s - 4,
                0 <= len2 <= s + 2,
                s - 4 >= 0,
        ;
        assert((s - 4) * (s + 2) == s * s - 2 * s - 8) by (nonlinear_arith);
    }
    assert(p * (s - 3) <= p * inv2 <= p * (s + 4003)) by (nonlinear_arith)
        requires
            s - 3 <= inv2 <= s + 4003,
            p >= 0,
    ;
    assert(p * (s - 3) == p * s - 3 * p && p * (s + 4003) == p * s + 4003 * p && renewed * s == s
        * renewed)
        by (nonlinear_arith);
    assert(p * s == s * p) by (nonlinear_arith);
}

/// Normalising a direction again changes each component by 4004 raw units
/// at most, where the vector it came from is between one and a thousand long.
pub proof fn lemma_direction_of_direction(v: Vec2)
    requires
        v.in_range(),
        SCALE <= v.length()@ <= 1000 * SCALE,
    ensures
        v.normalised() is Some,
        v.normalised()->0.normalised() is Some,
        -4004 <= v.normalised()->0.normalised()->0.x@ - v.normalised()->0.x@ <= 4004,
        -4004 <= v.normalised()->0.normalised()->0.y@ - v.normalised()->0.y@ <= 4004,
{
    let s = SCALE as int;
    lemma_direction_has_unit_length(v);
    let unit = v.normalised()->0;
    let len2 = unit.length()@;
    let one = Fixed::of(s);
    Fixed::lemma_of(s);
    let inverse2 = one.spec_div(unit.length());
    let inv2 = (s * s) / len2;
    lemma_fundamental_div_mod(s * s, len2);
    lemma_mod_bound(s * s, len2);
    assert(len2 * inv2 == inv2 * len2) by (nonlinear_arith);
    let p = magnitude(unit.x@);
    let q = magnitude(unit.y@);
    lemma_component_again(s, len2, inv2, 0, 0);
    Fixed::lemma_of(trunc_div(one@ * SCALE, len2));
    assert(inverse2@ == inv2);
    let again = unit.scaled(inverse2);
    assert(unit.normalised() == Some(again));
    lemma_scaled_view(unit.x, inverse2);
    lemma_scaled_view(unit.y, inverse2);
    lemma_component_again(s, len2, inv2, p, (p * inv2) / s);
    lemma_component_again(s, len2, inv2, q, (q * inv2) / s);
}

/// A vector between one and a thousand long has a direction, and the
/// length of that direction is one to within 4002 raw units below and two
/// above. No component of the direction exceeds one by more than a raw unit.
pub proof fn lemma_direction_has_unit_length(v: Vec2)
    requires
        v.in_range(),
        SCALE <= v.length()@ <= 1000 * SCALE,
    ensures
        v.normalised() is Some,
        SCALE - 4002 <= v.normalised()->0.length()@ <= SCALE + 2,
        magnitude(v.normalised()->0.x@) <= SCALE + 1,
        magnitude(v.normalised()->0.y@) <= SCALE + 1,
{
    let s = SCALE as int;
    let a = magnitude(v.x@);
    let b = magnitude(v.y@);
    let len = v.length()@;
    // The squares and their sum stay in range, for the length is bounded.
    lemma_square_view(v.x);
    lemma_square_view(v.y);
    let xx = v.x.spec_mul(v.x);
    let yy = v.y.spec_mul(v.y);
    Fixed::lemma_of(xx@ + yy@);
    let dot = v.dot(v);
    assert(dot@ >= 0);
    lemma_root_view(dot);
    let dd = dot@ * s;
    assert((len + 1) * (len + 1) <= 1_000_000_000_001 * 1_000_000_000_001) by (nonlinear_arith)
        requires
            0 <= len <= 1_000_000_000_000,
    ;
    assert(dot@ < LIMIT);
    assert(dot@ == (a * a) / s + (b * b) / s);
    // The inverse of the length.
    let one = Fixed::of(s);
    Fixed::lemma_of(s);
    let inverse = one.spec_div(v.length());
    let inv = (s * s) / len;
    lemma_fundamental_div_mod(s * s, len);
    lemma_mod_bound(s * s, len);
    assert(len * inv == inv * len) by (nonlinear_arith);
    assert(0 <= inv <= s) by (nonlinear_arith)
        requires
            inv * len <= s * s,
            s * s < inv * len + len,
            len >= s,
            s >= 1,
    ;
    Fixed::lemma_of(trunc_div(one@ * SCALE, len));
    assert(inverse@ == inv);
    // The direction and its length.
    let unit = v.scaled(inverse);
    assert(v.normalised() == Some(unit));
    lemma_scaled_magnitude(v.x, inverse);
    lemma_scaled_magnitude(v.y, inverse);
    let p = magnitude(unit.x@);
    let q = magnitude(unit.y@);
    lemma_component_at_most(s, a, len, inv, p);
    lemma_component_at_most(s, b, len, inv, q);
    assert((len + 2) * (len + 2) > (len + 1) * (len + 1) + 2 * s) by (nonlinear_arith)
        requires
            len >= s,
            s >= 1,
    ;
    assert(a * a >= 0 && b * b >= 0) by (nonlinear_arith);
    assert(a <= len + 1 && b <= len + 1) by (nonlinear_arith)
        requires
            a * a < (len + 2) * (len + 2),
            b * b < (len + 2) * (len + 2),
            a >= 0,
            b >= 0,
            len >= 0,
    ;
    assert(p <= s + 1 && q <= s + 1) by (nonlinear_arith)
        requires
            p * len <= a * s,
            q * len <= b * s,
            a <= len + 1,
            b <= len + 1,
            len >= s,
            s >= 1,
    ;
    assert(p * p <= (s + 1) * (s + 1) && q * q <= (s + 1) * (s + 1)) by (nonlinear_arith)
        requires
            0 <= p <= s + 1,
            0 <= q <= s + 1,
    ;
    lemma_square_view(unit.x);
    lemma_square_view(unit.y);
    let uxx = unit.x.spec_mul(unit.x);
    let uyy = unit.y.spec_mul(unit.y);
    Fixed::lemma_of(uxx@ + uyy@);
    let dot2 = unit.dot(unit);
    assert(dot2@ == (p * p) / s + (q * q) / s);
    lemma_root_view(dot2);
    let dd2 = dot2@ * s;
    let len2 = unit.length()@;
    lemma_direction_at_most(s, a, b, len, inv, p, q, dd, dd2, len2);
    lemma_direction_at_least(s, a, b, len, inv, p, q, dd, dd2, len2);
}

/// A vector whose length is exactly one is its own direction.
pub proof fn lemma_unit_vector_is_its_own_direction(v: Vec2)
    requires
        v.in_range(),
        v.length()@ == SCALE,
    ensures
        v.normalised() == Some(v),
{
    let s = SCALE as int;
    Fixed::lemma_of(s);
    let one = Fixed::of(s);
    assert(s * s == 1_000_000_000_000_000_000) by (nonlinear_arith)
        requires
            s == 1_000_000_000,
    ;
    assert(1_000_000_000_000_000_000int / 1_000_000_000 == 1_000_000_000);
    assert(trunc_div(s * s, s) == s);
    Fixed::lemma_of(trunc_div(one@ * SCALE, s));
    let inverse = one.spec_div(v.length());
    assert(inverse@ == s);
    lemma_times_one(v.x, inverse);
    lemma_times_one(v.y, inverse);
}

/// A value in range times one is that value.
proof fn lemma_times_one(f: Fixed, k: Fixed)
    requires
        f.in_range(),
        k@ == SCALE,
    ensures
        f.spec_mul(k) == f,
{
    let m = magnitude(f@);
    assert(magnitude(f@ * k@) == m * 1_000_000_000 && ((f@ * k@ < 0) == (f@ < 0)))
        by (nonlinear_arith)
        requires
            m == magnitude(f@),
            k@ == 1_000_000_000,
    ;
    assert((m * 1_000_000_000) / 1_000_000_000 == m);
    assert(trunc_div(f@ * k@, SCALE as int) == f@);
    Fixed::lemma_of_view(f);
}

} // verus!
