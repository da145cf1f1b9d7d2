//! Arithmetic on vectors of the plane.
use crate::utils::fixed::{floor_sqrt, lemma_floor_sqrt, trunc_div, Fixed, SCALE};
use vstd::prelude::*;

verus! {

/// A vector of the plane.
#[derive(Clone, Copy, Debug, PartialEq, Eq, Structural)]
pub struct Vec2 {
    pub x: Fixed,
    pub y: Fixed,
}

/// A vector of length zero has no direction.
#[derive(Clone, Copy, Debug, PartialEq, Eq, Structural)]
pub struct DegenerateVector;

impl Vec2 {
    /// The sum, component by component.
    pub open spec fn plus(self, other: Vec2) -> Vec2 {
        Vec2 { x: self.x.spec_add(other.x), y: self.y.spec_add(other.y) }
    }

    /// The difference, component by component.
    pub open spec fn minus(self, other: Vec2) -> Vec2 {
        Vec2 { x: self.x.spec_sub(other.x), y: self.y.spec_sub(other.y) }
    }

    /// Both components multiplied by `scalar`.
    pub open spec fn scaled(self, scalar: Fixed) -> Vec2 {
        Vec2 { x: self.x.spec_mul(scalar), y: self.y.spec_mul(scalar) }
    }

    /// Both components negated.
    pub open spec fn negated(self) -> Vec2 {
        Vec2 { x: self.x.spec_neg(), y: self.y.spec_neg() }
    }

    /// The sum of the products of the components.
    pub open spec fn dot(self, other: Vec2) -> Fixed {
        self.x.spec_mul(other.x).spec_add(self.y.spec_mul(other.y))
    }

    /// Both components are in range.
    pub open spec fn in_range(self) -> bool {
        self.x.in_range() && self.y.in_range()
    }

    /// The vector of length zero.
    pub open spec fn origin() -> Vec2 {
        Vec2 { x: Fixed::of(0), y: Fixed::of(0) }
    }

    /// The vector with these components.
    pub fn new(x: Fixed, y: Fixed) -> (r: Vec2)
        ensures
            r == (Vec2 { x, y }),
    {
        Vec2 { x, y }
    }

    /// The vector of length zero.
    pub fn zero() -> (r: Vec2)
        ensures
            r == Vec2::origin(),
    {
        Vec2 { x: Fixed::zero(), y: Fixed::zero() }
    }

    /// The vector that points the other way.
    pub fn negate(self) -> (r: Vec2)
        ensures
            r == self.negated(),
            r.x@ == -self.x@,
            r.y@ == -self.y@,
    {
        Vec2 { x: self.x.neg(), y: self.y.neg() }
    }
}

/// The length of a vector.
pub trait Length {
    /// The length that `get_length` computes.
    spec fn length(&self) -> Fixed;

    /// Returns the length.
    fn get_length(&self) -> (r: Fixed)
        ensures
            r == self.length(),
    ;
}

/// The vector of length one that points the same way.
pub trait Normalise {
    /// `None` where the length is zero.
    spec fn normalised(&self) -> Option<Vec2>;

    /// Returns the vector of length one that points the same way, and
    /// fails where the length is zero.
    fn normalise(&self) -> (r: Result<Vec2, DegenerateVector>)
        ensures
            match r {
                Ok(unit) => self.normalised() == Some(unit),
                Err(_) => self.normalised() is None,
            },
    ;
}

/// A product of a value with itself is not negative, nor is a sum of two such.
pub proof fn lemma_dot_self_nonnegative(v: Vec2)
    ensures
        v.dot(v)@ >= 0,
{
    let x = v.x@;
    let y = v.y@;
    assert(x * x >= 0 && y * y >= 0) by (nonlinear_arith);
    Fixed::lemma_of(trunc_div(x * x, SCALE as int));
    Fixed::lemma_of(trunc_div(y * y, SCALE as int));
    Fixed::lemma_of(v.x.spec_mul(v.x)@ + v.y.spec_mul(v.y)@);
}

/// A vector has length zero exactly where its product with itself is zero,
/// and exactly then it has no direction.
pub proof fn lemma_length_zero(v: Vec2)
    ensures
        v.length()@ == 0 <==> v.dot(v)@ == 0,
        v.normalised() is None <==> v.dot(v)@ == 0,
        v.length()@ >= 0,
{
    lemma_dot_self_nonnegative(v);
    let n = v.dot(v)@ * SCALE;
    lemma_floor_sqrt(n);
    let root = floor_sqrt(n);
    Fixed::lemma_of(root);
    if root >= 1 {
        assert(root * root >= 1) by (nonlinear_arith)
            requires
                root >= 1,
        ;
    } else {
        assert((root + 1) * (root + 1) == 1) by (nonlinear_arith)
            requires
                root == 0,
        ;
    }
}

impl Length for Vec2 {
    /// The square root of the vector's product with itself.
    open spec fn length(&self) -> Fixed {
        self.dot(*self).spec_sqrt()
    }

    fn get_length(&self) -> (r: Fixed) {
        let squared = dot_product(*self, *self);
        proof {
            lemma_dot_self_nonnegative(*self);
        }
        squared.sqrt().unwrap()
    }
}

impl Normalise for Vec2 {
    /// The vector scaled by the inverse of its length.
    open spec fn normalised(&self) -> Option<Vec2> {
        if self.length()@ == 0 {
            None
        } else {
            Some(self.scaled(Fixed::of(SCALE as int).spec_div(self.length())))
        }
    }

    fn normalise(&self) -> (r: Result<Vec2, DegenerateVector>) {
        let length = self.get_length();
        match Fixed::one().checked_div(length) {
            Some(frac) => Ok(scalar_mult(*self, frac)),
            None => Err(DegenerateVector),
        }
    }
}

/// Subtracts two vectors, component by component.
pub fn subtract_arrays(array1: Vec2, array2: Vec2) -> (r: Vec2)
    ensures
        r == array1.minus(array2),
{
    Vec2 { x: array1.x.sub(array2.x), y: array1.y.sub(array2.y) }
}

/// Multiplies both components of a vector by a scalar.
pub fn scalar_mult(array: Vec2, scalar: Fixed) -> (r: Vec2)
    ensures
        r == array.scaled(scalar),
{
    Vec2 { x: array.x.mul(scalar), y: array.y.mul(scalar) }
}

/// The dot product of two vectors.
pub fn dot_product(array_1: Vec2, array_2: Vec2) -> (r: Fixed)
    ensures
        r == array_1.dot(array_2),
{
    array_1.x.mul(array_2.x).add(array_1.y.mul(array_2.y))
}

/// Adds two vectors, component by component.
pub fn add_arrays(array1: Vec2, array2: Vec2) -> (r: Vec2)
    ensures
        r == array1.plus(array2),
{
    Vec2 { x: array1.x.add(array2.x), y: array1.y.add(array2.y) }
}

} // verus!
