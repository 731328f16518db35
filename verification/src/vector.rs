//! Vectors of three components: pairing and mapping of components, and the
//! arithmetic of vectors of 64-bit integers.

use vstd::prelude::*;
use vstd::std_specs::convert::FromSpecImpl;
use vstd::std_specs::ops::{AddSpecImpl, BitXorSpecImpl, MulSpecImpl, SubSpecImpl};

verus! {

/// A vector of three components.
#[derive(Copy, Clone, Debug, PartialEq, Eq)]
pub struct Vec3<T>(pub T, pub T, pub T);

/// The sign of a number: on which side of zero it lies.
#[derive(Copy, Clone, Debug, PartialEq, Eq, Structural)]
pub enum Sign {
    Negative,
    Zero,
    Positive,
}

/// The sign of the integer `x`.
pub open spec fn sign_of(x: int) -> Sign {
    if x < 0 {
        Sign::Negative
    } else if x == 0 {
        Sign::Zero
    } else {
        Sign::Positive
    }
}

/// The dot product of two vectors of integers.
pub open spec fn dot(a: Vec3<i64>, b: Vec3<i64>) -> int {
    a.0 * b.0 + a.1 * b.1 + a.2 * b.2
}

/// The cross product of two vectors of integers, by components.
pub open spec fn cross(a: Vec3<i64>, b: Vec3<i64>) -> (int, int, int) {
    (a.1 * b.2 - a.2 * b.1, a.2 * b.0 - a.0 * b.2, a.0 * b.1 - a.1 * b.0)
}

/// The integer `x` can be held in 64 bits.
pub open spec fn fits_i64(x: int) -> bool {
    i64::MIN <= x <= i64::MAX
}

/// The integer `x` can be held in 128 bits.
pub open spec fn fits_i128(x: int) -> bool {
    i128::MIN <= x <= i128::MAX
}

/// The product of two 64-bit integers, in 128 bits.
fn wide_product(x: i64, y: i64) -> (r: i128)
    ensures
        r == x * y,
        -0x4000_0000_0000_0000_0000_0000_0000_0000 <= r <= 0x4000_0000_0000_0000_0000_0000_0000_0000,
{
    assert(-0x4000_0000_0000_0000_0000_0000_0000_0000 <= x * y
        <= 0x4000_0000_0000_0000_0000_0000_0000_0000) by (nonlinear_arith)
        requires
            -0x8000_0000_0000_0000 <= x <= 0x7fff_ffff_ffff_ffff,
            -0x8000_0000_0000_0000 <= y <= 0x7fff_ffff_ffff_ffff,
    ;
    (x as i128) * (y as i128)
}

impl<T> Vec3<T> {
    /// The vector with the components `v1`, `v2` and `v3`.
    pub fn new(v1: T, v2: T, v3: T) -> (r: Self)
        ensures
            r == Vec3(v1, v2, v3),
    {
        Vec3(v1, v2, v3)
    }

    /// Joins the components of two vectors into pairs.
    pub fn zip_components<U>(self, a: Vec3<U>) -> (r: Vec3<(T, U)>)
        ensures
            r == Vec3((self.0, a.0), (self.1, a.1), (self.2, a.2)),
    {
        Vec3((self.0, a.0), (self.1, a.1), (self.2, a.2))
    }
}

impl<T, U> Vec3<(T, U)> {
    /// Parts a vector of pairs into the vector of the first members and the
    /// vector of the second members.
    pub fn unzip(self) -> (r: (Vec3<T>, Vec3<U>))
        ensures
            r.0 == Vec3((self.0).0, (self.1).0, (self.2).0),
            r.1 == Vec3((self.0).1, (self.1).1, (self.2).1),
    {
        let Vec3(x, y, z) = self;
        (Vec3(x.0, y.0, z.0), Vec3(x.1, y.1, z.1))
    }

    /// Applies `f` to the two members of each component, from the first
    /// component to the last.
    pub fn map_components<W, F: Fn(T, U) -> W>(self, f: F) -> (r: Vec3<W>)
        requires
            f.requires(self.0),
            f.requires(self.1),
            f.requires(self.2),
        ensures
            f.ensures(self.0, r.0),
            f.ensures(self.1, r.1),
            f.ensures(self.2, r.2),
    {
        let Vec3(x, y, z) = self;
        let a = f(x.0, x.1);
        let b = f(y.0, y.1);
        let c = f(z.0, z.1);
        Vec3(a, b, c)
    }

    /// Applies `f` to the two members of each component, from the first
    /// component to the last, and gives up at the first component for which
    /// `f` has no result.
    pub fn try_zip_components<W, F: Fn(T, U) -> Option<W>>(self, f: F) -> (r: Option<Vec3<W>>)
        requires
            f.requires(self.0),
            f.requires(self.1),
            f.requires(self.2),
        ensures
            match r {
                Some(v) => {
                    &&& f.ensures(self.0, Some(v.0))
                    &&& f.ensures(self.1, Some(v.1))
                    &&& f.ensures(self.2, Some(v.2))
                },
                None => {
                    ||| f.ensures(self.0, None)
                    ||| exists|a: W| f.ensures(self.0, Some(a)) && f.ensures(self.1, None)
                    ||| exists|a: W, b: W|
                        f.ensures(self.0, Some(a)) && f.ensures(self.1, Some(b)) && f.ensures(
                            self.2,
                            None,
                        )
                },
            },
    {
        let Vec3(x, y, z) = self;
        let a = match f(x.0, x.1) {
            Some(a) => a,
            None => {
                return None;
            },
        };
        let b = match f(y.0, y.1) {
            Some(b) => b,
            None => {
                return None;
            },
        };
        let c = match f(z.0, z.1) {
            Some(c) => c,
            None => {
                return None;
            },
        };
        Some(Vec3(a, b, c))
    }
}

impl<T> FromSpecImpl<Vec3<T>> for (T, T, T) {
    open spec fn obeys_from_spec() -> bool {
        true
    }

    open spec fn from_spec(v: Vec3<T>) -> (T, T, T) {
        (v.0, v.1, v.2)
    }
}

impl<T> From<Vec3<T>> for (T, T, T) {
    fn from(v: Vec3<T>) -> (r: (T, T, T)) {
        (v.0, v.1, v.2)
    }
}

impl<T> FromSpecImpl<(T, T, T)> for Vec3<T> {
    open spec fn obeys_from_spec() -> bool {
        true
    }

    open spec fn from_spec(v: (T, T, T)) -> Vec3<T> {
        Vec3(v.0, v.1, v.2)
    }
}

impl<T> From<(T, T, T)> for Vec3<T> {
    fn from(v: (T, T, T)) -> (r: Vec3<T>) {
        Vec3(v.0, v.1, v.2)
    }
}

impl AddSpecImpl for Vec3<i64> {
    open spec fn obeys_add_spec() -> bool {
        true
    }

    open spec fn add_req(self, rhs: Vec3<i64>) -> bool {
        fits_i64(self.0 + rhs.0) && fits_i64(self.1 + rhs.1) && fits_i64(self.2 + rhs.2)
    }

    open spec fn add_spec(self, rhs: Vec3<i64>) -> Vec3<i64> {
        Vec3((self.0 + rhs.0) as i64, (self.1 + rhs.1) as i64, (self.2 + rhs.2) as i64)
    }
}

/// The sum of two vectors, by components.
impl core::ops::Add for Vec3<i64> {
    type Output = Vec3<i64>;

    fn add(self, rhs: Vec3<i64>) -> (r: Vec3<i64>) {
        Vec3(self.0 + rhs.0, self.1 + rhs.1, self.2 + rhs.2)
    }
}

impl SubSpecImpl for Vec3<i64> {
    open spec fn obeys_sub_spec() -> bool {
        true
    }

    open spec fn sub_req(self, rhs: Vec3<i64>) -> bool {
        fits_i64(self.0 - rhs.0) && fits_i64(self.1 - rhs.1) && fits_i64(self.2 - rhs.2)
    }

    open spec fn sub_spec(self, rhs: Vec3<i64>) -> Vec3<i64> {
        Vec3((self.0 - rhs.0) as i64, (self.1 - rhs.1) as i64, (self.2 - rhs.2) as i64)
    }
}

/// The difference of two vectors, by components.
impl core::ops::Sub for Vec3<i64> {
    type Output = Vec3<i64>;

    fn sub(self, rhs: Vec3<i64>) -> (r: Vec3<i64>) {
        Vec3(self.0 - rhs.0, self.1 - rhs.1, self.2 - rhs.2)
    }
}

impl MulSpecImpl for Vec3<i64> {
    open spec fn obeys_mul_spec() -> bool {
        true
    }

    open spec fn mul_req(self, rhs: Vec3<i64>) -> bool {
        fits_i64(cross(self, rhs).0) && fits_i64(cross(self, rhs).1) && fits_i64(
            cross(self, rhs).2,
        )
    }

    open spec fn mul_spec(self, rhs: Vec3<i64>) -> Vec3<i64> {
        Vec3(cross(self, rhs).0 as i64, cross(self, rhs).1 as i64, cross(self, rhs).2 as i64)
    }
}

/// The cross product of two vectors.
impl core::ops::Mul for Vec3<i64> {
    type Output = Vec3<i64>;

    fn mul(self, rhs: Vec3<i64>) -> (r: Vec3<i64>) {
        let x: i128 = wide_product(self.1, rhs.2) - wide_product(self.2, rhs.1);
        let y: i128 = wide_product(self.2, rhs.0) - wide_product(self.0, rhs.2);
        let z: i128 = wide_product(self.0, rhs.1) - wide_product(self.1, rhs.0);
        Vec3(x as i64, y as i64, z as i64)
    }
}

impl BitXorSpecImpl for Vec3<i64> {
    open spec fn obeys_bitxor_spec() -> bool {
        true
    }

    open spec fn bitxor_req(self, rhs: Vec3<i64>) -> bool {
        fits_i128(dot(self, rhs))
    }

    open spec fn bitxor_spec(self, rhs: Vec3<i64>) -> i128 {
        dot(self, rhs) as i128
    }
}

/// The dot product of two vectors, in 128 bits.
impl core::ops::BitXor for Vec3<i64> {
    type Output = i128;

    fn bitxor(self, rhs: Vec3<i64>) -> (r: i128) {
        let a: i128 = wide_product(self.0, rhs.0);
        let b: i128 = wide_product(self.1, rhs.1);
        let c: i128 = wide_product(self.2, rhs.2);
        // Two products of one sign may have a sum that cannot be held where
        // the sum of all three can: the third goes between them then.
        if (a >= 0) == (b >= 0) && (a >= 0) != (c >= 0) {
            (a + c) + b
        } else {
            (a + b) + c
        }
    }
}

impl Vec3<i64> {
    /// The signs of the three components.
    pub fn to_ordering(self) -> (r: Vec3<Sign>)
        ensures
            r == Vec3(sign_of(self.0 as int), sign_of(self.1 as int), sign_of(self.2 as int)),
    {
        Vec3(sign(self.0), sign(self.1), sign(self.2))
    }
}

/// The sign of `x`.
fn sign(x: i64) -> (r: Sign)
    ensures
        r == sign_of(x as int),
{
    if x < 0 {
        Sign::Negative
    } else if x == 0 {
        Sign::Zero
    } else {
        Sign::Positive
    }
}

impl<T: Copy + Default> Default for Vec3<T> {
    /// The vector whose three components are the default of `T`.
    fn default() -> (r: Self)
        ensures
            call_ensures(T::default, (), r.0),
            r.1 == r.0,
            r.2 == r.0,
    {
        let zero = T::default();
        Vec3(zero, zero, zero)
    }
}

} // verus!
