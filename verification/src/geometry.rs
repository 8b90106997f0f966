//! Points and displacements of the integer lattice on which every mesh of this crate lives.
//!
//! Coordinates are whole numbers. A coordinate of magnitude at most [`MAX_COORD`] has an exact
//! single-precision encoding, so a mesh kept inside that range is written to the binary format
//! without any rounding.

use nalgebra::{Point3, Vector3};
use vstd::prelude::*;

verus! {

/// The largest coordinate magnitude up to which every integer is a single-precision number.
pub const MAX_COORD: i64 = 16_777_216;

/// The largest magnitude of an edge component for which the cross product of two edges is
/// computed inside the machine integer: 2^30.
pub const MAX_EDGE: i64 = 0x4000_0000;

/// The mathematical value of a [`Point`] or a [`Vector`]: three unbounded integers.
pub struct Vec3 {
    pub x: int,
    pub y: int,
    pub z: int,
}

/// The vector with the given components.
pub open spec fn vec3(x: int, y: int, z: int) -> Vec3 {
    Vec3 { x, y, z }
}

/// -1, 0 or 1 according to the sign of `n`.
pub open spec fn signum(n: int) -> int {
    if n < 0 {
        -1
    } else if n == 0 {
        0
    } else {
        1
    }
}

/// Whether `n` fits the machine integer that holds a coordinate.
pub open spec fn fits(n: int) -> bool {
    i64::MIN <= n <= i64::MAX
}

impl Vec3 {
    /// Componentwise sum.
    pub open spec fn plus(self, other: Vec3) -> Vec3 {
        Vec3 { x: self.x + other.x, y: self.y + other.y, z: self.z + other.z }
    }

    /// Componentwise difference.
    pub open spec fn minus(self, other: Vec3) -> Vec3 {
        Vec3 { x: self.x - other.x, y: self.y - other.y, z: self.z - other.z }
    }

    /// The opposite displacement.
    pub open spec fn negated(self) -> Vec3 {
        Vec3 { x: -self.x, y: -self.y, z: -self.z }
    }

    /// Every component multiplied by `k`.
    pub open spec fn scaled(self, k: int) -> Vec3 {
        Vec3 { x: k * self.x, y: k * self.y, z: k * self.z }
    }

    /// The scalar product.
    pub open spec fn dot(self, other: Vec3) -> int {
        self.x * other.x + self.y * other.y + self.z * other.z
    }

    /// The right-handed cross product.
    pub open spec fn cross(self, other: Vec3) -> Vec3 {
        Vec3 {
            x: self.y * other.z - self.z * other.y,
            y: self.z * other.x - self.x * other.z,
            z: self.x * other.y - self.y * other.x,
        }
    }

    /// The square of the Euclidean length.
    pub open spec fn norm_squared(self) -> int {
        self.dot(self)
    }

    /// Whether every component has magnitude at most `bound`.
    pub open spec fn within(self, bound: int) -> bool {
        &&& -bound <= self.x <= bound
        &&& -bound <= self.y <= bound
        &&& -bound <= self.z <= bound
    }

    /// Whether every component fits a machine coordinate.
    pub open spec fn representable(self) -> bool {
        fits(self.x) && fits(self.y) && fits(self.z)
    }

    /// The lattice vector of length one that points the same way as `self`.
    ///
    /// Only a vector along one axis has one: for any other direction the unit vector has a
    /// component that is no whole number, and the zero vector has no direction at all.
    pub open spec fn unit(self) -> Option<Vec3> {
        if self.x != 0 && self.y == 0 && self.z == 0 {
            Some(Vec3 { x: signum(self.x), y: 0, z: 0 })
        } else if self.x == 0 && self.y != 0 && self.z == 0 {
            Some(Vec3 { x: 0, y: signum(self.y), z: 0 })
        } else if self.x == 0 && self.y == 0 && self.z != 0 {
            Some(Vec3 { x: 0, y: 0, z: signum(self.z) })
        } else {
            None
        }
    }
}

/// A position of the lattice.
#[derive(Clone, Copy, Debug, PartialEq, Eq, Structural)]
pub struct Point {
    pub x: i64,
    pub y: i64,
    pub z: i64,
}

/// A displacement between two positions of the lattice.
#[derive(Clone, Copy, Debug, PartialEq, Eq, Structural)]
pub struct Vector {
    pub x: i64,
    pub y: i64,
    pub z: i64,
}

impl View for Point {
    type V = Vec3;

    open spec fn view(&self) -> Vec3 {
        Vec3 { x: self.x as int, y: self.y as int, z: self.z as int }
    }
}

impl View for Vector {
    type V = Vec3;

    open spec fn view(&self) -> Vec3 {
        Vec3 { x: self.x as int, y: self.y as int, z: self.z as int }
    }
}

/// `nalgebra`'s subtraction of one `Point3` from another, on 64-bit integer coordinates.
///
/// Trusted: the result is the componentwise difference `a - b`. The precondition keeps each
/// difference inside the machine integer, where the subtraction neither wraps nor panics.
#[verifier::external_body]
fn point_difference(a: &Point, b: &Point) -> (r: Vector)
    requires
        a@.minus(b@).representable(),
    ensures
        r@ == a@.minus(b@),
{
    let d = Point3::new(a.x, a.y, a.z) - Point3::new(b.x, b.y, b.z);
    Vector { x: d.x, y: d.y, z: d.z }
}

/// `nalgebra`'s addition of a `Vector3` to a `Point3`, on 64-bit integer coordinates.
///
/// Trusted: the result is the componentwise sum `p + v`. The precondition keeps each sum
/// inside the machine integer, where the addition neither wraps nor panics.
#[verifier::external_body]
fn point_sum(p: &Point, v: &Vector) -> (r: Point)
    requires
        p@.plus(v@).representable(),
    ensures
        r@ == p@.plus(v@),
{
    let s = Point3::new(p.x, p.y, p.z) + Vector3::new(v.x, v.y, v.z);
    Point { x: s.x, y: s.y, z: s.z }
}

/// `nalgebra`'s `cross` of two `Vector3`, on 64-bit integer components.
///
/// Trusted: the result is the right-handed cross product, each component a difference of two
/// products of components. The precondition bounds the components by 2^30, so that no
/// product and no difference leaves the machine integer.
#[verifier::external_body]
fn cross_product(a: &Vector, b: &Vector) -> (r: Vector)
    requires
        a@.within(MAX_EDGE as int),
        b@.within(MAX_EDGE as int),
    ensures
        r@ == a@.cross(b@),
{
    let c = Vector3::new(a.x, a.y, a.z).cross(&Vector3::new(b.x, b.y, b.z));
    Vector { x: c.x, y: c.y, z: c.z }
}

impl Point {
    /// The point reached from `self` by the displacement `by`.
    pub fn translate(&self, by: &Vector) -> (r: Point)
        requires
            self@.plus(by@).representable(),
        ensures
            r@ == self@.plus(by@),
    {
        point_sum(self, by)
    }
}

impl Vector {
    /// The lattice vector of length one that points the same way as `self`, if there is one.
    pub fn normalize(&self) -> (r: Option<Vector>)
        ensures
            match r {
                Some(u) => self@.unit() == Some(u@),
                None => self@.unit() is None,
            },
    {
        if self.x != 0 && self.y == 0 && self.z == 0 {
            Some(Vector { x: sign(self.x), y: 0, z: 0 })
        } else if self.x == 0 && self.y != 0 && self.z == 0 {
            Some(Vector { x: 0, y: sign(self.y), z: 0 })
        } else if self.x == 0 && self.y == 0 && self.z != 0 {
            Some(Vector { x: 0, y: 0, z: sign(self.z) })
        } else {
            None
        }
    }
}

fn sign(n: i64) -> (r: i64)
    ensures
        r == signum(n as int),
{
    if n < 0 {
        -1
    } else if n == 0 {
        0
    } else {
        1
    }
}

/// `v.unit()` is `u` exactly when `u` has length one and `v` is a positive multiple of `u`.
pub proof fn lemma_unit_is_direction(v: Vec3, u: Vec3)
    ensures
        v.unit() == Some(u) <==> u.norm_squared() == 1 && exists|k: int|
            k > 0 && v == #[trigger] u.scaled(k),
{
    if v.unit() == Some(u) {
        let c = v.x + v.y + v.z;
        let k = if c < 0 {
            -c
        } else {
            c
        };
        assert(k > 0 && v == u.scaled(k));
        assert(u.norm_squared() == 1) by (nonlinear_arith)
            requires
                u.unit() == Some(u),
        ;
    }
    if u.norm_squared() == 1 && exists|k: int| k > 0 && v == #[trigger] u.scaled(k) {
        let k = choose|k: int| k > 0 && v == #[trigger] u.scaled(k);
        lemma_length_one(u);
        assert(v.unit() == Some(u)) by (nonlinear_arith)
            requires
                k > 0,
                v == u.scaled(k),
                u.unit() == Some(u),
        ;
    }
}

/// The scalar product with a vector of length one along an axis picks one component, with
/// the sign of the axis.
pub proof fn lemma_axis_dot(n: Vec3, w: Vec3)
    requires
        n.unit() == Some(n),
    ensures
        n.norm_squared() == 1,
        n.x == 1 ==> n.dot(w) == w.x,
        n.x == -1 ==> n.dot(w) == -w.x,
        n.y == 1 ==> n.dot(w) == w.y,
        n.y == -1 ==> n.dot(w) == -w.y,
        n.z == 1 ==> n.dot(w) == w.z,
        n.z == -1 ==> n.dot(w) == -w.z,
{
    assert(n.norm_squared() == 1) by (nonlinear_arith)
        requires
            n.unit() == Some(n),
    ;
    assert(0 * w.x == 0 && 0 * w.y == 0 && 0 * w.z == 0);
    assert(1 * w.x == w.x && 1 * w.y == w.y && 1 * w.z == w.z);
    assert((-1) * w.x == -w.x && (-1) * w.y == -w.y && (-1) * w.z == -w.z);
}

/// A lattice vector of length one lies along one axis.
pub proof fn lemma_length_one(u: Vec3)
    requires
        u.norm_squared() == 1,
    ensures
        u.unit() == Some(u),
{
    assert(u.x * u.x >= 0 && u.y * u.y >= 0 && u.z * u.z >= 0) by (nonlinear_arith);
    assert(u.x * u.x <= 1 ==> -1 <= u.x <= 1) by (nonlinear_arith);
    assert(u.y * u.y <= 1 ==> -1 <= u.y <= 1) by (nonlinear_arith);
    assert(u.z * u.z <= 1 ==> -1 <= u.z <= 1) by (nonlinear_arith);
}

/// The cross product of the two edges that leave the first vertex of `face`: it is
/// perpendicular to the face and points to the side from which the vertices run
/// counter-clockwise.
///
/// Neither edge may have a component of magnitude above [`MAX_EDGE`]; between points with
/// coordinates up to [`MAX_COORD`] no edge comes near that.
pub fn normal(face: &[Point; 3]) -> (r: Vector)
    requires
        face[1]@.minus(face[0]@).within(MAX_EDGE as int),
        face[2]@.minus(face[0]@).within(MAX_EDGE as int),
    ensures
        r@ == face[1]@.minus(face[0]@).cross(face[2]@.minus(face[0]@)),
{
    let first = point_difference(&face[1], &face[0]);
    let second = point_difference(&face[2], &face[0]);
    cross_product(&first, &second)
}

} // verus!
