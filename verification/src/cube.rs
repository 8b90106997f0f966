//! The unit cube: twelve triangles, two on each of its six sides, every normal looking outward.
//!
//! X runs left to right, Y bottom to top, Z back to front.

use crate::geometry::{lemma_axis_dot, normal, vec3, Point, Vec3};
use crate::mesh::{facets, Facet, Triangle};
use vstd::prelude::*;

verus! {

/// The eight corners of the cube between (0, 0, 0) and (1, 1, 1).
pub const CUBE_CORNERS: [[i64; 3]; 8] = [
    [0, 0, 0],
    [0, 1, 0],
    [1, 1, 0],
    [1, 0, 0],
    [0, 0, 1],
    [0, 1, 1],
    [1, 1, 1],
    [1, 0, 1],
];

/// The twelve triangles of the cube, each as three indices into [`CUBE_CORNERS`], in winding order.
pub const CUBE_FACES: [[usize; 3]; 12] = [
    [3, 0, 1],
    [3, 1, 2],
    [5, 1, 0],
    [4, 5, 0],
    [2, 1, 5],
    [5, 6, 2],
    [2, 6, 7],
    [3, 2, 7],
    [0, 3, 7],
    [0, 7, 4],
    [4, 6, 5],
    [7, 6, 4],
];

/// The outward normals of the six sides of the cube: back, left, top, right, bottom, front.
/// Triangles `2 * s` and `2 * s + 1` of [`CUBE_FACES`] cover side `s`.
pub const CUBE_SIDES: [[i64; 3]; 6] = [
    [0, 0, -1],
    [-1, 0, 0],
    [0, 1, 0],
    [1, 0, 0],
    [0, -1, 0],
    [0, 0, 1],
];

/// The number of triangles of one cube.
pub const CUBE_TRIANGLES: usize = 12;

/// Twice the centre of the unit cube.
pub open spec fn twice_cube_centre() -> Vec3 {
    Vec3 { x: 1, y: 1, z: 1 }
}

/// Corner `i` of the cube.
pub open spec fn corner(i: int) -> Vec3 {
    Vec3 {
        x: CUBE_CORNERS[i][0] as int,
        y: CUBE_CORNERS[i][1] as int,
        z: CUBE_CORNERS[i][2] as int,
    }
}

/// The outward normal of side `s` of the cube.
pub open spec fn side_normal(s: int) -> Vec3 {
    Vec3 {
        x: CUBE_SIDES[s][0] as int,
        y: CUBE_SIDES[s][1] as int,
        z: CUBE_SIDES[s][2] as int,
    }
}

/// Triangle `k` of the cube: the three corners that [`CUBE_FACES`] lists for it, and the
/// vector of length one along the cross product of its first two edges.
pub open spec fn cube_facet(k: int) -> Facet {
    let a = corner(CUBE_FACES[k][0] as int);
    let b = corner(CUBE_FACES[k][1] as int);
    let c = corner(CUBE_FACES[k][2] as int);
    Facet { normal: b.minus(a).cross(c.minus(a)).unit().unwrap(), a, b, c }
}

/// The mesh of the unit cube.
pub open spec fn cube_facets() -> Seq<Facet> {
    Seq::new(12, |k: int| cube_facet(k))
}

/// What holds of each triangle of the cube: its corners are corners of the unit cell, the
/// cross product of its first two edges already has length one and is its normal, which is
/// the outward normal of the side that the triangle lies on, and so looks away from the
/// centre of the cube.
pub proof fn lemma_cube_facet(k: int)
    requires
        0 <= k < 12,
    ensures
        CUBE_FACES[k][0] < 8 && CUBE_FACES[k][1] < 8 && CUBE_FACES[k][2] < 8,
        cube_facet(k).within(1),
        cube_facet(k).winding_normal() == cube_facet(k).normal,
        cube_facet(k).normal == side_normal(k / 2),
        cube_facet(k).well_formed(),
        cube_facet(k).normal.norm_squared() == 1,
        cube_facet(k).outwardness(twice_cube_centre()) > 0,
{
    let f = cube_facet(k);
    if k == 0 {
        assert(f.winding_normal() == vec3(0, 0, -1)) by (nonlinear_arith)
            requires
                f.a == vec3(1, 0, 0),
                f.b == vec3(0, 0, 0),
                f.c == vec3(0, 1, 0),
        ;
    } else if k == 1 {
        assert(f.winding_normal() == vec3(0, 0, -1)) by (nonlinear_arith)
            requires
                f.a == vec3(1, 0, 0),
                f.b == vec3(0, 1, 0),
                f.c == vec3(1, 1, 0),
        ;
    } else if k == 2 {
        assert(f.winding_normal() == vec3(-1, 0, 0)) by (nonlinear_arith)
            requires
                f.a == vec3(0, 1, 1),
                f.b == vec3(0, 1, 0),
                f.c == vec3(0, 0, 0),
        ;
    } else if k == 3 {
        assert(f.winding_normal() == vec3(-1, 0, 0)) by (nonlinear_arith)
            requires
                f.a == vec3(0, 0, 1),
                f.b == vec3(0, 1, 1),
                f.c == vec3(0, 0, 0),
        ;
    } else if k == 4 {
        assert(f.winding_normal() == vec3(0, 1, 0)) by (nonlinear_arith)
            requires
                f.a == vec3(1, 1, 0),
                f.b == vec3(0, 1, 0),
                f.c == vec3(0, 1, 1),
        ;
    } else if k == 5 {
        assert(f.winding_normal() == vec3(0, 1, 0)) by (nonlinear_arith)
            requires
                f.a == vec3(0, 1, 1),
                f.b == vec3(1, 1, 1),
                f.c == vec3(1, 1, 0),
        ;
    } else if k == 6 {
        assert(f.winding_normal() == vec3(1, 0, 0)) by (nonlinear_arith)
            requires
                f.a == vec3(1, 1, 0),
                f.b == vec3(1, 1, 1),
                f.c == vec3(1, 0, 1),
        ;
    } else if k == 7 {
        assert(f.winding_normal() == vec3(1, 0, 0)) by (nonlinear_arith)
            requires
                f.a == vec3(1, 0, 0),
                f.b == vec3(1, 1, 0),
                f.c == vec3(1, 0, 1),
        ;
    } else if k == 8 {
        assert(f.winding_normal() == vec3(0, -1, 0)) by (nonlinear_arith)
            requires
                f.a == vec3(0, 0, 0),
                f.b == vec3(1, 0, 0),
                f.c == vec3(1, 0, 1),
        ;
    } else if k == 9 {
        assert(f.winding_normal() == vec3(0, -1, 0)) by (nonlinear_arith)
            requires
                f.a == vec3(0, 0, 0),
                f.b == vec3(1, 0, 1),
                f.c == vec3(0, 0, 1),
        ;
    } else if k == 10 {
        assert(f.winding_normal() == vec3(0, 0, 1)) by (nonlinear_arith)
            requires
                f.a == vec3(0, 0, 1),
                f.b == vec3(1, 1, 1),
                f.c == vec3(0, 1, 1),
        ;
    } else if k == 11 {
        assert(f.winding_normal() == vec3(0, 0, 1)) by (nonlinear_arith)
            requires
                f.a == vec3(1, 0, 1),
                f.b == vec3(1, 1, 1),
                f.c == vec3(0, 0, 1),
        ;
    }
    lemma_axis_dot(
        f.normal,
        f.a.plus(f.b).plus(f.c).scaled(2).minus(twice_cube_centre().scaled(3)),
    );
}

fn corner_point(i: usize) -> (r: Point)
    requires
        i < 8,
    ensures
        r@ == corner(i as int),
{
    let c = CUBE_CORNERS[i];
    Point { x: c[0], y: c[1], z: c[2] }
}

/// The unit cube between (0, 0, 0) and (1, 1, 1) as twelve triangles.
///
/// Each normal is the cross product of the two edges that leave the first listed corner,
/// brought to length one. It has length one and looks away from the centre of the cube.
pub fn cube() -> (r: Vec<Triangle>)
    ensures
        facets(r@) == cube_facets(),
        r@.len() == 12,
        forall|k: int|
            0 <= k < 12 ==> {
                &&& (#[trigger] r@[k])@.well_formed()
                &&& r@[k]@.normal == side_normal(k / 2)
                &&& r@[k]@.normal.norm_squared() == 1
                &&& r@[k]@.outwardness(twice_cube_centre()) > 0
            },
{
    let mut out: Vec<Triangle> = Vec::new();
    let mut k: usize = 0;
    while k < CUBE_TRIANGLES
        invariant
            k <= CUBE_TRIANGLES,
            facets(out@) == cube_facets().take(k as int),
        decreases CUBE_TRIANGLES - k,
    {
        proof {
            lemma_cube_facet(k as int);
        }
        let group = CUBE_FACES[k];
        let face = [corner_point(group[0]), corner_point(group[1]), corner_point(group[2])];
        let unit = normal(&face).normalize().unwrap();
        let ghost before = facets(out@);
        let triangle = Triangle { normal: unit, vertices: face };
        out.push(triangle);
        assert(facets(out@) =~= before.push(triangle@));
        k += 1;
        assert(facets(out@) =~= cube_facets().take(k as int));
    }
    proof {
        assert(facets(out@) =~= cube_facets());
        assert forall|k: int| 0 <= k < 12 implies {
            &&& (#[trigger] out@[k])@.well_formed()
            &&& out@[k]@.normal == side_normal(k / 2)
            &&& out@[k]@.normal.norm_squared() == 1
            &&& out@[k]@.outwardness(twice_cube_centre()) > 0
        } by {
            lemma_cube_facet(k);
            assert(out@[k]@ == facets(out@)[k]);
        }
    }
    out
}

} // verus!
