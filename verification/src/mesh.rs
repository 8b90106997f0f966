//! Triangles with their normals, and meshes as ordered sequences of them.

use crate::geometry::{Point, Vec3, Vector, MAX_COORD};
use vstd::prelude::*;

verus! {

/// The mathematical value of a [`Triangle`]: its normal and its three corners, in winding order.
pub struct Facet {
    pub normal: Vec3,
    pub a: Vec3,
    pub b: Vec3,
    pub c: Vec3,
}

impl Facet {
    /// The facet moved by `by`: every corner is displaced, the normal is kept.
    pub open spec fn translated(self, by: Vec3) -> Facet {
        Facet { normal: self.normal, a: self.a.plus(by), b: self.b.plus(by), c: self.c.plus(by) }
    }

    /// The cross product of the edges `a -> b` and `a -> c`, which the right-hand rule gives
    /// for this winding.
    pub open spec fn winding_normal(self) -> Vec3 {
        self.b.minus(self.a).cross(self.c.minus(self.a))
    }

    /// The invariant of a triangle: its normal is the vector of length one along the normal
    /// of its winding.
    pub open spec fn well_formed(self) -> bool {
        self.winding_normal().unit() == Some(self.normal)
    }

    /// Six times the scalar product of the normal with the displacement from a centre to the
    /// centroid of the facet; `twice_centre` is the centre doubled, so that the centre of a
    /// unit cell is a lattice point. The facet looks away from the centre when this is positive.
    pub open spec fn outwardness(self, twice_centre: Vec3) -> int {
        self.normal.dot(self.a.plus(self.b).plus(self.c).scaled(2).minus(twice_centre.scaled(3)))
    }

    /// Whether every corner has coordinates of magnitude at most `bound`.
    pub open spec fn within(self, bound: int) -> bool {
        self.a.within(bound) && self.b.within(bound) && self.c.within(bound)
    }

    /// Whether every coordinate of the facet, those of its normal too, has magnitude at most
    /// [`MAX_COORD`], and so a single-precision number of exactly its value.
    pub open spec fn encodable(self) -> bool {
        self.normal.within(MAX_COORD as int) && self.within(MAX_COORD as int)
    }

    /// Whether the facet moved by `by` still has machine coordinates.
    pub open spec fn can_move(self, by: Vec3) -> bool {
        &&& self.a.plus(by).representable()
        &&& self.b.plus(by).representable()
        &&& self.c.plus(by).representable()
    }
}

/// The mesh `mesh` moved by `by`, facet by facet and in the same order.
pub open spec fn translated_mesh(mesh: Seq<Facet>, by: Vec3) -> Seq<Facet> {
    Seq::new(mesh.len(), |i: int| mesh[i].translated(by))
}

/// A triangle: three corners, whose order is its winding, and its normal.
#[derive(Clone, Copy, Debug, PartialEq, Eq)]
pub struct Triangle {
    pub normal: Vector,
    pub vertices: [Point; 3],
}

impl View for Triangle {
    type V = Facet;

    open spec fn view(&self) -> Facet {
        Facet {
            normal: self.normal@,
            a: self.vertices[0]@,
            b: self.vertices[1]@,
            c: self.vertices[2]@,
        }
    }
}

/// The mathematical value of a mesh: the values of its triangles, in their order.
pub open spec fn facets(triangles: Seq<Triangle>) -> Seq<Facet> {
    Seq::new(triangles.len(), |i: int| triangles[i]@)
}

impl Triangle {
    /// The triangle moved by `by`: the displacement is added to each corner and the normal
    /// is copied.
    pub fn translate(&self, by: &Vector) -> (r: Triangle)
        requires
            self@.can_move(by@),
        ensures
            r@ == self@.translated(by@),
    {
        Triangle {
            normal: self.normal,
            vertices: [
                self.vertices[0].translate(by),
                self.vertices[1].translate(by),
                self.vertices[2].translate(by),
            ],
        }
    }
}

/// Appends to `out` the triangles of `mesh`, each moved by `by`, in the order of `mesh`.
pub fn append_translated(out: &mut Vec<Triangle>, mesh: &Vec<Triangle>, by: &Vector)
    requires
        forall|i: int| 0 <= i < mesh@.len() ==> (#[trigger] mesh@[i])@.can_move(by@),
    ensures
        facets(final(out)@) == facets(old(out)@) + translated_mesh(facets(mesh@), by@),
{
    let mut i: usize = 0;
    while i < mesh.len()
        invariant
            i <= mesh@.len(),
            forall|j: int| 0 <= j < mesh@.len() ==> (#[trigger] mesh@[j])@.can_move(by@),
            facets(out@) == facets(old(out)@) + translated_mesh(
                facets(mesh@),
                by@,
            ).take(i as int),
        decreases mesh@.len() - i,
    {
        let ghost before = facets(out@);
        let moved = mesh[i].translate(by);
        out.push(moved);
        i += 1;
        assert(facets(out@) =~= before.push(moved@));
        assert(facets(out@) =~= facets(old(out)@) + translated_mesh(
            facets(mesh@),
            by@,
        ).take(i as int));
    }
}

/// Moving a well-formed facet leaves it well formed: its edges, and so the normal of its
/// winding, do not change.
pub proof fn lemma_translation_keeps_well_formed(facet: Facet, by: Vec3)
    ensures
        facet.translated(by).winding_normal() == facet.winding_normal(),
        facet.well_formed() ==> facet.translated(by).well_formed(),
{
    assert(facet.translated(by).b.minus(facet.translated(by).a) == facet.b.minus(facet.a));
    assert(facet.translated(by).c.minus(facet.translated(by).a) == facet.c.minus(facet.a));
}

/// Moving a mesh by `by` and then by the opposite of `by` gives back every corner, and
/// neither move touches a normal.
pub proof fn lemma_translation_round_trip(mesh: Seq<Facet>, by: Vec3)
    ensures
        translated_mesh(translated_mesh(mesh, by), by.negated()) == mesh,
        translated_mesh(mesh, by).len() == mesh.len(),
        forall|i: int|
            0 <= i < mesh.len() ==> (#[trigger] translated_mesh(mesh, by)[i]).normal
                == mesh[i].normal,
{
    assert(translated_mesh(translated_mesh(mesh, by), by.negated()) =~= mesh);
}

} // verus!
