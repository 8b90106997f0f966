//! Glyphs: 5×5 grids of cells, and the mesh that stands one cube on every occupied cell.

use crate::cube::{cube, cube_facets, lemma_cube_facet};
use crate::geometry::{vec3, Vec3, Vector};
use crate::mesh::{append_translated, facets, translated_mesh, Facet, Triangle};
use vstd::prelude::*;

verus! {

/// The number of rows, and of columns, of a glyph.
pub const GLYPH_SIDE: usize = 5;

/// A 5×5 grid of cells, each occupied or empty. Row 0 is the top row, column 0 the leftmost.
#[derive(Clone, Copy, Debug, PartialEq, Eq)]
pub struct Glyph {
    pub rows: [[bool; 5]; 5],
}

impl Glyph {
    /// Whether cell number `cell` is occupied, the cells counted row by row from the top
    /// left.
    pub open spec fn occupied(self, cell: int) -> bool {
        self.rows[cell / 5][cell % 5]
    }

    /// How many of the first `cells` cells are occupied.
    pub open spec fn occupied_before(self, cells: nat) -> nat
        decreases cells,
    {
        if cells == 0 {
            0
        } else {
            self.occupied_before((cells - 1) as nat) + if self.occupied(cells - 1) {
                1nat
            } else {
                0nat
            }
        }
    }

    /// How many cells are occupied.
    pub open spec fn occupied_count(self) -> nat {
        self.occupied_before(25)
    }
}

/// Where the cube of cell number `cell` stands: one unit to the right for each column, one
/// unit down for each row.
pub open spec fn cell_offset(cell: int) -> Vec3 {
    vec3(cell % 5, -(cell / 5), 0)
}

/// What cell number `cell` adds to the mesh of `glyph`: the unit cube moved to the cell if
/// the cell is occupied, and nothing if it is empty.
pub open spec fn cell_facets(glyph: Glyph, cell: int) -> Seq<Facet> {
    if glyph.occupied(cell) {
        translated_mesh(cube_facets(), cell_offset(cell))
    } else {
        Seq::empty()
    }
}

/// The mesh of the first `cells` cells of `glyph`, one cell after the other.
pub open spec fn raster_prefix(glyph: Glyph, cells: nat) -> Seq<Facet>
    decreases cells,
{
    if cells == 0 {
        Seq::empty()
    } else {
        raster_prefix(glyph, (cells - 1) as nat) + cell_facets(glyph, cells - 1)
    }
}

/// The mesh of `glyph`: the cubes of its occupied cells, row by row from the top and from
/// left to right within a row.
pub open spec fn glyph_facets(glyph: Glyph) -> Seq<Facet> {
    raster_prefix(glyph, 25)
}

/// Whether `facet` lies in the box that a glyph fills: 5 wide from x = 0, 5 high down from
/// y = 1, 1 deep from z = 0.
pub open spec fn in_glyph_box(facet: Facet) -> bool {
    &&& corner_in_glyph_box(facet.a)
    &&& corner_in_glyph_box(facet.b)
    &&& corner_in_glyph_box(facet.c)
}

/// Whether `p` lies in the box that a glyph fills.
pub open spec fn corner_in_glyph_box(p: Vec3) -> bool {
    0 <= p.x <= 5 && -4 <= p.y <= 1 && 0 <= p.z <= 1
}

/// The mesh of the first `cells` cells holds twelve triangles for each occupied cell among
/// them; each triangle is well formed and lies in the box of the glyph.
pub proof fn lemma_raster_prefix(glyph: Glyph, cells: nat)
    requires
        cells <= 25,
    ensures
        raster_prefix(glyph, cells).len() == 12 * glyph.occupied_before(cells),
        forall|i: int|
            0 <= i < raster_prefix(glyph, cells).len() ==> {
                &&& (#[trigger] raster_prefix(glyph, cells)[i]).well_formed()
                &&& in_glyph_box(raster_prefix(glyph, cells)[i])
            },
    decreases cells,
{
    if cells > 0 {
        let before = raster_prefix(glyph, (cells - 1) as nat);
        let added = cell_facets(glyph, cells - 1);
        lemma_raster_prefix(glyph, (cells - 1) as nat);
        assert forall|j: int| 0 <= j < added.len() implies (#[trigger] added[j]).well_formed()
            && in_glyph_box(added[j]) by {
            lemma_cube_facet(j);
        }
        assert forall|i: int| 0 <= i < raster_prefix(glyph, cells).len() implies {
            &&& (#[trigger] raster_prefix(glyph, cells)[i]).well_formed()
            &&& in_glyph_box(raster_prefix(glyph, cells)[i])
        } by {
            if i >= before.len() {
                assert(raster_prefix(glyph, cells)[i] == added[i - before.len()]);
            }
        }
    }
}

/// The mesh of a glyph holds twelve triangles for each occupied cell; each triangle is well
/// formed and lies in the box of the glyph.
pub proof fn lemma_glyph_facets(glyph: Glyph)
    ensures
        glyph_facets(glyph).len() == 12 * glyph.occupied_count(),
        forall|i: int|
            0 <= i < glyph_facets(glyph).len() ==> {
                &&& (#[trigger] glyph_facets(glyph)[i]).well_formed()
                &&& in_glyph_box(glyph_facets(glyph)[i])
            },
{
    lemma_raster_prefix(glyph, 25);
}

/// The mesh of `glyph`: for every occupied cell in row `y` and column `x` a copy of the unit
/// cube moved by `(x, -y, 0)`, the cells taken row by row from the top and from left to
/// right. An empty cell adds nothing, so the mesh has twelve triangles per occupied cell.
pub fn rasterize(glyph: &Glyph) -> (r: Vec<Triangle>)
    ensures
        facets(r@) == glyph_facets(*glyph),
        r@.len() == 12 * glyph.occupied_count(),
        forall|i: int|
            0 <= i < r@.len() ==> (#[trigger] r@[i])@.well_formed() && in_glyph_box(r@[i]@),
{
    let unit = cube();
    let mut out: Vec<Triangle> = Vec::new();
    let mut y: usize = 0;
    while y < GLYPH_SIDE
        invariant
            y <= GLYPH_SIDE,
            facets(unit@) == cube_facets(),
            facets(out@) == raster_prefix(*glyph, (5 * y) as nat),
        decreases GLYPH_SIDE - y,
    {
        let mut x: usize = 0;
        while x < GLYPH_SIDE
            invariant
                y < GLYPH_SIDE,
                x <= GLYPH_SIDE,
                facets(unit@) == cube_facets(),
                facets(out@) == raster_prefix(*glyph, (5 * y + x) as nat),
            decreases GLYPH_SIDE - x,
        {
            let ghost cell = (5 * y + x) as int;
            assert(cell / 5 == y && cell % 5 == x);
            if glyph.rows[y][x] {
                let by = Vector { x: x as i64, y: -(y as i64), z: 0 };
                proof {
                    assert(by@ == cell_offset(cell));
                    assert forall|i: int| 0 <= i < unit@.len() implies
                        (#[trigger] unit@[i])@.can_move(by@) by {
                        lemma_cube_facet(i);
                        assert(unit@[i]@ == facets(unit@)[i]);
                    }
                }
                append_translated(&mut out, &unit, &by);
            }
            x += 1;
            assert(facets(out@) =~= raster_prefix(*glyph, (5 * y + x) as nat));
        }
        y += 1;
    }
    proof {
        lemma_glyph_facets(*glyph);
        assert(facets(out@).len() == out@.len());
        assert forall|i: int| 0 <= i < out@.len() implies (#[trigger] out@[i])@.well_formed()
            && in_glyph_box(out@[i]@) by {
            assert(out@[i]@ == facets(out@)[i]);
        }
    }
    out
}

} // verus!
