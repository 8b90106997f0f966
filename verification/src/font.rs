//! The font: one glyph for each digit, each letter and the hyphen.
//!
//! The table has 37 keys: the digits, the upper-case letters `A` to `Z` and the hyphen. A
//! lookup does not look at the case of an ASCII letter, so `a` finds the glyph of `A`; any
//! other character finds a glyph only if it is a key. The lookup brings no text to upper
//! case: that is done on the whole text, before its characters are looked up.

use crate::glyph::{glyph_facets, rasterize, Glyph};
use crate::mesh::{facets, Facet, Triangle};
use vstd::prelude::*;

verus! {

/// An occupied cell.
pub const X: bool = true;

/// An empty cell.
pub const O: bool = false;

/// The number of glyphs of the font.
pub const GLYPH_COUNT: usize = 37;

/// The grids of the font: the digits `0` to `9`, the letters `A` to `Z`, then the hyphen.
pub const GLYPHS: [[[bool; 5]; 5]; 37] = [
    // 0
    [
        [O, X, X, X, O],
        [X, O, O, X, X],
        [X, O, X, O, X],
        [X, X, O, O, X],
        [O, X, X, X, O],
    ],
    // 1
    [
        [O, X, X, O, O],
        [O, O, X, O, O],
        [O, O, X, O, O],
        [O, O, X, O, O],
        [O, X, X, X, O],
    ],
    // 2
    [
        [O, X, X, O, O],
        [X, O, O, X, O],
        [O, O, X, O, O],
        [O, X, O, O, O],
        [X, X, X, X, O],
    ],
    // 3
    [
        [X, X, X, O, O],
        [O, O, O, X, O],
        [O, X, X, O, O],
        [O, O, O, X, O],
        [X, X, X, O, O],
    ],
    // 4
    [
        [X, O, O, X, O],
        [X, O, O, X, O],
        [X, X, X, X, O],
        [O, O, O, X, O],
        [O, O, O, X, O],
    ],
    // 5
    [
        [X, X, X, X, O],
        [X, O, O, O, O],
        [X, X, X, O, O],
        [O, O, O, X, O],
        [X, X, X, O, O],
    ],
    // 6
    [
        [X, X, X, X, O],
        [X, O, O, O, O],
        [X, X, X, X, O],
        [X, O, O, X, O],
        [X, X, X, X, O],
    ],
    // 7
    [
        [X, X, X, X, O],
        [O, O, O, X, O],
        [O, O, X, O, O],
        [O, X, O, O, O],
        [O, X, O, O, O],
    ],
    // 8
    [
        [X, X, X, X, O],
        [X, O, O, X, O],
        [X, X, X, X, O],
        [X, O, O, X, O],
        [X, X, X, X, O],
    ],
    // 9
    [
        [X, X, X, X, O],
        [X, O, O, X, O],
        [X, X, X, X, O],
        [O, O, O, X, O],
        [X, X, X, X, O],
    ],
    // A
    [
        [O, X, X, O, O],
        [X, O, O, X, O],
        [X, X, X, X, O],
        [X, O, O, X, O],
        [X, O, O, X, O],
    ],
    // B
    [
        [X, X, X, O, O],
        [X, O, O, X, O],
        [X, X, X, O, O],
        [X, O, O, X, O],
        [X, X, X, O, O],
    ],
    // C
    [
        [O, X, X, X, O],
        [X, O, O, O, O],
        [X, O, O, O, O],
        [X, O, O, O, O],
        [O, X, X, X, O],
    ],
    // D
    [
        [X, X, X, X, O],
        [X, O, O, O, X],
        [X, O, O, O, X],
        [X, O, O, O, X],
        [X, X, X, X, O],
    ],
    // E
    [
        [X, X, X, X, O],
        [X, O, O, O, O],
        [X, X, X, X, O],
        [X, O, O, O, O],
        [X, X, X, X, O],
    ],
    // F
    [
        [X, X, X, X, O],
        [X, O, O, O, O],
        [X, X, X, X, O],
        [X, O, O, O, O],
        [X, O, O, O, O],
    ],
    // G
    [
        [X, X, X, X, O],
        [X, O, O, O, O],
        [X, O, X, X, O],
        [X, O, O, X, O],
        [X, X, X, X, O],
    ],
    // H
    [
        [X, O, O, X, O],
        [X, O, O, X, O],
        [X, X, X, X, O],
        [X, O, O, X, O],
        [X, O, O, X, O],
    ],
    // I
    [
        [X, X, X, X, X],
        [O, O, X, O, O],
        [O, O, X, O, O],
        [O, O, X, O, O],
        [X, X, X, X, X],
    ],
    // J
    [
        [X, X, X, X, X],
        [O, O, X, O, O],
        [O, O, X, O, O],
        [X, O, X, O, O],
        [X, X, X, O, O],
    ],
    // K
    [
        [X, O, O, X, O],
        [X, O, X, O, O],
        [X, X, O, O, O],
        [X, O, X, O, O],
        [X, O, O, X, O],
    ],
    // L
    [
        [X, O, O, O, O],
        [X, O, O, O, O],
        [X, O, O, O, O],
        [X, O, O, O, O],
        [X, X, X, X, O],
    ],
    // M
    [
        [X, O, O, O, X],
        [X, X, O, X, X],
        [X, O, X, O, X],
        [X, O, X, O, X],
        [X, O, O, O, X],
    ],
    // N
    [
        [X, O, O, O, X],
        [X, X, O, O, X],
        [X, O, X, O, X],
        [X, O, O, X, X],
        [X, O, O, O, X],
    ],
    // O
    [
        [O, X, X, X, O],
        [X, O, O, O, X],
        [X, O, O, O, X],
        [X, O, O, O, X],
        [O, X, X, X, O],
    ],
    // P
    [
        [X, X, X, X, O],
        [X, O, O, X, O],
        [X, X, X, X, O],
        [X, O, O, O, O],
        [X, O, O, O, O],
    ],
    // Q
    [
        [O, X, X, X, O],
        [X, O, O, O, X],
        [X, O, X, O, X],
        [X, O, O, X, O],
        [O, X, X, O, X],
    ],
    // R
    [
        [X, X, X, X, O],
        [X, O, O, X, O],
        [X, X, X, X, O],
        [X, O, X, O, O],
        [X, O, O, X, O],
    ],
    // S
    [
        [X, X, X, X, X],
        [X, O, O, O, O],
        [X, X, X, X, X],
        [O, O, O, O, X],
        [X, X, X, X, X],
    ],
    // T
    [
        [X, X, X, X, X],
        [O, O, X, O, O],
        [O, O, X, O, O],
        [O, O, X, O, O],
        [O, O, X, O, O],
    ],
    // U
    [
        [X, O, O, O, X],
        [X, O, O, O, X],
        [X, O, O, O, X],
        [X, O, O, O, X],
        [X, X, X, X, X],
    ],
    // V
    [
        [X, O, O, O, X],
        [X, O, O, O, X],
        [X, X, O, X, X],
        [O, X, O, X, O],
        [O, O, X, O, O],
    ],
    // W
    [
        [X, O, O, O, X],
        [X, O, O, O, X],
        [X, O, X, O, X],
        [X, X, O, X, X],
        [X, O, O, O, X],
    ],
    // X
    [
        [X, O, O, O, X],
        [O, X, O, X, O],
        [O, O, X, O, O],
        [O, X, O, X, O],
        [X, O, O, O, X],
    ],
    // Y
    [
        [X, O, O, O, X],
        [O, X, O, X, O],
        [O, O, X, O, O],
        [O, O, X, O, O],
        [O, O, X, O, O],
    ],
    // Z
    [
        [X, X, X, X, X],
        [O, O, O, X, O],
        [O, O, X, O, O],
        [O, X, O, O, O],
        [X, X, X, X, X],
    ],
    // -
    [
        [O, O, O, O, O],
        [O, O, O, O, O],
        [O, X, X, X, O],
        [O, O, O, O, O],
        [O, O, O, O, O],
    ],
];

/// The place of the glyph of `c` in [`GLYPHS`], if `c` has a glyph: the digits first, the
/// letters after them, whatever their case, and the hyphen last.
pub open spec fn glyph_index(c: char) -> Option<int> {
    if '0' <= c <= '9' {
        Some(c as int - '0' as int)
    } else if 'A' <= c <= 'Z' {
        Some(10 + (c as int - 'A' as int))
    } else if 'a' <= c <= 'z' {
        Some(10 + (c as int - 'a' as int))
    } else if c == '-' {
        Some(36)
    } else {
        None
    }
}

/// The glyph of `c`, if the font has one.
pub open spec fn glyph_of(c: char) -> Option<Glyph> {
    match glyph_index(c) {
        Some(i) => Some(Glyph { rows: GLYPHS[i] }),
        None => None,
    }
}

/// The mesh of the glyph of `c`, if the font has one.
pub open spec fn letter_facets(c: char) -> Option<Seq<Facet>> {
    match glyph_of(c) {
        Some(glyph) => Some(glyph_facets(glyph)),
        None => None,
    }
}

/// The place of the glyph of `c` in [`GLYPHS`], or `None` if the font has no glyph for `c`.
pub fn glyph_place(c: char) -> (r: Option<usize>)
    ensures
        match r {
            Some(i) => glyph_index(c) == Some(i as int) && i < 37,
            None => glyph_index(c) is None,
        },
{
    let code: u32 = c as u32;
    if '0' <= c && c <= '9' {
        Some((code - '0' as u32) as usize)
    } else if 'A' <= c && c <= 'Z' {
        Some((10 + (code - 'A' as u32)) as usize)
    } else if 'a' <= c && c <= 'z' {
        Some((10 + (code - 'a' as u32)) as usize)
    } else if c == '-' {
        Some(36)
    } else {
        None
    }
}

/// The glyph of `c`, or `None` if the font has no glyph for `c`.
pub fn glyph(c: char) -> (r: Option<Glyph>)
    ensures
        r == glyph_of(c),
{
    match glyph_place(c) {
        Some(i) => Some(Glyph { rows: GLYPHS[i] }),
        None => None,
    }
}

/// The meshes of all glyphs of the font, in the order of [`GLYPHS`].
pub open spec fn font_facets() -> Seq<Seq<Facet>> {
    Seq::new(37, |i: int| glyph_facets(Glyph { rows: GLYPHS[i] }))
}

/// The meshes of all glyphs of the font, built once and read many times.
pub struct GlyphTable {
    meshes: Vec<Vec<Triangle>>,
}

impl View for GlyphTable {
    type V = Seq<Seq<Facet>>;

    closed spec fn view(&self) -> Seq<Seq<Facet>> {
        Seq::new(self.meshes@.len(), |i: int| facets(self.meshes@[i]@))
    }
}

impl GlyphTable {
    /// Entry `i` of the table is the mesh of glyph `i` of the font.
    #[verifier::type_invariant]
    spec fn holds_the_font(self) -> bool {
        self@ == font_facets()
    }

    /// The table of the font, every glyph rasterized.
    pub fn new() -> (r: GlyphTable)
        ensures
            r@ == font_facets(),
    {
        let mut meshes: Vec<Vec<Triangle>> = Vec::new();
        let mut i: usize = 0;
        while i < GLYPH_COUNT
            invariant
                i <= GLYPH_COUNT,
                meshes@.len() == i,
                forall|j: int|
                    0 <= j < i ==> facets((#[trigger] meshes@[j])@) == glyph_facets(
                        Glyph { rows: GLYPHS[j] },
                    ),
            decreases GLYPH_COUNT - i,
        {
            let mesh = rasterize(&Glyph { rows: GLYPHS[i] });
            meshes.push(mesh);
            i += 1;
        }
        assert(Seq::new(meshes@.len(), |i: int| facets(meshes@[i]@)) =~= font_facets());
        GlyphTable { meshes }
    }

    /// The mesh of the glyph of `c`, or `None` if the font has no glyph for `c`.
    pub fn get(&self, c: char) -> (r: Option<&Vec<Triangle>>)
        ensures
            match r {
                Some(mesh) => letter_facets(c) == Some(facets(mesh@)),
                None => letter_facets(c) is None,
            },
    {
        proof {
            use_type_invariant(self);
        }
        match glyph_place(c) {
            Some(i) => {
                assert(self@.len() == self.meshes@.len());
                assert(self@[i as int] == facets(self.meshes@[i as int]@));
                Some(&self.meshes[i])
            },
            None => None,
        }
    }
}

} // verus!
