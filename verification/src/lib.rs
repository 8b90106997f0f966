//! Block lettering as triangle meshes.
//!
//! A character is a 5×5 grid of cells, each occupied cell a unit cube; a text is a row of
//! such glyphs, six units apart. The meshes live on the integer lattice, and the binary
//! writer emits them as single-precision numbers without rounding.
//!
//! - [`cube`]: the unit cube, twelve triangles with outward normals.
//! - [`glyph`]: grids and their meshes.
//! - [`font`]: the grids of the digits, the letters and the hyphen.
//! - [`text`]: the mesh of a line of text.
//! - [`stl`]: the binary file of a mesh, written and read.
//! - [`single`]: the single-precision numbers of lattice coordinates.
//! - [`geometry`], [`mesh`]: points, vectors, triangles.

pub mod cube;
pub mod font;
pub mod geometry;
pub mod glyph;
pub mod mesh;
pub mod single;
pub mod stl;
pub mod text;

pub use cube::cube;
pub use font::{glyph, glyph_place, GlyphTable};
pub use geometry::{normal, Point, Vec3, Vector, MAX_COORD, MAX_EDGE};
pub use glyph::{rasterize, Glyph};
pub use mesh::{append_translated, Facet, Triangle};
pub use single::{decode_single, encode_single};
pub use stl::{read_stl, write_stl, ReadError, WriteError};
pub use text::{compose, to_stl, RenderError, SPACING, TEXT_SLOTS};
