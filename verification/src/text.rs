//! Text: a row of glyphs, one slot of fixed width for each character.
//!
//! A space leaves its slot empty. Any other character needs a glyph of the font; a text with
//! a character that has none is rejected as a whole, and so is a text with a glyph beyond
//! the last slot of a line.
//!
//! [`to_stl`] brings the whole text to upper case before it composes it; [`compose`] takes
//! the text as it is.

use crate::font::{glyph_of, letter_facets, GlyphTable};
use crate::geometry::{lemma_axis_dot, vec3, Vec3, Vector};
use crate::glyph::{glyph_facets, in_glyph_box, lemma_glyph_facets};
use crate::mesh::{
    append_translated,
    facets,
    lemma_translation_keeps_well_formed,
    lemma_translation_round_trip,
    translated_mesh,
    Facet,
    Triangle,
};
use crate::stl::{
    encodable_prefix,
    file_bytes,
    lemma_file_length,
    lemma_write_read_round_trip,
    parsed,
    writable,
};
use vstd::prelude::*;

verus! {

/// The width of one character slot: the five columns of a glyph and one column of gutter.
pub const SPACING: i64 = 6;

/// The number of character slots of a line. The glyph of the last slot still ends at a
/// coordinate that has an exact single-precision encoding.
pub const TEXT_SLOTS: usize = 2_796_202;

/// Why a text cannot be rendered.
#[derive(Clone, Copy, Debug, PartialEq, Eq)]
pub enum RenderError {
    /// The character at `index` is no space and the font has no glyph for it.
    UnsupportedCharacter { index: usize, character: char },
    /// The character at `index` has a glyph, but its slot lies beyond the last slot of a line.
    OutOfRange { index: usize },
}

/// Where the glyph of slot `index` stands.
pub open spec fn slot_offset(index: int) -> Vec3 {
    vec3(SPACING * index, 0, 0)
}

/// Why the character `c` in slot `index` cannot be rendered, if it cannot. A space is
/// always rendered: it adds nothing.
pub open spec fn failure_at(c: char, index: int) -> Option<RenderError> {
    if c == ' ' {
        None
    } else if glyph_of(c) is None {
        Some(RenderError::UnsupportedCharacter { index: index as usize, character: c })
    } else if index >= TEXT_SLOTS {
        Some(RenderError::OutOfRange { index: index as usize })
    } else {
        None
    }
}

/// What the character `c` in slot `index` adds to the mesh of a text: nothing for a space,
/// and for any other character the mesh of its glyph moved to the slot.
pub open spec fn placed_facets(c: char, index: int) -> Seq<Facet> {
    match letter_facets(c) {
        Some(mesh) if c != ' ' => translated_mesh(mesh, slot_offset(index)),
        _ => Seq::empty(),
    }
}

/// The mesh of the first `count` characters of `text`, one character after the other.
pub open spec fn composed_prefix(text: Seq<char>, count: nat) -> Seq<Facet>
    decreases count,
{
    if count == 0 {
        Seq::empty()
    } else {
        composed_prefix(text, (count - 1) as nat) + placed_facets(text[count - 1], count - 1)
    }
}

/// The mesh of `text`.
pub open spec fn composed(text: Seq<char>) -> Seq<Facet> {
    composed_prefix(text, text.len())
}

/// Whether every one of the first `count` characters of `text` can be rendered.
pub open spec fn renders_prefix(text: Seq<char>, count: int) -> bool {
    forall|i: int| 0 <= i < count ==> failure_at(#[trigger] text[i], i) is None
}

/// Whether `error` is the failure of the first character of `text` that cannot be rendered.
pub open spec fn rejects(text: Seq<char>, error: RenderError) -> bool {
    exists|i: int|
        0 <= i < text.len() && renders_prefix(text, i) && failure_at(#[trigger] text[i], i)
            == Some(error)
}

/// Every triangle of the first `count` characters of a text, if each of them can be
/// rendered, is well formed and encodable.
pub proof fn lemma_composed_prefix(text: Seq<char>, count: nat)
    requires
        count <= text.len(),
        renders_prefix(text, count as int),
    ensures
        forall|i: int|
            0 <= i < composed_prefix(text, count).len() ==> {
                &&& (#[trigger] composed_prefix(text, count)[i]).well_formed()
                &&& composed_prefix(text, count)[i].encodable()
            },
    decreases count,
{
    if count > 0 {
        let index = count - 1;
        let before = composed_prefix(text, index as nat);
        let added = placed_facets(text[index], index);
        lemma_composed_prefix(text, index as nat);
        assert(failure_at(text[index], index) is None);
        assert forall|j: int| 0 <= j < added.len() implies (#[trigger] added[j]).well_formed()
            && added[j].encodable() by {
            let glyph = glyph_of(text[index]).unwrap();
            lemma_glyph_facets(glyph);
            let facet = glyph_facets(glyph)[j];
            assert(in_glyph_box(facet));
            lemma_translation_keeps_well_formed(facet, slot_offset(index));
            lemma_axis_dot(facet.normal, facet.normal);
        }
        assert forall|i: int| 0 <= i < composed_prefix(text, count).len() implies {
            &&& (#[trigger] composed_prefix(text, count)[i]).well_formed()
            &&& composed_prefix(text, count)[i].encodable()
        } by {
            if i >= before.len() {
                assert(composed_prefix(text, count)[i] == added[i - before.len()]);
            }
        }
    }
}

/// The mesh of the first `count` characters is the start of the mesh of any longer prefix.
proof fn lemma_prefix_grows(text: Seq<char>, count: nat, longer: nat)
    requires
        count <= longer,
    ensures
        composed_prefix(text, count).len() <= composed_prefix(text, longer).len(),
        composed_prefix(text, longer).subrange(0, composed_prefix(text, count).len() as int)
            == composed_prefix(text, count),
    decreases longer - count,
{
    let short = composed_prefix(text, count);
    if longer == count {
        assert(short.subrange(0, short.len() as int) =~= short);
    } else {
        lemma_prefix_grows(text, count, (longer - 1) as nat);
        let before = composed_prefix(text, (longer - 1) as nat);
        let added = placed_facets(text[longer - 1], longer - 1);
        assert((before + added).subrange(0, short.len() as int) =~= before.subrange(
            0,
            short.len() as int,
        ));
    }
}

/// The block of a character in the mesh of a text is the mesh of its glyph, moved to the
/// slot of the character: moved back by the offset of the slot, the block is the mesh of
/// the glyph again, corner for corner, and each normal is the normal of the glyph, copied
/// and not computed anew. The block starts where the mesh of the characters before ends.
pub proof fn lemma_character_block(text: Seq<char>, index: int)
    requires
        0 <= index < text.len(),
        text[index] != ' ',
        letter_facets(text[index]) is Some,
    ensures
        ({
            let glyph = letter_facets(text[index]).unwrap();
            let start = composed_prefix(text, index as nat).len() as int;
            let block = composed(text).subrange(start, start + glyph.len());
            &&& start + glyph.len() <= composed(text).len()
            &&& block == translated_mesh(glyph, slot_offset(index))
            &&& translated_mesh(block, slot_offset(index).negated()) == glyph
            &&& forall|j: int| 0 <= j < glyph.len() ==> (#[trigger] block[j]).normal == glyph[j].normal
        }),
{
    let glyph = letter_facets(text[index]).unwrap();
    let before = composed_prefix(text, index as nat);
    let through = composed_prefix(text, (index + 1) as nat);
    let placed = translated_mesh(glyph, slot_offset(index));
    let start = before.len() as int;
    assert(through == before + placed);
    lemma_prefix_grows(text, (index + 1) as nat, text.len());
    let block = composed(text).subrange(start, start + glyph.len());
    assert(block =~= composed(text).subrange(0, through.len() as int).subrange(
        start,
        start + glyph.len(),
    ));
    assert(block =~= placed);
    lemma_translation_round_trip(glyph, slot_offset(index));
}

/// The file of a rendered text is read back as the mesh of the text: the file of a mesh of
/// N triangles has 84 + 50·N bytes, and reading it gives the N triangles in their order,
/// each with its normal and its corners.
pub proof fn lemma_text_file_round_trip(text: Seq<char>)
    requires
        renders_prefix(text, text.len() as int),
        composed(text).len() <= u32::MAX,
    ensures
        writable(composed(text)),
        file_bytes(composed(text)).len() == 84 + 50 * composed(text).len(),
        parsed(file_bytes(composed(text))) == Some(composed(text)),
{
    lemma_composed_prefix(text, text.len());
    assert(encodable_prefix(composed(text), composed(text).len() as int));
    lemma_file_length(composed(text));
    lemma_write_read_round_trip(composed(text));
}

/// The mesh of the first `count` characters depends on those characters alone.
proof fn lemma_prefix_agrees(a: Seq<char>, b: Seq<char>, count: nat)
    requires
        count <= a.len(),
        count <= b.len(),
        forall|i: int| 0 <= i < count ==> a[i] == b[i],
    ensures
        composed_prefix(a, count) == composed_prefix(b, count),
    decreases count,
{
    if count > 0 {
        lemma_prefix_agrees(a, b, (count - 1) as nat);
    }
}

/// A character one slot further right adds the same triangles, moved by the spacing.
proof fn lemma_next_slot(c: char, index: int)
    ensures
        placed_facets(c, index + 1) == translated_mesh(
            placed_facets(c, index),
            vec3(SPACING as int, 0, 0),
        ),
{
    assert(placed_facets(c, index + 1) =~= translated_mesh(
        placed_facets(c, index),
        vec3(SPACING as int, 0, 0),
    ));
}

/// The law of [`lemma_space_keeps_its_slot`] for the first `count` characters of `tail`.
proof fn lemma_space_shifts_prefix(head: Seq<char>, tail: Seq<char>, count: nat)
    requires
        count <= tail.len(),
    ensures
        ({
            let spaced = composed_prefix(head + seq![' '] + tail, head.len() + 1 + count);
            let tight = composed_prefix(head + tail, head.len() + count);
            let kept = composed(head).len();
            &&& spaced.len() == tight.len()
            &&& kept <= tight.len()
            &&& forall|i: int| 0 <= i < kept ==> spaced[i] == tight[i] && tight[i] == composed(head)[i]
            &&& forall|i: int|
                kept <= i < tight.len() ==> spaced[i] == tight[i].translated(
                    vec3(SPACING as int, 0, 0),
                )
        }),
    decreases count,
{
    let with_space = head + seq![' '] + tail;
    let without = head + tail;
    let h = head.len();
    if count == 0 {
        lemma_prefix_agrees(with_space, head, h);
        lemma_prefix_agrees(without, head, h);
        assert(with_space[h as int] == ' ');
        assert(composed_prefix(with_space, h + 1) =~= composed_prefix(with_space, h));
    } else {
        lemma_space_shifts_prefix(head, tail, (count - 1) as nat);
        let c = tail[count - 1];
        assert(with_space[(h + count) as int] == c);
        assert(without[h + count - 1] == c);
        lemma_next_slot(c, h + count - 1);
    }
}

/// A space adds no triangle and keeps its slot. With a space put in after `head`, the mesh
/// has as many triangles as without it; those of `head` stay where they are, and each of
/// those that follow stands one slot further right, its normal unchanged.
pub proof fn lemma_space_keeps_its_slot(head: Seq<char>, tail: Seq<char>)
    ensures
        ({
            let spaced = composed(head + seq![' '] + tail);
            let tight = composed(head + tail);
            let kept = composed(head).len();
            &&& spaced.len() == tight.len()
            &&& kept <= tight.len()
            &&& forall|i: int| 0 <= i < kept ==> spaced[i] == tight[i]
            &&& forall|i: int|
                kept <= i < tight.len() ==> spaced[i] == tight[i].translated(
                    vec3(SPACING as int, 0, 0),
                )
        }),
{
    lemma_space_shifts_prefix(head, tail, tail.len());
}

/// The mesh of `text`, built from the glyph meshes of `table`.
///
/// The character at index `i` stands in slot `i`: its glyph is moved by `6 * i` along X. A
/// space adds no triangle and still takes its slot. The glyphs follow each other in the
/// mesh in the order of the text.
///
/// The whole text is rejected when one character cannot be rendered, and the error names
/// the first such character: one that is no space and has no glyph, or one that has a glyph
/// but stands beyond the last slot of a line.
pub fn compose(text: &str, table: &GlyphTable) -> (r: Result<Vec<Triangle>, RenderError>)
    ensures
        match r {
            Ok(mesh) => {
                &&& renders_prefix(text@, text@.len() as int)
                &&& facets(mesh@) == composed(text@)
                &&& forall|i: int|
                    0 <= i < mesh@.len() ==> (#[trigger] mesh@[i])@.well_formed()
                        && mesh@[i]@.encodable()
            },
            Err(error) => rejects(text@, error),
        },
{
    let length = text.unicode_len();
    let mut out: Vec<Triangle> = Vec::new();
    let mut index: usize = 0;
    for c in it: text.chars()
        invariant
            it.seq() == text@,
            index == it.index(),
            length == text@.len(),
            renders_prefix(text@, index as int),
            facets(out@) == composed_prefix(text@, index as nat),
    {
        assert(c == text@[index as int]);
        if c != ' ' {
            match table.get(c) {
                None => {
                    return Err(RenderError::UnsupportedCharacter { index, character: c });
                },
                Some(mesh) => {
                    if index >= TEXT_SLOTS {
                        return Err(RenderError::OutOfRange { index });
                    }
                    let by = Vector { x: SPACING * (index as i64), y: 0, z: 0 };
                    proof {
                        lemma_glyph_facets(glyph_of(c).unwrap());
                        assert forall|i: int| 0 <= i < mesh@.len() implies
                            (#[trigger] mesh@[i])@.can_move(by@) by {
                            assert(mesh@[i]@ == facets(mesh@)[i]);
                            assert(in_glyph_box(facets(mesh@)[i]));
                        }
                    }
                    append_translated(&mut out, mesh, &by);
                },
            }
        }
        index += 1;
    }
    proof {
        lemma_composed_prefix(text@, text@.len());
        assert forall|i: int| 0 <= i < out@.len() implies (#[trigger] out@[i])@.well_formed()
            && out@[i]@.encodable() by {
            assert(out@[i]@ == facets(out@)[i]);
        }
    }
    Ok(out)
}

/// The upper-case form of a text, as the standard library's `str::to_uppercase` gives it.
pub uninterp spec fn upper_case(text: Seq<char>) -> Seq<char>;

/// The standard library's `str::to_uppercase`.
///
/// Trusted: the result depends on the characters of `s` alone, and `upper_case` is the
/// name of that dependence. Nothing is claimed of what the upper-case form of a given text
/// is: a character may keep its place, change, or become several characters.
#[verifier::external_body]
fn fold_case(s: &str) -> (r: String)
    ensures
        r@ == upper_case(s@),
{
    s.to_uppercase()
}

/// The mesh of the text `s`, in the font of this crate.
///
/// The text is first brought to upper case as a whole, then composed: [`compose`] on the
/// upper-case form, with a fresh table. Slots and the indices of errors count the
/// characters of the upper-case form, which has more characters than `s` where a character
/// of `s` has an upper-case form of several.
pub fn to_stl(s: &str) -> (r: Result<Vec<Triangle>, RenderError>)
    ensures
        match r {
            Ok(mesh) => {
                &&& renders_prefix(upper_case(s@), upper_case(s@).len() as int)
                &&& facets(mesh@) == composed(upper_case(s@))
                &&& forall|i: int|
                    0 <= i < mesh@.len() ==> (#[trigger] mesh@[i])@.well_formed()
                        && mesh@[i]@.encodable()
            },
            Err(error) => rejects(upper_case(s@), error),
        },
{
    let folded = fold_case(s);
    let table = GlyphTable::new();
    compose(folded.as_str(), &table)
}

} // verus!
