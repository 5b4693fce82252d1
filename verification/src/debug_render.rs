//! The whole-number part of the debug overlay: which glyph of the debug
//! font a character is, and the indices of the two triangles of a quad.

use vstd::prelude::*;

verus! {

/// The indices of the two triangles that make the quad of the four
/// vertices from `first` on.
pub open spec fn quad_indices(first: u32) -> Seq<u32> {
    seq![
        first,
        (first + 1) as u32,
        (first + 2) as u32,
        (first + 2) as u32,
        (first + 1) as u32,
        (first + 3) as u32,
    ]
}

/// Appends the indices of the quad whose four vertices start at
/// `vertex_count`.
pub fn push_quad_indices(indices: &mut Vec<u32>, vertex_count: u32)
    requires
        vertex_count + 3 <= u32::MAX,
    ensures
        final(indices)@ == old(indices)@ + quad_indices(vertex_count),
{
    indices.push(vertex_count);
    indices.push(vertex_count + 1);
    indices.push(vertex_count + 2);
    indices.push(vertex_count + 2);
    indices.push(vertex_count + 1);
    indices.push(vertex_count + 3);
    assert(indices@ =~= old(indices)@ + quad_indices(vertex_count));
}

/// The place of a character in a font of `glyph_count` glyphs whose first
/// glyph is the character with the number `first_glyph`; nothing for a
/// character that the font does not hold.
pub fn glyph_index(c: char, first_glyph: u32, glyph_count: usize) -> (r: Option<usize>)
    ensures
        r == if first_glyph <= c as u32 && c as u32 - first_glyph < glyph_count {
            Some((c as u32 - first_glyph) as usize)
        } else {
            None
        },
{
    let code = c as u32;
    if code >= first_glyph && ((code - first_glyph) as usize) < glyph_count {
        Some((code - first_glyph) as usize)
    } else {
        None
    }
}

} // verus!
