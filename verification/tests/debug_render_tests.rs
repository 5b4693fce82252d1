use webrender::debug_render::{glyph_index, push_quad_indices};

#[test]
fn a_quad_is_two_triangles() {
    let mut indices = vec![9];
    push_quad_indices(&mut indices, 0);
    push_quad_indices(&mut indices, 4);
    assert_eq!(indices, vec![9, 0, 1, 2, 2, 1, 3, 4, 5, 6, 6, 5, 7]);
    let mut last = Vec::new();
    push_quad_indices(&mut last, u32::MAX - 3);
    assert_eq!(last[5], u32::MAX);
}

#[test]
fn characters_outside_the_font_have_no_glyph() {
    assert_eq!(glyph_index(' ', 32, 96), Some(0));
    assert_eq!(glyph_index('A', 32, 96), Some(33));
    assert_eq!(glyph_index('\u{7f}', 32, 96), Some(95));
    assert_eq!(glyph_index('\u{80}', 32, 96), None);
    assert_eq!(glyph_index('\n', 32, 96), None);
    assert_eq!(glyph_index('a', 32, 0), None);
}
