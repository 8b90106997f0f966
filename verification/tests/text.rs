use stl_letters::{compose, glyph, rasterize, to_stl, GlyphTable, RenderError, Triangle, Vector};

fn letter_at(c: char, slot: i64) -> Vec<Triangle> {
    let by = Vector { x: 6 * slot, y: 0, z: 0 };
    rasterize(&glyph(c).unwrap()).iter().map(|t| t.translate(&by)).collect()
}

#[test]
fn empty_text_is_an_empty_mesh() {
    assert_eq!(to_stl(""), Ok(vec![]));
    assert_eq!(to_stl("   "), Ok(vec![]));
}

#[test]
fn single_character_is_its_glyph() {
    assert_eq!(to_stl("A"), Ok(rasterize(&glyph('A').unwrap())));
}

#[test]
fn zero_renders_twelve_triangles_per_cell_of_its_grid() {
    let occupied = [
        [0, 1, 1, 1, 0],
        [1, 0, 0, 1, 1],
        [1, 0, 1, 0, 1],
        [1, 1, 0, 0, 1],
        [0, 1, 1, 1, 0],
    ]
    .iter()
    .flatten()
    .filter(|cell| **cell == 1)
    .count();
    assert_eq!(occupied, 15);
    assert_eq!(to_stl("0").unwrap().len(), 12 * occupied);
    assert_eq!(to_stl("0").unwrap().len(), 180);
}

#[test]
fn characters_stand_six_units_apart() {
    let mesh = to_stl("AB7").unwrap();
    let mut expected = letter_at('A', 0);
    expected.extend(letter_at('B', 1));
    expected.extend(letter_at('7', 2));
    assert_eq!(mesh, expected);
}

#[test]
fn space_adds_nothing_and_keeps_its_slot() {
    let spaced = to_stl("a b").unwrap();
    let tight = to_stl("ab").unwrap();
    assert_eq!(spaced.len(), tight.len());
    let first = rasterize(&glyph('a').unwrap()).len();
    assert_eq!(spaced[..first], tight[..first]);
    let by = Vector { x: 6, y: 0, z: 0 };
    for (s, t) in spaced[first..].iter().zip(tight[first..].iter()) {
        assert_eq!(*s, t.translate(&by));
        assert_eq!(s.vertices[0].x, t.vertices[0].x + 6);
        assert_eq!(s.normal, t.normal);
    }
    let second_spaced = spaced[first].vertices[0].x;
    let second_alone = rasterize(&glyph('b').unwrap())[0].vertices[0].x;
    assert_eq!(second_spaced - second_alone, 2 * 6);
    let mut expected = letter_at('a', 0);
    expected.extend(letter_at('b', 2));
    assert_eq!(spaced, expected);
}

#[test]
fn leading_spaces_move_the_text() {
    assert_eq!(to_stl("  -"), Ok(letter_at('-', 2)));
    assert_eq!(to_stl("-  "), Ok(letter_at('-', 0)));
}

#[test]
fn case_does_not_matter() {
    assert_eq!(to_stl("hello-42"), to_stl("HELLO-42"));
    assert_eq!(to_stl("MiXeD"), to_stl("mixed"));
}

#[test]
fn unsupported_character_rejects_the_text() {
    assert_eq!(
        to_stl("ab!c"),
        Err(RenderError::UnsupportedCharacter { index: 2, character: '!' })
    );
    assert_eq!(
        to_stl("?"),
        Err(RenderError::UnsupportedCharacter { index: 0, character: '?' })
    );
}

#[test]
fn first_unsupported_character_is_named() {
    assert_eq!(
        to_stl("a b_c.d"),
        Err(RenderError::UnsupportedCharacter { index: 3, character: '_' })
    );
}

#[test]
fn index_counts_characters_not_bytes() {
    assert_eq!(
        to_stl("aé"),
        Err(RenderError::UnsupportedCharacter { index: 1, character: 'É' })
    );
    assert_eq!(
        to_stl("éé a\u{1F600}"),
        Err(RenderError::UnsupportedCharacter { index: 0, character: 'É' })
    );
    assert_eq!(
        to_stl("a b\u{1F600}"),
        Err(RenderError::UnsupportedCharacter { index: 3, character: '\u{1F600}' })
    );
}

#[test]
fn other_white_space_is_no_space() {
    assert_eq!(
        to_stl("a\tb"),
        Err(RenderError::UnsupportedCharacter { index: 1, character: '\t' })
    );
    assert_eq!(
        to_stl("a\n"),
        Err(RenderError::UnsupportedCharacter { index: 1, character: '\n' })
    );
}

#[test]
fn last_slot_is_rendered() {
    let mut text = " ".repeat(2_796_201);
    text.push('I');
    let mesh = to_stl(&text).unwrap();
    assert_eq!(mesh, letter_at('I', 2_796_201));
    let right = mesh.iter().flat_map(|t| t.vertices.iter().map(|p| p.x)).max().unwrap();
    assert_eq!(right, 6 * 2_796_201 + 5);
    assert!(right <= 16_777_216);
}

#[test]
fn slot_beyond_the_last_is_rejected() {
    let mut text = " ".repeat(2_796_202);
    text.push('I');
    assert_eq!(to_stl(&text), Err(RenderError::OutOfRange { index: 2_796_202 }));
}

#[test]
fn spaces_beyond_the_last_slot_are_fine() {
    let mut text = String::from("A");
    text.push_str(&" ".repeat(2_796_210));
    assert_eq!(to_stl(&text), Ok(letter_at('A', 0)));
}

#[test]
fn unsupported_wins_over_out_of_range_at_one_character() {
    let mut text = " ".repeat(2_796_205);
    text.push('#');
    text.push('A');
    assert_eq!(
        to_stl(&text),
        Err(RenderError::UnsupportedCharacter { index: 2_796_205, character: '#' })
    );
}

#[test]
fn compose_with_a_table_is_to_stl() {
    let table = GlyphTable::new();
    for text in ["", "a", "ab", "a b", "HELLO-42", "x!", "A-Z 0-9"] {
        assert_eq!(compose(text, &table), to_stl(text));
    }
}

#[test]
fn whole_font_renders() {
    let s = "abcdefghijklmnopqrstuvwxyz-0123456789";
    let mesh = to_stl(s).unwrap();
    let mut expected = Vec::new();
    for (i, c) in s.chars().enumerate() {
        expected.extend(letter_at(c, i as i64));
    }
    assert_eq!(mesh, expected);
    assert_eq!(mesh.len() % 12, 0);
}

#[test]
fn dotless_i_is_rendered_as_i() {
    assert!(to_stl("\u{131}").is_ok());
    assert_eq!(to_stl("\u{131}"), to_stl("I"));
    assert_eq!(to_stl("a\u{131}b"), to_stl("AIB"));
}

#[test]
fn long_s_is_rendered_as_s() {
    assert!(to_stl("\u{17F}").is_ok());
    assert_eq!(to_stl("\u{17F}"), to_stl("S"));
}

#[test]
fn sharp_s_is_rendered_as_two_letters() {
    assert!(to_stl("\u{DF}").is_ok());
    assert_eq!(to_stl("\u{DF}"), to_stl("SS"));
    let mut expected = letter_at('S', 0);
    expected.extend(letter_at('S', 1));
    assert_eq!(to_stl("\u{DF}"), Ok(expected));
}

#[test]
fn ligatures_take_a_slot_for_each_letter() {
    assert_eq!(to_stl("\u{FB01}"), to_stl("FI"));
    assert_eq!(to_stl("\u{FB00}"), to_stl("FF"));
    assert_eq!(to_stl("\u{FB03}"), to_stl("FFI"));
    assert_eq!(to_stl("\u{FB06}"), to_stl("ST"));
    let mut expected = letter_at('F', 0);
    expected.extend(letter_at('L', 1));
    expected.extend(letter_at('O', 2));
    expected.extend(letter_at('W', 3));
    assert_eq!(to_stl("\u{FB02}ow"), Ok(expected));
}

#[test]
fn what_follows_a_widened_character_moves_on() {
    let mut expected = letter_at('S', 0);
    expected.extend(letter_at('S', 1));
    expected.extend(letter_at('A', 2));
    assert_eq!(to_stl("\u{DF}a"), Ok(expected));
}

#[test]
fn error_index_counts_the_upper_case_text() {
    assert_eq!(
        to_stl("\u{DF}!"),
        Err(RenderError::UnsupportedCharacter { index: 2, character: '!' })
    );
    assert_eq!(
        to_stl("\u{1F0}"),
        Err(RenderError::UnsupportedCharacter { index: 1, character: '\u{30C}' })
    );
    assert_eq!(
        to_stl("\u{E9}"),
        Err(RenderError::UnsupportedCharacter { index: 0, character: '\u{C9}' })
    );
}

#[test]
fn compose_takes_the_text_as_it_is() {
    let table = GlyphTable::new();
    assert_eq!(
        compose("\u{131}", &table),
        Err(RenderError::UnsupportedCharacter { index: 0, character: '\u{131}' })
    );
    assert_eq!(
        compose("\u{DF}", &table),
        Err(RenderError::UnsupportedCharacter { index: 0, character: '\u{DF}' })
    );
    assert_eq!(compose("I", &table), to_stl("\u{131}"));
    assert_eq!(compose("SS", &table), to_stl("\u{DF}"));
    assert_eq!(compose("abc", &table), compose("ABC", &table));
}

#[test]
fn block_of_a_character_moved_back_is_its_glyph() {
    let text = "hi 2-u";
    let mesh = to_stl(text).unwrap();
    let mut start = 0;
    for (i, c) in text.to_uppercase().chars().enumerate() {
        if c == ' ' {
            continue;
        }
        let shape = rasterize(&glyph(c).unwrap());
        let block = &mesh[start..start + shape.len()];
        let back = Vector { x: -6 * i as i64, y: 0, z: 0 };
        for (moved, plain) in block.iter().zip(shape.iter()) {
            assert_eq!(moved.translate(&back), *plain);
            assert_eq!(moved.normal, plain.normal);
            for m in 0..3 {
                assert_eq!(moved.vertices[m].x - 6 * i as i64, plain.vertices[m].x);
                assert_eq!(moved.vertices[m].y, plain.vertices[m].y);
                assert_eq!(moved.vertices[m].z, plain.vertices[m].z);
            }
        }
        start += shape.len();
    }
    assert_eq!(start, mesh.len());
}
