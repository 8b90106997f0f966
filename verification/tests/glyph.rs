use stl_letters::{cube, glyph, glyph_place, rasterize, Glyph, GlyphTable, Vector};

const X: bool = true;
const O: bool = false;

fn cells(glyph: &Glyph) -> usize {
    glyph.rows.iter().map(|row| row.iter().filter(|cell| **cell).count()).sum()
}

#[test]
fn empty_grid_gives_an_empty_mesh() {
    let grid = Glyph { rows: [[O; 5]; 5] };
    assert_eq!(rasterize(&grid).len(), 0);
}

#[test]
fn full_grid_gives_three_hundred_triangles() {
    let grid = Glyph { rows: [[X; 5]; 5] };
    assert_eq!(rasterize(&grid).len(), 12 * 25);
    assert_eq!(rasterize(&grid).len(), 300);
}

#[test]
fn single_cell_is_a_cube_moved_right_and_down() {
    let mut rows = [[O; 5]; 5];
    rows[3][2] = X;
    let mesh = rasterize(&Glyph { rows });
    let by = Vector { x: 2, y: -3, z: 0 };
    let expected: Vec<_> = cube().iter().map(|t| t.translate(&by)).collect();
    assert_eq!(mesh, expected);
}

#[test]
fn top_left_cell_is_the_cube_itself() {
    let mut rows = [[O; 5]; 5];
    rows[0][0] = X;
    assert_eq!(rasterize(&Glyph { rows }), cube());
}

#[test]
fn cells_come_row_by_row_and_left_to_right() {
    let mut rows = [[O; 5]; 5];
    rows[1][0] = X;
    rows[0][4] = X;
    rows[0][1] = X;
    rows[4][4] = X;
    let mesh = rasterize(&Glyph { rows });
    assert_eq!(mesh.len(), 48);
    let offsets = [(1, 0), (4, 0), (0, -1), (4, -4)];
    for (n, (x, y)) in offsets.iter().enumerate() {
        let by = Vector { x: *x, y: *y, z: 0 };
        for (k, t) in cube().iter().enumerate() {
            assert_eq!(mesh[12 * n + k], t.translate(&by));
        }
    }
}

#[test]
fn mesh_has_twelve_triangles_per_occupied_cell() {
    for c in "0123456789ABCDEFGHIJKLMNOPQRSTUVWXYZ-".chars() {
        let grid = glyph(c).unwrap();
        assert_eq!(rasterize(&grid).len(), 12 * cells(&grid));
    }
}

#[test]
fn zero_glyph_has_fifteen_cells() {
    let grid = Glyph {
        rows: [
            [O, X, X, X, O],
            [X, O, O, X, X],
            [X, O, X, O, X],
            [X, X, O, O, X],
            [O, X, X, X, O],
        ],
    };
    assert_eq!(glyph('0'), Some(grid));
    assert_eq!(cells(&grid), 15);
    assert_eq!(rasterize(&grid).len(), 12 * 15);
    assert_eq!(rasterize(&grid).len(), 180);
}

#[test]
fn hyphen_is_three_cells_of_the_middle_row() {
    let mesh = rasterize(&glyph('-').unwrap());
    assert_eq!(mesh.len(), 36);
    for (n, x) in [1, 2, 3].iter().enumerate() {
        let by = Vector { x: *x, y: -2, z: 0 };
        assert_eq!(mesh[12 * n], cube()[0].translate(&by));
    }
}

#[test]
fn letters_are_found_in_either_case() {
    for (lower, upper) in "abcdefghijklmnopqrstuvwxyz".chars().zip("ABCDEFGHIJKLMNOPQRSTUVWXYZ".chars()) {
        assert!(glyph(upper).is_some());
        assert_eq!(glyph(lower), glyph(upper));
        assert_eq!(glyph_place(lower), glyph_place(upper));
    }
}

#[test]
fn glyph_places_follow_digits_letters_hyphen() {
    assert_eq!(glyph_place('0'), Some(0));
    assert_eq!(glyph_place('9'), Some(9));
    assert_eq!(glyph_place('A'), Some(10));
    assert_eq!(glyph_place('z'), Some(35));
    assert_eq!(glyph_place('Z'), Some(35));
    assert_eq!(glyph_place('-'), Some(36));
}

#[test]
fn other_characters_have_no_glyph() {
    for c in [' ', '!', '/', ':', '@', '[', '`', '{', '_', '+', 'é', 'ß', 'ſ', '０', '\u{10FFFF}'] {
        assert_eq!(glyph(c), None);
        assert_eq!(glyph_place(c), None);
    }
}

#[test]
fn glyphs_differ_from_each_other() {
    let all: Vec<Glyph> = "0123456789ABCDEFGHIJKLMNOPQRSTUVWXYZ-".chars().map(|c| glyph(c).unwrap()).collect();
    assert_eq!(all.len(), 37);
    assert_ne!(all[10], all[11]);
    assert_ne!(all[0], all[24]);
    assert_eq!(
        glyph('A').unwrap().rows,
        [
            [O, X, X, O, O],
            [X, O, O, X, O],
            [X, X, X, X, O],
            [X, O, O, X, O],
            [X, O, O, X, O],
        ]
    );
    assert_eq!(
        glyph('Z').unwrap().rows,
        [
            [X, X, X, X, X],
            [O, O, O, X, O],
            [O, O, X, O, O],
            [O, X, O, O, O],
            [X, X, X, X, X],
        ]
    );
}

#[test]
fn table_holds_the_mesh_of_each_glyph() {
    let table = GlyphTable::new();
    for c in "0123456789ABCDEFGHIJKLMNOPQRSTUVWXYZ-abcxyz".chars() {
        assert_eq!(table.get(c), Some(&rasterize(&glyph(c).unwrap())));
    }
    assert_eq!(table.get(' '), None);
    assert_eq!(table.get('?'), None);
}
