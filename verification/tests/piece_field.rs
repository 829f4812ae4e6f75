use tet_rs::field::{add_piece, line_score, piece_fits, Field};
use tet_rs::piece::{Cell, Color, Piece};

/// The square shape fills the middle four cells of its bitmap.
#[test]
fn square_bitmap() {
    let p = Piece::new(0);
    let mut filled = Vec::new();
    for y in 0..4 {
        for x in 0..4 {
            if p.filled_at(x, y) {
                filled.push((x, y));
            }
        }
    }
    assert_eq!(filled, vec![(1, 1), (2, 1), (1, 2), (2, 2)]);
}

/// The bar is vertical unrotated and horizontal after one quarter turn.
#[test]
fn bar_bitmap_and_quarter_turn() {
    let p = Piece::new(1);
    for y in 0..4 {
        for x in 0..4 {
            assert_eq!(p.filled_at(x, y), x == 2);
        }
    }
    let q = p.rotated_right();
    for y in 0..4 {
        for x in 0..4 {
            assert_eq!(q.filled_at(x, y), y == 1);
        }
    }
}

/// Four quarter turns reproduce the original bitmap, for every shape and
/// every starting rotation.
#[test]
fn rotation_is_a_group_of_order_four() {
    for shape in 0..7 {
        for rot in 0..4 {
            let mut p = Piece::new(shape);
            for _ in 0..rot {
                p = p.rotated_right();
            }
            let turned = p
                .rotated_right()
                .rotated_right()
                .rotated_right()
                .rotated_right();
            for y in 0..4 {
                for x in 0..4 {
                    assert_eq!(p.filled_at(x, y), turned.filled_at(x, y));
                }
            }
        }
    }
}

#[test]
fn rotate_left_undoes_rotate_right() {
    for shape in 0..7 {
        let p = Piece::new(shape);
        let q = p.rotated_right().rotated_left();
        assert_eq!(p, q);
    }
}

/// A piece spawns horizontally centered at the top, unrotated.
#[test]
fn spawn_position() {
    let p = Piece::new(3);
    assert_eq!(p.x, 3);
    assert_eq!(p.y, 0);
    assert_eq!(p.rot, 0);
    assert_eq!(p.shape_id, 3);
}

#[test]
fn piece_color_follows_catalog() {
    assert_eq!(Piece::new(0).color(), Color::Red);
    assert_eq!(Piece::new(6).color(), Color::White);
}

/// Out of bounds to the left is a rejection.
#[test]
fn fits_rejects_left_of_board() {
    let f = Field::new();
    let mut p = Piece::new(0);
    p.x = -3; // blocks at absolute x == -2 and -1
    assert!(!piece_fits(&p, &f));
}

/// Out of bounds to the right is a rejection.
#[test]
fn fits_rejects_right_of_board() {
    let f = Field::new();
    let mut p = Piece::new(0);
    p.x = 8; // blocks at absolute x == 9 and 10
    assert!(!piece_fits(&p, &f));
}

/// Below the floor is a rejection.
#[test]
fn fits_rejects_below_board() {
    let f = Field::new();
    let mut p = Piece::new(0);
    p.y = 18; // blocks at absolute y == 19 and 20
    assert!(!piece_fits(&p, &f));
}

/// Overlapping a frozen cell is a rejection.
#[test]
fn fits_rejects_overlap() {
    let mut f = Field::new();
    f.set_cell(4, 1, Cell::Full(Color::Blue));
    let p = Piece::new(0); // covers (4,1), (5,1), (4,2), (5,2)
    assert!(!piece_fits(&p, &f));
}

/// Cells above the visible board are allowed.
#[test]
fn fits_allows_above_board() {
    let f = Field::new();
    let mut p = Piece::new(0);
    p.y = -2; // blocks at absolute y == -1 and 0
    assert!(piece_fits(&p, &f));
}

/// All cells in bounds and empty: the piece fits.
#[test]
fn fits_accepts_empty_spot() {
    let f = Field::new();
    let p = Piece::new(0);
    assert!(piece_fits(&p, &f));
}

/// Stamping writes the piece's color at its covered cells and nothing else.
#[test]
fn add_piece_stamps_covered_cells() {
    let mut f = Field::new();
    let mut p = Piece::new(0);
    p.x = 3;
    p.y = 10;
    add_piece(&p, &mut f);
    assert_eq!(f.cell(4, 11), Cell::Full(Color::Red));
    assert_eq!(f.cell(5, 11), Cell::Full(Color::Red));
    assert_eq!(f.cell(4, 12), Cell::Full(Color::Red));
    assert_eq!(f.cell(5, 12), Cell::Full(Color::Red));
    assert_eq!(f.cell(3, 11), Cell::Empty);
    assert_eq!(f.cell(6, 12), Cell::Empty);
}

/// A piece partially above the board freezes without writing out of range.
#[test]
fn add_piece_skips_cells_above_board() {
    let mut f = Field::new();
    let mut p = Piece::new(0);
    p.y = -2; // rows -1 and 0
    add_piece(&p, &mut f);
    assert_eq!(f.cell(4, 0), Cell::Full(Color::Red));
    assert_eq!(f.cell(5, 0), Cell::Full(Color::Red));
    for x in 0..10 {
        for y in 1..20 {
            assert_eq!(f.cell(x, y), Cell::Empty);
        }
    }
}

/// Filled cells horizontally out of range are skipped outright: the stamp
/// never wraps into the neighbouring row.
#[test]
fn add_piece_never_wraps_rows() {
    let mut f = Field::new();
    let mut p = Piece::new(0);
    p.x = -2; // blocks at absolute x == -1 and 0
    p.y = 4;
    add_piece(&p, &mut f);
    assert_eq!(f.cell(0, 5), Cell::Full(Color::Red));
    assert_eq!(f.cell(0, 6), Cell::Full(Color::Red));
    // the out-of-range column writes nothing, in particular not the last
    // cell of the row above
    assert_eq!(f.cell(9, 4), Cell::Empty);
    assert_eq!(f.cell(9, 5), Cell::Empty);
    for x in 0..10 {
        for y in 0..20 {
            if !(x == 0 && (y == 5 || y == 6)) {
                assert_eq!(f.cell(x, y), Cell::Empty);
            }
        }
    }
}

/// The scoring table: 1, 2, 3, 4 rows give 100, 300, 500, 800 points, and
/// none give nothing.
#[test]
fn line_clear_scoring_table() {
    assert_eq!(line_score(0), 0);
    assert_eq!(line_score(1), 100);
    assert_eq!(line_score(2), 300);
    assert_eq!(line_score(3), 500);
    assert_eq!(line_score(4), 800);
}

#[test]
fn row_full_detects_complete_rows() {
    let mut f = Field::new();
    for x in 0..10 {
        f.set_cell(x, 19, Cell::Full(Color::Green));
    }
    assert!(f.row_full(19));
    assert!(!f.row_full(18));
    f.set_cell(4, 19, Cell::Empty);
    assert!(!f.row_full(19));
}

#[test]
fn cell_default_is_empty() {
    assert_eq!(Cell::default(), Cell::Empty);
}
