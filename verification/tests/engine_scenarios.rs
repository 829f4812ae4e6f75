use tet_rs::engine::{TetrisEngine, TickOutcome, BoardEffect, BoardEffectType};
use tet_rs::field::piece_fits;
use tet_rs::input::RawInput;
use tet_rs::piece::{Cell, Piece};

fn no_keys() -> RawInput {
    RawInput::default()
}

fn down_key() -> RawInput {
    RawInput { down: true, ..RawInput::default() }
}

/// An empty field: the square spawns centered at the top, keeps falling
/// while the down key forces falls, lands on the floor, freezes, and — with
/// no row completed — the active piece goes away with the score unchanged.
#[test]
fn square_falls_lands_and_freezes() {
    let mut e = TetrisEngine::new_with_shapes(0, 1, 2);
    // tick 1 spawns the square at the spawn position
    assert_eq!(e.tick_with_shape(down_key(), 3), TickOutcome::Continue);
    let p = e.active_piece.unwrap();
    assert_eq!((p.shape_id, p.x, p.y), (0, 3, 1));
    // the held down key forces a fall on every even tick
    for t in 2..=32u64 {
        assert_eq!(e.tick_with_shape(down_key(), 3), TickOutcome::Continue);
        if t % 2 == 0 {
            let p = e.active_piece.unwrap();
            assert_eq!(p.y as u64, t / 2 + 1);
        }
    }
    // the square sits on the floor now (blocks on rows 18 and 19)
    assert_eq!(e.active_piece.unwrap().y, 17);
    assert_eq!(e.tick_with_shape(down_key(), 3), TickOutcome::Continue);
    assert_eq!(e.active_piece.unwrap().y, 17);
    // the next forced fall cannot move it down: it freezes
    assert_eq!(e.tick_with_shape(down_key(), 3), TickOutcome::Continue);
    assert!(e.active_piece.is_none());
    assert_eq!(e.score, 0);
    assert!(e.effect.is_none());
    assert_eq!(e.field.cell(4, 19), Cell::Full(Piece::new(0).color()));
}

/// The bottom row is full except one column; a bar dropped down that column
/// completes it: one row clears for 100 points, and once the flash effect
/// expires every row above shifts down by one with the top row cleared.
#[test]
fn single_line_clear_awards_100_and_shifts_rows() {
    let mut e = TetrisEngine::new_with_shapes(1, 0, 0);
    for x in 0..9 {
        e.field.set_cell(x, 19, Cell::Full(tet_rs::piece::Color::Green));
    }
    // a vertical bar in column 9, three rows above its resting place
    e.active_piece = Some(Piece { shape_id: 1, rot: 0, x: 7, y: 15 });
    e.fall_counter = 1;
    assert_eq!(e.tick_with_shape(no_keys(), 0), TickOutcome::Continue);
    assert_eq!(e.active_piece.unwrap().y, 16);
    e.fall_counter = 1;
    assert_eq!(e.tick_with_shape(no_keys(), 0), TickOutcome::Continue);
    // frozen: column 9 filled rows 16..20, bottom row complete
    assert!(e.active_piece.is_none());
    assert_eq!(e.score, 100);
    match &e.effect {
        Some(BoardEffect { ty: BoardEffectType::LinesCleared { lines }, life }) => {
            assert_eq!(lines, &vec![19i8]);
            assert_eq!(*life, 20);
        }
        _ => panic!("expected a line-clear effect"),
    }
    // during the flash the rows are still in place
    assert_eq!(e.field.cell(0, 19), Cell::Full(tet_rs::piece::Color::Green));
    for _ in 0..19 {
        assert_eq!(e.tick_with_shape(no_keys(), 0), TickOutcome::Continue);
        assert!(e.effect.is_some());
    }
    assert_eq!(e.tick_with_shape(no_keys(), 0), TickOutcome::Continue);
    assert!(e.effect.is_none());
    // rows shifted: the cleared row took the row above (bar cells only)
    assert_eq!(e.field.cell(0, 19), Cell::Empty);
    assert_eq!(e.field.cell(9, 19), Cell::Full(Piece::new(1).color()));
    assert_eq!(e.field.cell(9, 18), Cell::Full(Piece::new(1).color()));
    assert_eq!(e.field.cell(9, 17), Cell::Full(Piece::new(1).color()));
    assert_eq!(e.field.cell(9, 16), Cell::Empty);
    for x in 0..10 {
        assert_eq!(e.field.cell(x, 0), Cell::Empty);
    }
}

/// Four rows at once: a bar completes all four for 800 points.
#[test]
fn quadruple_line_clear_awards_800() {
    let mut e = TetrisEngine::new_with_shapes(1, 0, 0);
    for y in 16..20 {
        for x in 0..9 {
            e.field.set_cell(x, y, Cell::Full(tet_rs::piece::Color::Blue));
        }
    }
    e.active_piece = Some(Piece { shape_id: 1, rot: 0, x: 7, y: 16 });
    e.fall_counter = 1;
    assert_eq!(e.tick_with_shape(no_keys(), 0), TickOutcome::Continue);
    assert!(e.active_piece.is_none());
    assert_eq!(e.score, 800);
    match &e.effect {
        Some(BoardEffect { ty: BoardEffectType::LinesCleared { lines }, .. }) => {
            assert_eq!(lines, &vec![16i8, 17, 18, 19]);
        }
        _ => panic!("expected a line-clear effect"),
    }
    for _ in 0..20 {
        e.tick_with_shape(no_keys(), 0);
    }
    assert!(e.effect.is_none());
    for y in 0..20 {
        for x in 0..10 {
            assert_eq!(e.field.cell(x, y), Cell::Empty);
        }
    }
}

/// Two completed rows with an untouched row between them: 300 points, and
/// the removal shifts each stack of rows independently, top-down per
/// collected row.
#[test]
fn split_double_line_clear() {
    let mut e = TetrisEngine::new_with_shapes(1, 0, 0);
    let green = tet_rs::piece::Color::Green;
    for x in 0..9 {
        e.field.set_cell(x, 17, Cell::Full(green));
        e.field.set_cell(x, 19, Cell::Full(green));
    }
    for x in 0..8 {
        e.field.set_cell(x, 18, Cell::Full(green));
    }
    // column 8 of row 18 stays empty, so that row never completes
    e.active_piece = Some(Piece { shape_id: 1, rot: 0, x: 7, y: 16 });
    e.fall_counter = 1;
    assert_eq!(e.tick_with_shape(no_keys(), 0), TickOutcome::Continue);
    assert_eq!(e.score, 300);
    match &e.effect {
        Some(BoardEffect { ty: BoardEffectType::LinesCleared { lines }, .. }) => {
            assert_eq!(lines, &vec![17i8, 19]);
        }
        _ => panic!("expected a line-clear effect"),
    }
    for _ in 0..20 {
        e.tick_with_shape(no_keys(), 0);
    }
    assert!(e.effect.is_none());
    // the incomplete row slid to the bottom; the bar remnants sit above it
    for x in 0..8 {
        assert_eq!(e.field.cell(x, 19), Cell::Full(green));
    }
    assert_eq!(e.field.cell(8, 19), Cell::Empty);
    assert_eq!(e.field.cell(9, 19), Cell::Full(Piece::new(1).color()));
    assert_eq!(e.field.cell(9, 18), Cell::Full(Piece::new(1).color()));
    for x in 0..9 {
        assert_eq!(e.field.cell(x, 18), Cell::Empty);
    }
    for y in 0..18 {
        for x in 0..10 {
            assert_eq!(e.field.cell(x, y), Cell::Empty);
        }
    }
}

/// A blocked spawn raises the game-over effect; when its three seconds of
/// ticks run out the tick reports the game as over.
#[test]
fn blocked_spawn_raises_game_over() {
    let mut e = TetrisEngine::new_with_shapes(0, 1, 2);
    e.field.set_cell(4, 1, Cell::Full(tet_rs::piece::Color::Red));
    assert_eq!(e.tick_with_shape(no_keys(), 3), TickOutcome::Continue);
    assert!(e.active_piece.is_none());
    match &e.effect {
        Some(BoardEffect { ty: BoardEffectType::GameOver, life }) => assert_eq!(*life, 60),
        _ => panic!("expected a game-over effect"),
    }
    for _ in 0..59 {
        assert_eq!(e.tick_with_shape(no_keys(), 3), TickOutcome::Continue);
    }
    assert_eq!(e.tick_with_shape(no_keys(), 3), TickOutcome::GameOver);
    assert!(e.effect.is_none());
}

/// Escape pops the game screen at any point.
#[test]
fn escape_pops() {
    let mut e = TetrisEngine::new_with_shapes(0, 1, 2);
    let raw = RawInput { escape: true, ..RawInput::default() };
    assert_eq!(e.tick_with_shape(raw, 3), TickOutcome::Pop);
}

/// Holding a rotate key gives exactly one rotation attempt; a fresh press
/// after a release rotates again.
#[test]
fn rotation_is_latched_per_press() {
    let mut e = TetrisEngine::new_with_shapes(1, 0, 0);
    let rot = RawInput { rot_right: true, ..RawInput::default() };
    e.tick_with_shape(rot, 3);
    assert_eq!(e.active_piece.unwrap().rot, 1);
    e.tick_with_shape(rot, 3);
    assert_eq!(e.active_piece.unwrap().rot, 1);
    e.tick_with_shape(no_keys(), 3);
    e.tick_with_shape(rot, 3);
    assert_eq!(e.active_piece.unwrap().rot, 2);
}

/// A rotation that does not fit is rejected outright: no wall kicks.
#[test]
fn rotation_rejected_when_blocked() {
    let mut e = TetrisEngine::new_with_shapes(1, 0, 0);
    e.tick_with_shape(no_keys(), 3);
    // move the bar against the left wall: rotating it there cannot fit
    let mut p = e.active_piece.unwrap();
    p.x = -2; // vertical bar occupies absolute column 0
    assert!(piece_fits(&p, &e.field));
    e.active_piece = Some(p);
    let rot = RawInput { rot_right: true, ..RawInput::default() };
    e.tick_with_shape(rot, 3);
    let p2 = e.active_piece.unwrap();
    assert_eq!(p2.rot, 0);
    assert_eq!(p2.x, -2);
}

/// Movement commits only where the piece fits; right takes priority.
#[test]
fn movement_respects_walls() {
    let mut e = TetrisEngine::new_with_shapes(0, 1, 2);
    e.tick_with_shape(no_keys(), 3);
    assert_eq!(e.active_piece.unwrap().x, 3);
    let right = RawInput { right: true, ..RawInput::default() };
    e.tick_with_shape(right, 3);
    assert_eq!(e.active_piece.unwrap().x, 4);
    // against the right wall nothing moves
    let mut p = e.active_piece.unwrap();
    p.x = 7; // square blocks at absolute columns 8 and 9
    e.active_piece = Some(p);
    e.tick_with_shape(no_keys(), 3);
    e.tick_with_shape(right, 3);
    assert_eq!(e.active_piece.unwrap().x, 7);
}

/// The acceleration clock shortens the fall interval by one every ten
/// ticks, which the displayed level counts.
#[test]
fn level_advances_with_acceleration() {
    let mut e = TetrisEngine::new_with_shapes(0, 1, 2);
    assert_eq!(e.level(), 1);
    for _ in 0..10 {
        e.tick_with_shape(no_keys(), 3);
    }
    assert_eq!(e.fall_ticks, 19);
    assert_eq!(e.level(), 2);
}

/// A fresh engine from the random source: a full queue of valid shapes and
/// a clean slate.
#[test]
fn default_engine_is_fresh() {
    let e = TetrisEngine::default();
    assert_eq!(e.next_pieces.len(), 3);
    for p in &e.next_pieces {
        assert!(p.shape_id < 7);
        assert_eq!((p.x, p.y, p.rot), (3, 0, 0));
    }
    assert_eq!(e.score, 0);
    assert!(e.active_piece.is_none());
    assert!(e.effect.is_none());
    assert_eq!(e.fall_ticks, 20);
}

/// The randomly sampled queue refill always holds a valid shape.
#[test]
fn random_tick_spawns_valid_pieces() {
    let mut e = TetrisEngine::default();
    assert_eq!(e.tick(RawInput::default()), TickOutcome::Continue);
    assert!(e.active_piece.unwrap().shape_id < 7);
    assert_eq!(e.next_pieces.len(), 3);
    for p in &e.next_pieces {
        assert!(p.shape_id < 7);
    }
}
