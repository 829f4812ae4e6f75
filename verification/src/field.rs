//! The playing field: a fixed 10x20 grid of frozen cells, row-major
//! (index = x + y*10), with fit-testing, piece-stamping, full-row detection
//! and row removal, and the line-clear scoring table.

use vstd::prelude::*;
use crate::piece::{Cell, Piece, spec_color_of, FIELD_WIDTH, FIELD_HEIGHT};

verus! {

/// Number of cells of the field array.
pub const FIELD_CELLS: usize = FIELD_WIDTH * FIELD_HEIGHT;

/// The grid of frozen cells. The array length is fixed at
/// `FIELD_WIDTH * FIELD_HEIGHT` for the whole life of a field.
#[derive(Debug)]
pub struct Field {
    cells: Vec<Cell>,
}

impl View for Field {
    type V = Seq<Cell>;

    closed spec fn view(&self) -> Seq<Cell> {
        self.cells@
    }
}

/// The cell the field holds at (x, y).
pub open spec fn spec_cell_at(f: Seq<Cell>, x: int, y: int) -> Cell {
    f[x + y * 10]
}

/// A row is deletable exactly when every one of its cells is frozen.
pub open spec fn spec_row_full(f: Seq<Cell>, y: int) -> bool {
    forall|x: int| 0 <= x < 10 ==> spec_cell_at(f, x, y) != Cell::Empty
}

impl Field {
    pub open spec fn wf(self) -> bool {
        self@.len() == FIELD_CELLS
    }

    /// An empty field.
    pub fn new() -> (r: Field)
        ensures
            r.wf(),
            forall|i: int| 0 <= i < FIELD_CELLS ==> r@[i] == Cell::Empty,
    {
        let mut cells: Vec<Cell> = Vec::new();
        let mut i: usize = 0;
        while i < FIELD_CELLS
            invariant
                i <= FIELD_CELLS,
                cells@.len() == i,
                forall|j: int| 0 <= j < i ==> cells@[j] == Cell::Empty,
            decreases FIELD_CELLS - i,
        {
            cells.push(Cell::Empty);
            i = i + 1;
        }
        Field { cells }
    }

    /// Reads one cell.
    pub fn cell(&self, x: usize, y: usize) -> (r: Cell)
        requires
            self.wf(),
            x < FIELD_WIDTH,
            y < FIELD_HEIGHT,
        ensures
            r == spec_cell_at(self@, x as int, y as int),
    {
        self.cells[x + y * FIELD_WIDTH]
    }

    /// Writes one cell.
    pub fn set_cell(&mut self, x: usize, y: usize, c: Cell)
        requires
            old(self).wf(),
            x < FIELD_WIDTH,
            y < FIELD_HEIGHT,
        ensures
            final(self).wf(),
            final(self)@ == old(self)@.update(x + y * 10, c),
    {
        self.cells[x + y * FIELD_WIDTH] = c;
    }

    /// Whether every cell of row `y` is frozen.
    pub fn row_full(&self, y: usize) -> (r: bool)
        requires
            self.wf(),
            y < FIELD_HEIGHT,
        ensures
            r == spec_row_full(self@, y as int),
    {
        let mut x: usize = 0;
        while x < FIELD_WIDTH
            invariant
                self.wf(),
                y < FIELD_HEIGHT,
                x <= FIELD_WIDTH,
                forall|k: int| 0 <= k < x ==> spec_cell_at(self@, k, y as int) != Cell::Empty,
            decreases FIELD_WIDTH - x,
        {
            if self.cells[x + y * FIELD_WIDTH] == Cell::Empty {
                assert(spec_cell_at(self@, x as int, y as int) == Cell::Empty);
                return false;
            }
            x = x + 1;
        }
        true
    }
}

/// Whether the filled local cell (lx, ly) of the piece lands on an
/// acceptable field position: horizontally in bounds, not below the floor,
/// and — when on the visible board — on an empty cell. Cells above the
/// visible board (absolute y < 0) are acceptable.
pub open spec fn spec_cell_ok(p: Piece, f: Seq<Cell>, lx: int, ly: int) -> bool {
    let rx = p.x + lx;
    let ry = p.y + ly;
    &&& 0 <= rx < 10
    &&& ry < 20
    &&& (ry >= 0 ==> spec_cell_at(f, rx, ry) == Cell::Empty)
}

/// A piece fits exactly when every filled cell of its rotated bitmap lands
/// on an acceptable position.
pub open spec fn spec_piece_fits(p: Piece, f: Seq<Cell>) -> bool {
    forall|lx: int, ly: int|
        0 <= lx < 4 && 0 <= ly < 4 && #[trigger] p.spec_filled_at(lx, ly) ==> spec_cell_ok(
            p,
            f,
            lx,
            ly,
        )
}

/// Tests whether the piece can be placed: rejected as soon as a filled cell
/// is horizontally out of bounds, below the floor, or over a frozen cell;
/// cells above the visible board are allowed.
pub fn piece_fits(piece: &Piece, field: &Field) -> (r: bool)
    requires
        piece.wf(),
        field.wf(),
    ensures
        r == spec_piece_fits(*piece, field@),
{
    let mut ly: usize = 0;
    while ly < 4
        invariant
            piece.wf(),
            field.wf(),
            ly <= 4,
            forall|ax: int, ay: int|
                0 <= ax < 4 && 0 <= ay < ly && #[trigger] piece.spec_filled_at(ax, ay)
                    ==> spec_cell_ok(*piece, field@, ax, ay),
        decreases 4 - ly,
    {
        let mut lx: usize = 0;
        while lx < 4
            invariant
                piece.wf(),
                field.wf(),
                ly < 4,
                lx <= 4,
                forall|ax: int, ay: int|
                    0 <= ax < 4 && 0 <= ay < ly && #[trigger] piece.spec_filled_at(ax, ay)
                        ==> spec_cell_ok(*piece, field@, ax, ay),
                forall|ax: int|
                    0 <= ax < lx && #[trigger] piece.spec_filled_at(ax, ly as int)
                        ==> spec_cell_ok(*piece, field@, ax, ly as int),
            decreases 4 - lx,
        {
            if piece.filled_at(lx, ly) {
                let rx = piece.x as i32 + lx as i32;
                let ry = piece.y as i32 + ly as i32;
                if rx < 0 || rx >= FIELD_WIDTH as i32 || ry >= FIELD_HEIGHT as i32 {
                    return false;
                }
                if ry >= 0 {
                    let off = (rx + ry * FIELD_WIDTH as i32) as usize;
                    if self_cell(field, off) != Cell::Empty {
                        return false;
                    }
                }
            }
            lx = lx + 1;
        }
        ly = ly + 1;
    }
    true
}

/// Reads the cell at a raw row-major offset.
fn self_cell(field: &Field, off: usize) -> (r: Cell)
    requires
        field.wf(),
        off < FIELD_CELLS,
    ensures
        r == field@[off as int],
{
    field.cells[off]
}

/// Whether stamping the piece writes to the row-major offset `i`: some
/// filled local cell lands on the board there. Filled cells outside
/// [0, 10) x [0, 20) — a piece partially above the visible board, say — are
/// skipped, so no stamp ever lands outside the board or wraps a row.
pub open spec fn spec_covers(p: Piece, i: int) -> bool {
    exists|lx: int, ly: int|
        0 <= lx < 4 && 0 <= ly < 4 && #[trigger] p.spec_filled_at(lx, ly) && 0 <= p.x + lx < 10 && 0
            <= p.y + ly < 20 && p.x + lx + (p.y + ly) * 10 == i
}

/// The field after the piece is stamped: every covered cell becomes frozen
/// with the piece's color, everything else is unchanged.
pub open spec fn spec_add_piece(f: Seq<Cell>, p: Piece) -> Seq<Cell> {
    Seq::new(
        f.len(),
        |i: int|
            if spec_covers(p, i) {
                Cell::Full(spec_color_of(p.shape_id))
            } else {
                f[i]
            },
    )
}

/// Like `spec_covers`, restricted to the filled local cells that come before
/// cell `k` in row-major bitmap order (local index = ly*4 + lx).
spec fn spec_covers_before(p: Piece, i: int, k: int) -> bool {
    exists|j: int|
        0 <= j < k && #[trigger] p.spec_filled_at(j % 4, j / 4) && 0 <= p.x + j % 4 < 10 && 0 <= p.y
            + j / 4 < 20 && p.x + j % 4 + (p.y + j / 4) * 10 == i
}

proof fn lemma_covers_forms(p: Piece, i: int)
    ensures
        spec_covers_before(p, i, 16) == spec_covers(p, i),
{
    if spec_covers_before(p, i, 16) {
        let j = choose|j: int|
            0 <= j < 16 && #[trigger] p.spec_filled_at(j % 4, j / 4) && 0 <= p.x + j % 4 < 10 && 0
                <= p.y + j / 4 < 20 && p.x + j % 4 + (p.y + j / 4) * 10 == i;
        assert(0 <= j % 4 < 4 && 0 <= j / 4 < 4);
        assert(spec_covers(p, i));
    }
    if spec_covers(p, i) {
        let (lx, ly) = choose|lx: int, ly: int|
            0 <= lx < 4 && 0 <= ly < 4 && #[trigger] p.spec_filled_at(lx, ly) && 0 <= p.x + lx < 10
                && 0 <= p.y + ly < 20 && p.x + lx + (p.y + ly) * 10 == i;
        let j = ly * 4 + lx;
        assert(j % 4 == lx && j / 4 == ly) by (nonlinear_arith)
            requires
                0 <= lx < 4 && 0 <= ly < 4 && j == ly * 4 + lx,
        ;
        assert(p.spec_filled_at(j % 4, j / 4));
        assert(spec_covers_before(p, i, 16));
    }
}

/// Stamps the piece into the field: every filled local cell that lands on
/// the board is frozen with the piece's color; filled cells out of range —
/// a piece partially above the visible board, say — are silently skipped.
pub fn add_piece(piece: &Piece, field: &mut Field)
    requires
        piece.wf(),
        old(field).wf(),
    ensures
        final(field).wf(),
        final(field)@ == spec_add_piece(old(field)@, *piece),
{
    let color = piece.color();
    let mut k: usize = 0;
    while k < 16
        invariant
            piece.wf(),
            field.wf(),
            color == spec_color_of(piece.shape_id),
            k <= 16,
            field@.len() == old(field)@.len(),
            forall|i: int|
                0 <= i < field@.len() ==> field@[i] == (if spec_covers_before(*piece, i, k as int) {
                    Cell::Full(spec_color_of(piece.shape_id))
                } else {
                    old(field)@[i]
                }),
        decreases 16 - k,
    {
        let lx = k % 4;
        let ly = k / 4;
        if piece.filled_at(lx, ly) {
            let rx = piece.x as i32 + lx as i32;
            let ry = piece.y as i32 + ly as i32;
            if 0 <= rx && rx < FIELD_WIDTH as i32 && 0 <= ry && ry < FIELD_HEIGHT as i32 {
                field.cells[(rx + ry * FIELD_WIDTH as i32) as usize] = Cell::Full(color);
            }
        }
        proof {
            assert forall|i: int| 0 <= i < field@.len() implies field@[i] == (
            if spec_covers_before(*piece, i, k + 1) {
                Cell::Full(spec_color_of(piece.shape_id))
            } else {
                old(field)@[i]
            }) by {
                if spec_covers_before(*piece, i, k + 1) && !spec_covers_before(*piece, i, k as int) {
                    let j = choose|j: int|
                        0 <= j < k + 1 && #[trigger] piece.spec_filled_at(j % 4, j / 4) && 0
                            <= piece.x + j % 4 < 10 && 0 <= piece.y + j / 4 < 20 && piece.x + j % 4
                            + (piece.y + j / 4) * 10 == i;
                    assert(j == k);
                }
            }
        }
        k = k + 1;
    }
    proof {
        assert forall|i: int| 0 <= i < field@.len() implies field@[i] == spec_add_piece(
            old(field)@,
            *piece,
        )[i] by {
            lemma_covers_forms(*piece, i);
        }
        assert(field@ =~= spec_add_piece(old(field)@, *piece));
    }
}

/// A piece that fits stands close to the board: some block lies in the
/// horizontal bounds and above the floor, which pins the corner down.
pub proof fn lemma_fits_bounds(p: Piece, f: Seq<Cell>)
    requires
        p.wf(),
        spec_piece_fits(p, f),
    ensures
        -3 <= p.x <= 9,
        p.y <= 19,
{
    let w = crate::piece::lemma_shape_nonempty(p);
    assert(spec_cell_ok(p, f, w.0, w.1));
}

/// The rows of the scan window [from, from + 4) that are full, in increasing
/// order. Rows above the board (y < 0) hold nothing and are skipped; rows at
/// or below the floor (y >= 20) are never scanned.
pub open spec fn spec_scan_rows(f: Seq<Cell>, from: int, end: int) -> Seq<i8>
    decreases end - from,
{
    if from >= end {
        Seq::empty()
    } else {
        let rest = spec_scan_rows(f, from + 1, end);
        if 0 <= from < 20 && spec_row_full(f, from) {
            seq![from as i8] + rest
        } else {
            rest
        }
    }
}

/// The rows a freshly frozen piece can have completed: the full rows among
/// the four rows of the piece's bitmap window.
pub open spec fn spec_deletable_rows(f: Seq<Cell>, py: int) -> Seq<i8> {
    spec_scan_rows(f, py, py + 4)
}

/// Every scanned row is on the board, inside the window, and full; the
/// result is strictly increasing and no longer than the window.
pub proof fn lemma_scan_rows_props(f: Seq<Cell>, from: int, end: int)
    requires
        -128 <= from,
        end <= 127,
    ensures
        spec_scan_rows(f, from, end).len() <= (if end >= from {
            end - from
        } else {
            0
        }),
        forall|j: int|
            0 <= j < spec_scan_rows(f, from, end).len() ==> {
                let y = #[trigger] spec_scan_rows(f, from, end)[j] as int;
                from <= y < end && 0 <= y < 20 && spec_row_full(f, y)
            },
        forall|j: int, k: int|
            0 <= j < k < spec_scan_rows(f, from, end).len() ==> spec_scan_rows(f, from, end)[j]
                < spec_scan_rows(f, from, end)[k],
    decreases end - from,
{
    if from < end {
        lemma_scan_rows_props(f, from + 1, end);
    }
}

/// A row is in the scan exactly when it lies in the window, on the board,
/// and is full.
pub proof fn lemma_scan_rows_complete(f: Seq<Cell>, from: int, end: int, y: i8)
    requires
        -128 <= from,
        end <= 127,
    ensures
        spec_scan_rows(f, from, end).contains(y) == (from <= y < end && 0 <= y < 20
            && spec_row_full(f, y as int)),
    decreases end - from,
{
    if from < end {
        lemma_scan_rows_complete(f, from + 1, end, y);
        let s = spec_scan_rows(f, from, end);
        let rest = spec_scan_rows(f, from + 1, end);
        if 0 <= from < 20 && spec_row_full(f, from) {
            assert(s == seq![from as i8] + rest);
            if from <= y < end && 0 <= y < 20 && spec_row_full(f, y as int) {
                if y == from {
                    assert(s[0] == y);
                } else {
                    let j = choose|j: int| 0 <= j < rest.len() && rest[j] == y;
                    assert(s[j + 1] == y);
                }
            }
            if s.contains(y) {
                let j = choose|j: int| 0 <= j < s.len() && s[j] == y;
                if j > 0 {
                    assert(rest[j - 1] == y);
                }
            }
        } else {
            assert(s == rest);
            if rest.contains(y) {
                let j = choose|j: int| 0 <= j < rest.len() && rest[j] == y;
                assert(s[j] == y);
            }
            if s.contains(y) {
                let j = choose|j: int| 0 <= j < s.len() && s[j] == y;
                assert(rest[j] == y);
            }
        }
    }
}

/// Scans the four rows of the piece window, exactly as the spec lists them.
pub fn deletable_rows(field: &Field, py: i8) -> (r: Vec<i8>)
    requires
        field.wf(),
        py < 20,
    ensures
        r@ == spec_deletable_rows(field@, py as int),
{
    let mut r: Vec<i8> = Vec::new();
    let mut k: usize = 4;
    // walk the window backwards so each step prepends in the spec
    while k > 0
        invariant
            field.wf(),
            py < 20,
            k <= 4,
            r@ == spec_scan_rows(field@, py + k, py + 4),
        decreases k,
    {
        k = k - 1;
        let y: i32 = py as i32 + k as i32;
        if 0 <= y && y < FIELD_HEIGHT as i32 {
            if field.row_full(y as usize) {
                let mut nr: Vec<i8> = Vec::new();
                nr.push(y as i8);
                nr.append(&mut r);
                r = nr;
                assert(r@ =~= spec_scan_rows(field@, py + k, py + 4));
            }
        }
    }
    r
}

/// The field after one full row `ly` is removed: every row above the floor
/// of the clear shifts down one, the top row becomes empty, and the rows
/// below `ly` are unchanged.
pub open spec fn spec_remove_line(f: Seq<Cell>, ly: int) -> Seq<Cell> {
    Seq::new(
        f.len(),
        |i: int|
            if i / 10 > ly {
                f[i]
            } else if i / 10 == 0 {
                Cell::Empty
            } else {
                f[i - 10]
            },
    )
}

/// Law: removing one row, in coordinates — every row above the cleared row
/// is untouched, every row at or below it (except the top) takes the
/// contents of the row one above, and the top row becomes empty.
pub proof fn lemma_remove_line_cells(f: Seq<Cell>, ly: int, x: int, y: int)
    requires
        f.len() == 200,
        0 <= ly < 20,
        0 <= x < 10,
        0 <= y < 20,
    ensures
        y > ly ==> spec_cell_at(spec_remove_line(f, ly), x, y) == spec_cell_at(f, x, y),
        1 <= y <= ly ==> spec_cell_at(spec_remove_line(f, ly), x, y) == spec_cell_at(f, x, y - 1),
        y == 0 ==> spec_cell_at(spec_remove_line(f, ly), x, y) == Cell::Empty,
{
    let i = x + y * 10;
    assert(i / 10 == y && i % 10 == x) by (nonlinear_arith)
        requires
            0 <= x < 10 && 0 <= y < 20 && i == x + y * 10,
    ;
}

/// The field after the collected rows are removed, in collection order.
pub open spec fn spec_remove_lines(f: Seq<Cell>, lines: Seq<i8>) -> Seq<Cell>
    decreases lines.len(),
{
    if lines.len() == 0 {
        f
    } else {
        spec_remove_lines(spec_remove_line(f, lines[0] as int), lines.drop_first())
    }
}

/// Removes one full row: rows 1..=ly each take the contents of the row
/// above, row 0 is cleared, rows below stay.
fn remove_line(field: &mut Field, ly: usize)
    requires
        old(field).wf(),
        ly < FIELD_HEIGHT,
    ensures
        final(field).wf(),
        final(field)@ == spec_remove_line(old(field)@, ly as int),
{
    let mut y: usize = ly + 1;
    while y > 0
        invariant
            field.wf(),
            old(field)@.len() == 200,
            ly < FIELD_HEIGHT,
            y <= ly + 1,
            forall|i: int|
                0 <= i < 200 ==> field@[i] == (if y <= i / 10 && i / 10 <= ly {
                    spec_remove_line(old(field)@, ly as int)[i]
                } else {
                    old(field)@[i]
                }),
        decreases y,
    {
        y = y - 1;
        let mut x: usize = 0;
        while x < FIELD_WIDTH
            invariant
                field.wf(),
                old(field)@.len() == 200,
                ly < FIELD_HEIGHT,
                y <= ly,
                x <= FIELD_WIDTH,
                forall|i: int|
                    0 <= i < 200 ==> field@[i] == (if (y + 1 <= i / 10 && i / 10 <= ly) || (i / 10
                        == y && i % 10 < x) {
                        spec_remove_line(old(field)@, ly as int)[i]
                    } else {
                        old(field)@[i]
                    }),
            decreases FIELD_WIDTH - x,
        {
            let ghost pre = field@;
            let c = if y == 0 {
                Cell::Empty
            } else {
                self_cell(field, x + (y - 1) * FIELD_WIDTH)
            };
            field.cells[x + y * FIELD_WIDTH] = c;
            proof {
                let w = x + y * 10;
                assert(w / 10 == y as int && w % 10 == x) by (nonlinear_arith)
                    requires
                        0 <= x < 10 && 0 <= y < 20 && w == x + y * 10,
                ;
                assert(field@ == pre.update(w, c));
                if y >= 1 {
                    // the row above is still untouched, so the read saw the
                    // original contents
                    assert(pre[w - 10] == old(field)@[w - 10]);
                    assert(c == old(field)@[w - 10]);
                }
                assert forall|i: int|
                    0 <= i < 200 implies field@[i] == (if (y + 1 <= i / 10 && i / 10 <= ly) || (i
                    / 10 == y as int && i % 10 < x + 1) {
                    spec_remove_line(old(field)@, ly as int)[i]
                } else {
                    old(field)@[i]
                }) by {
                    assert(i == (i / 10) * 10 + (i % 10) && 0 <= i % 10 < 10 && 0 <= i / 10 < 20)
                        by (nonlinear_arith)
                        requires
                            0 <= i < 200,
                    ;
                    if i == w {
                        assert(field@[i] == c);
                    } else {
                        assert(field@[i] == pre[i]);
                    }
                }
            }
            x = x + 1;
        }
    }
    proof {
        assert(field@ =~= spec_remove_line(old(field)@, ly as int));
    }
}

/// Removes the collected rows, in collection order: for each one, all rows
/// above shift down by one and the top row is cleared.
pub fn remove_lines(field: &mut Field, lines: &Vec<i8>)
    requires
        old(field).wf(),
        forall|j: int| 0 <= j < lines@.len() ==> 0 <= #[trigger] lines@[j] < 20,
    ensures
        final(field).wf(),
        final(field)@ == spec_remove_lines(old(field)@, lines@),
{
    proof {
        assert(lines@.skip(0) =~= lines@);
    }
    let mut k: usize = 0;
    while k < lines.len()
        invariant
            field.wf(),
            old(field)@.len() == 200,
            k <= lines@.len(),
            forall|j: int| 0 <= j < lines@.len() ==> 0 <= #[trigger] lines@[j] < 20,
            spec_remove_lines(old(field)@, lines@) == spec_remove_lines(field@, lines@.skip(k as int)),
        decreases lines@.len() - k,
    {
        let ghost pre = field@;
        remove_line(field, lines[k] as usize);
        proof {
            assert(lines@.skip(k as int).drop_first() =~= lines@.skip(k + 1));
            assert(lines@.skip(k as int)[0] == lines@[k as int]);
        }
        k = k + 1;
    }
    proof {
        assert(lines@.skip(lines@.len() as int) =~= Seq::<i8>::empty());
    }
}

/// The score a simultaneous clear is worth: 100, 300, 500 or 800 points for
/// 1, 2, 3 or 4 rows, and nothing for none. No other count is reachable.
pub open spec fn spec_line_score(n: int) -> int {
    if n == 1 {
        100
    } else if n == 2 {
        300
    } else if n == 3 {
        500
    } else if n == 4 {
        800
    } else {
        0
    }
}

pub fn line_score(n: usize) -> (r: u64)
    requires
        n <= 4,
    ensures
        r == spec_line_score(n as int),
{
    match n {
        1 => 100,
        2 => 300,
        3 => 500,
        4 => 800,
        _ => 0,
    }
}

} // verus!
