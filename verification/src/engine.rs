//! The game engine: one field, one active piece, a three-piece lookahead
//! queue, fall timing with progressive acceleration, and the deferred board
//! effect that suspends normal play while a clear flashes or the game ends.
//! The engine advances by fixed ticks; the caller owns the wall-clock
//! accumulator and feeds one raw input frame per tick.

use vstd::prelude::*;
use rand::Rng;
use crate::input::{
    KeyState, PlayerInput, RawInput, spec_debounce_all, spec_was_pressed, debounce_all,
    was_pressed,
};
use crate::piece::{Piece, Cell, SHAPE_COUNT};
use crate::field::{
    Field, spec_piece_fits, piece_fits, spec_add_piece, add_piece, spec_deletable_rows,
    deletable_rows, spec_remove_line, spec_remove_lines, remove_lines, spec_line_score, line_score,
    spec_cell_at, spec_row_full, lemma_scan_rows_props, lemma_scan_rows_complete,
    lemma_remove_line_cells, lemma_fits_bounds,
};

verus! {

/// Ticks between forced falls when a game starts.
pub const INITIAL_FALL_TICKS: u32 = 20;

/// Ticks between speed-ups.
pub const INITIAL_ACCEL_TICKS: u32 = 10;

/// Pieces visible in the lookahead queue.
pub const QUEUE_LEN: usize = 3;

/// Logic ticks per second of wall-clock time (one tick per 0.05 s).
pub const TICKS_PER_SECOND: u64 = 20;

/// Lifetime of the game-over banner: three seconds of ticks.
pub const GAME_OVER_EFFECT_TICKS: u64 = 3 * TICKS_PER_SECOND;

/// Lifetime of the line-clear flash: one second of ticks.
pub const LINE_CLEAR_EFFECT_TICKS: u64 = TICKS_PER_SECOND;

/// What a deferred board effect will do when its lifetime runs out.
#[derive(Debug)]
pub enum BoardEffectType {
    /// The collected full rows, waiting to be removed.
    LinesCleared { lines: Vec<i8> },
    /// The spawn that failed; the game ends when the banner expires.
    GameOver,
}

/// A deferred, timed board mutation. While one is attached to the engine,
/// normal piece and fall logic is suspended.
#[derive(Debug)]
pub struct BoardEffect {
    pub ty: BoardEffectType,
    pub life: u64,
}

#[verifier::ext_equal]
pub enum EffectTypeView {
    LinesCleared { lines: Seq<i8> },
    GameOver,
}

#[verifier::ext_equal]
pub struct EffectView {
    pub ty: EffectTypeView,
    pub life: u64,
}

impl View for BoardEffectType {
    type V = EffectTypeView;

    open spec fn view(&self) -> EffectTypeView {
        match self {
            BoardEffectType::LinesCleared { lines } => EffectTypeView::LinesCleared {
                lines: lines@,
            },
            BoardEffectType::GameOver => EffectTypeView::GameOver,
        }
    }
}

impl View for BoardEffect {
    type V = EffectView;

    open spec fn view(&self) -> EffectView {
        EffectView { ty: self.ty@, life: self.life }
    }
}

/// How a tick left the screen that hosts the engine.
#[derive(Clone, Copy, Debug, PartialEq, Eq, Structural)]
pub enum TickOutcome {
    /// Play goes on.
    Continue,
    /// The player asked to leave the game screen.
    Pop,
    /// The game-over banner expired; the score is final.
    GameOver,
}

/// The engine state as the contracts speak of it.
#[verifier::ext_equal]
pub struct EngineView {
    pub field: Seq<Cell>,
    pub active_piece: Option<Piece>,
    pub fall_ticks: u32,
    pub fall_counter: u32,
    pub fall_accel_ticks: u32,
    pub fall_accel_counter: u32,
    pub next_pieces: Seq<Piece>,
    pub rotated: bool,
    pub last_input: PlayerInput,
    pub ticker: u64,
    pub score: u64,
    pub effect: Option<EffectView>,
}

/// The engine. All timing is in logic ticks; the caller drains ticks from
/// its wall-clock accumulator.
#[derive(Debug)]
pub struct TetrisEngine {
    /// The frozen cells.
    pub field: Field,
    /// The piece the player is steering, absent between a freeze and the
    /// next spawn.
    pub active_piece: Option<Piece>,
    /// Ticks between forced falls at the current speed.
    pub fall_ticks: u32,
    /// Ticks left until the next forced fall.
    pub fall_counter: u32,
    /// Ticks between speed-ups.
    pub fall_accel_ticks: u32,
    /// Ticks left until the next speed-up.
    pub fall_accel_counter: u32,
    /// The lookahead queue, refilled on every spawn.
    pub next_pieces: Vec<Piece>,
    /// Latch so one press gives exactly one rotation attempt.
    pub rotated: bool,
    /// The debounced input of the previous tick.
    pub last_input: PlayerInput,
    /// Ticks elapsed since the game started.
    pub ticker: u64,
    /// Points awarded so far.
    pub score: u64,
    /// The pending deferred mutation, if any.
    pub effect: Option<BoardEffect>,
}

impl View for TetrisEngine {
    type V = EngineView;

    open spec fn view(&self) -> EngineView {
        EngineView {
            field: self.field@,
            active_piece: self.active_piece,
            fall_ticks: self.fall_ticks,
            fall_counter: self.fall_counter,
            fall_accel_ticks: self.fall_accel_ticks,
            fall_accel_counter: self.fall_accel_counter,
            next_pieces: self.next_pieces@,
            rotated: self.rotated,
            last_input: self.last_input,
            ticker: self.ticker,
            score: self.score,
            effect: match self.effect {
                Option::Some(ref e) => Some(e@),
                Option::None => None,
            },
        }
    }
}

/// Addition that stops at the top of the range instead of overflowing.
pub open spec fn sat_add_u64(a: u64, b: u64) -> u64 {
    if a + b > u64::MAX {
        u64::MAX
    } else {
        (a + b) as u64
    }
}

/// Subtraction that stops at zero.
pub open spec fn sat_sub_u32(a: u32, b: u32) -> u32 {
    if a < b {
        0
    } else {
        (a - b) as u32
    }
}

/// A pending effect, with its collected rows on the board and its clock
/// still running.
pub open spec fn effect_wf(e: EffectView) -> bool {
    &&& e.life >= 1
    &&& match e.ty {
        EffectTypeView::LinesCleared { lines } => {
            &&& 1 <= lines.len() <= 4
            &&& forall|j: int| 0 <= j < lines.len() ==> 0 <= #[trigger] lines[j] < 20
        },
        EffectTypeView::GameOver => true,
    }
}

/// One tick while an effect is pending: its clock counts down; at zero the
/// deferred mutation is applied — the collected rows are removed, or the
/// game ends with the score final — and the effect is cleared. All other
/// logic is suspended.
pub open spec fn spec_effect_step(s: EngineView) -> (EngineView, TickOutcome) {
    let e = s.effect->Some_0;
    let life2 = (e.life - 1) as u64;
    if life2 == 0 {
        match e.ty {
            EffectTypeView::LinesCleared { lines } => (
                EngineView { field: spec_remove_lines(s.field, lines), effect: None, ..s },
                TickOutcome::Continue,
            ),
            EffectTypeView::GameOver => (
                EngineView { effect: None, ..s },
                TickOutcome::GameOver,
            ),
        }
    } else {
        (
            EngineView { effect: Some(EffectView { ty: e.ty, life: life2 }), ..s },
            TickOutcome::Continue,
        )
    }
}

/// Spawning: the queue's head is dequeued and a fresh piece with the
/// sampled shape is queued. If the dequeued piece fits at spawn it becomes
/// the active piece; otherwise a game-over effect is raised.
pub open spec fn spec_spawn(s: EngineView, shape: u8) -> (EngineView, bool) {
    let p = s.next_pieces[0];
    let queue = s.next_pieces.drop_first().push(Piece::spec_new(shape));
    if spec_piece_fits(p, s.field) {
        (EngineView { active_piece: Some(p), next_pieces: queue, ..s }, true)
    } else {
        (
            EngineView {
                next_pieces: queue,
                effect: Some(
                    EffectView { ty: EffectTypeView::GameOver, life: GAME_OVER_EFFECT_TICKS },
                ),
                ..s
            },
            false,
        )
    }
}

/// The acceleration clock: it counts down once per tick; at zero the fall
/// interval shrinks by one tick (never below one) and the clock restarts.
/// Returns the new fall interval and the new clock.
pub open spec fn spec_accel(s: EngineView) -> (u32, u32) {
    let dec: u32 = if s.fall_accel_counter > 0 {
        (s.fall_accel_counter - 1) as u32
    } else {
        0u32
    };
    if dec == 0 {
        (
            if s.fall_ticks > 1 {
                (s.fall_ticks - 1) as u32
            } else {
                1u32
            },
            s.fall_accel_ticks,
        )
    } else {
        (s.fall_ticks, dec)
    }
}

/// One rotation attempt per discrete press: on a fresh press of either
/// rotate key the latch closes and the turned piece is kept only when it
/// fits — there are no wall kicks. While neither key is freshly pressed the
/// latch opens again. Returns the piece and the new latch.
pub open spec fn spec_rotate(rotated: bool, input: PlayerInput, p: Piece, f: Seq<Cell>) -> (
    Piece,
    bool,
) {
    if input.rot_right == KeyState::Pressed {
        if !rotated {
            let q = p.spec_rotated_right();
            (
                if spec_piece_fits(q, f) {
                    q
                } else {
                    p
                },
                true,
            )
        } else {
            (p, true)
        }
    } else if input.rot_left == KeyState::Pressed {
        if !rotated {
            let q = p.spec_rotated_left();
            (
                if spec_piece_fits(q, f) {
                    q
                } else {
                    p
                },
                true,
            )
        } else {
            (p, true)
        }
    } else {
        (p, false)
    }
}

/// Horizontal movement: debounced-or-repeating, right before left, and only
/// onto positions where the piece fits.
pub open spec fn spec_move(input: PlayerInput, ticker: u64, p: Piece, f: Seq<Cell>) -> Piece {
    if spec_was_pressed(input.right, ticker) {
        let q = Piece { x: (p.x + 1) as i8, ..p };
        if spec_piece_fits(q, f) {
            q
        } else {
            p
        }
    } else if spec_was_pressed(input.left, ticker) {
        let q = Piece { x: (p.x - 1) as i8, ..p };
        if spec_piece_fits(q, f) {
            q
        } else {
            p
        }
    } else {
        p
    }
}

/// A forced fall: the piece moves down one row if it fits there. Otherwise
/// it freezes into the field; the four rows of its bitmap window are
/// scanned, and a clear awards its score, speeds up the acceleration clock
/// by the number of rows, and defers the actual removal behind a line-clear
/// effect. Either way the active piece is gone after a freeze.
pub open spec fn spec_freeze_or_fall(s: EngineView) -> EngineView {
    let p = s.active_piece->Some_0;
    let q = Piece { y: (p.y + 1) as i8, ..p };
    if spec_piece_fits(q, s.field) {
        EngineView { active_piece: Some(q), ..s }
    } else {
        let f1 = spec_add_piece(s.field, p);
        let lines = spec_deletable_rows(f1, p.y as int);
        if lines.len() > 0 {
            EngineView {
                field: f1,
                active_piece: None,
                score: sat_add_u64(s.score, spec_line_score(lines.len() as int) as u64),
                fall_accel_counter: sat_sub_u32(s.fall_accel_counter, lines.len() as u32),
                effect: Some(
                    EffectView {
                        ty: EffectTypeView::LinesCleared { lines },
                        life: LINE_CLEAR_EFFECT_TICKS,
                    },
                ),
                ..s
            }
        } else {
            EngineView { field: f1, active_piece: None, ..s }
        }
    }
}

/// The piece-steering part of a tick, for a state that has an active piece:
/// the fall clock counts down, the acceleration clock advances, then one
/// rotation attempt, then horizontal movement, and — when the fall clock
/// hit zero or the down key counts as pressed — a forced fall with the fall
/// clock reset.
pub open spec fn spec_motion(s: EngineView, input: PlayerInput) -> EngineView {
    let p0 = s.active_piece->Some_0;
    let fc = (s.fall_counter - 1) as u32;
    let should_fall = fc == 0 || spec_was_pressed(input.down, s.ticker);
    let af = spec_accel(s);
    let rr = spec_rotate(s.rotated, input, p0, s.field);
    let p2 = spec_move(input, s.ticker, rr.0, s.field);
    let s1 = EngineView {
        fall_counter: fc,
        fall_ticks: af.0,
        fall_accel_counter: af.1,
        rotated: rr.1,
        active_piece: Some(p2),
        ..s
    };
    if should_fall {
        spec_freeze_or_fall(EngineView { fall_counter: af.0, ..s1 })
    } else {
        s1
    }
}

/// One whole logic tick: the raw input is debounced against the previous
/// tick's input and the tick counter advances; a (debounced-or-repeating)
/// escape ends the screen; else a pending effect runs its step and all
/// other logic is suspended; else, with no active piece, a spawn is tried —
/// a failed spawn raises the game-over effect — and with a piece in play
/// the motion step runs.
pub open spec fn spec_tick(pre: EngineView, raw: RawInput, shape: u8) -> (EngineView, TickOutcome) {
    let input = spec_debounce_all(pre.last_input, raw);
    let s = EngineView { ticker: (pre.ticker + 1) as u64, last_input: input, ..pre };
    if spec_was_pressed(input.escape, s.ticker) {
        (s, TickOutcome::Pop)
    } else if s.effect is Some {
        spec_effect_step(s)
    } else if s.active_piece is None {
        let sp = spec_spawn(s, shape);
        if sp.1 {
            (spec_motion(sp.0, input), TickOutcome::Continue)
        } else {
            (sp.0, TickOutcome::Continue)
        }
    } else {
        (spec_motion(s, input), TickOutcome::Continue)
    }
}

/// Law: a freeze that completes n rows of its scan window awards exactly
/// the line score — 100, 300, 500 or 800 points for 1, 2, 3 or 4 rows, and
/// nothing for none; no other count is reachable. The active piece is gone
/// either way; a clear speeds up the acceleration clock and defers the
/// actual removal behind a one-second line-clear effect — this tick only
/// stamps the piece, it removes no row yet. The exact award holds up to the
/// score's saturation cap, a machine limit.
pub proof fn lemma_freeze_awards_line_score(s: EngineView)
    requires
        s.active_piece is Some,
        s.active_piece->Some_0.y <= 19,
        !spec_piece_fits(
            Piece { y: (s.active_piece->Some_0.y + 1) as i8, ..s.active_piece->Some_0 },
            s.field,
        ),
    ensures
        ({
            let p = s.active_piece->Some_0;
            let f1 = spec_add_piece(s.field, p);
            let lines = spec_deletable_rows(f1, p.y as int);
            let n = lines.len() as int;
            let after = spec_freeze_or_fall(s);
            &&& 0 <= n <= 4
            &&& after.active_piece is None
            &&& after.field == f1
            &&& (n == 0 ==> after.score == s.score && after.effect == s.effect)
            &&& (n >= 1 ==> after.effect == Some(
                EffectView {
                    ty: EffectTypeView::LinesCleared { lines },
                    life: LINE_CLEAR_EFFECT_TICKS,
                },
            ))
            &&& (n >= 1 ==> after.fall_accel_counter == sat_sub_u32(
                s.fall_accel_counter,
                n as u32,
            ))
            &&& (n == 1 && s.score + 100 <= u64::MAX ==> after.score == s.score + 100)
            &&& (n == 2 && s.score + 300 <= u64::MAX ==> after.score == s.score + 300)
            &&& (n == 3 && s.score + 500 <= u64::MAX ==> after.score == s.score + 500)
            &&& (n == 4 && s.score + 800 <= u64::MAX ==> after.score == s.score + 800)
        }),
{
    let p = s.active_piece->Some_0;
    let f1 = spec_add_piece(s.field, p);
    lemma_scan_rows_props(f1, p.y as int, p.y + 4);
}

/// Law: the same, lifted to a whole tick. A tick that reaches a freeze —
/// no escape, no pending effect, a piece in play, a forced fall, and the
/// (possibly rotated and shifted) piece cannot move down — ends with the
/// active piece gone and the score raised by exactly the line score of the
/// rows the freeze completed: 100, 300, 500 or 800 points for 1, 2, 3 or 4
/// rows and nothing for none, up to the score's saturation cap. The rows
/// themselves are not removed this tick: the tick only stamps the piece and
/// defers the removal behind the line-clear effect.
pub proof fn lemma_tick_freeze_award(pre: EngineView, raw: RawInput, shape: u8)
    requires
        pre.fall_counter >= 1,
        pre.active_piece is Some,
        pre.effect is None,
    ensures
        ({
            let input = spec_debounce_all(pre.last_input, raw);
            let s = EngineView { ticker: (pre.ticker + 1) as u64, last_input: input, ..pre };
            let p0 = s.active_piece->Some_0;
            let fc = (s.fall_counter - 1) as u32;
            let should_fall = fc == 0 || spec_was_pressed(input.down, s.ticker);
            let af = spec_accel(s);
            let rr = spec_rotate(s.rotated, input, p0, s.field);
            let p2 = spec_move(input, s.ticker, rr.0, s.field);
            let q = Piece { y: (p2.y + 1) as i8, ..p2 };
            (!spec_was_pressed(input.escape, s.ticker) && should_fall && !spec_piece_fits(
                q,
                s.field,
            ) && p2.y <= 19) ==> {
                let f1 = spec_add_piece(s.field, p2);
                let lines = spec_deletable_rows(f1, p2.y as int);
                let n = lines.len() as int;
                let after = spec_tick(pre, raw, shape).0;
                &&& spec_tick(pre, raw, shape).1 == TickOutcome::Continue
                &&& 0 <= n <= 4
                &&& after.active_piece is None
                &&& after.field == f1
                &&& (n == 0 ==> after.score == pre.score && after.effect is None)
                &&& (n >= 1 ==> after.effect == Some(
                    EffectView {
                        ty: EffectTypeView::LinesCleared { lines },
                        life: LINE_CLEAR_EFFECT_TICKS,
                    },
                ))
                &&& (n == 1 && pre.score + 100 <= u64::MAX ==> after.score == pre.score + 100)
                &&& (n == 2 && pre.score + 300 <= u64::MAX ==> after.score == pre.score + 300)
                &&& (n == 3 && pre.score + 500 <= u64::MAX ==> after.score == pre.score + 500)
                &&& (n == 4 && pre.score + 800 <= u64::MAX ==> after.score == pre.score + 800)
            }
        }),
{
    let input = spec_debounce_all(pre.last_input, raw);
    let s = EngineView { ticker: (pre.ticker + 1) as u64, last_input: input, ..pre };
    let p0 = s.active_piece->Some_0;
    let fc = (s.fall_counter - 1) as u32;
    let should_fall = fc == 0 || spec_was_pressed(input.down, s.ticker);
    let af = spec_accel(s);
    let rr = spec_rotate(s.rotated, input, p0, s.field);
    let p2 = spec_move(input, s.ticker, rr.0, s.field);
    let q = Piece { y: (p2.y + 1) as i8, ..p2 };
    if !spec_was_pressed(input.escape, s.ticker) && should_fall && !spec_piece_fits(q, s.field)
        && p2.y <= 19 {
        let sf = EngineView {
            fall_counter: af.0,
            fall_ticks: af.0,
            fall_accel_counter: af.1,
            rotated: rr.1,
            active_piece: Some(p2),
            ..s
        };
        assert(spec_tick(pre, raw, shape) == (spec_motion(s, input), TickOutcome::Continue));
        assert(spec_motion(s, input) == spec_freeze_or_fall(sf));
        lemma_freeze_awards_line_score(sf);
    }
}

/// Law: a freeze collects for removal exactly the rows of its scan window
/// — the four rows of the piece's bitmap — that lie on the board and are
/// completely frozen once the piece is stamped.
pub proof fn lemma_freeze_collects_full_rows(s: EngineView, y: i8)
    requires
        s.active_piece is Some,
        s.active_piece->Some_0.y <= 19,
    ensures
        ({
            let p = s.active_piece->Some_0;
            let f1 = spec_add_piece(s.field, p);
            spec_deletable_rows(f1, p.y as int).contains(y) == (p.y <= y < p.y + 4 && 0 <= y < 20
                && spec_row_full(f1, y as int))
        }),
{
    let p = s.active_piece->Some_0;
    let f1 = spec_add_piece(s.field, p);
    lemma_scan_rows_complete(f1, p.y as int, p.y + 4, y);
}

/// Law: when a line-clear effect with one collected row runs out, the
/// deferred removal happens exactly then — every row above the cleared row
/// shifts down by one, the top row is cleared, the rows below stay — the
/// effect is gone, the score is untouched, and play continues.
pub proof fn lemma_single_clear_expiry(s: EngineView, r: i8, x: int, y: int)
    requires
        s.field.len() == 200,
        s.effect == Some(
            EffectView { ty: EffectTypeView::LinesCleared { lines: seq![r] }, life: 1u64 },
        ),
        0 <= r < 20,
        0 <= x < 10,
        0 <= y < 20,
    ensures
        spec_effect_step(s).1 == TickOutcome::Continue,
        spec_effect_step(s).0.effect is None,
        spec_effect_step(s).0.score == s.score,
        y > r ==> spec_cell_at(spec_effect_step(s).0.field, x, y) == spec_cell_at(s.field, x, y),
        1 <= y <= r ==> spec_cell_at(spec_effect_step(s).0.field, x, y) == spec_cell_at(
            s.field,
            x,
            y - 1,
        ),
        y == 0 ==> spec_cell_at(spec_effect_step(s).0.field, x, y) == Cell::Empty,
{
    let f1 = spec_remove_line(s.field, r as int);
    assert(seq![r].drop_first() =~= Seq::<i8>::empty());
    assert(spec_remove_lines(f1, Seq::<i8>::empty()) == f1);
    assert(seq![r][0] == r);
    assert(spec_remove_lines(s.field, seq![r]) == f1);
    lemma_remove_line_cells(s.field, r as int, x, y);
}

/// The state a fresh game starts from: an empty field, no active piece,
/// the initial clocks, a zero score, and the three given shapes queued at
/// their spawn positions.
pub open spec fn spec_initial(s0: u8, s1: u8, s2: u8) -> EngineView {
    EngineView {
        field: Seq::new(200, |i: int| Cell::Empty),
        active_piece: None,
        fall_ticks: INITIAL_FALL_TICKS,
        fall_counter: INITIAL_FALL_TICKS,
        fall_accel_ticks: INITIAL_ACCEL_TICKS,
        fall_accel_counter: INITIAL_ACCEL_TICKS,
        next_pieces: seq![Piece::spec_new(s0), Piece::spec_new(s1), Piece::spec_new(s2)],
        rotated: false,
        last_input: PlayerInput::all_released(),
        ticker: 0,
        score: 0,
        effect: None,
    }
}

/// Relies on rand::Rng::gen_range over `0..SHAPE_COUNT` (rand 0.8): a value
/// drawn uniformly from the half-open range, so always a valid shape index.
#[verifier::external_body]
fn sample_shape() -> (r: u8)
    ensures
        r < SHAPE_COUNT,
{
    rand::thread_rng().gen_range(0..SHAPE_COUNT)
}

impl TetrisEngine {
    /// The engine's running invariant: the grid has its fixed size, the
    /// clocks stay in range, the queue stays full of valid pieces, the
    /// active piece always fits where it stands, and a pending effect has
    /// time left and rows on the board.
    pub open spec fn wf(self) -> bool {
        &&& self.field.wf()
        &&& 1 <= self.fall_ticks <= INITIAL_FALL_TICKS
        &&& self.fall_counter >= 1
        &&& self.fall_accel_ticks >= 1
        &&& self.next_pieces@.len() == QUEUE_LEN
        &&& forall|i: int|
            0 <= i < self.next_pieces@.len() ==> (#[trigger] self.next_pieces@[i]).wf()
        &&& match self.active_piece {
            Some(p) => p.wf() && spec_piece_fits(p, self.field@),
            None => true,
        }
        &&& match self@.effect {
            Some(e) => effect_wf(e) && self.active_piece is None,
            None => true,
        }
    }

    /// A fresh game with the given three shapes queued.
    pub fn new_with_shapes(s0: u8, s1: u8, s2: u8) -> (r: TetrisEngine)
        requires
            s0 < SHAPE_COUNT,
            s1 < SHAPE_COUNT,
            s2 < SHAPE_COUNT,
        ensures
            r.wf(),
            r@ == spec_initial(s0, s1, s2),
    {
        let field = Field::new();
        let mut next_pieces: Vec<Piece> = Vec::new();
        next_pieces.push(Piece::new(s0 as usize));
        next_pieces.push(Piece::new(s1 as usize));
        next_pieces.push(Piece::new(s2 as usize));
        let r = TetrisEngine {
            field,
            active_piece: None,
            fall_ticks: INITIAL_FALL_TICKS,
            fall_counter: INITIAL_FALL_TICKS,
            fall_accel_ticks: INITIAL_ACCEL_TICKS,
            fall_accel_counter: INITIAL_ACCEL_TICKS,
            next_pieces,
            rotated: false,
            last_input: PlayerInput::default(),
            ticker: 0,
            score: 0,
            effect: None,
        };
        proof {
            assert(r@.field =~= spec_initial(s0, s1, s2).field);
            assert(r@.next_pieces =~= spec_initial(s0, s1, s2).next_pieces);
            assert(r@ =~= spec_initial(s0, s1, s2));
        }
        r
    }

    /// The difficulty level shown to the player: how many speed-ups have
    /// happened, counting from one.
    pub fn level(&self) -> (r: u32)
        requires
            self.wf(),
        ensures
            r == INITIAL_FALL_TICKS - self.fall_ticks + 1,
    {
        INITIAL_FALL_TICKS - self.fall_ticks + 1
    }

    /// The tick of a pending effect: count its clock down and, at zero,
    /// apply the deferred mutation and clear it.
    fn step_effect(&mut self) -> (r: TickOutcome)
        requires
            old(self).wf(),
            old(self)@.effect is Some,
        ensures
            final(self).wf(),
            final(self)@ == spec_effect_step(old(self)@).0,
            r == spec_effect_step(old(self)@).1,
    {
        let ghost s = old(self)@;
        let eff = self.effect.take().unwrap();
        let life2 = eff.life - 1;
        if life2 == 0 {
            match eff.ty {
                BoardEffectType::LinesCleared { lines } => {
                    remove_lines(&mut self.field, &lines);
                    proof {
                        assert(self@ =~= spec_effect_step(s).0);
                    }
                    TickOutcome::Continue
                },
                BoardEffectType::GameOver => {
                    proof {
                        assert(self@ =~= spec_effect_step(s).0);
                    }
                    TickOutcome::GameOver
                },
            }
        } else {
            self.effect = Some(BoardEffect { ty: eff.ty, life: life2 });
            proof {
                assert(self@ =~= spec_effect_step(s).0);
            }
            TickOutcome::Continue
        }
    }

    /// One logic tick driven by the given shape for any spawn it performs.
    pub fn tick_with_shape(&mut self, raw: RawInput, shape: u8) -> (r: TickOutcome)
        requires
            old(self).wf(),
            shape < SHAPE_COUNT,
            old(self).ticker < u64::MAX,
        ensures
            final(self).wf(),
            final(self)@ == spec_tick(old(self)@, raw, shape).0,
            r == spec_tick(old(self)@, raw, shape).1,
    {
        let ghost pre = old(self)@;
        let input = debounce_all(self.last_input, raw);
        self.last_input = input;
        self.ticker = self.ticker + 1;
        let ghost s = self@;
        proof {
            assert(s =~= EngineView {
                ticker: (pre.ticker + 1) as u64,
                last_input: spec_debounce_all(pre.last_input, raw),
                ..pre
            });
        }
        if was_pressed(input.escape, self.ticker) {
            proof {
                assert(self@ =~= spec_tick(pre, raw, shape).0);
            }
            return TickOutcome::Pop;
        }
        if self.effect.is_some() {
            let r = self.step_effect();
            proof {
                assert(self@ =~= spec_tick(pre, raw, shape).0);
            }
            return r;
        }
        let ghost spawned = self.active_piece is None;
        if self.active_piece.is_none() {
            let test_piece = self.next_pieces.remove(0);
            let fresh = Piece::new(shape as usize);
            self.next_pieces.push(fresh);
            proof {
                assert(self@.next_pieces =~= s.next_pieces.drop_first().push(
                    Piece::spec_new(shape),
                ));
            }
            if piece_fits(&test_piece, &self.field) {
                self.active_piece = Some(test_piece);
                proof {
                    assert(self@ =~= spec_spawn(s, shape).0);
                }
            } else {
                self.effect = Some(
                    BoardEffect { ty: BoardEffectType::GameOver, life: GAME_OVER_EFFECT_TICKS },
                );
                proof {
                    assert(self@ =~= spec_spawn(s, shape).0);
                    assert(self@ =~= spec_tick(pre, raw, shape).0);
                }
                return TickOutcome::Continue;
            }
        }
        let ghost sm = self@;
        proof {
            if spawned {
                assert(sm == spec_spawn(s, shape).0 && spec_spawn(s, shape).1);
            } else {
                assert(sm == s);
            }
        }
        self.motion_step(input);
        proof {
            assert(self@ == spec_motion(sm, input));
            assert(self@ =~= spec_tick(pre, raw, shape).0);
        }
        TickOutcome::Continue
    }

    /// The piece-steering tick: fall and acceleration clocks, a latched
    /// rotation attempt, horizontal movement, and the forced fall or the
    /// freeze.
    #[verifier::rlimit(60)]
    fn motion_step(&mut self, input: PlayerInput)
        requires
            old(self).wf(),
            old(self).active_piece is Some,
        ensures
            final(self).wf(),
            final(self)@ == spec_motion(old(self)@, input),
    {
        let ghost sm = old(self)@;
        let p0 = self.active_piece.unwrap();
        self.fall_counter = self.fall_counter - 1;
        let should_fall = self.fall_counter == 0 || was_pressed(input.down, self.ticker);
        if self.fall_accel_counter > 0 {
            self.fall_accel_counter = self.fall_accel_counter - 1;
        }
        if self.fall_accel_counter == 0 {
            self.fall_ticks = if self.fall_ticks > 1 {
                self.fall_ticks - 1
            } else {
                1
            };
            self.fall_accel_counter = self.fall_accel_ticks;
        }
        proof {
            assert(self.fall_ticks == spec_accel(sm).0 && self.fall_accel_counter == spec_accel(
                sm,
            ).1);
        }
        let mut p1 = p0;
        if input.rot_right == KeyState::Pressed {
            if !self.rotated {
                self.rotated = true;
                let q = p1.rotated_right();
                if piece_fits(&q, &self.field) {
                    p1 = q;
                }
            }
        } else if input.rot_left == KeyState::Pressed {
            if !self.rotated {
                self.rotated = true;
                let q = p1.rotated_left();
                if piece_fits(&q, &self.field) {
                    p1 = q;
                }
            }
        } else {
            self.rotated = false;
        }
        proof {
            assert(p1 == spec_rotate(sm.rotated, input, p0, sm.field).0 && self.rotated
                == spec_rotate(sm.rotated, input, p0, sm.field).1);
            assert(p1.wf() && spec_piece_fits(p1, sm.field));
        }
        let mut p2 = p1;
        if was_pressed(input.right, self.ticker) {
            proof {
                lemma_fits_bounds(p1, sm.field);
            }
            let q = Piece { x: p1.x + 1, ..p1 };
            if piece_fits(&q, &self.field) {
                p2 = q;
            }
        } else if was_pressed(input.left, self.ticker) {
            proof {
                lemma_fits_bounds(p1, sm.field);
            }
            let q = Piece { x: p1.x - 1, ..p1 };
            if piece_fits(&q, &self.field) {
                p2 = q;
            }
        }
        self.active_piece = Some(p2);
        proof {
            assert(p2 == spec_move(input, sm.ticker, p1, sm.field));
            assert(p2.wf() && spec_piece_fits(p2, sm.field));
        }
        if should_fall {
            self.fall_counter = self.fall_ticks;
            let ghost sf = self@;
            proof {
                assert(sf =~= EngineView {
                    fall_counter: spec_accel(sm).0,
                    fall_ticks: spec_accel(sm).0,
                    fall_accel_counter: spec_accel(sm).1,
                    rotated: spec_rotate(sm.rotated, input, p0, sm.field).1,
                    active_piece: Some(p2),
                    ..sm
                });
                lemma_fits_bounds(p2, sm.field);
            }
            let q = Piece { y: p2.y + 1, ..p2 };
            if piece_fits(&q, &self.field) {
                self.active_piece = Some(q);
                proof {
                    assert(self@ =~= spec_freeze_or_fall(sf));
                }
            } else {
                add_piece(&p2, &mut self.field);
                let deletable = deletable_rows(&self.field, p2.y);
                proof {
                    lemma_scan_rows_props(self.field@, p2.y as int, p2.y + 4);
                }
                if deletable.len() > 0 {
                    let pts = line_score(deletable.len());
                    self.score = if self.score > u64::MAX - pts {
                        u64::MAX
                    } else {
                        self.score + pts
                    };
                    let nlines = deletable.len() as u32;
                    self.fall_accel_counter = if self.fall_accel_counter < nlines {
                        0
                    } else {
                        self.fall_accel_counter - nlines
                    };
                    self.effect = Some(
                        BoardEffect {
                            ty: BoardEffectType::LinesCleared { lines: deletable },
                            life: LINE_CLEAR_EFFECT_TICKS,
                        },
                    );
                }
                self.active_piece = None;
                proof {
                    assert(self@ =~= spec_freeze_or_fall(sf));
                }
            }
            proof {
                assert(self@ =~= spec_motion(sm, input));
            }
        } else {
            proof {
                assert(self@ =~= spec_motion(sm, input));
            }
        }
    }

    /// One logic tick; any spawn it performs queues a freshly sampled
    /// random shape. Whatever was drawn, the tick is exactly a `spec_tick`
    /// for some valid shape index.
    pub fn tick(&mut self, raw: RawInput) -> (r: TickOutcome)
        requires
            old(self).wf(),
            old(self).ticker < u64::MAX,
        ensures
            final(self).wf(),
            exists|shape: u8|
                shape < SHAPE_COUNT && final(self)@ == (#[trigger] spec_tick(
                    old(self)@,
                    raw,
                    shape,
                )).0 && r == spec_tick(old(self)@, raw, shape).1,
    {
        let shape = sample_shape();
        let r = self.tick_with_shape(raw, shape);
        proof {
            assert(final(self)@ == spec_tick(old(self)@, raw, shape).0 && r == spec_tick(
                old(self)@,
                raw,
                shape,
            ).1);
        }
        r
    }
}

impl Default for TetrisEngine {
    /// A fresh game with three randomly sampled shapes queued.
    fn default() -> (r: Self)
        ensures
            r.wf(),
            exists|s0: u8, s1: u8, s2: u8|
                s0 < SHAPE_COUNT && s1 < SHAPE_COUNT && s2 < SHAPE_COUNT && r@
                    == #[trigger] spec_initial(s0, s1, s2),
    {
        let a = sample_shape();
        let b = sample_shape();
        let c = sample_shape();
        let r = TetrisEngine::new_with_shapes(a, b, c);
        proof {
            assert(r@ == spec_initial(a, b, c));
        }
        r
    }
}

} // verus!
