//! The screens and the screen stack. The three screen kinds — menu, game,
//! scoreboard — are a closed union with one per-tick step each; the stack
//! owns them, keeps suspended screens untouched beneath the active one, and
//! applies the transition directives the active screen emits.

use vstd::prelude::*;
use crate::input::{KeyState, PlayerInput, RawInput, spec_debounce_all, debounce_all};
use crate::engine::{TetrisEngine, TickOutcome, spec_tick, spec_initial};
use crate::piece::SHAPE_COUNT;
use crate::scores::{ScoreTable, ScoreEntry, EntryView, spec_table_insert};

verus! {

/// Number of menu rows: play, scores, quit.
pub const MENU_ROWS: u8 = 3;

/// The title menu: a cyclic selection over its rows.
#[derive(Clone, Copy, Debug)]
pub struct TetrisMenu {
    /// The highlighted row: 0 play, 1 scores, 2 quit.
    pub selection: u8,
    /// The debounced input of the previous tick.
    pub last_input: PlayerInput,
    /// Ticks elapsed since the menu appeared.
    pub ticker: u64,
}

impl TetrisMenu {
    pub open spec fn wf(self) -> bool {
        self.selection < MENU_ROWS
    }
}

impl Default for TetrisMenu {
    /// A fresh menu: the first row highlighted, and every key treated as
    /// already held so that keys still down from before do not register as
    /// fresh presses.
    fn default() -> (r: Self)
        ensures
            r.wf(),
            r == (TetrisMenu {
                selection: 0u8,
                last_input: PlayerInput::spec_all_pressed(),
                ticker: 0u64,
            }),
    {
        TetrisMenu { selection: 0, last_input: PlayerInput::all_pressed(), ticker: 0 }
    }
}

/// What a menu tick decided.
#[derive(Clone, Copy, Debug, PartialEq, Eq, Structural)]
pub enum MenuAction {
    /// Nothing chosen this tick.
    Stay,
    /// The play row was confirmed: a fresh game starts.
    StartGame,
    /// The scores row was confirmed: the score board opens.
    ShowScores,
    /// The quit row was confirmed.
    Quit,
}

/// One menu tick: either rotate key freshly pressed confirms the
/// highlighted row; otherwise a freshly pressed up or down key moves the
/// selection cyclically.
pub open spec fn spec_menu_step(m: TetrisMenu, raw: RawInput) -> (TetrisMenu, MenuAction) {
    let input = spec_debounce_all(m.last_input, raw);
    let m1 = TetrisMenu { last_input: input, ticker: (m.ticker + 1) as u64, ..m };
    if input.rot_left == KeyState::Pressed || input.rot_right == KeyState::Pressed {
        (
            m1,
            if m.selection == 0 {
                MenuAction::StartGame
            } else if m.selection == 1 {
                MenuAction::ShowScores
            } else {
                MenuAction::Quit
            },
        )
    } else if input.up == KeyState::Pressed {
        (
            TetrisMenu {
                selection: if m.selection == 0 {
                    (MENU_ROWS - 1) as u8
                } else {
                    (m.selection - 1) as u8
                },
                ..m1
            },
            MenuAction::Stay,
        )
    } else if input.down == KeyState::Pressed {
        (
            TetrisMenu {
                selection: if m.selection == MENU_ROWS - 1 {
                    0u8
                } else {
                    (m.selection + 1) as u8
                },
                ..m1
            },
            MenuAction::Stay,
        )
    } else {
        (m1, MenuAction::Stay)
    }
}

/// The name scores are recorded under: the ASCII text "PLR".
pub open spec fn spec_player_name() -> Seq<u8> {
    seq![80u8, 76u8, 82u8]
}

fn player_name() -> (r: Vec<u8>)
    ensures
        r@ == spec_player_name(),
{
    let mut r: Vec<u8> = Vec::new();
    r.push(80);
    r.push(76);
    r.push(82);
    proof {
        assert(r@ =~= spec_player_name());
    }
    r
}

/// The score-board screen: the table, and — right after a game ends — the
/// score still waiting to be recorded. The table is loaded from the score
/// file; until the caller hands the loaded table in, `needs_load` is set
/// and the screen does not tick.
#[derive(Debug)]
pub struct TetrisScores {
    /// The table shown, best score first.
    pub table: ScoreTable,
    /// A score waiting to be recorded, from a finished game.
    pub inputting_score: Option<u64>,
    /// Whether the caller still has to hand the loaded table in.
    pub needs_load: bool,
    /// The debounced input of the previous tick.
    pub last_input: PlayerInput,
    /// Ticks elapsed since the screen appeared.
    pub ticker: u64,
}

/// The score-board screen as the contracts speak of it.
#[verifier::ext_equal]
pub struct ScoresView {
    pub table: Seq<EntryView>,
    pub inputting_score: Option<u64>,
    pub needs_load: bool,
    pub last_input: PlayerInput,
    pub ticker: u64,
}

impl View for TetrisScores {
    type V = ScoresView;

    open spec fn view(&self) -> ScoresView {
        ScoresView {
            table: self.table@,
            inputting_score: self.inputting_score,
            needs_load: self.needs_load,
            last_input: self.last_input,
            ticker: self.ticker,
        }
    }
}

impl TetrisScores {
    pub open spec fn wf(self) -> bool {
        self.table.wf()
    }

    /// A fresh score board, waiting for the caller to load the score file;
    /// `pending` carries the score of a just-finished game, if any.
    pub fn new(pending: Option<u64>) -> (r: TetrisScores)
        ensures
            r.wf(),
            r@ == (ScoresView {
                table: Seq::<EntryView>::empty(),
                inputting_score: pending,
                needs_load: true,
                last_input: PlayerInput::all_released(),
                ticker: 0u64,
            }),
    {
        let r = TetrisScores {
            table: ScoreTable::new(),
            inputting_score: pending,
            needs_load: true,
            last_input: PlayerInput::default(),
            ticker: 0,
        };
        proof {
            assert(r@ =~= ScoresView {
                table: Seq::<EntryView>::empty(),
                inputting_score: pending,
                needs_load: true,
                last_input: PlayerInput::all_released(),
                ticker: 0u64,
            });
        }
        r
    }

    /// Whether the caller still has to load the score file and hand the
    /// table in.
    pub fn needs_table(&self) -> (r: bool)
        ensures
            r == self.needs_load,
    {
        self.needs_load
    }

    /// Hands the loaded table in; on a load failure the caller passes an
    /// empty table and play goes on with an empty board.
    pub fn provide_table(&mut self, t: ScoreTable)
        requires
            old(self).needs_load,
            t.wf(),
        ensures
            final(self).wf(),
            final(self)@ == (ScoresView { table: t@, needs_load: false, ..old(self)@ }),
    {
        self.table = t;
        self.needs_load = false;
        proof {
            assert(self@ =~= ScoresView { table: self.table@, needs_load: false, ..old(self)@ });
        }
    }
}

/// One score-board tick: a pending score, when positive, is recorded under
/// the player name and the table re-sorted and capped; whenever a pending
/// score was processed, a save of the table is requested. A freshly pressed
/// escape then leaves the screen. Returns the new state, whether to save,
/// and whether to leave.
pub open spec fn spec_scores_step(s: ScoresView, raw: RawInput) -> (ScoresView, bool, bool) {
    let input = spec_debounce_all(s.last_input, raw);
    let s1 = ScoresView { last_input: input, ticker: (s.ticker + 1) as u64, ..s };
    let processed = if s.inputting_score is Some {
        let sc = s.inputting_score->Some_0;
        let t2 = if sc > 0 {
            spec_table_insert(s1.table, EntryView { name: spec_player_name(), score: sc })
        } else {
            s1.table
        };
        (ScoresView { table: t2, inputting_score: None, ..s1 }, true)
    } else {
        (s1, false)
    };
    (processed.0, processed.1, input.escape == KeyState::Pressed)
}

/// The directive a screen's tick hands to the stack.
#[derive(Debug)]
pub enum StateChange {
    /// Keep the stack as it is.
    Stay,
    /// Terminate unconditionally, whatever the stack depth.
    Quit,
    /// Suspend the active screen under a new one.
    Push(Screen),
    /// Remove the active screen; the application ends when none is left.
    Pop,
    /// Replace the active screen in place.
    Swap(Screen),
}

/// One of the three screen kinds, with its whole sub-state.
#[derive(Debug)]
pub enum Screen {
    Menu(TetrisMenu),
    Game(TetrisEngine),
    Scores(TetrisScores),
}

impl Screen {
    pub open spec fn wf(self) -> bool {
        match self {
            Screen::Menu(m) => m.wf(),
            Screen::Game(g) => g.wf(),
            Screen::Scores(s) => s.wf(),
        }
    }

    /// Whether the screen can take another tick: its tick counter has room
    /// and, for the score board, the table has been handed in.
    pub open spec fn can_step(self) -> bool {
        match self {
            Screen::Menu(m) => m.ticker < u64::MAX,
            Screen::Game(g) => g.ticker < u64::MAX,
            Screen::Scores(s) => s.ticker < u64::MAX && !s.needs_load,
        }
    }

    /// A fresh score board that carries the final score of a finished game,
    /// to be recorded once positive.
    pub open spec fn game_over_screen(score: u64) -> ScoresView {
        ScoresView {
            table: Seq::<EntryView>::empty(),
            inputting_score: if score > 0 {
                Some(score)
            } else {
                None
            },
            needs_load: true,
            last_input: PlayerInput::all_released(),
            ticker: 0u64,
        }
    }

    /// One tick of the active screen, whatever its kind: the menu confirms
    /// or moves its selection; the game runs one engine tick and hands off
    /// to a fresh score board when the game-over banner expires; the score
    /// board records a pending score. The directive says what the stack
    /// should do; `save_scores` asks the caller to persist the table shown
    /// by the (then active) score-board screen.
    pub fn step(&mut self, raw: RawInput) -> (r: (StateChange, bool))
        requires
            old(self).wf(),
            old(self).can_step(),
        ensures
            final(self).wf(),
            ({
                let change = r.0;
                let save_scores = r.1;
                match *old(self) {
                    Screen::Menu(m) => {
                        let next = spec_menu_step(m, raw);
                        &&& *final(self) matches Screen::Menu(m2) && m2 == next.0
                        &&& !save_scores
                        &&& match next.1 {
                            MenuAction::Stay => change is Stay,
                            MenuAction::Quit => change is Quit,
                            MenuAction::StartGame => change matches StateChange::Push(s2)
                                && s2 matches Screen::Game(g) && g.wf() && (exists|
                                s0: u8,
                                s1: u8,
                                s2: u8,
                            |
                                s0 < SHAPE_COUNT && s1 < SHAPE_COUNT && s2 < SHAPE_COUNT && g@
                                    == #[trigger] spec_initial(s0, s1, s2)),
                            MenuAction::ShowScores => change matches StateChange::Push(s2)
                                && s2 matches Screen::Scores(sb) && sb.wf() && sb@
                                == Screen::game_over_screen(0),
                        }
                    },
                    Screen::Game(g) => {
                        &&& !save_scores
                        &&& exists|shape: u8|
                            {
                                let next = #[trigger] spec_tick(g@, raw, shape);
                                &&& shape < SHAPE_COUNT
                                &&& match next.1 {
                                    TickOutcome::Continue => (*final(self) matches Screen::Game(g2)
                                        && g2@ == next.0) && change is Stay,
                                    TickOutcome::Pop => (*final(self) matches Screen::Game(g2)
                                        && g2@ == next.0) && change is Pop,
                                    TickOutcome::GameOver => change matches StateChange::Swap(s2)
                                        && s2 matches Screen::Scores(sb) && sb.wf() && sb@
                                        == Screen::game_over_screen(next.0.score),
                                }
                            }
                    },
                    Screen::Scores(sb) => {
                        let next = spec_scores_step(sb@, raw);
                        &&& *final(self) matches Screen::Scores(sb2) && sb2@ == next.0 && sb2.wf()
                        &&& save_scores == next.1
                        &&& change == (if next.2 {
                            StateChange::Pop
                        } else {
                            StateChange::Stay
                        })
                    },
                }
            }),
    {
        match self {
            Screen::Menu(m) => {
                let input = debounce_all(m.last_input, raw);
                m.last_input = input;
                m.ticker = m.ticker + 1;
                if input.rot_left == KeyState::Pressed || input.rot_right == KeyState::Pressed {
                    if m.selection == 0 {
                        (StateChange::Push(Screen::Game(TetrisEngine::default())), false)
                    } else if m.selection == 1 {
                        (StateChange::Push(Screen::Scores(TetrisScores::new(None))), false)
                    } else {
                        (StateChange::Quit, false)
                    }
                } else {
                    if input.up == KeyState::Pressed {
                        m.selection = if m.selection == 0 {
                            MENU_ROWS - 1
                        } else {
                            m.selection - 1
                        };
                    } else if input.down == KeyState::Pressed {
                        m.selection = if m.selection == MENU_ROWS - 1 {
                            0
                        } else {
                            m.selection + 1
                        };
                    }
                    (StateChange::Stay, false)
                }
            },
            Screen::Game(g) => {
                let outcome = g.tick(raw);
                match outcome {
                    TickOutcome::Continue => (StateChange::Stay, false),
                    TickOutcome::Pop => (StateChange::Pop, false),
                    TickOutcome::GameOver => {
                        let pending = if g.score > 0 {
                            Some(g.score)
                        } else {
                            None
                        };
                        (StateChange::Swap(Screen::Scores(TetrisScores::new(pending))), false)
                    },
                }
            },
            Screen::Scores(sb) => {
                let input = debounce_all(sb.last_input, raw);
                sb.last_input = input;
                sb.ticker = sb.ticker + 1;
                let mut save = false;
                if let Some(sc) = sb.inputting_score {
                    if sc > 0 {
                        sb.table.insert(ScoreEntry { name: player_name(), score: sc });
                    }
                    sb.inputting_score = None;
                    save = true;
                }
                if input.escape == KeyState::Pressed {
                    (StateChange::Pop, save)
                } else {
                    (StateChange::Stay, save)
                }
            },
        }
    }
}

/// The navigation stack: the last screen is the active one; the screens
/// beneath are suspended and never touched until popped back to.
#[derive(Debug)]
pub struct ScreenStack {
    pub screens: Vec<Screen>,
}

impl ScreenStack {
    pub open spec fn wf(self) -> bool {
        forall|i: int| 0 <= i < self.screens@.len() ==> (#[trigger] self.screens@[i]).wf()
    }

    /// A stack holding one initial screen.
    pub fn new(initial: Screen) -> (r: ScreenStack)
        ensures
            r.screens@ =~= seq![initial],
    {
        let mut screens: Vec<Screen> = Vec::new();
        screens.push(initial);
        ScreenStack { screens }
    }

    /// How many screens the stack holds.
    pub fn len(&self) -> (r: usize)
        ensures
            r == self.screens@.len(),
    {
        self.screens.len()
    }

    /// Applies a directive: push suspends the active screen under the new
    /// one, pop removes the active screen, swap replaces it in place, and
    /// quit terminates whatever the depth. Returns whether the application
    /// should terminate — on quit, or when a pop empties the stack.
    pub fn apply(&mut self, c: StateChange) -> (quit: bool)
        requires
            old(self).screens@.len() >= 1,
        ensures
            ({
                let st = old(self).screens@;
                match c {
                    StateChange::Stay => final(self).screens@ == st && !quit,
                    StateChange::Quit => final(self).screens@ == st && quit,
                    StateChange::Push(s) => final(self).screens@ == st.push(s) && !quit,
                    StateChange::Pop => final(self).screens@ == st.drop_last() && quit == (st.len()
                        == 1),
                    StateChange::Swap(s) => final(self).screens@ == st.drop_last().push(s) && !quit,
                }
            }),
    {
        match c {
            StateChange::Stay => false,
            StateChange::Quit => true,
            StateChange::Push(s) => {
                self.screens.push(s);
                false
            },
            StateChange::Pop => {
                self.screens.pop();
                proof {
                    assert(self.screens@ =~= old(self).screens@.drop_last());
                }
                self.screens.len() == 0
            },
            StateChange::Swap(s) => {
                self.screens.pop();
                self.screens.push(s);
                proof {
                    assert(self.screens@ =~= old(self).screens@.drop_last().push(s));
                }
                false
            },
        }
    }
}

/// Law: a push followed by a pop restores the stack exactly — the screen
/// that was active before the push comes back with its whole sub-state, and
/// every suspended screen below it was never touched.
pub proof fn lemma_push_pop_restores(st: Seq<Screen>, s: Screen)
    ensures
        st.push(s).drop_last() =~= st,
        st.push(s).last() == s,
        forall|i: int| 0 <= i < st.len() ==> st.push(s)[i] == st[i],
{
}

} // verus!
