use vstd::prelude::*;
use crate::board::Board;
use crate::game::selected;
use crate::grid::{Grid, Mark, get_winner};
use crate::minimax::AlphaBetaPruning;
use crate::prompt::{Axis, InputError, MAX_GRID_SIZE};

verus! {

/// What the driver of a game hands to a step of it.
#[derive(Copy, Clone, PartialEq, Eq, Debug, Structural)]
pub enum Input {
    /// The side length of a new game and the mark that the machine plays.
    Setup { side_length: usize, ai_side: Mark },
    /// The column and the row of the cell that the player wants to mark.
    Square { col: usize, row: usize },
    /// Whether the player wants another game.
    Again(bool),
    /// Nothing: no input was asked for, or none that can be used was had.
    Nothing,
}

/// How a game has ended.
#[derive(Copy, Clone, PartialEq, Eq, Debug, Structural)]
pub enum Verdict {
    MachineWon,
    PlayerWon,
    Draw,
}

/// What the driver has to do before the next step.
#[derive(Copy, Clone, PartialEq, Eq, Debug, Structural)]
pub enum Request {
    /// Ask for a side length and for the player's mark.
    Setup,
    /// Ask for the column and the row of the player's move.
    Square,
    /// Wait a moment: the machine moves next.
    Pause,
    /// Go on: the game is not over.
    Proceed,
    /// Tell how the game has ended, and ask whether to play again.
    Again(Verdict),
}

/// What the driver has to show after a step.
#[derive(Copy, Clone, PartialEq, Eq, Debug, Structural)]
pub enum Report {
    /// Nothing.
    Silent,
    /// The board, which has changed.
    Board,
    /// Why the player's move was not made.
    Refused(InputError),
}

/// The mathematical model of a state: where the game stands, with the
/// board and the machine's mark once a game is on.
pub enum Phase {
    Startup,
    PlayerTurn { board: Board, ai_side: Mark },
    AiTurn { board: Board, ai_side: Mark },
    OutcomeCheck { board: Board, ai_side: Mark },
}

/// How the game on board `b` has ended, if it has: a filled line decides, a
/// full board without one is a draw.
pub open spec fn verdict_of(b: Board, ai_side: Mark) -> Option<Verdict> {
    match b.winner() {
        Some(w) => if w == ai_side {
            Some(Verdict::MachineWon)
        } else {
            Some(Verdict::PlayerWon)
        },
        None => if b.is_full() {
            Some(Verdict::Draw)
        } else {
            None
        },
    }
}

/// Whether the machine has a move to make on board `b`.
pub open spec fn machine_moves(b: Board) -> bool {
    b.winner() is None && !b.is_full()
}

/// The board after the machine's turn.
pub open spec fn after_machine(b: Board, ai_side: Mark) -> Board {
    if machine_moves(b) {
        b.place(selected(b, ai_side), ai_side)
    } else {
        b
    }
}

/// What keeps the player's mark off the cell in column `col` of row `row`,
/// if anything does: a column or a row that the board does not have, or a
/// mark in the cell.
pub open spec fn objection(b: Board, col: usize, row: usize) -> Option<InputError> {
    if col >= b.side {
        Some(InputError::IndexOutOfRange(Axis::Column, col))
    } else if row >= b.side {
        Some(InputError::IndexOutOfRange(Axis::Row, row))
    } else {
        match b.at(col as int, row as int) {
            Some(m) => Some(InputError::Occupied(m)),
            None => None,
        }
    }
}

/// Whether a new game can be had with this side length.
pub open spec fn side_allowed(side_length: usize) -> bool {
    2 <= side_length <= MAX_GRID_SIZE
}

/// What the driver has to do in phase `p`.
pub open spec fn wanted(p: Phase) -> Request {
    match p {
        Phase::Startup => Request::Setup,
        Phase::PlayerTurn { .. } => Request::Square,
        Phase::AiTurn { .. } => Request::Pause,
        Phase::OutcomeCheck { board, ai_side } => match verdict_of(board, ai_side) {
            Some(v) => Request::Again(v),
            None => Request::Proceed,
        },
    }
}

/// The phase that follows `p` on `input`, or none where the program ends.
///
/// A new game starts with the machine's turn if the machine plays crosses,
/// with the player's otherwise. The player's move, once made, is followed by
/// the machine's turn, that by a look at the outcome, and that by the
/// player's turn if the game is not over. After a game the player's answer
/// leads to a new start or to the end. Input that cannot be used leaves the
/// phase as it is.
pub open spec fn next_phase(p: Phase, input: Input) -> Option<Phase> {
    match p {
        Phase::Startup => match input {
            Input::Setup { side_length, ai_side } if side_allowed(side_length) => {
                let board = Board::empty(side_length as nat);
                if ai_side == Mark::Cross {
                    Some(Phase::AiTurn { board, ai_side })
                } else {
                    Some(Phase::PlayerTurn { board, ai_side })
                }
            },
            _ => Some(Phase::Startup),
        },
        Phase::PlayerTurn { board, ai_side } => match input {
            Input::Square { col, row } if objection(board, col, row) is None => Some(
                Phase::AiTurn { board: board.place(row * board.side + col, ai_side.other()), ai_side },
            ),
            _ => Some(p),
        },
        Phase::AiTurn { board, ai_side } => Some(
            Phase::OutcomeCheck { board: after_machine(board, ai_side), ai_side },
        ),
        Phase::OutcomeCheck { board, ai_side } => if verdict_of(board, ai_side) is None {
            Some(Phase::PlayerTurn { board, ai_side })
        } else {
            match input {
                Input::Again(true) => Some(Phase::Startup),
                Input::Again(false) => None,
                _ => Some(p),
            }
        },
    }
}

/// What there is to show after the step from phase `p` on `input`: the
/// board where a game has begun or a move was made, the objection where the
/// player's move was not made, and nothing otherwise.
pub open spec fn report_of(p: Phase, input: Input) -> Report {
    match p {
        Phase::Startup => match input {
            Input::Setup { side_length, ai_side } if side_allowed(side_length) => Report::Board,
            _ => Report::Silent,
        },
        Phase::PlayerTurn { board, ai_side } => match input {
            Input::Square { col, row } => match objection(board, col, row) {
                Some(e) => Report::Refused(e),
                None => Report::Board,
            },
            _ => Report::Silent,
        },
        Phase::AiTurn { board, ai_side } => if machine_moves(board) {
            Report::Board
        } else {
            Report::Silent
        },
        Phase::OutcomeCheck { .. } => Report::Silent,
    }
}

/// The state before a game: nothing is set up.
pub struct StartupStateData;

/// The state in which the player moves.
pub struct PlayerTurnStateData {
    grid: Grid,
    engine: AlphaBetaPruning,
}

/// The state in which the machine moves.
pub struct AiTurnStateData {
    grid: Grid,
    engine: AlphaBetaPruning,
}

/// The state in which the outcome is looked at.
pub struct OutcomeCheckStateData {
    grid: Grid,
    engine: AlphaBetaPruning,
}

/// A state of the game's driver.
pub enum StateType {
    Startup(StartupStateData),
    PlayerTurn(PlayerTurnStateData),
    AiTurn(AiTurnStateData),
    OutcomeCheck(OutcomeCheckStateData),
}

/// The state after a step, if the program goes on, and what to show.
pub struct Step {
    pub next: Option<StateType>,
    pub report: Report,
}

impl Step {
    /// This is the step that leads on from phase `p` on `input`.
    pub open spec fn follows(self, p: Phase, input: Input) -> bool {
        &&& self.report == report_of(p, input)
        &&& match self.next {
            Some(state) => next_phase(p, input) == Some(state@),
            None => next_phase(p, input) is None,
        }
    }
}

impl PlayerTurnStateData {
    #[verifier::type_invariant]
    spec fn board_is_square(&self) -> bool {
        self.grid.wf()
    }

    /// The board of the game.
    pub closed spec fn board(&self) -> Board {
        self.grid@
    }

    /// The mark that the machine plays.
    pub closed spec fn ai_side(&self) -> Mark {
        self.engine.side()
    }

    /// The board of the game.
    pub fn grid(&self) -> (g: &Grid)
        ensures
            g.wf(),
            g@ == self.board(),
    {
        proof {
            use_type_invariant(self);
        }
        &self.grid
    }
}

impl AiTurnStateData {
    #[verifier::type_invariant]
    spec fn board_is_square(&self) -> bool {
        self.grid.wf()
    }

    /// The board of the game.
    pub closed spec fn board(&self) -> Board {
        self.grid@
    }

    /// The mark that the machine plays.
    pub closed spec fn ai_side(&self) -> Mark {
        self.engine.side()
    }

    /// The board of the game.
    pub fn grid(&self) -> (g: &Grid)
        ensures
            g.wf(),
            g@ == self.board(),
    {
        proof {
            use_type_invariant(self);
        }
        &self.grid
    }
}

impl OutcomeCheckStateData {
    #[verifier::type_invariant]
    spec fn board_is_square(&self) -> bool {
        self.grid.wf()
    }

    /// The board of the game.
    pub closed spec fn board(&self) -> Board {
        self.grid@
    }

    /// The mark that the machine plays.
    pub closed spec fn ai_side(&self) -> Mark {
        self.engine.side()
    }

    /// The board of the game.
    pub fn grid(&self) -> (g: &Grid)
        ensures
            g.wf(),
            g@ == self.board(),
    {
        proof {
            use_type_invariant(self);
        }
        &self.grid
    }
}

impl View for StateType {
    type V = Phase;

    open spec fn view(&self) -> Phase {
        match self {
            StateType::Startup(_) => Phase::Startup,
            StateType::PlayerTurn(s) => Phase::PlayerTurn { board: s.board(), ai_side: s.ai_side() },
            StateType::AiTurn(s) => Phase::AiTurn { board: s.board(), ai_side: s.ai_side() },
            StateType::OutcomeCheck(s) => Phase::OutcomeCheck {
                board: s.board(),
                ai_side: s.ai_side(),
            },
        }
    }
}

impl StateType {
    /// The state that the program starts in.
    pub fn initial_state() -> (state: StateType)
        ensures
            state@ == Phase::Startup,
    {
        StateType::Startup(StartupStateData {  })
    }

    /// What the driver has to do in this state before it takes the next
    /// step.
    pub fn request(&self) -> (r: Request)
        ensures
            r == wanted(self@),
    {
        match self {
            StateType::Startup(_) => Request::Setup,
            StateType::PlayerTurn(_) => Request::Square,
            StateType::AiTurn(_) => Request::Pause,
            StateType::OutcomeCheck(s) => {
                let ai_side = s.engine.get_ai_side();
                match check_finished(s.grid(), ai_side) {
                    Some(v) => Request::Again(v),
                    None => Request::Proceed,
                }
            },
        }
    }

    /// The board of the game, once one is on.
    pub fn grid(&self) -> (g: Option<&Grid>)
        ensures
            match self@ {
                Phase::Startup => g is None,
                Phase::PlayerTurn { board, .. } => g is Some && g->0@ == board && g->0.wf(),
                Phase::AiTurn { board, .. } => g is Some && g->0@ == board && g->0.wf(),
                Phase::OutcomeCheck { board, .. } => g is Some && g->0@ == board && g->0.wf(),
            },
    {
        match self {
            StateType::Startup(_) => None,
            StateType::PlayerTurn(s) => Some(s.grid()),
            StateType::AiTurn(s) => Some(s.grid()),
            StateType::OutcomeCheck(s) => Some(s.grid()),
        }
    }

    /// Takes one step: from this state, on what the driver has got, to
    /// the next state, or to none where the program ends.
    pub fn to_next_state(self, input: Input) -> (step: Step)
        ensures
            step.follows(self@, input),
    {
        match self {
            StateType::Startup(s) => next_state(s, input),
            StateType::PlayerTurn(s) => next_state(s, input),
            StateType::AiTurn(s) => next_state(s, input),
            StateType::OutcomeCheck(s) => next_state(s, input),
        }
    }
}

/// A state that knows what follows it.
trait GameState: Sized {
    /// The phase that the state stands for.
    spec fn phase(&self) -> Phase;

    /// Takes one step from this state.
    fn get_next_state(self, input: Input) -> (step: Step)
        ensures
            step.follows(self.phase(), input),
    ;
}

fn next_state<T: GameState>(state: T, input: Input) -> (step: Step)
    ensures
        step.follows(state.phase(), input),
{
    state.get_next_state(input)
}

impl GameState for StartupStateData {
    spec fn phase(&self) -> Phase {
        Phase::Startup
    }

    fn get_next_state(self, input: Input) -> (step: Step) {
        match input {
            Input::Setup { side_length, ai_side } => {
                if 2 <= side_length && side_length <= MAX_GRID_SIZE {
                    let (grid, engine) = create_new_game(side_length, ai_side);
                    if engine.get_ai_side() == Mark::Cross {
                        Step {
                            next: Some(StateType::AiTurn(AiTurnStateData { grid, engine })),
                            report: Report::Board,
                        }
                    } else {
                        Step {
                            next: Some(StateType::PlayerTurn(PlayerTurnStateData { grid, engine })),
                            report: Report::Board,
                        }
                    }
                } else {
                    Step {
                        next: Some(StateType::Startup(StartupStateData {  })),
                        report: Report::Silent,
                    }
                }
            },
            _ => Step {
                next: Some(StateType::Startup(StartupStateData {  })),
                report: Report::Silent,
            },
        }
    }
}

impl GameState for PlayerTurnStateData {
    spec fn phase(&self) -> Phase {
        Phase::PlayerTurn { board: self.board(), ai_side: self.ai_side() }
    }

    fn get_next_state(self, input: Input) -> (step: Step) {
        proof {
            use_type_invariant(&self);
        }
        let player_side = match self.engine.get_ai_side() {
            Mark::Cross => Mark::Nought,
            Mark::Nought => Mark::Cross,
        };
        match input {
            Input::Square { col, row } => {
                let mut grid = self.grid;
                let engine = self.engine;
                match make_player_move(&mut grid, player_side, col, row) {
                    Ok(_) => Step {
                        next: Some(StateType::AiTurn(AiTurnStateData { grid, engine })),
                        report: Report::Board,
                    },
                    Err(e) => Step {
                        next: Some(StateType::PlayerTurn(PlayerTurnStateData { grid, engine })),
                        report: Report::Refused(e),
                    },
                }
            },
            _ => Step { next: Some(StateType::PlayerTurn(self)), report: Report::Silent },
        }
    }
}

impl GameState for AiTurnStateData {
    spec fn phase(&self) -> Phase {
        Phase::AiTurn { board: self.board(), ai_side: self.ai_side() }
    }

    fn get_next_state(self, input: Input) -> (step: Step) {
        proof {
            use_type_invariant(&self);
        }
        let mut grid = self.grid;
        let engine = self.engine;
        let moved = engine.try_make_move(&mut grid);
        Step {
            next: Some(StateType::OutcomeCheck(OutcomeCheckStateData { grid, engine })),
            report: if moved {
                Report::Board
            } else {
                Report::Silent
            },
        }
    }
}

impl GameState for OutcomeCheckStateData {
    spec fn phase(&self) -> Phase {
        Phase::OutcomeCheck { board: self.board(), ai_side: self.ai_side() }
    }

    fn get_next_state(self, input: Input) -> (step: Step) {
        proof {
            use_type_invariant(&self);
        }
        if check_finished(&self.grid, self.engine.get_ai_side()).is_some() {
            match input {
                Input::Again(true) => Step {
                    next: Some(StateType::Startup(StartupStateData {  })),
                    report: Report::Silent,
                },
                Input::Again(false) => Step { next: None, report: Report::Silent },
                _ => Step { next: Some(StateType::OutcomeCheck(self)), report: Report::Silent },
            }
        } else {
            Step {
                next: Some(
                    StateType::PlayerTurn(
                        PlayerTurnStateData { grid: self.grid, engine: self.engine },
                    ),
                ),
                report: Report::Silent,
            }
        }
    }
}

/// An empty board of the given side, and a player for the machine's mark.
pub fn create_new_game(grid_size: usize, ai_side: Mark) -> (game: (Grid, AlphaBetaPruning))
    requires
        2 <= grid_size <= MAX_GRID_SIZE,
    ensures
        game.0.wf(),
        game.0@ == Board::empty(grid_size as nat),
        game.1.side() == ai_side,
{
    assert(grid_size * grid_size <= 2500) by (nonlinear_arith)
        requires
            grid_size <= 50,
    ;
    (Grid::new(grid_size), AlphaBetaPruning::new(ai_side))
}

/// Marks the cell in column `col` of row `row` for the player, unless the
/// board has no such cell or the cell holds a mark already.
pub fn make_player_move(grid: &mut Grid, player_side: Mark, col: usize, row: usize) -> (r: Result<
    (),
    InputError,
>)
    requires
        old(grid).wf(),
    ensures
        final(grid).wf(),
        match objection(old(grid)@, col, row) {
            Some(e) => r == Err::<(), InputError>(e) && final(grid)@ == old(grid)@,
            None => r == Ok::<(), InputError>(()) && final(grid)@ == old(grid)@.place(
                row * old(grid)@.side + col,
                player_side,
            ),
        },
{
    if col >= grid.get_side_length() {
        return Err(InputError::IndexOutOfRange(Axis::Column, col));
    }
    if row >= grid.get_side_length() {
        return Err(InputError::IndexOutOfRange(Axis::Row, row));
    }
    match grid.set_at_pos(col, row, player_side) {
        Ok(()) => Ok(()),
        Err(mark) => Err(InputError::Occupied(mark)),
    }
}

/// How the game on `grid` has ended, if it has.
pub fn check_finished(grid: &Grid, ai_side: Mark) -> (v: Option<Verdict>)
    requires
        grid.wf(),
    ensures
        v == verdict_of(grid@, ai_side),
{
    if let Some(winner) = get_winner(grid) {
        if winner == ai_side {
            Some(Verdict::MachineWon)
        } else {
            Some(Verdict::PlayerWon)
        }
    } else if grid.is_full() {
        Some(Verdict::Draw)
    } else {
        None
    }
}

} // verus!
