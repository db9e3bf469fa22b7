use vstd::prelude::*;
use crate::board::lemma_trial_move_undone;
use crate::game::{
    Outcome, best_reply, classify, empty_count, lemma_best_reply_bounds,
    lemma_best_reply_monotone, lemma_mark_fills, lemma_selected_exists, lemma_selects_unique,
    reply_value, selected, selects, value,
};
use crate::grid::{Grid, Mark, get_winner};

verus! {

/// The machine's player: it looks through every continuation of a
/// position, leaving out branches that cannot change the result, and makes
/// the move that is best for its own mark.
pub struct AlphaBetaPruning {
    max_side: Mark,
    min_side: Mark,
}

impl AlphaBetaPruning {
    #[verifier::type_invariant]
    spec fn sides_differ(&self) -> bool {
        self.min_side == self.max_side.other()
    }

    /// The mark that the machine plays.
    pub closed spec fn side(&self) -> Mark {
        self.max_side
    }

    /// A player for the mark `ai_side`.
    pub fn new(ai_side: Mark) -> (engine: AlphaBetaPruning)
        ensures
            engine.side() == ai_side,
    {
        AlphaBetaPruning {
            max_side: ai_side,
            min_side: match ai_side {
                Mark::Nought => Mark::Cross,
                Mark::Cross => Mark::Nought,
            },
        }
    }

    /// The mark that the machine plays.
    pub fn get_ai_side(&self) -> (m: Mark)
        ensures
            m == self.side(),
    {
        self.max_side
    }

    /// Makes the machine's move, if the game is not over: marks the first
    /// cell among those of greatest value or, where every move loses, the
    /// last empty cell. Says whether it moved.
    pub fn try_make_move(&self, grid: &mut Grid) -> (moved: bool)
        requires
            old(grid).wf(),
        ensures
            final(grid).wf(),
            moved <==> old(grid)@.winner() is None && !old(grid)@.is_full(),
            !moved ==> final(grid)@ == old(grid)@,
            moved ==> final(grid)@ == old(grid)@.place(
                selected(old(grid)@, self.side()),
                self.side(),
            ),
    {
        if get_winner(grid).is_some() {
            return false;
        }
        let ghost b = grid@;
        let ghost me = self.max_side;
        let size = grid.get_size();

        let mut alpha = Outcome::Loss;
        let beta = Outcome::Win;

        let mut best_outcome = Outcome::Loss;
        let mut best_move: Option<Move> = None;
        let mut last_move: Option<Move> = None;

        let mut ind: usize = 0;
        while ind < size
            invariant_except_break
                ind <= size,
                best_outcome == best_reply(b, me, true, ind as int),
                best_outcome != Outcome::Win,
                alpha == best_outcome,
                match last_move {
                    Some(lm) => {
                        &&& lm.what == me
                        &&& lm.ind < ind
                        &&& lm.ind < size
                        &&& b.cells[lm.ind as int] is None
                        &&& forall|j: int| lm.ind < j < ind ==> (#[trigger] b.cells[j]) is Some
                    },
                    None => forall|j: int| 0 <= j < ind ==> (#[trigger] b.cells[j]) is Some,
                },
            invariant
                grid@ == b,
                b.wf(),
                b.winner() is None,
                size == b.cells.len(),
                me == self.max_side,
                beta == Outcome::Win,
                match best_move {
                    Some(bm) => {
                        &&& best_outcome != Outcome::Loss
                        &&& bm.what == me
                        &&& bm.ind < size
                        &&& b.cells[bm.ind as int] is None
                        &&& reply_value(b, me, bm.ind as int) == best_outcome
                        &&& forall|j: int|
                            0 <= j < bm.ind && b.cells[j] is None ==> (#[trigger] reply_value(
                                b,
                                me,
                                j,
                            )).rank() < best_outcome.rank()
                    },
                    None => best_outcome == Outcome::Loss,
                },
            ensures
                ind <= size,
                best_outcome == best_reply(b, me, true, size as int),
                best_outcome != Outcome::Win ==> match last_move {
                    Some(lm) => {
                        &&& lm.what == me
                        &&& lm.ind < size
                        &&& b.cells[lm.ind as int] is None
                        &&& forall|j: int| lm.ind < j < size ==> (#[trigger] b.cells[j]) is Some
                    },
                    None => forall|j: int| 0 <= j < size ==> (#[trigger] b.cells[j]) is Some,
                },
            decreases size - ind,
        {
            let next_move = Move { what: self.max_side, ind };
            if let Some(mover) = RevertingMoveMaker::from_move(grid, next_move) {
                last_move = Some(mover.get_move());
                proof {
                    lemma_mark_fills(b.cells, ind as int, me);
                }
                let outcome = self.minimizing_side(mover.grid, alpha, beta);
                let tried = mover.get_move();
                mover.revert();
                proof {
                    lemma_trial_move_undone(b, ind as int, me);
                }
                if outcome.score() > best_outcome.score() {
                    best_outcome = outcome;
                    best_move = Some(tried);
                    proof {
                        assert forall|j: int| 0 <= j < ind && b.cells[j] is None implies (
                        #[trigger] reply_value(b, me, j)).rank() < best_outcome.rank() by {
                            lemma_best_reply_bounds(b, me, ind as int, j);
                        }
                    }
                }
                if best_outcome.score() >= beta.score() {
                    proof {
                        lemma_best_reply_monotone(b, me, true, ind + 1, size as int);
                    }
                    break ;
                }
                alpha = alpha.max_with(best_outcome);
            }
            ind += 1;
        }

        if let Some(bm) = best_move {
            proof {
                lemma_selected_exists(b, me);
                lemma_selects_unique(b, me, bm.ind as int, selected(b, me));
            }
            PersistentMoveMaker::from_move(grid, bm);
            true
        } else if let Some(lm) = last_move {
            proof {
                lemma_selected_exists(b, me);
                lemma_selects_unique(b, me, lm.ind as int, selected(b, me));
            }
            PersistentMoveMaker::from_move(grid, lm);
            true
        } else {
            false
        }
    }

    /// The value of a position in which the machine moves, as far as the
    /// window from `alpha` to `beta` asks for it: exact inside the window, a
    /// bound from above at or below `alpha`, a bound from below at or above
    /// `beta`. The board comes back as it was.
    fn maximizing_side(&self, grid: &mut Grid, alpha: Outcome, beta: Outcome) -> (r: Outcome)
        requires
            old(grid).wf(),
            alpha.rank() < beta.rank(),
        ensures
            final(grid)@ == old(grid)@,
            r.rank() <= alpha.rank() ==> value(old(grid)@, self.side(), true).rank() <= r.rank(),
            alpha.rank() < r.rank() < beta.rank() ==> value(old(grid)@, self.side(), true) == r,
            beta.rank() <= r.rank() ==> value(old(grid)@, self.side(), true).rank() >= r.rank(),
        decreases empty_count(old(grid)@.cells), 0int,
    {
        if let Some(outcome) = self.check_finished(grid) {
            return outcome;
        }
        let ghost b = grid@;
        let ghost me = self.max_side;
        let ghost floor = alpha;
        let size = grid.get_size();
        let mut alpha = alpha;
        let mut best_outcome = Outcome::Loss;

        let mut ind: usize = 0;
        while ind < size
            invariant_except_break
                ind <= size,
                best_outcome.rank() < beta.rank(),
                best_outcome.rank() <= floor.rank() ==> best_reply(b, me, true, ind as int).rank()
                    <= best_outcome.rank(),
                best_outcome.rank() > floor.rank() ==> best_reply(b, me, true, ind as int)
                    == best_outcome,
                alpha == floor.better(best_outcome),
            invariant
                grid@ == b,
                b.wf(),
                size == b.cells.len(),
                me == self.max_side,
                floor.rank() < beta.rank(),
                empty_count(b.cells) == empty_count(old(grid)@.cells),
            ensures
                best_outcome.rank() <= floor.rank() ==> best_reply(b, me, true, size as int).rank()
                    <= best_outcome.rank(),
                floor.rank() < best_outcome.rank() < beta.rank() ==> best_reply(
                    b,
                    me,
                    true,
                    size as int,
                ) == best_outcome,
                beta.rank() <= best_outcome.rank() ==> best_reply(b, me, true, size as int).rank()
                    >= best_outcome.rank(),
            decreases size - ind,
        {
            let next_move = Move { what: self.max_side, ind };
            if let Some(mover) = RevertingMoveMaker::from_move(grid, next_move) {
                proof {
                    lemma_mark_fills(b.cells, ind as int, me);
                }
                let outcome = self.minimizing_side(mover.grid, alpha, beta);
                mover.revert();
                proof {
                    lemma_trial_move_undone(b, ind as int, me);
                }
                best_outcome = best_outcome.max_with(outcome);
                if best_outcome.score() >= beta.score() {
                    proof {
                        lemma_best_reply_monotone(b, me, true, ind + 1, size as int);
                    }
                    break ;
                }
                alpha = alpha.max_with(best_outcome);
            }
            ind += 1;
        }
        best_outcome
    }

    /// The value of a position in which the machine's opponent moves, as
    /// far as the window from `alpha` to `beta` asks for it: exact inside the
    /// window, a bound from above at or below `alpha`, a bound from below at
    /// or above `beta`. The board comes back as it was.
    fn minimizing_side(&self, grid: &mut Grid, alpha: Outcome, beta: Outcome) -> (r: Outcome)
        requires
            old(grid).wf(),
            alpha.rank() < beta.rank(),
        ensures
            final(grid)@ == old(grid)@,
            r.rank() <= alpha.rank() ==> value(old(grid)@, self.side(), false).rank() <= r.rank(),
            alpha.rank() < r.rank() < beta.rank() ==> value(old(grid)@, self.side(), false) == r,
            beta.rank() <= r.rank() ==> value(old(grid)@, self.side(), false).rank() >= r.rank(),
        decreases empty_count(old(grid)@.cells), 0int,
    {
        proof {
            use_type_invariant(self);
        }
        if let Some(outcome) = self.check_finished(grid) {
            return outcome;
        }
        let ghost b = grid@;
        let ghost me = self.max_side;
        let ghost ceiling = beta;
        let size = grid.get_size();
        let mut beta = beta;
        let mut best_outcome = Outcome::Win;

        let mut ind: usize = 0;
        while ind < size
            invariant_except_break
                ind <= size,
                best_outcome.rank() > alpha.rank(),
                best_outcome.rank() >= ceiling.rank() ==> best_reply(
                    b,
                    me,
                    false,
                    ind as int,
                ).rank() >= best_outcome.rank(),
                best_outcome.rank() < ceiling.rank() ==> best_reply(b, me, false, ind as int)
                    == best_outcome,
                beta == ceiling.worse(best_outcome),
            invariant
                grid@ == b,
                b.wf(),
                size == b.cells.len(),
                me == self.max_side,
                self.min_side == me.other(),
                alpha.rank() < ceiling.rank(),
                empty_count(b.cells) == empty_count(old(grid)@.cells),
            ensures
                best_outcome.rank() >= ceiling.rank() ==> best_reply(
                    b,
                    me,
                    false,
                    size as int,
                ).rank() >= best_outcome.rank(),
                alpha.rank() < best_outcome.rank() < ceiling.rank() ==> best_reply(
                    b,
                    me,
                    false,
                    size as int,
                ) == best_outcome,
                best_outcome.rank() <= alpha.rank() ==> best_reply(b, me, false, size as int).rank()
                    <= best_outcome.rank(),
            decreases size - ind,
        {
            let next_move = Move { what: self.min_side, ind };
            if let Some(mover) = RevertingMoveMaker::from_move(grid, next_move) {
                proof {
                    lemma_mark_fills(b.cells, ind as int, me.other());
                }
                let outcome = self.maximizing_side(mover.grid, alpha, beta);
                mover.revert();
                proof {
                    lemma_trial_move_undone(b, ind as int, me.other());
                }
                best_outcome = best_outcome.min_with(outcome);
                if best_outcome.score() <= alpha.score() {
                    proof {
                        lemma_best_reply_monotone(b, me, false, ind + 1, size as int);
                    }
                    break ;
                }
                beta = beta.min_with(best_outcome);
            }
            ind += 1;
        }
        best_outcome
    }

    /// How the game on `grid` has ended for the machine, if it has.
    fn check_finished(&self, grid: &Grid) -> (r: Option<Outcome>)
        requires
            grid.wf(),
        ensures
            r == classify(grid@, self.side()),
    {
        if let Some(winner) = get_winner(grid) {
            if winner == self.max_side {
                Some(Outcome::Win)
            } else {
                Some(Outcome::Loss)
            }
        } else if grid.is_full() {
            Some(Outcome::Draw)
        } else {
            None
        }
    }
}

/// A mark and the cell that it is meant for.
#[derive(Copy, Clone, PartialEq, Eq, Debug, Structural)]
pub struct Move {
    pub what: Mark,
    pub ind: usize,
}

/// A way of making a move on a board.
pub trait MoveMaker<'a>: Sized {
    /// The move that was made.
    spec fn made(&self) -> Move;

    /// Makes move `m` where its cell is empty, and changes nothing where it
    /// is not.
    fn from_move(grid: &'a mut Grid, m: Move) -> (made: Option<Self>)
        requires
            m.ind < old(grid)@.cells.len(),
        ensures
            made is Some <==> old(grid)@.cells[m.ind as int] is None,
            made is Some ==> made->0.made() == m,
            made is None ==> final(grid)@ == old(grid)@,
    ;

    /// The move that was made.
    fn get_move(&self) -> (m: Move)
        ensures
            m == self.made(),
    ;
}

/// A move made for a trial: it holds the board until `revert` takes the
/// mark off again.
#[must_use]
pub struct RevertingMoveMaker<'a> {
    pub grid: &'a mut Grid,
    pub saved_move: Move,
}

impl<'a> MoveMaker<'a> for RevertingMoveMaker<'a> {
    open spec fn made(&self) -> Move {
        self.saved_move
    }

    fn from_move(grid: &'a mut Grid, m: Move) -> (made: Option<RevertingMoveMaker<'a>>)
        ensures
            made is Some ==> made->0.grid@ == old(grid)@.place(m.ind as int, m.what),
            made is Some ==> *final(grid) == *final(made->0.grid),
    {
        match grid.set_at_ind(m.ind, m.what) {
            Ok(_) => Some(RevertingMoveMaker { grid, saved_move: m }),
            Err(_) => None,
        }
    }

    fn get_move(&self) -> (m: Move) {
        self.saved_move
    }
}

impl<'a> RevertingMoveMaker<'a> {
    /// Takes the mark off again and gives the board back.
    pub fn revert(self)
        requires
            self.saved_move.ind < old(self.grid)@.cells.len(),
        ensures
            final(self.grid)@ == old(self.grid)@.erase(self.saved_move.ind as int),
    {
        self.grid.unset_at_ind(self.saved_move.ind);
    }
}

/// A move made for good.
pub struct PersistentMoveMaker {
    saved_move: Move,
}

impl MoveMaker<'_> for PersistentMoveMaker {
    closed spec fn made(&self) -> Move {
        self.saved_move
    }

    fn from_move(grid: &mut Grid, m: Move) -> (made: Option<PersistentMoveMaker>)
        ensures
            made is Some ==> final(grid)@ == old(grid)@.place(m.ind as int, m.what),
    {
        match grid.set_at_ind(m.ind, m.what) {
            Ok(_) => Some(PersistentMoveMaker { saved_move: m }),
            Err(_) => None,
        }
    }

    fn get_move(&self) -> (m: Move) {
        self.saved_move
    }
}

} // verus!
