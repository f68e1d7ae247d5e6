//! The puzzle: a row of glasses, the player's selection, and the rules by
//! which balls move from the selected glass to a target.

use vstd::prelude::*;
use crate::ball::Ball;
use crate::glass::{lemma_run_at_end, Column, Glass};

verus! {

/// Why a move is not allowed. The checks are made in the order of the
/// variants, and the first that fails gives the answer.
#[derive(PartialEq, Eq, Structural, Clone, Copy, Debug)]
pub enum MoveError {
    /// No glass is selected.
    NoSelection,
    /// The target is the selected glass itself.
    SameContainer,
    /// The target names no glass of the puzzle.
    InvalidTarget,
    /// The selected glass holds no ball, or the selection names no glass of
    /// the puzzle.
    SourceEmpty,
    /// The target glass has no room.
    TargetFull,
    /// The top balls of the selected glass and of the target differ in colour.
    ColorMismatch,
}

impl MoveError {
    /// What is said to the player about the refusal.
    pub open spec fn text(self) -> Seq<char> {
        match self {
            MoveError::NoSelection => "No Glass selected"@,
            MoveError::SameContainer => "Cannot swap into same glass"@,
            MoveError::InvalidTarget => "Target glass does not exist"@,
            MoveError::SourceEmpty => "Selected Glass is empty"@,
            MoveError::TargetFull => "Target Glass is full"@,
            MoveError::ColorMismatch => "Mismatched balls in glasses"@,
        }
    }

    /// What is said to the player about the refusal.
    pub fn message(&self) -> (message: &'static str)
        ensures
            message@ == self.text(),
    {
        match self {
            MoveError::NoSelection => "No Glass selected",
            MoveError::SameContainer => "Cannot swap into same glass",
            MoveError::InvalidTarget => "Target glass does not exist",
            MoveError::SourceEmpty => "Selected Glass is empty",
            MoveError::TargetFull => "Target Glass is full",
            MoveError::ColorMismatch => "Mismatched balls in glasses",
        }
    }
}

/// The model of a puzzle: its glasses from left to right, and the index
/// that the player has selected, if any.
#[verifier::ext_equal]
pub struct Board {
    pub columns: Seq<Column>,
    pub selection: Option<nat>,
}

impl Board {
    /// In every glass the balls fit.
    pub open spec fn wf(self) -> bool {
        forall|i: int| 0 <= i < self.columns.len() ==> (#[trigger] self.columns[i]).wf()
    }

    /// The board after the player has picked `index`: picking the selected
    /// index again clears the selection, any other index becomes the
    /// selection, whether or not a glass stands there.
    pub open spec fn select(self, index: nat) -> Board {
        Board {
            columns: self.columns,
            selection: if self.selection == Some(index) {
                None
            } else {
                Some(index)
            },
        }
    }

    /// Whether the top run of the selected glass may move to `target`.
    ///
    /// The selection is held against the number of glasses only here, after
    /// the target: a selection that names no glass has no ball to give and
    /// is answered like an empty glass.
    pub open spec fn check_move(self, target: nat) -> Result<(), MoveError> {
        match self.selection {
            None => Err(MoveError::NoSelection),
            Some(from) => {
                let source = self.columns[from as int];
                let dest = self.columns[target as int];
                if from == target {
                    Err(MoveError::SameContainer)
                } else if target >= self.columns.len() {
                    Err(MoveError::InvalidTarget)
                } else if from >= self.columns.len() || source.is_empty() {
                    Err(MoveError::SourceEmpty)
                } else if dest.is_full() {
                    Err(MoveError::TargetFull)
                } else if !dest.is_empty() && dest.top() != source.top() {
                    Err(MoveError::ColorMismatch)
                } else {
                    Ok(())
                }
            },
        }
    }

    /// The board after a move to `target` has been asked for. A move that is
    /// not allowed changes nothing. An allowed move takes the whole top run
    /// off the selected glass and puts as many of its balls onto the target
    /// as fit; the others leave the puzzle. The selection stays.
    pub open spec fn after_move(self, target: nat) -> Board {
        match self.selection {
            Some(from) if self.check_move(target) is Ok => {
                let source = self.columns[from as int];
                let dest = self.columns[target as int];
                let run = source.top_run();
                let moved = if run <= dest.available() {
                    run
                } else {
                    dest.available() as nat
                };
                Board {
                    columns: self.columns.update(from as int, source.drop_top(run)).update(
                        target as int,
                        dest.push_run(source.balls.last(), moved),
                    ),
                    selection: self.selection,
                }
            },
            _ => self,
        }
    }

    /// Every glass is solved.
    pub open spec fn is_completed(self) -> bool {
        forall|i: int| 0 <= i < self.columns.len() ==> (#[trigger] self.columns[i]).is_solved()
    }
}

/// The models of a row of glasses.
pub open spec fn columns_of(glasses: Seq<Glass>) -> Seq<Column> {
    Seq::new(glasses.len(), |i: int| glasses[i]@)
}

/// A puzzle.
pub struct Game {
    glasses: Vec<Glass>,
    selected: Option<u8>,
}

impl View for Game {
    type V = Board;

    closed spec fn view(&self) -> Board {
        Board {
            columns: columns_of(self.glasses@),
            selection: match self.selected {
                Some(index) => Some(index as nat),
                None => None,
            },
        }
    }
}

impl Game {
    /// A puzzle made of the given glasses, with nothing selected.
    pub fn new(glasses: Vec<Glass>) -> (game: Self)
        requires
            forall|i: int| 0 <= i < glasses@.len() ==> (#[trigger] glasses@[i])@.wf(),
        ensures
            game@ == (Board { columns: columns_of(glasses@), selection: None }),
            game@.wf(),
    {
        Self { glasses, selected: None }
    }

    /// The glasses, from left to right.
    pub fn glasses(&self) -> (glasses: &Vec<Glass>)
        ensures
            columns_of(glasses@) == self@.columns,
    {
        &self.glasses
    }

    /// The selected index, if any.
    pub fn selected(&self) -> (selected: Option<u8>)
        ensures
            match selected {
                Some(index) => self@.selection == Some(index as nat),
                None => self@.selection is None,
            },
    {
        self.selected
    }

    /// Whether the top run of the selected glass may move to `target`, and
    /// if not, why not.
    pub fn is_swap_possible(&self, target: u8) -> (result: Result<(), MoveError>)
        ensures
            result == self@.check_move(target as nat),
    {
        let from = match self.selected {
            None => {
                return Err(MoveError::NoSelection);
            },
            Some(index) => index,
        };
        if from == target {
            return Err(MoveError::SameContainer);
        }
        if target as usize >= self.glasses.len() {
            return Err(MoveError::InvalidTarget);
        }
        if from as usize >= self.glasses.len() {
            return Err(MoveError::SourceEmpty);
        }
        let source = &self.glasses[from as usize];
        let dest = &self.glasses[target as usize];
        if source.is_empty() {
            return Err(MoveError::SourceEmpty);
        }
        if dest.is_full() {
            return Err(MoveError::TargetFull);
        }
        match (dest.get_top(), source.get_top()) {
            (Some(below), Some(above)) => {
                if *above != *below {
                    return Err(MoveError::ColorMismatch);
                }
            },
            _ => {},
        }
        Ok(())
    }

    /// Picks `target`: picking the selected index again clears the
    /// selection, any other index becomes the selection. The index is not
    /// held against the number of glasses here.
    pub fn select_glass(&mut self, target: u8)
        ensures
            final(self)@ == old(self)@.select(target as nat),
    {
        if self.selected == Some(target) {
            self.selected = None;
        } else {
            self.selected = Some(target);
        }
    }

    /// Moves the top run of the selected glass to `target` if the move is
    /// allowed, and does nothing if it is not.
    pub fn swap_glasses(&mut self, target: u8)
        requires
            old(self)@.wf(),
        ensures
            final(self)@ == old(self)@.after_move(target as nat),
            final(self)@.wf(),
    {
        if self.is_swap_possible(target).is_err() {
            return;
        }
        let from = self.selected.unwrap() as usize;
        let to = target as usize;
        let ghost before = self.glasses@;
        let ghost source = before[from as int]@;
        let ghost dest = before[to as int]@;
        let ghost top = source.balls.last();

        // Take the top run off the selected glass.
        let run = self.glasses[from].top_run();
        proof {
            lemma_run_at_end(source.balls, top);
            assert(source.drop_top(0) =~= source);
        }
        let mut taken: Vec<Ball> = Vec::new();
        let mut i: usize = 0;
        while i < run
            invariant
                i <= run == source.top_run() <= source.balls.len(),
                from < before.len() == self.glasses@.len(),
                self.selected == old(self).selected,
                forall|k: int|
                    0 <= k < before.len() && k != from ==> self.glasses@[k] == before[k],
                self.glasses@[from as int]@ == source.drop_top(i as nat),
                forall|k: int|
                    source.balls.len() - run <= k < source.balls.len() ==> source.balls[k]
                        == top,
                taken@ == Seq::new(i as nat, |k: int| top),
            decreases run - i,
        {
            let ball = self.glasses[from].pop().unwrap();
            assert(source.drop_top(i as nat).pop() =~= source.drop_top((i + 1) as nat));
            taken.push(ball);
            i += 1;
        }

        // Put the balls onto the target for as long as it has room.
        proof {
            assert(dest.push_run(top, 0) =~= dest);
        }
        let mut j: usize = 0;
        while j < taken.len()
            invariant
                j <= run == taken@.len() == source.top_run(),
                taken@ == Seq::new(run as nat, |k: int| top),
                dest.wf(),
                j <= dest.available(),
                from != to,
                from < before.len(),
                to < before.len() == self.glasses@.len(),
                self.selected == old(self).selected,
                forall|k: int|
                    0 <= k < before.len() && k != from && k != to ==> self.glasses@[k]
                        == before[k],
                self.glasses@[from as int]@ == source.drop_top(run as nat),
                self.glasses@[to as int]@ == dest.push_run(top, j as nat),
            ensures
                j == run || j == dest.available(),
            decreases run - j,
        {
            if self.glasses[to].is_full() {
                break;
            }
            self.glasses[to].push(taken[j]).unwrap();
            assert(dest.push_run(top, j as nat).push(top) =~= dest.push_run(top, (j + 1) as nat));
            j += 1;
        }
        proof {
            let expected = old(self)@.after_move(target as nat);
            assert forall|k: int| 0 <= k < before.len() implies self@.columns[k]
                == expected.columns[k] by {
                if k != to && k != from {
                    assert(self.glasses@[k] == before[k]);
                }
            }
            assert(self@ =~= expected);
        }
    }

    /// Whether every glass is solved.
    pub fn is_completed(&self) -> (completed: bool)
        ensures
            completed == self@.is_completed(),
    {
        let mut i: usize = 0;
        while i < self.glasses.len()
            invariant
                i <= self.glasses@.len(),
                forall|k: int| 0 <= k < i ==> (#[trigger] self@.columns[k]).is_solved(),
            decreases self.glasses@.len() - i,
        {
            if !self.glasses[i].is_completed() {
                assert(!self@.columns[i as int].is_solved());
                return false;
            }
            i += 1;
        }
        true
    }
}

/// A selection that names no glass never lets a move through: validation
/// answers with an error, and which one is decided by the target alone.
pub proof fn lemma_selection_out_of_range(board: Board, from: nat, target: nat)
    requires
        board.selection == Some(from),
        from >= board.columns.len(),
    ensures
        board.check_move(target) == Err::<(), MoveError>(
            if from == target {
                MoveError::SameContainer
            } else if target >= board.columns.len() {
                MoveError::InvalidTarget
            } else {
                MoveError::SourceEmpty
            },
        ),
        board.after_move(target) == board,
{
}

/// With nothing selected, validation answers `NoSelection` for every
/// target, whatever else is wrong with the move.
pub proof fn lemma_no_selection(board: Board, target: nat)
    requires
        board.selection is None,
    ensures
        board.check_move(target) == Err::<(), MoveError>(MoveError::NoSelection),
{
}

/// A move that validation refuses leaves the board as it is.
pub proof fn lemma_refused_move(board: Board, target: nat)
    requires
        board.check_move(target) is Err,
    ensures
        board.after_move(target) == board,
{
}

/// A move, allowed or not, keeps the selection, the number of glasses and
/// their capacities, and on a board whose balls all fit, the balls fit
/// afterwards too.
pub proof fn lemma_move_keeps_shape(board: Board, target: nat)
    ensures
        board.after_move(target).selection == board.selection,
        board.after_move(target).columns.len() == board.columns.len(),
        forall|k: int|
            0 <= k < board.columns.len() ==> (#[trigger] board.after_move(
                target,
            ).columns[k]).capacity == board.columns[k].capacity,
        board.wf() ==> board.after_move(target).wf(),
{
    if board.check_move(target) is Ok {
        let from = board.selection->Some_0 as int;
        lemma_run_at_end(board.columns[from].balls, board.columns[from].balls.last());
    }
}

} // verus!
