//! The turn loop: a match of two boards and the state machine that
//! alternates player and opponent shots until one fleet is sunk.

use vstd::prelude::*;
use crate::board::{Board, BoardError, CellState, fire_outcome, fired};
use crate::strategy::generate_opponent_move;

verus! {

/// Control state of a match; the last two are terminal.
#[derive(Clone, Copy, Debug, PartialEq, Eq, Structural)]
pub enum TurnState {
    PlayerTurn,
    OpponentTurn,
    PlayerWon,
    OpponentWon,
}

/// Two independently owned boards and whose turn it is. Each side fires
/// only at the other side's board.
pub struct Match {
    pub(crate) player_board: Board,
    pub(crate) opponent_board: Board,
    pub(crate) state: TurnState,
}

impl Match {
    /// The board owned by the player (the opponent shoots at it).
    pub open(crate) spec fn player(&self) -> Board {
        self.player_board
    }

    /// The board owned by the opponent (the player shoots at it).
    pub open(crate) spec fn opponent(&self) -> Board {
        self.opponent_board
    }

    pub open(crate) spec fn turn(&self) -> TurnState {
        self.state
    }

    /// Both boards are well-formed standard grids, and a terminal state is
    /// only ever entered because the corresponding fleet was sunk.
    pub open(crate) spec fn wf(&self) -> bool {
        &&& self.player_board.wf()
        &&& self.opponent_board.wf()
        &&& self.player_board.side() == crate::BOARD_SIZE as int
        &&& self.opponent_board.side() == crate::BOARD_SIZE as int
        &&& (self.state == TurnState::PlayerWon ==> self.opponent_board.game_over())
        &&& (self.state == TurnState::OpponentWon ==> self.player_board.game_over())
    }

    /// Start a match from two populated standard boards; the player moves
    /// first.
    pub fn new(player_board: Board, opponent_board: Board) -> (m: Match)
        requires
            player_board.wf(),
            opponent_board.wf(),
            player_board.side() == crate::BOARD_SIZE as int,
            opponent_board.side() == crate::BOARD_SIZE as int,
        ensures
            m.wf(),
            m.turn() == TurnState::PlayerTurn,
            m.player() == player_board,
            m.opponent() == opponent_board,
    {
        Match { player_board, opponent_board, state: TurnState::PlayerTurn }
    }

    /// Whose turn it is, or which side has won.
    pub fn turn_state(&self) -> (s: TurnState)
        ensures
            s == self.turn(),
    {
        self.state
    }

    /// True iff the match has reached a terminal state.
    pub fn is_finished(&self) -> (r: bool)
        ensures
            r == (self.turn() == TurnState::PlayerWon || self.turn() == TurnState::OpponentWon),
    {
        match self.state {
            TurnState::PlayerWon => true,
            TurnState::OpponentWon => true,
            _ => false,
        }
    }

    /// State of a cell of the opponent's board, for rendering.
    pub fn opponent_cell(&self, row: usize, col: usize) -> (r: Result<CellState, BoardError>)
        requires
            self.wf(),
        ensures
            self.opponent().in_bounds(row as int, col as int) ==> r == Ok::<
                CellState,
                BoardError,
            >(self.opponent().cell(row as int, col as int)),
            !self.opponent().in_bounds(row as int, col as int) ==> r == Err::<
                CellState,
                BoardError,
            >(BoardError::OutOfBounds),
    {
        self.opponent_board.cell_state(row, col)
    }

    /// State of a cell of the player's board, for rendering.
    pub fn player_cell(&self, row: usize, col: usize) -> (r: Result<CellState, BoardError>)
        requires
            self.wf(),
        ensures
            self.player().in_bounds(row as int, col as int) ==> r == Ok::<CellState, BoardError>(
                self.player().cell(row as int, col as int),
            ),
            !self.player().in_bounds(row as int, col as int) ==> r == Err::<
                CellState,
                BoardError,
            >(BoardError::OutOfBounds),
    {
        self.player_board.cell_state(row, col)
    }

    /// The player fires at the opponent's board. If that sinks the whole
    /// fleet the match ends with the player winning, else the opponent
    /// moves next.
    pub fn player_fire(&mut self, row: usize, col: usize) -> (outcome: CellState)
        requires
            old(self).wf(),
            old(self).turn() == TurnState::PlayerTurn,
            row < crate::BOARD_SIZE,
            col < crate::BOARD_SIZE,
        ensures
            final(self).wf(),
            final(self).player() == old(self).player(),
            fired(old(self).opponent(), final(self).opponent(), row as int, col as int),
            outcome == fire_outcome(old(self).opponent().cell(row as int, col as int)),
            final(self).turn() == (if final(self).opponent().game_over() {
                TurnState::PlayerWon
            } else {
                TurnState::OpponentTurn
            }),
    {
        let outcome = self.opponent_board.fire(row, col);
        if self.opponent_board.is_game_over() {
            self.state = TurnState::PlayerWon;
        } else {
            self.state = TurnState::OpponentTurn;
        }
        outcome
    }

    /// The opponent fires at a uniformly random cell of the player's board.
    /// If that sinks the whole fleet the match ends with the opponent
    /// winning, else the player moves next. Returns the target and the
    /// outcome of the shot.
    pub fn opponent_fire(&mut self, rng: &mut rand::rngs::ThreadRng) -> (shot: (
        (usize, usize),
        CellState,
    ))
        requires
            old(self).wf(),
            old(self).turn() == TurnState::OpponentTurn,
        ensures
            final(self).wf(),
            final(self).opponent() == old(self).opponent(),
            shot.0.0 < crate::BOARD_SIZE && shot.0.1 < crate::BOARD_SIZE,
            fired(old(self).player(), final(self).player(), shot.0.0 as int, shot.0.1 as int),
            shot.1 == fire_outcome(old(self).player().cell(shot.0.0 as int, shot.0.1 as int)),
            final(self).turn() == (if final(self).player().game_over() {
                TurnState::OpponentWon
            } else {
                TurnState::PlayerTurn
            }),
    {
        let target = generate_opponent_move(rng);
        let outcome = self.player_board.fire(target.0, target.1);
        if self.player_board.is_game_over() {
            self.state = TurnState::OpponentWon;
        } else {
            self.state = TurnState::PlayerTurn;
        }
        (target, outcome)
    }

    /// Place the fixed fleet (lengths 5, 4, 3, 3, 2) on a board, adding
    /// exactly 17 ship cells on success.
    fn place_fleet(board: &mut Board, rng: &mut rand::rngs::ThreadRng) -> (res: Result<
        (),
        BoardError,
    >)
        requires
            old(board).wf(),
        ensures
            final(board).wf(),
            final(board).side() == old(board).side(),
            res is Ok ==> final(board).ships().len() == old(board).ships().len() + 17,
            res is Err ==> res == Err::<(), BoardError>(BoardError::PlacementExhausted),
    {
        match board.place_ship(5, rng) {
            Ok(()) => (),
            Err(e) => {
                return Err(e);
            },
        }
        match board.place_ship(4, rng) {
            Ok(()) => (),
            Err(e) => {
                return Err(e);
            },
        }
        match board.place_ship(3, rng) {
            Ok(()) => (),
            Err(e) => {
                return Err(e);
            },
        }
        match board.place_ship(3, rng) {
            Ok(()) => (),
            Err(e) => {
                return Err(e);
            },
        }
        match board.place_ship(2, rng) {
            Ok(()) => (),
            Err(e) => {
                return Err(e);
            },
        }
        Ok(())
    }

    /// Build a fresh match: two standard boards, each populated with the
    /// same fixed fleet, player to move first. Reports PlacementExhausted
    /// if some ship could find no room.
    pub fn new_with_fleet(rng: &mut rand::rngs::ThreadRng) -> (res: Result<Match, BoardError>)
        ensures
            res matches Ok(m) ==> m.wf() && m.turn() == TurnState::PlayerTurn && m.player().ships().len()
                == 17 && m.opponent().ships().len() == 17,
            res is Err ==> res == Err::<Match, BoardError>(BoardError::PlacementExhausted),
    {
        let mut player_board = Board::new();
        let mut opponent_board = Board::new();
        match Self::place_fleet(&mut player_board, rng) {
            Ok(()) => (),
            Err(e) => {
                return Err(e);
            },
        }
        match Self::place_fleet(&mut opponent_board, rng) {
            Ok(()) => (),
            Err(e) => {
                return Err(e);
            },
        }
        Ok(Match::new(player_board, opponent_board))
    }
}

} // verus!
