use vstd::prelude::*;

verus! {

/// One of the two sides of a game; Black moves first.
#[derive(Clone, Copy, Debug, PartialEq, Eq, Structural, Hash)]
pub enum Player {
    White,
    Black,
}

impl Player {
    /// The other side.
    pub open spec fn spec_opponent(self) -> Player {
        match self {
            Player::White => Player::Black,
            Player::Black => Player::White,
        }
    }

    pub fn opponent(&self) -> (r: Player)
        ensures
            r == self.spec_opponent(),
    {
        match self {
            Player::White => Player::Black,
            Player::Black => Player::White,
        }
    }
}

/// Each player is the opponent of its opponent, and never its own.
pub proof fn lemma_opponent_involution(p: Player)
    ensures
        p.spec_opponent().spec_opponent() == p,
        p.spec_opponent() != p,
{
}

/// A stone placed by `player_id` at column `x`, row `y`.
#[derive(Clone, Copy, Debug)]
pub struct GameMove {
    pub x: usize,
    pub y: usize,
    pub player_id: Player,
}

#[derive(Debug, PartialEq, Eq, Structural, Clone, Copy)]
pub enum GameStatus {
    Ongoing,
    Finished,
}

#[derive(Clone, Copy, Debug, PartialEq, Eq, Structural)]
pub enum GameMode {
    PvP,
    PvE,
    EvE,
}

} // verus!

use std::collections::HashSet;

verus! {

broadcast use vstd::std_specs::hash::group_hash_axioms;

/// Captures made by each player: for each side, how many pairs it has
/// captured, and the indices in the move history of the moves that captured.
#[derive(Debug)]
pub struct CaptureTally {
    pub black: (usize, HashSet<usize>),
    pub white: (usize, HashSet<usize>),
}

impl CaptureTally {
    /// Pairs captured by `p`.
    pub open spec fn count_of(&self, p: Player) -> int {
        match p {
            Player::Black => self.black.0 as int,
            Player::White => self.white.0 as int,
        }
    }

    /// History indices of the moves with which `p` captured.
    pub open spec fn moves_of(&self, p: Player) -> Set<usize> {
        match p {
            Player::Black => self.black.1@,
            Player::White => self.white.1@,
        }
    }

    /// No captures yet.
    pub fn new() -> (r: Self)
        ensures
            r.count_of(Player::Black) == 0,
            r.count_of(Player::White) == 0,
            r.moves_of(Player::Black) == Set::<usize>::empty(),
            r.moves_of(Player::White) == Set::<usize>::empty(),
    {
        CaptureTally { black: (0, HashSet::new()), white: (0, HashSet::new()) }
    }

    /// Pairs captured by `p` (zero before its first capture).
    pub fn count(&self, p: Player) -> (r: usize)
        ensures
            r == self.count_of(p),
    {
        match p {
            Player::Black => self.black.0,
            Player::White => self.white.0,
        }
    }

    /// Records that the move at history index `index` captured `pairs` pairs for `p`.
    pub fn record(&mut self, p: Player, pairs: usize, index: usize)
        requires
            old(self).count_of(p) + pairs <= usize::MAX,
        ensures
            final(self).count_of(p) == old(self).count_of(p) + pairs,
            final(self).moves_of(p) == old(self).moves_of(p).insert(index),
            final(self).count_of(p.spec_opponent()) == old(self).count_of(p.spec_opponent()),
            final(self).moves_of(p.spec_opponent()) == old(self).moves_of(p.spec_opponent()),
    {
        match p {
            Player::Black => {
                self.black.0 = self.black.0 + pairs;
                self.black.1.insert(index);
            },
            Player::White => {
                self.white.0 = self.white.0 + pairs;
                self.white.1.insert(index);
            },
        }
    }

    /// Takes back what `record(p, pairs, index)` added.
    pub fn unrecord(&mut self, p: Player, pairs: usize, index: usize)
        requires
            old(self).count_of(p) >= pairs,
        ensures
            final(self).count_of(p) == old(self).count_of(p) - pairs,
            final(self).moves_of(p) == old(self).moves_of(p).remove(index),
            final(self).count_of(p.spec_opponent()) == old(self).count_of(p.spec_opponent()),
            final(self).moves_of(p.spec_opponent()) == old(self).moves_of(p.spec_opponent()),
    {
        match p {
            Player::Black => {
                self.black.0 = self.black.0 - pairs;
                self.black.1.remove(&index);
            },
            Player::White => {
                self.white.0 = self.white.0 - pairs;
                self.white.1.remove(&index);
            },
        }
    }
}

} // verus!

verus! {

/// Whose turn it is, how many moves have been played, and which cells
/// the player to move may not play.
#[derive(Debug)]
pub struct GameTurn {
    pub current_player: Player,
    pub turn: usize,
    pub forbidden_sequences: Vec<(usize, usize)>,
}

} // verus!

use crate::game::capture::Capture;
use crate::game::win::Win;
use crate::shared::types::Board;

verus! {

/// What one move did: the move, the stones it captured, the win it made.
#[derive(Debug)]
pub struct GameResult {
    pub game_move: GameMove,
    pub capture: Option<Capture>,
    pub win: Option<Win>,
}

/// The state of one game.
#[derive(Debug)]
pub struct GameState {
    /// 2D board representation.
    pub board: Board,
    /// The results of the moves played, oldest first.
    pub history: Vec<GameResult>,
    pub status: GameStatus,
    /// Captures per player.
    pub captures: CaptureTally,
    pub turn: GameTurn,
}

} // verus!
