use vstd::prelude::*;
use crate::piece::{tile_code};
use crate::board::{Board, GameState, PossibleMove};
use crate::apply::{apply_move, start_code};
use crate::piece::tile_of_code;
use crate::legal::{legal_moves, requested_move};
use crate::search::{choose_move, fresh_tree, picks, steps_from, SearchTree, VISIT_LIMIT};
use crate::legal::after_listing;
use crate::apply::{material_agrees, kings_agree};
use crate::piece::{color_index, opponent};
use crate::board::side_to_move;
use crate::pos::Pos;

verus! {

/// The default number of expansion steps behind each reply.
pub const DEFAULT_STEPS: u64 = 1000;

impl Board {
    /// The wire codes of the 64 tiles.
    pub fn get_data(&self) -> (r: [u32; 64])
        ensures
            forall|i: int| 0 <= i < 64 ==> r[i] as int == tile_code(#[trigger] self.data[i]),
    {
        let mut array: [u32; 64] = [0; 64];
        let mut x: usize = 0;
        while x < 64
            invariant
                x <= 64,
                forall|i: int| 0 <= i < x ==> array[i] as int == tile_code(#[trigger] self.data[i]),
            decreases 64 - x,
        {
            array[x] = self.data[x].to_num();
            x = x + 1;
        }
        array
    }

    pub fn get_state(&self) -> (r: GameState)
        ensures
            r == self.state,
    {
        self.state
    }

    pub fn get_value_counts(&self) -> (r: [i64; 2])
        ensures
            r == self.value_counts,
    {
        self.value_counts
    }

    pub fn get_counter(&self) -> (r: i32)
        ensures
            r == self.counter,
    {
        self.counter
    }
}

/// A game between a player and the engine: the position, the winner once
/// known (-1 before, else the color's index), whether the player's last move
/// was played, and the search budget of each reply.
pub struct Game {
    pub board: Board,
    pub winner: i8,
    pub succ_move: bool,
    pub steps: u64,
}

impl Game {
    pub open spec fn wf(&self) -> bool {
        &&& self.board.wf()
        &&& self.steps < VISIT_LIMIT
    }

    pub open spec fn board_spec(&self) -> Board {
        self.board
    }

    pub open spec fn winner_spec(&self) -> i8 {
        self.winner
    }

    pub open spec fn steps_spec(&self) -> u64 {
        self.steps
    }

    /// A game from the starting position.
    pub fn new() -> (g: Game)
        ensures
            g.wf(),
            g.board_spec().counter == 0,
            g.board_spec().state == GameState::Ongoing,
            forall|i: int| 0 <= i < 64 ==> g.board_spec().data[i] == tile_of_code(start_code(i)),
            g.board_spec().king_positions[0] == Pos::at(3, 0),
            g.board_spec().king_positions[1] == Pos::at(3, 7),
            material_agrees(g.board_spec()@),
            kings_agree(g.board_spec()@),
            g.winner_spec() == -1,
            g.succ_move,
            g.steps_spec() == DEFAULT_STEPS,
    {
        Game { board: Board::new(), winner: -1, succ_move: true, steps: DEFAULT_STEPS }
    }

    /// Sets the number of expansion steps behind each reply.
    pub fn set_steps(&mut self, steps: u64)
        requires
            old(self).wf(),
            steps < VISIT_LIMIT,
        ensures
            final(self).wf(),
            final(self).steps_spec() == steps,
            final(self).board_spec() == old(self).board_spec(),
    {
        self.steps = steps;
    }

    pub fn get_board(&self) -> (r: Board)
        ensures
            r == self.board_spec(),
    {
        self.board
    }

    pub fn get_winner(&self) -> (r: i8)
        ensures
            r == self.winner_spec(),
    {
        self.winner
    }

    /// The wire codes of the position.
    pub fn get_data(&self) -> (r: [u32; 64])
        ensures
            forall|i: int| 0 <= i < 64 ==> r[i] as int == tile_code(#[trigger] self.board_spec().data[i]),
    {
        self.board.get_data()
    }

    /// Plays the player's move if the game goes on and the move is legal;
    /// returns the position's wire codes.
    pub fn make_move(&mut self, start: usize, end: usize, upgrade: u8) -> (r: [u32; 64])
        requires
            old(self).wf(),
            old(self).board_spec().counter < i32::MAX,
            start < 64,
            end < 64,
        ensures
            final(self).wf(),
            final(self).steps_spec() == old(self).steps_spec(),
            final(self).winner_spec() == old(self).winner_spec(),
            old(self).board_spec().state != GameState::Ongoing ==> *final(self) == *old(self),
            old(self).board_spec().state == GameState::Ongoing ==> final(self).succ_move == (
            final(self).board_spec().counter != old(self).board_spec().counter),
            final(self).board_spec()@ == if old(self).board_spec().state != GameState::Ongoing {
                old(self).board_spec()@
            } else {
                match requested_move(old(self).board_spec()@, start, end, upgrade) {
                    Some(m) => apply_move(old(self).board_spec()@, m),
                    None => old(self).board_spec()@,
                }
            },
            forall|i: int| 0 <= i < 64 ==> r[i] as int == tile_code(#[trigger] final(self).board_spec().data[i]),
    {
        if self.board.state != GameState::Ongoing {
            return self.board.get_data();
        }
        let counter = self.board.counter;
        self.board = self.board.update(start, end, upgrade);
        self.succ_move = counter != self.board.counter;
        self.board.get_data()
    }

    /// The engine's reply, after a move of the player's that was played: if
    /// the side to move has no legal move or the game is won, the winner is
    /// recorded; else the searched move is played. Returns the position's
    /// wire codes.
    pub fn respond(&mut self) -> (r: [u32; 64])
        requires
            old(self).wf(),
            old(self).board_spec().counter + old(self).steps_spec() + 5 < i32::MAX,
        ensures
            final(self).wf(),
            final(self).steps_spec() == old(self).steps_spec(),
            final(self).board_spec().counter == old(self).board_spec().counter
                || final(self).board_spec().counter == old(self).board_spec().counter + 1,
            final(self).board_spec().counter == old(self).board_spec().counter + 1 ==> old(self).board_spec().state
                == GameState::Ongoing && exists|m: PossibleMove|
                legal_moves(old(self).board_spec()@).contains(m) && final(self).board_spec()@
                    == #[trigger] apply_move(old(self).board_spec()@, m),
            !old(self).succ_move ==> *final(self) == *old(self),
            old(self).succ_move && legal_moves(old(self).board_spec()@).len() == 0 ==> final(self).board_spec()@
                == after_listing(old(self).board_spec()@) && final(self).winner_spec() == color_index(
                opponent(side_to_move(old(self).board_spec()@)),
            ),
            old(self).succ_move && old(self).board_spec().state == GameState::Ongoing && legal_moves(
                old(self).board_spec()@,
            ).len() > 0 ==> final(self).winner_spec() == old(self).winner_spec() && exists|
                t0: SearchTree,
                t: SearchTree,
                reply: Option<PossibleMove>,
            |
                fresh_tree(t0, old(self).board_spec()@, side_to_move(old(self).board_spec()@))
                    && #[trigger] steps_from(t0, t, old(self).steps_spec() as nat) && #[trigger] picks(t, reply)
                    && match reply {
                    Some(m) => final(self).board_spec()@ == apply_move(old(self).board_spec()@, m),
                    None => final(self).board_spec()@ == old(self).board_spec()@,
                },
            forall|i: int| 0 <= i < 64 ==> r[i] as int == tile_code(#[trigger] final(self).board_spec().data[i]),
    {
        if !self.succ_move {
            return self.board.get_data();
        }
        let legal = self.board.get_legal_moves();
        match self.board.state {
            GameState::Won(color) => {
                self.winner = color.to_num() as i8;
                return self.board.get_data();
            },
            GameState::Ongoing => {},
        }
        if legal.len() == 0 {
            return self.board.get_data();
        }
        let reply = choose_move(self.board, self.steps);
        proof {
            let (t0, t) = choose|t0: SearchTree, t: SearchTree|
                fresh_tree(t0, self.board@, side_to_move(self.board@)) && #[trigger] steps_from(t0, t, self.steps as nat)
                    && picks(t, reply);
            assert(self.board@ == old(self).board@);
            assert(steps_from(t0, t, old(self).steps as nat));
            assert(picks(t, reply));
        }
        match reply {
            Some(m) => {
                proof {
                    let j = choose|j: int| 0 <= j < legal@.len() && legal@[j] == m;
                    assert(crate::movegen::move_ok(self.board.data@, legal@[j]));
                }
                self.board.make_possible_move(&m);
            },
            None => {},
        }
        self.board.get_data()
    }
}

} // verus!
