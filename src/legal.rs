use vstd::prelude::*;
use crate::piece::{Color, Tile, color_of_index, opponent};
use crate::pos::Pos;
use crate::board::{Board, BoardView, GameState, PossibleMove, side_index, side_to_move, square_safe};
use crate::apply::{apply_move, is_promotion, material_agrees, kings_agree, lemma_material_kept, lemma_kings_kept};
use crate::movegen::{move_ok, moves_for, pseudo_moves, all_ok_from};

verus! {

/// After move `m`, is the king of the side that made it safe.
pub open spec fn safe_after(v: BoardView, m: PossibleMove) -> bool {
    let w = apply_move(v, m);
    let side = side_index(v.counter);
    square_safe(w.data, w.kings[side], color_of_index(side))
}

/// The moves of `s` that leave the mover's king safe, in order.
pub open spec fn keep_safe(v: BoardView, s: Seq<PossibleMove>) -> Seq<PossibleMove>
    decreases s.len(),
{
    if s.len() == 0 {
        s
    } else {
        let r = keep_safe(v, s.drop_last());
        if safe_after(v, s.last()) {
            r.push(s.last())
        } else {
            r
        }
    }
}

/// The legal moves of the side to move, in the order of generation.
pub open spec fn legal_moves(v: BoardView) -> Seq<PossibleMove> {
    keep_safe(v, pseudo_moves(v.data, side_to_move(v)))
}

/// The position after the side to move's legal moves were listed: a side
/// without any has lost.
pub open spec fn after_listing(v: BoardView) -> BoardView {
    if legal_moves(v).len() == 0 {
        BoardView { state: GameState::Won(opponent(side_to_move(v))), ..v }
    } else {
        v
    }
}

/// Every kept move is one of the given moves and leaves the mover's king
/// safe.
pub proof fn lemma_keep_safe(v: BoardView, s: Seq<PossibleMove>)
    ensures
        forall|i: int| 0 <= i < keep_safe(v, s).len() ==> safe_after(v, #[trigger] keep_safe(v, s)[i]),
        forall|i: int| 0 <= i < keep_safe(v, s).len() ==> s.contains(#[trigger] keep_safe(v, s)[i]),
    decreases s.len(),
{
    if s.len() > 0 {
        lemma_keep_safe(v, s.drop_last());
        let r = keep_safe(v, s.drop_last());
        assert forall|i: int| 0 <= i < keep_safe(v, s).len() implies s.contains(
            #[trigger] keep_safe(v, s)[i],
        ) by {
            if i < r.len() {
                let j = choose|j: int| 0 <= j < s.drop_last().len() && s.drop_last()[j] == r[i];
                assert(s[j] == r[i]);
            } else {
                assert(s[s.len() - 1] == s.last());
            }
        }
    }
}

/// No legal move leaves the mover's own king attacked.
pub proof fn lemma_legal_moves_are_safe(v: BoardView, m: PossibleMove)
    requires
        legal_moves(v).contains(m),
    ensures
        safe_after(v, m),
        pseudo_moves(v.data, side_to_move(v)).contains(m),
{
    lemma_keep_safe(v, pseudo_moves(v.data, side_to_move(v)));
}

impl Board {
    /// Is each king safe: White's, then Black's.
    pub fn check_board_safety(&self) -> (r: [bool; 2])
        requires
            self.wf(),
        ensures
            r[0] == square_safe(self.data@, self.king_positions[0], Color::White),
            r[1] == square_safe(self.data@, self.king_positions[1], Color::Black),
    {
        let k0 = self.king_positions[0];
        let k1 = self.king_positions[1];
        assert(Pos::at(k0.x as int, k0.y as int) == k0);
        assert(Pos::at(k1.x as int, k1.y as int) == k1);
        [self.check_safety(k0.x, k0.y, Color::White), self.check_safety(k1.x, k1.y, Color::Black)]
    }

    /// The legal moves of the side to move; a side that has none loses the
    /// game.
    pub fn get_legal_moves(&mut self) -> (r: Vec<PossibleMove>)
        requires
            old(self).wf(),
            old(self).counter < i32::MAX,
        ensures
            r@ == legal_moves(old(self)@),
            final(self)@ == after_listing(old(self)@),
            final(self).wf(),
            forall|i: int| 0 <= i < r@.len() ==> safe_after(old(self)@, #[trigger] r@[i]),
            all_ok_from(old(self).data@, r@, 0),
    {
        let options = self.get_possible_moves();
        let side: usize = (self.counter % 2) as usize;
        let mut res: Vec<PossibleMove> = Vec::new();
        let mut i: usize = 0;
        while i < options.len()
            invariant
                i <= options@.len(),
                self.wf(),
                self.counter < i32::MAX,
                side as int == side_index(self.counter as int),
                side < 2,
                all_ok_from(self.data@, options@, 0),
                res@ == keep_safe(self@, options@.take(i as int)),
                all_ok_from(self.data@, res@, 0),
            decreases options@.len() - i,
        {
            let m = options[i];
            assert(move_ok(self.data@, m));
            let mut nb = *self;
            nb.make_possible_move(&m);
            let kp = nb.king_positions[side];
            assert(Pos::at(kp.x as int, kp.y as int) == kp);
            let safe = nb.check_safety(kp.x, kp.y, Color::from_num(side));
            assert(options@.take(i + 1).drop_last() =~= options@.take(i as int));
            assert(options@.take(i + 1).last() == m);
            if safe {
                res.push(m);
            }
            i = i + 1;
        }
        assert(options@.take(options@.len() as int) =~= options@);
        proof {
            lemma_keep_safe(self@, options@);
        }
        if res.len() == 0 {
            self.state = GameState::Won(Color::from_num(side).other());
        }
        proof {
            assert(self@.values =~= after_listing(old(self)@).values);
        }
        res
    }

    fn first_request(&self, cands: &Vec<PossibleMove>, end: usize, upgrade: u8) -> (r: Option<PossibleMove>)
        requires
            self.wf(),
            self.counter < i32::MAX,
            all_ok_from(self.data@, cands@, 0),
        ensures
            r == first_requested(self@, cands@, end, upgrade),
    {
        let side: usize = (self.counter % 2) as usize;
        let mut i: usize = 0;
        assert(cands@.skip(0) =~= cands@);
        while i < cands.len()
            invariant
                i <= cands@.len(),
                self.wf(),
                self.counter < i32::MAX,
                side as int == side_index(self.counter as int),
                all_ok_from(self.data@, cands@, 0),
                first_requested(self@, cands@, end, upgrade) == first_requested(
                    self@,
                    cands@.skip(i as int),
                    end,
                    upgrade,
                ),
            decreases cands@.len() - i,
        {
            let m = cands[i];
            assert(move_ok(self.data@, m));
            assert(cands@.skip(i as int)[0] == m);
            assert(cands@.skip(i as int).skip(1) =~= cands@.skip(i + 1));
            let start_is_pawn = matches!(self.data[m.start.num], Tile::Taken(_, crate::piece::Piece::Pawn, _));
            let promotes = start_is_pawn && (m.end.y == 0 || m.end.y == 7);
            if m.end.num == end && (!promotes || m.upgrade == upgrade) {
                let mut nb = *self;
                nb.make_possible_move(&m);
                let kp = nb.king_positions[side];
                assert(Pos::at(kp.x as int, kp.y as int) == kp);
                if nb.check_safety(kp.x, kp.y, Color::from_num(side)) {
                    return Some(m);
                }
            }
            i = i + 1;
        }
        None
    }

    /// Plays the move from square `start` to square `end` if it is legal for
    /// the side to move; `upgrade` selects the piece a promoted pawn becomes.
    /// Returns whether the move was played; else the position stays as it is.
    pub fn make_move(&mut self, start: usize, end: usize, upgrade: u8) -> (r: bool)
        requires
            old(self).wf(),
            old(self).counter < i32::MAX,
            start < 64,
            end < 64,
        ensures
            final(self).wf(),
            r == requested_move(old(self)@, start, end, upgrade) is Some,
            r ==> final(self)@ == apply_move(
                old(self)@,
                requested_move(old(self)@, start, end, upgrade)->Some_0,
            ),
            r ==> safe_after(old(self)@, requested_move(old(self)@, start, end, upgrade)->Some_0),
            r ==> move_ok(old(self).data@, requested_move(old(self)@, start, end, upgrade)->Some_0),
            r ==> old(self).data@[requested_move(old(self)@, start, end, upgrade)->Some_0.start.num as int]->Taken_0
                == side_to_move(old(self)@),
            !r ==> *final(self) == *old(self),
    {
        let side: usize = (self.counter % 2) as usize;
        let side_color = Color::from_num(side);
        match self.data[start] {
            Tile::Empty => {
                return false;
            },
            Tile::Taken(color, _, _) => {
                if color != side_color {
                    return false;
                }
            },
        }
        let pos = Pos::from_num(start);
        assert(pos == Pos::at(start as int % 8, start as int / 8));
        let cands = self.get_possible_moves_for_pos(pos, side_color);
        match self.first_request(&cands, end, upgrade) {
            Some(m) => {
                proof {
                    lemma_first_requested(self@, cands@, end, upgrade);
                    let j = choose|j: int| 0 <= j < cands@.len() && cands@[j] == m;
                    assert(move_ok(self.data@, cands@[j]));
                    assert(cands@[j].start == pos);
                }
                self.make_possible_move(&m);
                true
            },
            None => false,
        }
    }

    /// The position after the requested move, or this position unchanged if
    /// the move is not legal. The result never leaves the mover's king in
    /// check.
    pub fn update(&self, start: usize, end: usize, upgrade: u8) -> (r: Board)
        requires
            self.wf(),
            self.counter < i32::MAX,
            start < 64,
            end < 64,
        ensures
            r.wf(),
            r@ == match requested_move(self@, start, end, upgrade) {
                Some(m) => apply_move(self@, m),
                None => self@,
            },
            r.state == GameState::Ongoing && material_agrees(self@) ==> material_agrees(r@),
            r.state == GameState::Ongoing && kings_agree(self@) ==> kings_agree(r@),
    {
        let mut cp = *self;
        if !cp.make_move(start, end, upgrade) {
            return *self;
        }
        proof {
            let m = requested_move(self@, start, end, upgrade)->Some_0;
            if cp.state == GameState::Ongoing {
                assert(!(self.data@[m.end.num as int] matches Tile::Taken(_, crate::piece::Piece::King, _))) by {
                    if self.data@[m.end.num as int] matches Tile::Taken(_, crate::piece::Piece::King, _) {
                        let v1 = crate::apply::after_clearing(self@);
                        assert(v1.data[m.end.num as int] == crate::apply::clear_marker(self.data@[m.end.num as int], side_to_move(self@)));
                    }
                }
                if material_agrees(self@) {
                    lemma_material_kept(self@, m);
                }
                if kings_agree(self@) {
                    lemma_kings_kept(self@, m);
                }
            }
        }
        let idx: usize = (self.counter % 2) as usize;
        let king_pos = cp.king_positions[idx];
        assert(Pos::at(king_pos.x as int, king_pos.y as int) == king_pos);
        if cp.check_safety(king_pos.x, king_pos.y, Color::from_num(idx)) {
            cp
        } else {
            *self
        }
    }
}

/// Does `m` answer a request to move to square `end` with selector
/// `upgrade`: its end square is `end`, and a promotion must carry `upgrade`.
pub open spec fn answers(v: BoardView, m: PossibleMove, end: usize, upgrade: u8) -> bool {
    &&& m.end.num == end
    &&& is_promotion(v, m) ==> m.upgrade == upgrade
}

/// The first move of `s` that answers the request and is legal.
pub open spec fn first_requested(v: BoardView, s: Seq<PossibleMove>, end: usize, upgrade: u8) -> Option<
    PossibleMove,
>
    decreases s.len(),
{
    if s.len() == 0 {
        None
    } else if answers(v, s[0], end, upgrade) && safe_after(v, s[0]) {
        Some(s[0])
    } else {
        first_requested(v, s.skip(1), end, upgrade)
    }
}

/// The legal move that a request from `start` to `end` names, if any: the
/// start square must hold a piece of the side to move.
pub open spec fn requested_move(v: BoardView, start: usize, end: usize, upgrade: u8) -> Option<
    PossibleMove,
> {
    match v.data[start as int] {
        Tile::Taken(c, _, _) => if c == side_to_move(v) {
            first_requested(
                v,
                moves_for(v.data, Pos::at(start as int % 8, start as int / 8), c),
                end,
                upgrade,
            )
        } else {
            None
        },
        Tile::Empty => None,
    }
}

proof fn lemma_first_requested(v: BoardView, s: Seq<PossibleMove>, end: usize, upgrade: u8)
    requires
        first_requested(v, s, end, upgrade) is Some,
    ensures
        s.contains(first_requested(v, s, end, upgrade)->Some_0),
        safe_after(v, first_requested(v, s, end, upgrade)->Some_0),
    decreases s.len(),
{
    if !(answers(v, s[0], end, upgrade) && safe_after(v, s[0])) {
        lemma_first_requested(v, s.skip(1), end, upgrade);
        let m = first_requested(v, s, end, upgrade)->Some_0;
        let j = choose|j: int| 0 <= j < s.skip(1).len() && s.skip(1)[j] == m;
        assert(s[j + 1] == m);
    }
}

} // verus!
