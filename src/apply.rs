use vstd::prelude::*;
use crate::piece::{
    Color, Piece, PieceInfo, Tile, color_index, color_of_index, piece_value, tile_value,
    valid_upgrade, tile_of_code,
};
use crate::pos::Pos;
use crate::board::{Board, BoardView, GameState, Overwrites, PossibleMove, value_bound, side_index};
use crate::movegen::move_ok;

verus! {

/// The piece a promotion selector picks.
pub open spec fn promoted_piece(u: u8) -> Piece {
    if u == 1 {
        Piece::Rook
    } else if u == 2 {
        Piece::Knight
    } else if u == 3 {
        Piece::Bishop
    } else {
        Piece::Queen
    }
}

/// Does the move bring a pawn to the first or last rank.
pub open spec fn is_promotion(v: BoardView, m: PossibleMove) -> bool {
    &&& v.data[m.start.num as int] matches Tile::Taken(_, Piece::Pawn, _)
    &&& (m.end.y == 0 || m.end.y == 7)
}

/// The ply counter advances; a captured king ends the game for the mover,
/// any other captured piece is taken off the opponent's material.
pub open spec fn after_capture(v: BoardView, m: PossibleMove) -> BoardView {
    let next = side_index(v.counter);
    let target = v.data[m.end.num as int];
    if target matches Tile::Taken(_, Piece::King, _) {
        BoardView {
            counter: v.counter + 1,
            values: seq![0int, 0int].update(next, 1),
            state: GameState::Won(color_of_index(next)),
            ..v
        }
    } else {
        BoardView {
            counter: v.counter + 1,
            values: v.values.update(1 - next, v.values[1 - next] - tile_value(target)),
            ..v
        }
    }
}

/// The moving piece leaves its start square for its end square, marked as
/// moved (a pawn that advanced two ranks as just double moved); a pawn on the
/// first or last rank is replaced by the selected piece.
pub open spec fn after_relocation(v: BoardView, m: PossibleMove, next: int) -> BoardView {
    let s = m.start.num as int;
    let e = m.end.num as int;
    match v.data[s] {
        Tile::Taken(c, Piece::King, _) => BoardView {
            kings: v.kings.update(next, m.end),
            data: v.data.update(e, Tile::Taken(c, Piece::King, PieceInfo::Moved)).update(
                s,
                Tile::Empty,
            ),
            ..v
        },
        Tile::Taken(c, Piece::Rook, _) => BoardView {
            data: v.data.update(e, Tile::Taken(c, Piece::Rook, PieceInfo::Moved)).update(
                s,
                Tile::Empty,
            ),
            ..v
        },
        Tile::Taken(c, Piece::Pawn, _) => if m.end.y == 0 || m.end.y == 7 {
            let p = promoted_piece(m.upgrade);
            BoardView {
                data: v.data.update(e, Tile::Taken(c, p, PieceInfo::Moved)).update(s, Tile::Empty),
                values: v.values.update(next, v.values[next] + piece_value(p) - 1),
                ..v
            }
        } else {
            let info = if s - e == 16 || e - s == 16 {
                PieceInfo::JustDoubleMoved
            } else {
                PieceInfo::Moved
            };
            BoardView {
                data: v.data.update(e, Tile::Taken(c, Piece::Pawn, info)).update(s, Tile::Empty),
                ..v
            }
        },
        t => BoardView { data: v.data.update(e, t).update(s, Tile::Empty), ..v },
    }
}

/// Square `p` receives tile `t`: what stood there leaves its owner's
/// material, and `t`'s value is credited to the mover `next`.
pub open spec fn after_overwrite(v: BoardView, p: Pos, t: Tile, next: int) -> BoardView {
    let old_t = v.data[p.num as int];
    let values = match old_t {
        Tile::Taken(c, _, _) => v.values.update(
            color_index(c),
            v.values[color_index(c)] - tile_value(old_t),
        ),
        Tile::Empty => v.values,
    };
    BoardView {
        data: v.data.update(p.num as int, t),
        values: values.update(next, values[next] + tile_value(t)),
        ..v
    }
}

/// A pawn of color `c` that double moved on its side's previous ply no
/// longer counts as just double moved.
pub open spec fn clear_marker(t: Tile, c: Color) -> Tile {
    match t {
        Tile::Taken(tc, Piece::Pawn, PieceInfo::JustDoubleMoved) => if tc == c {
            Tile::Taken(tc, Piece::Pawn, PieceInfo::Moved)
        } else {
            t
        },
        _ => t,
    }
}

/// The mover's own just-double-moved markers are cleared as it moves, so a
/// pawn can be taken en passant on the very next ply only.
pub open spec fn after_clearing(v: BoardView) -> BoardView {
    let c = color_of_index(side_index(v.counter));
    BoardView { data: Seq::new(v.data.len(), |i: int| clear_marker(v.data[i], c)), ..v }
}

/// The position after move `m`, applied as one transaction.
pub open spec fn apply_move(v: BoardView, m: PossibleMove) -> BoardView {
    let next = side_index(v.counter);
    let w = after_relocation(after_capture(after_clearing(v), m), m, next);
    match m.extra {
        Overwrites::Zero => w,
        Overwrites::One(p, t) => after_overwrite(w, p, t, next),
        Overwrites::Two(p, t, q, u) => after_overwrite(after_overwrite(w, p, t, next), q, u, next),
    }
}

/// What tile `t` adds to the material of color `c`.
pub open spec fn contribution(t: Tile, c: Color) -> int {
    match t {
        Tile::Taken(tc, _, _) => if tc == c {
            tile_value(t)
        } else {
            0
        },
        Tile::Empty => 0,
    }
}

/// The material of color `c` on the first `n` tiles.
pub open spec fn material(data: Seq<Tile>, c: Color, n: int) -> int
    decreases n,
{
    if n <= 0 {
        0
    } else {
        material(data, c, n - 1) + contribution(data[n - 1], c)
    }
}

/// The material totals of `v` are those of the pieces on its board.
pub open spec fn material_agrees(v: BoardView) -> bool {
    &&& v.values.len() == 2
    &&& forall|c: Color| #[trigger] v.values[color_index(c)] == material(v.data, c, 64)
}

/// The king square of color `c` in a set-up: the last square that holds
/// that king, or its usual start square if there is none.
pub open spec fn king_square(data: Seq<Tile>, c: Color, n: int) -> Pos
    decreases n,
{
    if n <= 0 {
        if c == Color::White {
            Pos::at(3, 0)
        } else {
            Pos::at(3, 7)
        }
    } else if data[n - 1] matches Tile::Taken(tc, Piece::King, _) && tc == c {
        Pos::at((n - 1) % 8, (n - 1) / 8)
    } else {
        king_square(data, c, n - 1)
    }
}

impl Board {
    fn overwrite(&mut self, p: Pos, t: Tile, next: usize)
        requires
            p.wf(),
            next < 2,
            -value_bound(old(self).counter as int) + 18 <= old(self).value_counts[0]
                <= value_bound(old(self).counter as int) - 18,
            -value_bound(old(self).counter as int) + 18 <= old(self).value_counts[1]
                <= value_bound(old(self).counter as int) - 18,
            0 <= old(self).counter,
        ensures
            final(self)@ == after_overwrite(old(self)@, p, t, next as int),
            final(self).counter == old(self).counter,
            final(self).king_positions == old(self).king_positions,
            old(self).value_counts[0] - 9 <= final(self).value_counts[0] <= old(self).value_counts[0] + 9,
            old(self).value_counts[1] - 9 <= final(self).value_counts[1] <= old(self).value_counts[1] + 9,
    {
        let old_t = self.data[p.num];
        match old_t {
            Tile::Taken(c, _, _) => {
                let ci = c.to_num();
                self.value_counts[ci] = self.value_counts[ci] - old_t.get_value() as i64;
            },
            Tile::Empty => {},
        }
        self.data[p.num] = t;
        self.value_counts[next] = self.value_counts[next] + t.get_value() as i64;
        proof {
            assert(self@.data =~= after_overwrite(old(self)@, p, t, next as int).data);
            assert(self@.values =~= after_overwrite(old(self)@, p, t, next as int).values);
        }
    }

    fn clear_markers(&mut self, c: Color)
        ensures
            final(self).data@ == Seq::new(64, |i: int| clear_marker(old(self).data@[i], c)),
            final(self).counter == old(self).counter,
            final(self).king_positions == old(self).king_positions,
            final(self).value_counts == old(self).value_counts,
            final(self).state == old(self).state,
    {
        let mut i: usize = 0;
        while i < 64
            invariant
                i <= 64,
                self.counter == old(self).counter,
                self.king_positions == old(self).king_positions,
                self.value_counts == old(self).value_counts,
                self.state == old(self).state,
                forall|j: int| 0 <= j < i ==> self.data@[j] == clear_marker(old(self).data@[j], c),
                forall|j: int| i <= j < 64 ==> self.data@[j] == old(self).data@[j],
            decreases 64 - i,
        {
            let t = self.data[i];
            match t {
                Tile::Taken(tc, Piece::Pawn, PieceInfo::JustDoubleMoved) => {
                    if tc == c {
                        self.data[i] = Tile::Taken(tc, Piece::Pawn, PieceInfo::Moved);
                    }
                },
                _ => {},
            }
            i = i + 1;
        }
        assert(self.data@ =~= Seq::new(64, |i: int| clear_marker(old(self).data@[i], c)));
    }

    fn capture(&mut self, mov: &PossibleMove)
        requires
            old(self).wf(),
            mov.wf(),
            old(self).counter < i32::MAX,
        ensures
            final(self)@ == after_capture(old(self)@, *mov),
            final(self).counter == old(self).counter + 1,
            final(self).king_positions == old(self).king_positions,
            final(self).data == old(self).data,
            -value_bound(old(self).counter as int) - 9 <= final(self).value_counts[0]
                <= value_bound(old(self).counter as int) + 9,
            -value_bound(old(self).counter as int) - 9 <= final(self).value_counts[1]
                <= value_bound(old(self).counter as int) + 9,
    {
        let next: usize = (self.counter % 2) as usize;
        self.counter = self.counter + 1;
        let target = self.data[mov.end.num];
        match target {
            Tile::Taken(_, Piece::King, _) => {
                self.value_counts = [0, 0];
                self.value_counts[next] = 1;
                self.state = GameState::Won(Color::from_num(next));
            },
            _ => {
                self.value_counts[1 - next] = self.value_counts[1 - next] - target.get_value() as i64;
            },
        }
        proof {
            assert(self@.values =~= after_capture(old(self)@, *mov).values);
        }
    }

    fn relocate(&mut self, mov: &PossibleMove, next: usize)
        requires
            mov.wf(),
            next < 2,
            is_promotion(old(self)@, *mov) ==> valid_upgrade(mov.upgrade),
            -value_bound(old(self).counter as int) <= old(self).value_counts[0] <= value_bound(old(self).counter as int),
            -value_bound(old(self).counter as int) <= old(self).value_counts[1] <= value_bound(old(self).counter as int),
            0 <= old(self).counter,
        ensures
            final(self)@ == after_relocation(old(self)@, *mov, next as int),
            final(self).counter == old(self).counter,
            final(self).king_positions[0].wf() || final(self).king_positions[0] == old(self).king_positions[0],
            final(self).king_positions[1].wf() || final(self).king_positions[1] == old(self).king_positions[1],
            old(self).value_counts[0] <= final(self).value_counts[0] <= old(self).value_counts[0] + 8,
            old(self).value_counts[1] <= final(self).value_counts[1] <= old(self).value_counts[1] + 8,
    {
        let start = mov.start.num;
        let end = mov.end.num;
        let mover = self.data[start];
        let placed = match mover {
            Tile::Taken(color, Piece::King, _) => {
                self.king_positions[next] = mov.end;
                Tile::Taken(color, Piece::King, PieceInfo::Moved)
            },
            Tile::Taken(color, Piece::Rook, _) => Tile::Taken(color, Piece::Rook, PieceInfo::Moved),
            Tile::Taken(color, Piece::Pawn, _) => {
                if mov.end.y == 0 || mov.end.y == 7 {
                    let piece = if mov.upgrade == 1 {
                        Piece::Rook
                    } else if mov.upgrade == 2 {
                        Piece::Knight
                    } else if mov.upgrade == 3 {
                        Piece::Bishop
                    } else {
                        Piece::Queen
                    };
                    let res = Tile::Taken(color, piece, PieceInfo::Moved);
                    self.value_counts[next] = self.value_counts[next] + res.get_value() as i64 - 1;
                    res
                } else {
                    let info = if start + 16 == end || end + 16 == start {
                        PieceInfo::JustDoubleMoved
                    } else {
                        PieceInfo::Moved
                    };
                    Tile::Taken(color, Piece::Pawn, info)
                }
            },
            any => any,
        };
        self.data[end] = placed;
        self.data[start] = Tile::Empty;
        proof {
            let w = after_relocation(old(self)@, *mov, next as int);
            assert(self@.data =~= w.data);
            assert(self@.values =~= w.values);
            assert(self@.kings =~= w.kings);
        }
    }

    /// Applies move `mov`, whose legality the caller has settled.
    pub fn make_possible_move(&mut self, mov: &PossibleMove)
        requires
            old(self).wf(),
            mov.wf(),
            old(self).counter < i32::MAX,
            is_promotion(old(self)@, *mov) ==> valid_upgrade(mov.upgrade),
        ensures
            final(self).wf(),
            final(self)@ == apply_move(old(self)@, *mov),
    {
        let ghost v0 = self@;
        let next: usize = (self.counter % 2) as usize;
        self.clear_markers(Color::from_num(next));
        assert(self@.data =~= after_clearing(v0).data);
        assert(self@ == after_clearing(v0));
        self.capture(mov);
        assert(is_promotion(self@, *mov) == is_promotion(v0, *mov));
        self.relocate(mov, next);
        match mov.extra {
            Overwrites::Zero => {},
            Overwrites::One(p, t) => {
                self.overwrite(p, t, next);
            },
            Overwrites::Two(p, t, q, u) => {
                self.overwrite(p, t, next);
                self.overwrite(q, u, next);
            },
        }
    }

    /// The position that the wire codes `nums` describe, with ply counter 0.
    pub fn from_nums(nums: [u32; 64]) -> (r: Board)
        requires
            forall|i: int| 0 <= i < 64 ==> nums[i] <= 12,
        ensures
            r.wf(),
            r.counter == 0,
            r.state == GameState::Ongoing,
            forall|i: int| 0 <= i < 64 ==> r.data[i] == tile_of_code(nums[i] as int),
            r.value_counts[0] == material(r.data@, Color::White, 64),
            r.value_counts[1] == material(r.data@, Color::Black, 64),
            material_agrees(r@),
            r.king_positions[0] == king_square(r.data@, Color::White, 64),
            r.king_positions[1] == king_square(r.data@, Color::Black, 64),
    {
        let mut data: [Tile; 64] = [Tile::Empty; 64];
        let mut value_counts: [i64; 2] = [0, 0];
        let mut king_pos: [Pos; 2] = [Pos::from_ints(3, 0), Pos::from_ints(3, 7)];
        let mut i: usize = 0;
        while i < 64
            invariant
                i <= 64,
                forall|j: int| 0 <= j < i ==> data[j] == tile_of_code(nums[j] as int),
                forall|j: int| 0 <= j < 64 ==> nums[j] <= 12,
                value_counts[0] == material(data@, Color::White, i as int),
                value_counts[1] == material(data@, Color::Black, i as int),
                0 <= value_counts[0] <= 9 * i,
                0 <= value_counts[1] <= 9 * i,
                king_pos[0] == king_square(data@, Color::White, i as int),
                king_pos[0].wf(),
                king_pos[1].wf(),
                king_pos[1] == king_square(data@, Color::Black, i as int),
            decreases 64 - i,
        {
            let tile = Tile::from_num(nums[i]);
            let ghost before = data@;
            data[i] = tile;
            proof {
                assert forall|c: Color| material(data@, c, i as int) == material(before, c, i as int) by {
                    lemma_material_prefix(before, data@, c, i as int);
                }
                assert forall|c: Color| king_square(data@, c, i as int) == king_square(before, c, i as int) by {
                    lemma_king_square_prefix(before, data@, c, i as int);
                }
            }
            match tile {
                Tile::Taken(color, piece, _) => {
                    let ci = color.to_num();
                    value_counts[ci] = value_counts[ci] + tile.get_value() as i64;
                    match piece {
                        Piece::King => {
                            king_pos[ci] = Pos::from_num(i);
                        },
                        _ => {},
                    }
                },
                _ => {},
            }
            i = i + 1;
        }
        Board {
            counter: 0,
            data,
            king_positions: king_pos,
            value_counts,
            state: GameState::Ongoing,
        }
    }

    /// The standard starting position.
    pub fn new() -> (r: Board)
        ensures
            r.wf(),
            r.counter == 0,
            r.state == GameState::Ongoing,
            forall|i: int| 0 <= i < 64 ==> r.data[i] == tile_of_code(start_code(i)),
            r.value_counts[0] == material(r.data@, Color::White, 64),
            r.value_counts[1] == material(r.data@, Color::Black, 64),
            r.king_positions[0] == Pos::at(3, 0),
            r.king_positions[1] == Pos::at(3, 7),
            material_agrees(r@),
            kings_agree(r@),
    {
        let r = Board::from_nums(
            [
                1, 2, 3, 4, 5, 3, 2, 1,
                6, 6, 6, 6, 6, 6, 6, 6,
                0, 0, 0, 0, 0, 0, 0, 0,
                0, 0, 0, 0, 0, 0, 0, 0,
                0, 0, 0, 0, 0, 0, 0, 0,
                0, 0, 0, 0, 0, 0, 0, 0,
                12, 12, 12, 12, 12, 12, 12, 12,
                7, 8, 9, 10, 11, 9, 8, 7,
            ],
        );
        proof {
            assert forall|i: int| 0 <= i < 64 implies r.data[i] == tile_of_code(start_code(i)) by {
                assert(0 <= i < 8 || 8 <= i < 16 || 16 <= i < 48 || 48 <= i < 56 || 56 <= i < 64);
            }
            assert(r.data@[3] == Tile::Taken(Color::White, Piece::King, PieceInfo::Unmoved));
            assert(r.data@[59] == Tile::Taken(Color::Black, Piece::King, PieceInfo::Unmoved));
            assert forall|j: int| 3 < j < 64 implies !(#[trigger] r.data@[j] matches Tile::Taken(Color::White, Piece::King, _)) by {
                assert(r.data[j] == tile_of_code(start_code(j)));
                assert(4 <= j < 8 || 8 <= j < 16 || 16 <= j < 48 || 48 <= j < 56 || 56 <= j < 64);
            }
            assert forall|j: int| 59 < j < 64 implies !(#[trigger] r.data@[j] matches Tile::Taken(Color::Black, Piece::King, _)) by {
                assert(r.data[j] == tile_of_code(start_code(j)));
            }
            lemma_king_square_found(r.data@, Color::White, 64, 3);
            lemma_king_square_found(r.data@, Color::Black, 64, 59);
        }
        r
    }
}

/// The code of a back-rank square of the starting position, by file:
/// rook, knight, bishop, king, queen, bishop, knight, rook.
pub open spec fn back_rank_code(x: int) -> int {
    if x == 0 || x == 7 {
        1
    } else if x == 1 || x == 6 {
        2
    } else if x == 2 || x == 5 {
        3
    } else if x == 3 {
        4
    } else {
        5
    }
}

/// The wire code of square `i` in the starting position.
pub open spec fn start_code(i: int) -> int {
    if i < 8 {
        back_rank_code(i)
    } else if i < 16 {
        6
    } else if i < 48 {
        0
    } else if i < 56 {
        12
    } else {
        back_rank_code(i - 56) + 6
    }
}

proof fn lemma_king_square_found(data: Seq<Tile>, c: Color, n: int, k: int)
    requires
        0 <= k < n <= data.len(),
        data[k] matches Tile::Taken(kc, Piece::King, _) && kc == c,
        forall|j: int| k < j < n ==> !(#[trigger] data[j] matches Tile::Taken(kc, Piece::King, _) && kc == c),
    ensures
        king_square(data, c, n) == Pos::at(k % 8, k / 8),
    decreases n,
{
    if n - 1 > k {
        assert(!(data[n - 1] matches Tile::Taken(kc, Piece::King, _) && kc == c));
        lemma_king_square_found(data, c, n - 1, k);
    }
}

proof fn lemma_material_prefix(a: Seq<Tile>, b: Seq<Tile>, c: Color, n: int)
    requires
        0 <= n <= a.len(),
        n <= b.len(),
        forall|j: int| 0 <= j < n ==> a[j] == b[j],
    ensures
        material(a, c, n) == material(b, c, n),
    decreases n,
{
    if n > 0 {
        lemma_material_prefix(a, b, c, n - 1);
    }
}

proof fn lemma_king_square_prefix(a: Seq<Tile>, b: Seq<Tile>, c: Color, n: int)
    requires
        0 <= n <= a.len(),
        n <= b.len(),
        forall|j: int| 0 <= j < n ==> a[j] == b[j],
    ensures
        king_square(a, c, n) == king_square(b, c, n),
    decreases n,
{
    if n > 0 {
        lemma_king_square_prefix(a, b, c, n - 1);
    }
}

/// Does tile `t` hold a pawn marked as just double moved.
pub open spec fn just_double_moved(t: Tile) -> bool {
    t matches Tile::Taken(_, Piece::Pawn, PieceInfo::JustDoubleMoved)
}

/// The tiles a move writes besides its end square hold no just-double-moved
/// pawn: castling writes an empty square and a rook, en passant an empty
/// square.
pub open spec fn plain_overwrites(m: PossibleMove) -> bool {
    match m.extra {
        Overwrites::Zero => true,
        Overwrites::One(_, t) => !just_double_moved(t),
        Overwrites::Two(_, t, _, u) => !just_double_moved(t) && !just_double_moved(u),
    }
}

/// En passant window: after a move, the only pawn of the mover's color still
/// marked as just double moved is the one that has just moved. So a pawn
/// that double moved can be taken en passant on the next ply only: once its
/// own side has moved again, its marker is gone.
pub proof fn lemma_en_passant_window(v: BoardView, m: PossibleMove, i: int)
    requires
        v.data.len() == 64,
        v.counter >= 0,
        m.wf(),
        plain_overwrites(m),
        0 <= i < 64,
        just_double_moved(apply_move(v, m).data[i]),
        apply_move(v, m).data[i]->Taken_0 == color_of_index(side_index(v.counter)),
    ensures
        i == m.end.num,
{
    let next = side_index(v.counter);
    let c = color_of_index(next);
    let v1 = after_clearing(v);
    let v2 = after_capture(v1, m);
    let v3 = after_relocation(v2, m, next);
    assert(v2.data == v1.data);
    assert(!(just_double_moved(v1.data[i]) && v1.data[i]->Taken_0 == c));
    if i != m.end.num {
        let s = m.start.num as int;
        let e = m.end.num as int;
        assert(v3.data[i] == v1.data[i] || (i == s && v3.data[i] == Tile::Empty));
        match m.extra {
            Overwrites::Zero => {},
            Overwrites::One(p, t) => {
                let w = after_overwrite(v3, p, t, next);
                assert(w.data[i] == v3.data[i] || w.data[i] == t);
            },
            Overwrites::Two(p, t, q, u) => {
                let w = after_overwrite(v3, p, t, next);
                let w2 = after_overwrite(w, q, u, next);
                assert(w.data[i] == v3.data[i] || w.data[i] == t);
                assert(w2.data[i] == w.data[i] || w2.data[i] == u);
            },
        }
    }
}

/// Promotion material: when a pawn reaches the first or last rank and
/// becomes the selected piece, the mover's material changes by that piece's
/// value less the pawn's 1 (unless the move takes the king, which ends the
/// game).
pub proof fn lemma_promotion_material(v: BoardView, m: PossibleMove)
    requires
        v.data.len() == 64,
        v.values.len() == 2,
        v.counter >= 0,
        m.wf(),
        m.extra == Overwrites::Zero,
        is_promotion(v, m),
        valid_upgrade(m.upgrade),
        !(v.data[m.end.num as int] matches Tile::Taken(_, Piece::King, _)),
    ensures
        apply_move(v, m).values[side_index(v.counter)] == v.values[side_index(v.counter)]
            + piece_value(promoted_piece(m.upgrade)) - 1,
{
    let next = side_index(v.counter);
    let v1 = after_clearing(v);
    assert(v1.data[m.start.num as int] matches Tile::Taken(_, Piece::Pawn, _));
    assert(v1.data[m.end.num as int] == clear_marker(v.data[m.end.num as int], color_of_index(next)));
}

proof fn lemma_material_update(data: Seq<Tile>, p: int, t: Tile, c: Color, n: int)
    requires
        0 <= p < data.len(),
        0 <= n <= data.len(),
    ensures
        material(data.update(p, t), c, n) == material(data, c, n) + if p < n {
            contribution(t, c) - contribution(data[p], c)
        } else {
            0
        },
    decreases n,
{
    if n > 0 {
        lemma_material_update(data, p, t, c, n - 1);
    }
}

proof fn lemma_material_cleared(data: Seq<Tile>, c0: Color, c: Color, n: int)
    requires
        0 <= n <= data.len(),
    ensures
        material(Seq::new(data.len(), |i: int| clear_marker(data[i], c0)), c, n) == material(
            data,
            c,
            n,
        ),
    decreases n,
{
    if n > 0 {
        lemma_material_cleared(data, c0, c, n - 1);
    }
}

/// Material bookkeeping: a move of the side to move, as the generator makes
/// them, that does not take a king keeps each side's material total equal
/// to the value of its pieces on the board.
pub proof fn lemma_material_kept(v: BoardView, m: PossibleMove)
    requires
        v.data.len() == 64,
        v.counter >= 0,
        material_agrees(v),
        move_ok(v.data, m),
        v.data[m.start.num as int]->Taken_0 == color_of_index(side_index(v.counter)),
        !(v.data[m.end.num as int] matches Tile::Taken(_, Piece::King, _)),
    ensures
        material_agrees(apply_move(v, m)),
{
    let next = side_index(v.counter);
    let mover = color_of_index(next);
    let s = m.start.num as int;
    let e = m.end.num as int;
    let v1 = after_clearing(v);
    let v2 = after_capture(v1, m);
    let v3 = after_relocation(v2, m, next);
    let d1 = v1.data;
    assert forall|c: Color| #[trigger] v1.values[color_index(c)] == material(d1, c, 64) by {
        lemma_material_cleared(v.data, mover, c, 64);
        assert(v.values[color_index(c)] == material(v.data, c, 64));
    }
    assert(d1[s] is Taken && d1[s]->Taken_0 == mover && d1[s]->Taken_1 == v.data[s]->Taken_1);
    assert(d1[e] is Empty || d1[e]->Taken_0 != mover);
    assert(tile_value(d1[e]) == tile_value(v.data[e]));
    let x = v3.data[e];
    let mid = d1.update(e, x);
    assert(v3.data == mid.update(s, Tile::Empty));
    assert forall|c: Color| #[trigger] v3.values[color_index(c)] == material(v3.data, c, 64) by {
        lemma_material_update(d1, e, x, c, 64);
        lemma_material_update(mid, s, Tile::Empty, c, 64);
        assert(v1.values[color_index(c)] == material(d1, c, 64));
        assert(mid[s] == d1[s]);
        if c == mover {
            assert(contribution(d1[e], c) == 0);
        } else {
            assert(contribution(d1[s], c) == 0);
            assert(contribution(x, c) == 0);
            assert(contribution(d1[e], c) == tile_value(d1[e]));
        }
    }
    match m.extra {
        Overwrites::Zero => {},
        Overwrites::One(p, t) => {
            let w = after_overwrite(v3, p, t, next);
            assert(v3.data[p.num as int] == d1[p.num as int]);
            assert forall|c: Color| #[trigger] w.values[color_index(c)] == material(w.data, c, 64) by {
                lemma_material_update(v3.data, p.num as int, t, c, 64);
                assert(v3.values[color_index(c)] == material(v3.data, c, 64));
            }
        },
        Overwrites::Two(p, t, q, u) => {
            let w = after_overwrite(v3, p, t, next);
            let w2 = after_overwrite(w, q, u, next);
            assert(v3.data[p.num as int] == d1[p.num as int]);
            assert(w.data[q.num as int] == d1[q.num as int]);
            assert forall|c: Color| #[trigger] w.values[color_index(c)] == material(w.data, c, 64) by {
                lemma_material_update(v3.data, p.num as int, t, c, 64);
                assert(v3.values[color_index(c)] == material(v3.data, c, 64));
            }
            assert forall|c: Color| #[trigger] w2.values[color_index(c)] == material(w2.data, c, 64) by {
                lemma_material_update(w.data, q.num as int, u, c, 64);
                assert(w.values[color_index(c)] == material(w.data, c, 64));
            }
        },
    }
}

/// Each side's recorded king square holds that side's king.
pub open spec fn kings_agree(v: BoardView) -> bool {
    &&& v.kings.len() == 2
    &&& forall|c: Color|
        #![trigger v.kings[color_index(c)]]
        {
            let k = v.kings[color_index(c)];
            &&& k.wf()
            &&& v.data[k.num as int] matches Tile::Taken(kc, Piece::King, _)
            &&& v.data[k.num as int]->Taken_0 == c
        }
}

/// King bookkeeping: a move of the side to move, as the generator makes
/// them, that does not take a king keeps each side's recorded king square on
/// that side's king.
pub proof fn lemma_kings_kept(v: BoardView, m: PossibleMove)
    requires
        v.data.len() == 64,
        v.counter >= 0,
        kings_agree(v),
        move_ok(v.data, m),
        v.data[m.start.num as int]->Taken_0 == color_of_index(side_index(v.counter)),
        !(v.data[m.end.num as int] matches Tile::Taken(_, Piece::King, _)),
    ensures
        kings_agree(apply_move(v, m)),
{
    let next = side_index(v.counter);
    let mover = color_of_index(next);
    let s = m.start.num as int;
    let e = m.end.num as int;
    let v1 = after_clearing(v);
    let v2 = after_capture(v1, m);
    let v3 = after_relocation(v2, m, next);
    let w = apply_move(v, m);
    assert forall|c: Color| #![trigger w.kings[color_index(c)]]
        {
            let k = w.kings[color_index(c)];
            &&& k.wf()
            &&& w.data[k.num as int] matches Tile::Taken(kc, Piece::King, _)
            &&& w.data[k.num as int]->Taken_0 == c
        } by {
        let k0 = v.kings[color_index(c)];
        assert(v.data[k0.num as int] matches Tile::Taken(kc, Piece::King, _));
        assert(v1.data[k0.num as int] == v.data[k0.num as int]);
        let k = w.kings[color_index(c)];
        if v1.data[s] matches Tile::Taken(_, Piece::King, _) && c == mover {
            assert(k == m.end);
            assert(v3.data[e] matches Tile::Taken(kc, Piece::King, _));
        } else {
            assert(k == k0);
            assert(k0.num != s);
            assert(k0.num != e);
            assert(v3.data[k0.num as int] == v1.data[k0.num as int]);
        }
    }
}

} // verus!
