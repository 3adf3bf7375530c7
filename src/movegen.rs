use vstd::prelude::*;
use crate::piece::{Color, Piece, PieceInfo, Tile, direction, valid_upgrade};
use crate::pos::{Pos, step_to};
use crate::board::{
    Board, side_to_move, Overwrites, PossibleMove, tile_at, knight_hop, straight, diagonal, neighbour,
    queen_dir, square_safe, knight_hop_at, straight_at, diagonal_at, neighbour_at, queen_dir_at,
};

verus! {

/// A move as the generator makes them: its squares lie on the board, it
/// starts on a piece and ends elsewhere, a pawn that reaches the first or
/// last rank carries a valid promotion selector, and its tiles fit it (see
/// `tiles_fit`).
pub open spec fn move_ok(data: Seq<Tile>, m: PossibleMove) -> bool {
    &&& m.wf()
    &&& (data[m.start.num as int] matches Tile::Taken(_, Piece::Pawn, _) && (m.end.y == 0
        || m.end.y == 7)) ==> valid_upgrade(m.upgrade)
    &&& m.start.num != m.end.num
    &&& data[m.start.num as int] is Taken
    &&& tiles_fit(data, m, data[m.start.num as int]->Taken_0)
}

/// The tiles a move of color `c` touches: it ends on an empty square or an
/// enemy piece; en passant removes an enemy pawn beside an empty end square;
/// castling lifts an own rook and sets it down on an empty square, the king
/// landing on another empty one.
pub open spec fn tiles_fit(data: Seq<Tile>, m: PossibleMove, c: Color) -> bool {
    let e = m.end.num as int;
    let s = m.start.num as int;
    &&& (data[e] is Empty || data[e]->Taken_0 != c)
    &&& match m.extra {
        Overwrites::Zero => true,
        Overwrites::One(p, t) => {
            &&& t == Tile::Empty
            &&& data[p.num as int] matches Tile::Taken(pc, Piece::Pawn, _)
            &&& data[p.num as int]->Taken_0 != c
            &&& data[e] is Empty
            &&& p.num != s
            &&& p.num != e
        },
        Overwrites::Two(p, t, q, u) => {
            &&& t == Tile::Empty
            &&& data[p.num as int] matches Tile::Taken(_, Piece::Rook, _)
            &&& data[p.num as int]->Taken_0 == c
            &&& u == data[p.num as int]
            &&& data[q.num as int] is Empty
            &&& data[e] is Empty
            &&& p.num != s && p.num != e && q.num != s && q.num != e && p.num != q.num
        },
    }
}

/// The promotion selector of the `k`-th upgrade variant: rook, knight,
/// bishop, queen.
pub open spec fn upgrade_choice(k: int) -> u8 {
    if k == 0 {
        1
    } else if k == 1 {
        2
    } else if k == 2 {
        3
    } else {
        5
    }
}

/// A pawn's move from `s` to `t` with overwrites `x`.
pub open spec fn pawn_move(s: Pos, t: Pos, upgrade: u8, x: Overwrites) -> PossibleMove {
    PossibleMove { start: s, end: t, extra: x, upgrade }
}

/// A pawn's move from `s` to `t` with overwrites `x`: four variants, one
/// per promotion piece, on the first or last rank, else one plain move.
pub open spec fn pawn_variants(s: Pos, t: Pos, x: Overwrites) -> Seq<PossibleMove> {
    if t.y == 0 || t.y == 7 {
        seq![pawn_move(s, t, 1, x), pawn_move(s, t, 2, x), pawn_move(s, t, 3, x), pawn_move(s, t, 5, x)]
    } else {
        seq![pawn_move(s, t, 0, x)]
    }
}

/// The forward moves of a pawn of color `c` at `s`: one rank if that square
/// is empty, and then two ranks if the pawn is unmoved and that square is
/// empty too.
#[verifier::opaque]
pub open spec fn pawn_pushes(data: Seq<Tile>, s: Pos, c: Color, info: PieceInfo) -> Seq<
    PossibleMove,
> {
    let d = direction(c);
    match step_to(s, 0, d) {
        Some(t1) => if tile_at(data, t1) is Empty {
            pawn_variants(s, t1, Overwrites::Zero) + if info == PieceInfo::Unmoved {
                match step_to(s, 0, 2 * d) {
                    Some(t2) => if tile_at(data, t2) is Empty {
                        pawn_variants(s, t2, Overwrites::Zero)
                    } else {
                        Seq::empty()
                    },
                    None => Seq::empty(),
                }
            } else {
                Seq::empty()
            }
        } else {
            Seq::empty()
        },
        None => Seq::empty(),
    }
}

/// The diagonal capture of a pawn of color `c` at `s` towards file offset
/// `dx`: onto an enemy piece, or else en passant when the piece beside the
/// pawn is an enemy pawn that has just double moved and the square the
/// pawn lands on is empty; the enemy pawn is removed.
#[verifier::opaque]
pub open spec fn pawn_takes(data: Seq<Tile>, s: Pos, dx: int, c: Color) -> Seq<PossibleMove> {
    match step_to(s, dx, direction(c)) {
        Some(t) => match tile_at(data, t) {
            Tile::Taken(tc, _, _) if tc != c => pawn_variants(s, t, Overwrites::Zero),
            _ => match step_to(s, dx, 0) {
                Some(tp) => if !(tile_at(data, t) is Empty) {
                    Seq::empty()
                } else {
                    match tile_at(data, tp) {
                        Tile::Taken(tc, Piece::Pawn, PieceInfo::JustDoubleMoved) if tc
                            != c => pawn_variants(s, t, Overwrites::One(tp, Tile::Empty)),
                        _ => Seq::empty(),
                    }
                },
                None => Seq::empty(),
            },
        },
        None => Seq::empty(),
    }
}

pub open spec fn pawn_moves(data: Seq<Tile>, s: Pos, c: Color, info: PieceInfo) -> Seq<
    PossibleMove,
> {
    pawn_pushes(data, s, c, info) + pawn_takes(data, s, 1, c) + pawn_takes(data, s, -1, c)
}

/// A single step from `s` to `q`: onto an empty square or an enemy piece.
pub open spec fn single_step(data: Seq<Tile>, s: Pos, q: Option<Pos>, c: Color) -> Seq<
    PossibleMove,
> {
    match q {
        Some(t) => match tile_at(data, t) {
            Tile::Empty => seq![PossibleMove::spec_basic(s, t, 0)],
            Tile::Taken(tc, _, _) => if tc != c {
                seq![PossibleMove::spec_basic(s, t, 0)]
            } else {
                Seq::empty()
            },
        },
        None => Seq::empty(),
    }
}

/// The knight's moves along the first `n` hops.
pub open spec fn knight_moves(data: Seq<Tile>, s: Pos, c: Color, n: int) -> Seq<PossibleMove>
    decreases n,
{
    if n <= 0 {
        Seq::empty()
    } else {
        knight_moves(data, s, c, n - 1) + single_step(
            data,
            s,
            step_to(s, knight_hop(n - 1).0, knight_hop(n - 1).1),
            c,
        )
    }
}

/// The king's plain moves to the first `n` neighbouring squares.
pub open spec fn king_steps(data: Seq<Tile>, s: Pos, c: Color, n: int) -> Seq<PossibleMove>
    decreases n,
{
    if n <= 0 {
        Seq::empty()
    } else {
        king_steps(data, s, c, n - 1) + single_step(
            data,
            s,
            step_to(s, neighbour(n - 1).0, neighbour(n - 1).1),
            c,
        )
    }
}

/// A slide from `s`, continuing past `cur` in direction `(dx, dy)` for at
/// most `fuel` squares: each empty square, then the first enemy piece; a
/// friendly piece or the edge stops it.
pub open spec fn ray_moves(
    data: Seq<Tile>,
    s: Pos,
    cur: Pos,
    dx: int,
    dy: int,
    c: Color,
    fuel: nat,
) -> Seq<PossibleMove>
    decreases fuel,
{
    if fuel == 0 {
        Seq::empty()
    } else {
        match step_to(cur, dx, dy) {
            None => Seq::empty(),
            Some(q) => match tile_at(data, q) {
                Tile::Empty => seq![PossibleMove::spec_basic(s, q, 0)] + ray_moves(
                    data,
                    s,
                    q,
                    dx,
                    dy,
                    c,
                    (fuel - 1) as nat,
                ),
                Tile::Taken(tc, _, _) => if tc != c {
                    seq![PossibleMove::spec_basic(s, q, 0)]
                } else {
                    Seq::empty()
                },
            },
        }
    }
}

/// The direction of a slider: `kind` 0 for the bishop's diagonals, 1 for
/// the rook's straights, 2 for the queen's eight.
pub open spec fn slide_dir(kind: int, k: int) -> (int, int) {
    if kind == 0 {
        diagonal(k)
    } else if kind == 1 {
        straight(k)
    } else {
        queen_dir(k)
    }
}

/// How many directions a slider of this kind has.
pub open spec fn slider_dirs(kind: int) -> int {
    if kind == 2 {
        8
    } else {
        4
    }
}

/// A slider's moves along its first `n` directions.
pub open spec fn slider_moves(data: Seq<Tile>, s: Pos, c: Color, kind: int, n: int) -> Seq<
    PossibleMove,
>
    decreases n,
{
    if n <= 0 {
        Seq::empty()
    } else {
        slider_moves(data, s, c, kind, n - 1) + ray_moves(
            data,
            s,
            s,
            slide_dir(kind, n - 1).0,
            slide_dir(kind, n - 1).1,
            c,
            8,
        )
    }
}


/// Are the squares of rank `y` with files `a <= x < b` empty and safe for `c`.
pub open spec fn path_clear(data: Seq<Tile>, y: int, a: int, b: int, c: Color) -> bool {
    forall|x: int|
        a <= x < b ==> tile_at(data, Pos::at(x, y)) is Empty && square_safe(
            data,
            Pos::at(x, y),
            c,
        )
}

/// May the king at `s` castle with the rook on file `rook_x` of its rank:
/// the king stands on its home file 3 (so files 1 and 2, or 4 to 6, are the
/// squares between it and the rook), the rook is its own and unmoved, the king's square is safe, the squares between them
/// are empty, and those the king crosses or lands on are safe.
pub open spec fn castle_allowed(data: Seq<Tile>, s: Pos, rook_x: int, c: Color) -> bool {
    let rp = Pos::at(rook_x, s.y as int);
    let path_ok = if rook_x == 0 {
        path_clear(data, s.y as int, 1, 3, c)
    } else {
        path_clear(data, s.y as int, 4, 6, c) && tile_at(data, Pos::at(6, s.y as int)) is Empty
    };
    &&& s.x == 3
    &&& tile_at(data, rp) matches Tile::Taken(rc, Piece::Rook, PieceInfo::Unmoved)
    &&& tile_at(data, rp)->Taken_0 == c
    &&& square_safe(data, s, c)
    &&& path_ok
}

/// The castling move with the rook on file `rook_x`: the king lands on file
/// 1 or 5, the rook beside it on file 2 or 4.
pub open spec fn castle_move(data: Seq<Tile>, s: Pos, rook_x: int) -> PossibleMove {
    let rp = Pos::at(rook_x, s.y as int);
    let king_x: int = if rook_x == 0 {
        1
    } else {
        5
    };
    let rook_to: int = if rook_x == 0 {
        2
    } else {
        4
    };
    PossibleMove {
        start: s,
        end: Pos::at(king_x, s.y as int),
        extra: Overwrites::Two(rp, Tile::Empty, Pos::at(rook_to, s.y as int), tile_at(data, rp)),
        upgrade: 0,
    }
}

pub open spec fn castle_moves(data: Seq<Tile>, s: Pos, rook_x: int, c: Color) -> Seq<
    PossibleMove,
> {
    if castle_allowed(data, s, rook_x, c) {
        seq![castle_move(data, s, rook_x)]
    } else {
        Seq::empty()
    }
}

pub open spec fn king_moves(data: Seq<Tile>, s: Pos, c: Color, info: PieceInfo) -> Seq<
    PossibleMove,
> {
    king_steps(data, s, c, 8) + if info == PieceInfo::Unmoved {
        castle_moves(data, s, 0, c) + castle_moves(data, s, 7, c)
    } else {
        Seq::empty()
    }
}

/// The pseudo-legal moves of the piece at `s`, if it has color `c`.
pub open spec fn moves_for(data: Seq<Tile>, s: Pos, c: Color) -> Seq<PossibleMove> {
    match tile_at(data, s) {
        Tile::Empty => Seq::empty(),
        Tile::Taken(tc, p, info) => if tc != c {
            Seq::empty()
        } else {
            match p {
                Piece::Pawn => pawn_moves(data, s, c, info),
                Piece::Knight => knight_moves(data, s, c, 8),
                Piece::Bishop => slider_moves(data, s, c, 0, 4),
                Piece::Rook => slider_moves(data, s, c, 1, 4),
                Piece::Queen => slider_moves(data, s, c, 2, 8),
                Piece::King => king_moves(data, s, c, info),
            }
        },
    }
}

/// The pseudo-legal moves of color `c` from the first `n` squares, square by
/// square.
pub open spec fn all_moves(data: Seq<Tile>, c: Color, n: int) -> Seq<PossibleMove>
    decreases n,
{
    if n <= 0 {
        Seq::empty()
    } else {
        all_moves(data, c, n - 1) + moves_for(data, Pos::at((n - 1) % 8, (n - 1) / 8), c)
    }
}

/// The pseudo-legal moves of the side to move.
pub open spec fn pseudo_moves(data: Seq<Tile>, c: Color) -> Seq<PossibleMove> {
    all_moves(data, c, 64)
}

/// Every move of `res` from index `from` on starts on square `s`.
pub open spec fn starts_from(res: Seq<PossibleMove>, from: int, s: Pos) -> bool {
    forall|i: int| from <= i < res.len() ==> (#[trigger] res[i]).start == s
}

/// Every move of `res` from index `from` on can be applied to `data`.
pub open spec fn all_ok_from(data: Seq<Tile>, res: Seq<PossibleMove>, from: int) -> bool {
    forall|i: int| from <= i < res.len() ==> move_ok(data, #[trigger] res[i])
}

impl Board {
    fn push_variants(&self, s: Pos, t: Pos, c: Color, x: Overwrites, result: &mut Vec<PossibleMove>)
        requires
            s.wf(),
            t.wf(),
            s.num != t.num,
            self.data@[s.num as int] matches Tile::Taken(sc, Piece::Pawn, _) && sc == c,
            tile_at(self.data@, t) is Empty || tile_at(self.data@, t)->Taken_0 != c,
            match x {
                Overwrites::Zero => true,
                Overwrites::One(tp, tt) => {
                    &&& tt == Tile::Empty
                    &&& tp.wf()
                    &&& tile_at(self.data@, t) is Empty
                    &&& self.data@[tp.num as int] matches Tile::Taken(_, Piece::Pawn, _)
                    &&& self.data@[tp.num as int]->Taken_0 != c
                    &&& tp.num != s.num
                    &&& tp.num != t.num
                },
                Overwrites::Two(_, _, _, _) => false,
            },
        ensures
            final(result)@ == old(result)@ + pawn_variants(s, t, x),
            all_ok_from(self.data@, final(result)@, old(result)@.len() as int),
            starts_from(final(result)@, old(result)@.len() as int, s),
    {
        if t.y == 0 || t.y == 7 {
            result.push(PossibleMove { start: s, end: t, extra: x, upgrade: 1 });
            result.push(PossibleMove { start: s, end: t, extra: x, upgrade: 2 });
            result.push(PossibleMove { start: s, end: t, extra: x, upgrade: 3 });
            result.push(PossibleMove { start: s, end: t, extra: x, upgrade: 5 });
        } else {
            result.push(PossibleMove { start: s, end: t, extra: x, upgrade: 0 });
        }
        assert(result@ =~= old(result)@ + pawn_variants(s, t, x));
    }

    fn try_pawn_takes(&self, s: Pos, dx: i8, c: Color, result: &mut Vec<PossibleMove>)
        requires
            s.wf(),
            dx == 1 || dx == -1,
            self.data@[s.num as int] matches Tile::Taken(sc, Piece::Pawn, _) && sc == c,
        ensures
            final(result)@ == old(result)@ + pawn_takes(self.data@, s, dx as int, c),
            all_ok_from(self.data@, final(result)@, old(result)@.len() as int),
            starts_from(final(result)@, old(result)@.len() as int, s),
    {
        let d = c.get_dir();
        match s.step(dx, d) {
            Some(t) => {
                let enemy_there = match self.data[t.num] {
                    Tile::Taken(tc, _, _) => tc != c,
                    Tile::Empty => false,
                };
                if enemy_there {
                    self.push_variants(s, t, c, Overwrites::Zero, result);
                } else {
                    {
                        match s.step(dx, 0) {
                            Some(tp) => {
                                if !self.data[t.num].is_empty() {
                                } else {
                                    match self.data[tp.num] {
                                        Tile::Taken(tc, Piece::Pawn, PieceInfo::JustDoubleMoved) => {
                                            if tc != c {
                                                self.push_variants(
                                                    s,
                                                    t,
                                                    c,
                                                    Overwrites::One(tp, Tile::Empty),
                                                    result,
                                                );
                                            }
                                        },
                                        _ => {},
                                    }
                                }
                            },
                            None => {},
                        }
                    }
                }
            },
            None => {},
        }
        reveal(pawn_takes);
        assert(result@ =~= old(result)@ + pawn_takes(self.data@, s, dx as int, c));
    }

    fn pawn_moves_exec(&self, s: Pos, c: Color, info: PieceInfo, result: &mut Vec<PossibleMove>)
        requires
            s.wf(),
            self.data@[s.num as int] matches Tile::Taken(sc, Piece::Pawn, _) && sc == c,
        ensures
            final(result)@ == old(result)@ + pawn_moves(self.data@, s, c, info),
            all_ok_from(self.data@, final(result)@, old(result)@.len() as int),
            starts_from(final(result)@, old(result)@.len() as int, s),
    {
        let ghost r0 = result@;
        self.pawn_pushes_exec(s, c, info, result);
        self.try_pawn_takes(s, 1, c, result);
        self.try_pawn_takes(s, -1, c, result);
        proof {
            let pp = pawn_pushes(self.data@, s, c, info);
            let t1 = pawn_takes(self.data@, s, 1, c);
            let t2 = pawn_takes(self.data@, s, -1, c);
            assert(result@ == r0 + pp + t1 + t2);
            assert(result@ =~= r0 + (pp + t1 + t2));
        }
    }

    fn pawn_pushes_exec(&self, s: Pos, c: Color, info: PieceInfo, result: &mut Vec<PossibleMove>)
        requires
            s.wf(),
            self.data@[s.num as int] matches Tile::Taken(sc, Piece::Pawn, _) && sc == c,
        ensures
            final(result)@ == old(result)@ + pawn_pushes(self.data@, s, c, info),
            all_ok_from(self.data@, final(result)@, old(result)@.len() as int),
            starts_from(final(result)@, old(result)@.len() as int, s),
    {
        let ghost r0 = result@;
        let d = c.get_dir();
        match s.step(0, d) {
            Some(t1) => {
                if self.data[t1.num].is_empty() {
                    self.push_variants(s, t1, c, Overwrites::Zero, result);
                    if info == PieceInfo::Unmoved {
                        match s.step(0, 2 * d) {
                            Some(t2) => {
                                if self.data[t2.num].is_empty() {
                                    self.push_variants(s, t2, c, Overwrites::Zero, result);
                                }
                            },
                            None => {},
                        }
                    }
                }
            },
            None => {},
        }
        reveal(pawn_pushes);
        assert(result@ =~= r0 + pawn_pushes(self.data@, s, c, info));
    }

    fn single_step_exec(&self, s: Pos, q: Option<Pos>, c: Color, result: &mut Vec<PossibleMove>)
        requires
            s.wf(),
            q matches Some(t) ==> t.wf(),
            !(self.data@[s.num as int] matches Tile::Taken(_, Piece::Pawn, _)),
            self.data@[s.num as int] matches Tile::Taken(sc, _, _) && sc == c,
        ensures
            final(result)@ == old(result)@ + single_step(self.data@, s, q, c),
            all_ok_from(self.data@, final(result)@, old(result)@.len() as int),
            starts_from(final(result)@, old(result)@.len() as int, s),
    {
        match q {
            Some(t) => match self.data[t.num] {
                Tile::Empty => {
                    result.push(PossibleMove::basic(s, t, 0));
                },
                Tile::Taken(tc, _, _) => {
                    if tc != c {
                        result.push(PossibleMove::basic(s, t, 0));
                    }
                },
            },
            None => {},
        }
        assert(result@ =~= old(result)@ + single_step(self.data@, s, q, c));
    }

    fn knight_moves_exec(&self, s: Pos, c: Color, result: &mut Vec<PossibleMove>)
        requires
            s.wf(),
            !(self.data@[s.num as int] matches Tile::Taken(_, Piece::Pawn, _)),
            self.data@[s.num as int] matches Tile::Taken(sc, _, _) && sc == c,
        ensures
            final(result)@ == old(result)@ + knight_moves(self.data@, s, c, 8),
            all_ok_from(self.data@, final(result)@, old(result)@.len() as int),
            starts_from(final(result)@, old(result)@.len() as int, s),
    {
        let ghost r0 = result@;
        let mut k: usize = 0;
        while k < 8
            invariant
                k <= 8,
                s.wf(),
                !(self.data@[s.num as int] matches Tile::Taken(_, Piece::Pawn, _)),
                self.data@[s.num as int] matches Tile::Taken(sc, _, _) && sc == c,
                result@ == r0 + knight_moves(self.data@, s, c, k as int),
                all_ok_from(self.data@, result@, r0.len() as int),
                starts_from(result@, r0.len() as int, s),
            decreases 8 - k,
        {
            let h = knight_hop_at(k);
            self.single_step_exec(s, s.step(h.0, h.1), c, result);
            assert(result@ =~= r0 + knight_moves(self.data@, s, c, k + 1));
            k = k + 1;
        }
    }

    fn king_steps_exec(&self, s: Pos, c: Color, result: &mut Vec<PossibleMove>)
        requires
            s.wf(),
            !(self.data@[s.num as int] matches Tile::Taken(_, Piece::Pawn, _)),
            self.data@[s.num as int] matches Tile::Taken(sc, _, _) && sc == c,
        ensures
            final(result)@ == old(result)@ + king_steps(self.data@, s, c, 8),
            all_ok_from(self.data@, final(result)@, old(result)@.len() as int),
            starts_from(final(result)@, old(result)@.len() as int, s),
    {
        let ghost r0 = result@;
        let mut k: usize = 0;
        while k < 8
            invariant
                k <= 8,
                s.wf(),
                !(self.data@[s.num as int] matches Tile::Taken(_, Piece::Pawn, _)),
                self.data@[s.num as int] matches Tile::Taken(sc, _, _) && sc == c,
                result@ == r0 + king_steps(self.data@, s, c, k as int),
                all_ok_from(self.data@, result@, r0.len() as int),
                starts_from(result@, r0.len() as int, s),
            decreases 8 - k,
        {
            let h = neighbour_at(k);
            self.single_step_exec(s, s.step(h.0, h.1), c, result);
            assert(result@ =~= r0 + king_steps(self.data@, s, c, k + 1));
            k = k + 1;
        }
    }

    fn try_direction_step(&self, s: Pos, d: (i8, i8), c: Color, result: &mut Vec<PossibleMove>)
        requires
            s.wf(),
            -1 <= d.0 <= 1,
            -1 <= d.1 <= 1,
            !(self.data@[s.num as int] matches Tile::Taken(_, Piece::Pawn, _)),
            self.data@[s.num as int] matches Tile::Taken(sc, _, _) && sc == c,
        ensures
            final(result)@ == old(result)@ + ray_moves(self.data@, s, s, d.0 as int, d.1 as int, c, 8),
            all_ok_from(self.data@, final(result)@, old(result)@.len() as int),
            starts_from(final(result)@, old(result)@.len() as int, s),
    {
        let ghost r0 = result@;
        let ghost whole = ray_moves(self.data@, s, s, d.0 as int, d.1 as int, c, 8);
        let mut cur = s;
        let mut fuel: usize = 8;
        while fuel > 0
            invariant
                cur.wf(),
                s.wf(),
                fuel <= 8,
                -1 <= d.0 <= 1,
                -1 <= d.1 <= 1,
                !(self.data@[s.num as int] matches Tile::Taken(_, Piece::Pawn, _)),
                self.data@[s.num as int] matches Tile::Taken(sc, _, _) && sc == c,
                whole == ray_moves(self.data@, s, s, d.0 as int, d.1 as int, c, 8),
                r0 == old(result)@,
                r0 + whole == result@ + ray_moves(self.data@, s, cur, d.0 as int, d.1 as int, c, fuel as nat),
                all_ok_from(self.data@, result@, r0.len() as int),
                starts_from(result@, r0.len() as int, s),
            decreases fuel,
        {
            match cur.step(d.0, d.1) {
                None => {
                    assert(r0 + whole =~= result@);
                    return;
                },
                Some(q) => {
                    match self.data[q.num] {
                        Tile::Empty => {
                            let ghost before = result@;
                            result.push(PossibleMove::basic(s, q, 0));
                            assert(before + ray_moves(self.data@, s, cur, d.0 as int, d.1 as int, c, fuel as nat)
                                =~= result@ + ray_moves(self.data@, s, q, d.0 as int, d.1 as int, c, (fuel - 1) as nat));
                            cur = q;
                            fuel = fuel - 1;
                        },
                        Tile::Taken(tc, _, _) => {
                            if tc != c {
                                result.push(PossibleMove::basic(s, q, 0));
                            }
                            assert(r0 + whole =~= result@);
                            return;
                        },
                    }
                },
            }
        }
        assert(r0 + whole =~= result@);
    }

    fn slider_moves_exec(&self, s: Pos, c: Color, kind: usize, result: &mut Vec<PossibleMove>)
        requires
            s.wf(),
            kind < 3,
            !(self.data@[s.num as int] matches Tile::Taken(_, Piece::Pawn, _)),
            self.data@[s.num as int] matches Tile::Taken(sc, _, _) && sc == c,
        ensures
            final(result)@ == old(result)@ + slider_moves(self.data@, s, c, kind as int, slider_dirs(kind as int)),
            all_ok_from(self.data@, final(result)@, old(result)@.len() as int),
            starts_from(final(result)@, old(result)@.len() as int, s),
    {
        let ghost r0 = result@;
        let n: usize = if kind == 2 { 8 } else { 4 };
        let mut k: usize = 0;
        while k < n
            invariant
                k <= n,
                n == slider_dirs(kind as int),
                kind < 3,
                s.wf(),
                !(self.data@[s.num as int] matches Tile::Taken(_, Piece::Pawn, _)),
                self.data@[s.num as int] matches Tile::Taken(sc, _, _) && sc == c,
                result@ == r0 + slider_moves(self.data@, s, c, kind as int, k as int),
                all_ok_from(self.data@, result@, r0.len() as int),
                starts_from(result@, r0.len() as int, s),
            decreases n - k,
        {
            let d = if kind == 0 {
                diagonal_at(k)
            } else if kind == 1 {
                straight_at(k)
            } else {
                queen_dir_at(k)
            };
            self.try_direction_step(s, d, c, result);
            assert(result@ =~= r0 + slider_moves(self.data@, s, c, kind as int, k + 1));
            k = k + 1;
        }
    }

    fn try_rochade(&self, s: Pos, rook_x: i8, c: Color, result: &mut Vec<PossibleMove>)
        requires
            s.wf(),
            rook_x == 0 || rook_x == 7,
            self.data@[s.num as int] matches Tile::Taken(_, Piece::King, _),
            !(self.data@[s.num as int] matches Tile::Taken(_, Piece::Pawn, _)),
            self.data@[s.num as int] matches Tile::Taken(sc, _, _) && sc == c,
        ensures
            final(result)@ == old(result)@ + castle_moves(self.data@, s, rook_x as int, c),
            all_ok_from(self.data@, final(result)@, old(result)@.len() as int),
            starts_from(final(result)@, old(result)@.len() as int, s),
    {
        if s.x != 3 {
            return;
        }
        let rp = Pos::from_ints(rook_x, s.y);
        let rook_tile = self.data[rp.num];
        assert(Pos::at(s.x as int, s.y as int) == s);
        match rook_tile {
            Tile::Taken(rc, Piece::Rook, PieceInfo::Unmoved) => {
                if rc != c {
                    return;
                }
            },
            _ => {
                return;
            },
        }
        if !self.check_safety(s.x, s.y, c) {
            return;
        }
        let king_x: i8 = if rook_x == 0 { 1 } else { 5 };
        let rook_to: i8 = if rook_x == 0 { 2 } else { 4 };
        let a: i8 = if rook_x == 0 { 1 } else { 4 };
        let b: i8 = if rook_x == 0 { 3 } else { 6 };
        let mut x: i8 = a;
        while x < b
            invariant
                s.wf(),
                a <= x <= b,
                b <= 6,
                1 <= a,
                rook_x == 0 || rook_x == 7,
                a == (if rook_x == 0 { 1i8 } else { 4i8 }),
                b == (if rook_x == 0 { 3i8 } else { 6i8 }),
                result@ == old(result)@,
                forall|xx: int|
                    a <= xx < x ==> tile_at(self.data@, Pos::at(xx, s.y as int)) is Empty
                        && square_safe(self.data@, Pos::at(xx, s.y as int), c),
            decreases b - x,
        {
            let p = Pos::from_ints(x, s.y);
            if !(self.data[p.num].is_empty() && self.check_safety(x, s.y, c)) {
                assert(!path_clear(self.data@, s.y as int, a as int, b as int, c));
                return;
            }
            x = x + 1;
        }
        if rook_x == 7 && !self.data[Pos::from_ints(6, s.y).num].is_empty() {
            return;
        }
        proof {
            let y = s.y as int;
            assert(tile_at(self.data@, Pos::at(king_x as int, y)) is Empty);
            assert(tile_at(self.data@, Pos::at(rook_to as int, y)) is Empty);
        }
        result.push(
            PossibleMove {
                start: s,
                end: Pos::from_ints(king_x, s.y),
                extra: Overwrites::Two(rp, Tile::Empty, Pos::from_ints(rook_to, s.y), rook_tile),
                upgrade: 0,
            },
        );
        assert(result@ =~= old(result)@ + castle_moves(self.data@, s, rook_x as int, c));
    }

    fn king_moves_exec(&self, s: Pos, c: Color, info: PieceInfo, result: &mut Vec<PossibleMove>)
        requires
            s.wf(),
            self.data@[s.num as int] matches Tile::Taken(_, Piece::King, _),
            !(self.data@[s.num as int] matches Tile::Taken(_, Piece::Pawn, _)),
            self.data@[s.num as int] matches Tile::Taken(sc, _, _) && sc == c,
        ensures
            final(result)@ == old(result)@ + king_moves(self.data@, s, c, info),
            all_ok_from(self.data@, final(result)@, old(result)@.len() as int),
            starts_from(final(result)@, old(result)@.len() as int, s),
    {
        let ghost r0 = result@;
        self.king_steps_exec(s, c, result);
        if info == PieceInfo::Unmoved {
            self.try_rochade(s, 0, c, result);
            self.try_rochade(s, 7, c, result);
        }
        assert(result@ =~= r0 + king_moves(self.data@, s, c, info));
    }

    /// The pseudo-legal moves of the piece at `pos`, if it has color
    /// `move_color`.
    pub fn get_possible_moves_for_pos(&self, pos: Pos, move_color: Color) -> (r: Vec<PossibleMove>)
        requires
            pos.wf(),
        ensures
            r@ == moves_for(self.data@, pos, move_color),
            all_ok_from(self.data@, r@, 0),
            starts_from(r@, 0, pos),
    {
        let mut result: Vec<PossibleMove> = Vec::new();
        match self.data[pos.num] {
            Tile::Empty => {},
            Tile::Taken(color, piece, info) => {
                if color == move_color {
                    match piece {
                        Piece::Pawn => self.pawn_moves_exec(pos, color, info, &mut result),
                        Piece::Knight => self.knight_moves_exec(pos, color, &mut result),
                        Piece::Bishop => self.slider_moves_exec(pos, color, 0, &mut result),
                        Piece::Rook => self.slider_moves_exec(pos, color, 1, &mut result),
                        Piece::Queen => self.slider_moves_exec(pos, color, 2, &mut result),
                        Piece::King => self.king_moves_exec(pos, color, info, &mut result),
                    }
                }
            },
        }
        assert(result@ =~= moves_for(self.data@, pos, move_color));
        result
    }

    /// The pseudo-legal moves of the side to move, square by square.
    pub fn get_possible_moves(&self) -> (r: Vec<PossibleMove>)
        requires
            self.counter >= 0,
        ensures
            r@ == pseudo_moves(self.data@, side_to_move(self@)),
            all_ok_from(self.data@, r@, 0),
    {
        let move_color = Color::from_num((self.counter % 2) as usize);
        let mut result: Vec<PossibleMove> = Vec::new();
        let mut i: usize = 0;
        while i < 64
            invariant
                i <= 64,
                move_color == side_to_move(self@),
                result@ == all_moves(self.data@, move_color, i as int),
                all_ok_from(self.data@, result@, 0),
            decreases 64 - i,
        {
            let pos = Pos::from_num(i);
            assert(pos == Pos::at(i as int % 8, i as int / 8));
            let mut found = self.get_possible_moves_for_pos(pos, move_color);
            result.append(&mut found);
            assert(result@ =~= all_moves(self.data@, move_color, i + 1));
            i = i + 1;
        }
        result
    }
}

proof fn lemma_king_steps_plain(data: Seq<Tile>, s: Pos, c: Color, n: int)
    ensures
        forall|i: int|
            0 <= i < king_steps(data, s, c, n).len() ==> (#[trigger] king_steps(data, s, c, n)[i]).extra
                == Overwrites::Zero,
    decreases n,
{
    if n > 0 {
        lemma_king_steps_plain(data, s, c, n - 1);
        let a = king_steps(data, s, c, n - 1);
        let b = single_step(data, s, step_to(s, neighbour(n - 1).0, neighbour(n - 1).1), c);
        assert forall|i: int| 0 <= i < (a + b).len() implies (#[trigger] (a + b)[i]).extra
            == Overwrites::Zero by {
            if i >= a.len() {
                assert((a + b)[i] == b[i - a.len()]);
            }
        }
    }
}

/// Castling rule: the king of color `c` on square `s` (unmoved or not) has
/// the castling move with the rook on file `rook_x` among its moves exactly
/// when the king is unmoved, that rook is unmoved, every square between them
/// is empty, and the king's square and the squares it crosses and lands on
/// are not attacked.
pub proof fn lemma_castling_rule(data: Seq<Tile>, s: Pos, c: Color, info: PieceInfo, rook_x: int)
    requires
        s.wf(),
        data.len() == 64,
        tile_at(data, s) == Tile::Taken(c, Piece::King, info),
        rook_x == 0 || rook_x == 7,
    ensures
        moves_for(data, s, c).contains(castle_move(data, s, rook_x)) <==> (info == PieceInfo::Unmoved
            && castle_allowed(data, s, rook_x, c)),
{
    let m = castle_move(data, s, rook_x);
    let ks = king_steps(data, s, c, 8);
    lemma_king_steps_plain(data, s, c, 8);
    let other = if rook_x == 0 {
        7
    } else {
        0
    };
    let o = castle_move(data, s, other);
    assert(o.end != m.end);
    if info == PieceInfo::Unmoved {
        let cs = castle_moves(data, s, 0, c) + castle_moves(data, s, 7, c);
        let all = ks + cs;
        assert(moves_for(data, s, c) == all);
        if castle_allowed(data, s, rook_x, c) {
            let idx = if rook_x == 0 {
                ks.len() as int
            } else {
                ks.len() + castle_moves(data, s, 0, c).len() as int
            };
            assert(all[idx] == m);
        } else {
            assert forall|i: int| 0 <= i < all.len() implies all[i] != m by {
                if i < ks.len() {
                    assert(all[i] == ks[i]);
                    assert(ks[i].extra == Overwrites::Zero);
                } else {
                    assert(all[i] == cs[i - ks.len()]);
                }
            }
        }
    } else {
        assert(moves_for(data, s, c) == ks + Seq::<PossibleMove>::empty());
        assert forall|i: int| 0 <= i < moves_for(data, s, c).len() implies moves_for(data, s, c)[i]
            != m by {
            assert(moves_for(data, s, c)[i] == ks[i]);
            assert(ks[i].extra == Overwrites::Zero);
        }
    }
}

/// Promotion rule: a pawn move to the first or last rank (a push, a capture
/// or en passant) comes in exactly four variants, one for each of rook, knight, bishop and queen.
pub proof fn lemma_promotion_variants(s: Pos, t: Pos, x: Overwrites)
    requires
        t.y == 0 || t.y == 7,
    ensures
        pawn_variants(s, t, x).len() == 4,
        forall|k: int|
            0 <= k < 4 ==> #[trigger] pawn_variants(s, t, x)[k] == pawn_move(
                s,
                t,
                upgrade_choice(k),
                x,
            ),
        forall|k: int| 0 <= k < 4 ==> valid_upgrade(#[trigger] upgrade_choice(k)),
{
}

} // verus!
