use vstd::prelude::*;
use crate::piece::{Color, Piece, Tile, color_of_index, opponent, direction};
use crate::pos::{Pos, on_board, step_to};

verus! {

/// Whether the game goes on, or which side has won.
#[derive(Clone, Copy, Debug, PartialEq, Eq, Structural)]
pub enum GameState {
    Won(Color),
    Ongoing,
}

/// The tiles a move overwrites besides its start and end square, in order:
/// the pawn taken en passant, or the rook moved by castling.
#[derive(Clone, Copy, Debug, PartialEq, Eq, Structural)]
pub enum Overwrites {
    Zero,
    One(Pos, Tile),
    Two(Pos, Tile, Pos, Tile),
}

/// A move: the moving piece goes from `start` to `end`; a pawn reaching the
/// far rank becomes the piece that `upgrade` selects.
#[derive(Clone, Copy, Debug, PartialEq, Eq, Structural)]
pub struct PossibleMove {
    pub start: Pos,
    pub end: Pos,
    pub extra: Overwrites,
    pub upgrade: u8,
}

impl PossibleMove {
    pub open spec fn wf(&self) -> bool {
        &&& self.start.wf()
        &&& self.end.wf()
        &&& match self.extra {
            Overwrites::Zero => true,
            Overwrites::One(p, _) => p.wf(),
            Overwrites::Two(p, _, q, _) => p.wf() && q.wf(),
        }
    }

    pub open spec fn spec_basic(start: Pos, end: Pos, upgrade: u8) -> PossibleMove {
        PossibleMove { start, end, extra: Overwrites::Zero, upgrade }
    }

    pub fn basic(start: Pos, end: Pos, upgrade: u8) -> (r: PossibleMove)
        ensures
            r == PossibleMove::spec_basic(start, end, upgrade),
    {
        PossibleMove { start, end, extra: Overwrites::Zero, upgrade }
    }

    pub fn start_num(&self) -> (r: usize)
        ensures
            r == self.start.num,
    {
        self.start.num
    }

    pub fn end_num(&self) -> (r: usize)
        ensures
            r == self.end.num,
    {
        self.end.num
    }
}

/// A position: the 64 tiles, the ply counter (its parity gives the side to
/// move), where each king stands, each side's material and the game's state.
#[derive(Clone, Copy, Debug)]
pub struct Board {
    pub counter: i32,
    pub data: [Tile; 64],
    pub king_positions: [Pos; 2],
    pub value_counts: [i64; 2],
    pub state: GameState,
}

/// The mathematical content of a position.
pub struct BoardView {
    pub counter: int,
    pub data: Seq<Tile>,
    pub kings: Seq<Pos>,
    pub values: Seq<int>,
    pub state: GameState,
}

impl View for Board {
    type V = BoardView;

    open spec fn view(&self) -> BoardView {
        BoardView {
            counter: self.counter as int,
            data: self.data@,
            kings: self.king_positions@,
            values: seq![self.value_counts[0] as int, self.value_counts[1] as int],
            state: self.state,
        }
    }
}

/// How far the material totals may have drifted after `counter` plies; it
/// keeps their arithmetic within bounds.
pub open spec fn value_bound(counter: int) -> int {
    1000 + 60 * counter
}

/// Index of the side to move.
pub open spec fn side_index(counter: int) -> int {
    counter % 2
}

pub open spec fn side_to_move(v: BoardView) -> Color {
    color_of_index(side_index(v.counter))
}

impl Board {
    pub open spec fn wf(&self) -> bool {
        &&& 0 <= self.counter
        &&& self.king_positions[0].wf()
        &&& self.king_positions[1].wf()
        &&& -value_bound(self.counter as int) <= self.value_counts[0] <= value_bound(
            self.counter as int,
        )
        &&& -value_bound(self.counter as int) <= self.value_counts[1] <= value_bound(
            self.counter as int,
        )
    }
}

/// The tile at square `p`.
pub open spec fn tile_at(data: Seq<Tile>, p: Pos) -> Tile {
    data[p.num as int]
}

/// Does square `q` (if any) hold a piece of kind `piece` and color `c`.
pub open spec fn holds(data: Seq<Tile>, q: Option<Pos>, c: Color, piece: Piece) -> bool {
    match q {
        Some(p) => match tile_at(data, p) {
            Tile::Taken(tc, tp, _) => tc == c && tp == piece,
            Tile::Empty => false,
        },
        None => false,
    }
}

/// The eight knight hops.
pub open spec fn knight_hop(k: int) -> (int, int) {
    if k == 0 {
        (1, 2)
    } else if k == 1 {
        (2, 1)
    } else if k == 2 {
        (1, -2)
    } else if k == 3 {
        (2, -1)
    } else if k == 4 {
        (-1, -2)
    } else if k == 5 {
        (-2, -1)
    } else if k == 6 {
        (-1, 2)
    } else {
        (-2, 1)
    }
}

/// The four straight directions.
pub open spec fn straight(k: int) -> (int, int) {
    if k == 0 {
        (1, 0)
    } else if k == 1 {
        (-1, 0)
    } else if k == 2 {
        (0, 1)
    } else {
        (0, -1)
    }
}

/// The four diagonal directions.
pub open spec fn diagonal(k: int) -> (int, int) {
    if k == 0 {
        (1, 1)
    } else if k == 1 {
        (-1, 1)
    } else if k == 2 {
        (1, -1)
    } else {
        (-1, -1)
    }
}

/// The eight neighbouring directions: the diagonals, then the straights.
pub open spec fn neighbour(k: int) -> (int, int) {
    if k < 4 {
        diagonal(k)
    } else {
        straight(k - 4)
    }
}

/// The eight queen directions: the straights, then the diagonals.
pub open spec fn queen_dir(k: int) -> (int, int) {
    if k < 4 {
        straight(k)
    } else {
        diagonal(k - 4)
    }
}

pub fn knight_hop_at(k: usize) -> (r: (i8, i8))
    requires
        k < 8,
    ensures
        (r.0 as int, r.1 as int) == knight_hop(k as int),
{
    match k {
        0 => (1, 2),
        1 => (2, 1),
        2 => (1, -2),
        3 => (2, -1),
        4 => (-1, -2),
        5 => (-2, -1),
        6 => (-1, 2),
        _ => (-2, 1),
    }
}

pub fn straight_at(k: usize) -> (r: (i8, i8))
    requires
        k < 4,
    ensures
        (r.0 as int, r.1 as int) == straight(k as int),
{
    match k {
        0 => (1, 0),
        1 => (-1, 0),
        2 => (0, 1),
        _ => (0, -1),
    }
}

pub fn diagonal_at(k: usize) -> (r: (i8, i8))
    requires
        k < 4,
    ensures
        (r.0 as int, r.1 as int) == diagonal(k as int),
{
    match k {
        0 => (1, 1),
        1 => (-1, 1),
        2 => (1, -1),
        _ => (-1, -1),
    }
}

pub fn neighbour_at(k: usize) -> (r: (i8, i8))
    requires
        k < 8,
    ensures
        (r.0 as int, r.1 as int) == neighbour(k as int),
{
    if k < 4 {
        diagonal_at(k)
    } else {
        straight_at(k - 4)
    }
}

pub fn queen_dir_at(k: usize) -> (r: (i8, i8))
    requires
        k < 8,
    ensures
        (r.0 as int, r.1 as int) == queen_dir(k as int),
{
    if k < 4 {
        straight_at(k)
    } else {
        diagonal_at(k - 4)
    }
}

/// Walking from `p` in direction `(dx, dy)` for at most `fuel` squares, is
/// the first piece met a `c` piece that slides along such lines: a queen, or
/// a bishop on a diagonal, a rook on a straight.
pub open spec fn ray_hits(
    data: Seq<Tile>,
    p: Pos,
    dx: int,
    dy: int,
    c: Color,
    diag: bool,
    fuel: nat,
) -> bool
    decreases fuel,
{
    if fuel == 0 {
        false
    } else {
        match step_to(p, dx, dy) {
            None => false,
            Some(q) => match tile_at(data, q) {
                Tile::Empty => ray_hits(data, q, dx, dy, c, diag, (fuel - 1) as nat),
                Tile::Taken(tc, tp, _) => tc == c && (tp == Piece::Queen || (diag && tp
                    == Piece::Bishop) || (!diag && tp == Piece::Rook)),
            },
        }
    }
}

/// Is square `p` free of attack by the enemies of `c`: no enemy knight a hop
/// away, no enemy slider with a clear line to it, no enemy king beside it, no
/// enemy pawn diagonally ahead of it (seen from `c`).
pub open spec fn square_safe(data: Seq<Tile>, p: Pos, c: Color) -> bool {
    let e = opponent(c);
    &&& forall|k: int|
        0 <= k < 8 ==> !holds(data, step_to(p, knight_hop(k).0, knight_hop(k).1), e, Piece::Knight)
    &&& forall|k: int| 0 <= k < 4 ==> !ray_hits(data, p, diagonal(k).0, diagonal(k).1, e, true, 8)
    &&& forall|k: int|
        0 <= k < 4 ==> !ray_hits(data, p, straight(k).0, straight(k).1, e, false, 8)
    &&& forall|k: int|
        0 <= k < 8 ==> !holds(data, step_to(p, neighbour(k).0, neighbour(k).1), e, Piece::King)
    &&& !holds(data, step_to(p, 1, direction(c)), e, Piece::Pawn)
    &&& !holds(data, step_to(p, -1, direction(c)), e, Piece::Pawn)
}

impl Board {
    /// Does square `q` hold a piece of kind `piece` and color `c`.
    fn holds_piece(&self, q: Option<Pos>, c: Color, piece: Piece) -> (r: bool)
        requires
            q matches Some(p) ==> p.wf(),
        ensures
            r == holds(self.data@, q, c, piece),
    {
        match q {
            Some(p) => match self.data[p.num] {
                Tile::Taken(tc, tp, _) => tc == c && tp == piece,
                Tile::Empty => false,
            },
            None => false,
        }
    }

    fn ray_attacked(&self, p: Pos, d: (i8, i8), c: Color, diag: bool) -> (r: bool)
        requires
            p.wf(),
            -1 <= d.0 <= 1,
            -1 <= d.1 <= 1,
        ensures
            r == ray_hits(self.data@, p, d.0 as int, d.1 as int, c, diag, 8),
    {
        let mut cur = p;
        let mut fuel: usize = 8;
        while fuel > 0
            invariant
                cur.wf(),
                fuel <= 8,
                -1 <= d.0 <= 1,
                -1 <= d.1 <= 1,
                ray_hits(self.data@, p, d.0 as int, d.1 as int, c, diag, 8) == ray_hits(
                    self.data@,
                    cur,
                    d.0 as int,
                    d.1 as int,
                    c,
                    diag,
                    fuel as nat,
                ),
            decreases fuel,
        {
            match cur.step(d.0, d.1) {
                None => {
                    return false;
                },
                Some(q) => {
                    match self.data[q.num] {
                        Tile::Empty => {
                            cur = q;
                            fuel = fuel - 1;
                        },
                        Tile::Taken(tc, tp, _) => {
                            return tc == c && (tp == Piece::Queen || (diag && tp == Piece::Bishop)
                                || (!diag && tp == Piece::Rook));
                        },
                    }
                },
            }
        }
        false
    }

    /// Is square `(x, y)` free of attack by the enemies of `color`.
    pub fn check_safety(&self, x: i8, y: i8, color: Color) -> (r: bool)
        requires
            on_board(x as int, y as int),
        ensures
            r == square_safe(self.data@, Pos::at(x as int, y as int), color),
    {
        let start = Pos::from_ints(x, y);
        let enemy = color.other();
        let mut k: usize = 0;
        while k < 8
            invariant
                start.wf(),
                start == Pos::at(x as int, y as int),
                enemy == opponent(color),
                k <= 8,
                forall|j: int|
                    0 <= j < k ==> !holds(
                        self.data@,
                        step_to(start, knight_hop(j).0, knight_hop(j).1),
                        enemy,
                        Piece::Knight,
                    ),
            decreases 8 - k,
        {
            let h = knight_hop_at(k);
            if self.holds_piece(start.step(h.0, h.1), enemy, Piece::Knight) {
                return false;
            }
            k = k + 1;
        }
        let mut k: usize = 0;
        while k < 4
            invariant
                start.wf(),
                start == Pos::at(x as int, y as int),
                enemy == opponent(color),
                k <= 4,
                forall|j: int|
                    0 <= j < k ==> !ray_hits(
                        self.data@,
                        start,
                        diagonal(j).0,
                        diagonal(j).1,
                        enemy,
                        true,
                        8,
                    ),
            decreases 4 - k,
        {
            if self.ray_attacked(start, diagonal_at(k), enemy, true) {
                return false;
            }
            k = k + 1;
        }
        let mut k: usize = 0;
        while k < 4
            invariant
                start.wf(),
                start == Pos::at(x as int, y as int),
                enemy == opponent(color),
                k <= 4,
                forall|j: int|
                    0 <= j < k ==> !ray_hits(
                        self.data@,
                        start,
                        straight(j).0,
                        straight(j).1,
                        enemy,
                        false,
                        8,
                    ),
            decreases 4 - k,
        {
            if self.ray_attacked(start, straight_at(k), enemy, false) {
                return false;
            }
            k = k + 1;
        }
        let mut k: usize = 0;
        while k < 8
            invariant
                start.wf(),
                start == Pos::at(x as int, y as int),
                enemy == opponent(color),
                k <= 8,
                forall|j: int|
                    0 <= j < k ==> !holds(
                        self.data@,
                        step_to(start, neighbour(j).0, neighbour(j).1),
                        enemy,
                        Piece::King,
                    ),
            decreases 8 - k,
        {
            let h = neighbour_at(k);
            if self.holds_piece(start.step(h.0, h.1), enemy, Piece::King) {
                return false;
            }
            k = k + 1;
        }
        let dir = color.get_dir();
        if self.holds_piece(start.step(1, dir), enemy, Piece::Pawn) {
            return false;
        }
        if self.holds_piece(start.step(-1, dir), enemy, Piece::Pawn) {
            return false;
        }
        true
    }
}

} // verus!
