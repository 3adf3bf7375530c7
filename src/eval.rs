use vstd::prelude::*;
use crate::piece::{Color, Piece, Tile};
use crate::pos::Pos;
use crate::board::{Board, BoardView, tile_at};
use crate::movegen::{moves_for, ray_moves, slider_moves, slide_dir};

verus! {

/// Scores are fixed point: `SCALE` stands for 1.
pub const SCALE: i64 = 1000;

/// The largest magnitude an evaluation takes, 0.99 in fixed point.
pub const EVAL_CAP: i64 = 990;

/// A position's value for one side, in thousandths, from -990 to 990;
/// `clamped` tells that the raw value reached the cap and was cut to it.
#[derive(Clone, Copy, Debug, PartialEq, Eq, Structural)]
pub struct Evaluation {
    pub score: i64,
    pub clamped: bool,
}

/// The weight of a knight's square: its distance from the nearest edge.
pub open spec fn center_value(x: int, y: int) -> int {
    let dx = if x < 7 - x {
        x
    } else {
        7 - x
    };
    let dy = if y < 7 - y {
        y
    } else {
        7 - y
    };
    if dx < dy {
        dx
    } else {
        dy
    }
}

/// The weight of a king's square early in the game: 1 on the two files
/// nearest each corner of the back ranks.
pub open spec fn early_king_value(x: int, y: int) -> int {
    if (y == 0 || y == 7) && (x <= 1 || x >= 6) {
        1
    } else {
        0
    }
}

/// Plies below which the king's placement counts.
pub const OPENING_PLIES: i32 = 10;

/// The raw score, in tenths, of the piece on square `p`: base material plus
/// a bonus for mobility (rook, bishop, queen), rank progress (pawn), center
/// closeness (knight), or, early on, a sheltered corner (king).
pub open spec fn piece_score(data: Seq<Tile>, p: Pos, counter: int) -> int {
    match tile_at(data, p) {
        Tile::Empty => 0,
        Tile::Taken(c, piece, _) => {
            let mobility = moves_for(data, p, c).len() as int;
            match piece {
                Piece::Rook => 50 + 2 * mobility,
                Piece::Pawn => 10 + if c == Color::White {
                    p.y as int
                } else {
                    7 - p.y
                },
                Piece::Knight => 30 + 3 * center_value(p.x as int, p.y as int),
                Piece::Bishop => 30 + 4 * mobility,
                Piece::Queen => 90 + mobility,
                Piece::King => if counter < OPENING_PLIES {
                    5 * early_king_value(p.x as int, p.y as int)
                } else {
                    0
                },
            }
        },
    }
}

/// The raw score of color `c` over the first `n` squares.
pub open spec fn side_score(data: Seq<Tile>, counter: int, c: Color, n: int) -> int
    decreases n,
{
    if n <= 0 {
        0
    } else {
        let p = Pos::at((n - 1) % 8, (n - 1) / 8);
        side_score(data, counter, c, n - 1) + if tile_at(data, p) matches Tile::Taken(tc, _, _)
            && tc == c {
            piece_score(data, p, counter)
        } else {
            0
        }
    }
}

/// White's advantage, (white - black) / (white + black) in thousandths,
/// rounded towards zero; 0 when both raw scores are 0.
pub open spec fn white_advantage(w: int, b: int) -> int {
    if w + b == 0 {
        0
    } else if w >= b {
        (SCALE * (w - b)) / (w + b)
    } else {
        -((SCALE * (b - w)) / (w + b))
    }
}

/// The evaluation of `v` for `player`, before the cap.
pub open spec fn raw_eval(v: BoardView, player: Color) -> int {
    let w = side_score(v.data, v.counter, Color::White, 64);
    let b = side_score(v.data, v.counter, Color::Black, 64);
    let a = white_advantage(w, b);
    if player == Color::White {
        a
    } else {
        -a
    }
}

/// The evaluation of `v` for `player`, cut to the cap.
pub open spec fn eval_score(v: BoardView, player: Color) -> int {
    let r = raw_eval(v, player);
    if r >= EVAL_CAP {
        EVAL_CAP as int
    } else if r <= -EVAL_CAP {
        -EVAL_CAP
    } else {
        r
    }
}

proof fn lemma_ray_len(data: Seq<Tile>, s: Pos, cur: Pos, dx: int, dy: int, c: Color, fuel: nat)
    ensures
        ray_moves(data, s, cur, dx, dy, c, fuel).len() <= fuel,
    decreases fuel,
{
    if fuel > 0 {
        match crate::pos::step_to(cur, dx, dy) {
            Some(q) => {
                lemma_ray_len(data, s, q, dx, dy, c, (fuel - 1) as nat);
            },
            None => {},
        }
    }
}

proof fn lemma_slider_len(data: Seq<Tile>, s: Pos, c: Color, kind: int, n: int)
    ensures
        slider_moves(data, s, c, kind, n).len() <= 8 * if n < 0 {
            0
        } else {
            n
        },
    decreases n,
{
    if n > 0 {
        lemma_slider_len(data, s, c, kind, n - 1);
        lemma_ray_len(data, s, s, slide_dir(kind, n - 1).0, slide_dir(kind, n - 1).1, c, 8);
    }
}

fn center_value_at(x: i8, y: i8) -> (r: i64)
    requires
        0 <= x < 8,
        0 <= y < 8,
    ensures
        r == center_value(x as int, y as int),
{
    let dx: i8 = if x < 7 - x { x } else { 7 - x };
    let dy: i8 = if y < 7 - y { y } else { 7 - y };
    if dx < dy { dx as i64 } else { dy as i64 }
}

fn early_king_value_at(x: i8, y: i8) -> (r: i64)
    ensures
        r == early_king_value(x as int, y as int),
{
    if (y == 0 || y == 7) && (x <= 1 || x >= 6) { 1 } else { 0 }
}

fn piece_score_at(board: &Board, p: Pos) -> (r: i64)
    requires
        p.wf(),
    ensures
        r == piece_score(board.data@, p, board.counter as int),
        0 <= r <= 160,
{
    match board.data[p.num] {
        Tile::Empty => 0,
        Tile::Taken(c, piece, _) => {
            match piece {
                Piece::Rook | Piece::Bishop | Piece::Queen => {
                    let mobility = board.get_possible_moves_for_pos(p, c).len();
                    proof {
                        lemma_slider_len(board.data@, p, c, 0, 4);
                        lemma_slider_len(board.data@, p, c, 1, 4);
                        lemma_slider_len(board.data@, p, c, 2, 8);
                    }
                    let m = mobility as i64;
                    match piece {
                        Piece::Rook => 50 + 2 * m,
                        Piece::Bishop => 30 + 4 * m,
                        _ => 90 + m,
                    }
                },
                Piece::Pawn => {
                    let progress: i64 = if c == Color::White { p.y as i64 } else { 7 - p.y as i64 };
                    10 + progress
                },
                Piece::Knight => 30 + 3 * center_value_at(p.x, p.y),
                Piece::King => {
                    if board.counter < OPENING_PLIES {
                        5 * early_king_value_at(p.x, p.y)
                    } else {
                        0
                    }
                },
            }
        },
    }
}

/// The value of `board` for `player`, in thousandths: the two sides' raw
/// scores compared as (white - black) / (white + black), turned to
/// `player`'s side and cut to +-0.99.
pub fn eval(board: &Board, player: Color) -> (r: Evaluation)
    ensures
        r.score == eval_score(board@, player),
        r.clamped == (raw_eval(board@, player) >= EVAL_CAP || raw_eval(board@, player) <= -EVAL_CAP),
        -EVAL_CAP <= r.score <= EVAL_CAP,
{
    let mut w: i64 = 0;
    let mut b: i64 = 0;
    let mut i: usize = 0;
    while i < 64
        invariant
            i <= 64,
            w == side_score(board.data@, board.counter as int, Color::White, i as int),
            b == side_score(board.data@, board.counter as int, Color::Black, i as int),
            0 <= w <= 160 * i,
            0 <= b <= 160 * i,
        decreases 64 - i,
    {
        let p = Pos::from_num(i);
        assert(p == Pos::at(i as int % 8, i as int / 8));
        match board.data[i] {
            Tile::Taken(Color::White, _, _) => {
                w = w + piece_score_at(board, p);
            },
            Tile::Taken(Color::Black, _, _) => {
                b = b + piece_score_at(board, p);
            },
            Tile::Empty => {},
        }
        i = i + 1;
    }
    let adv: i64 = if w + b == 0 {
        0
    } else if w >= b {
        (SCALE * (w - b)) / (w + b)
    } else {
        -((SCALE * (b - w)) / (w + b))
    };
    proof {
        if w + b != 0 {
            if w >= b {
                assert(0 <= (SCALE * (w - b)) / (w + b) <= SCALE) by (nonlinear_arith)
                    requires w >= b, w + b > 0, b >= 0;
            } else {
                assert(0 <= (SCALE * (b - w)) / (w + b) <= SCALE) by (nonlinear_arith)
                    requires b > w, w + b > 0, w >= 0;
            }
        }
    }
    let result: i64 = if player == Color::White { adv } else { -adv };
    if result >= EVAL_CAP {
        Evaluation { score: EVAL_CAP, clamped: true }
    } else if result <= -EVAL_CAP {
        Evaluation { score: -EVAL_CAP, clamped: true }
    } else {
        Evaluation { score: result, clamped: false }
    }
}

/// An evaluation lies within the cap.
pub proof fn lemma_eval_bound(v: BoardView, player: Color)
    ensures
        -EVAL_CAP <= eval_score(v, player) <= EVAL_CAP,
{
}

} // verus!
