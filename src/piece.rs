use vstd::prelude::*;

verus! {

/// The two sides.
#[derive(Clone, Copy, Debug, PartialEq, Eq, Structural)]
pub enum Color {
    White,
    Black,
}

/// The six kinds of piece.
#[derive(Clone, Copy, Debug, PartialEq, Eq, Structural)]
pub enum Piece {
    Rook,
    King,
    Pawn,
    Knight,
    Bishop,
    Queen,
}

/// The history a piece carries: enough for castling and en passant.
#[derive(Clone, Copy, Debug, PartialEq, Eq, Structural)]
pub enum PieceInfo {
    Unmoved,
    Moved,
    JustDoubleMoved,
}

/// One square's content.
#[derive(Clone, Copy, Debug, PartialEq, Eq, Structural)]
pub enum Tile {
    Empty,
    Taken(Color, Piece, PieceInfo),
}

/// Index of a color: 0 for White, 1 for Black.
pub open spec fn color_index(c: Color) -> int {
    match c {
        Color::White => 0,
        Color::Black => 1,
    }
}

pub open spec fn color_of_index(i: int) -> Color {
    if i == 0 {
        Color::White
    } else {
        Color::Black
    }
}

pub open spec fn opponent(c: Color) -> Color {
    match c {
        Color::White => Color::Black,
        Color::Black => Color::White,
    }
}

/// Direction in which pawns of this color advance along the ranks.
pub open spec fn direction(c: Color) -> int {
    match c {
        Color::White => 1,
        Color::Black => -1,
    }
}

impl Color {
    pub fn from_num(num: usize) -> (r: Color)
        requires
            num < 2,
        ensures
            r == color_of_index(num as int),
    {
        if num == 0 {
            Color::White
        } else {
            Color::Black
        }
    }

    pub fn to_num(&self) -> (r: usize)
        ensures
            r as int == color_index(*self),
    {
        match self {
            Color::White => 0,
            Color::Black => 1,
        }
    }

    pub fn other(&self) -> (r: Color)
        ensures
            r == opponent(*self),
    {
        match self {
            Color::White => Color::Black,
            Color::Black => Color::White,
        }
    }

    pub fn get_dir(&self) -> (r: i8)
        ensures
            r as int == direction(*self),
    {
        match self {
            Color::White => 1,
            Color::Black => -1,
        }
    }
}

/// The code of a piece within its color's block: Rook, Knight, Bishop, King,
/// Queen, Pawn are 1 to 6.
pub open spec fn piece_code(p: Piece) -> int {
    match p {
        Piece::Rook => 1,
        Piece::Knight => 2,
        Piece::Bishop => 3,
        Piece::King => 4,
        Piece::Queen => 5,
        Piece::Pawn => 6,
    }
}

pub open spec fn piece_of_code(k: int) -> Piece {
    if k == 1 {
        Piece::Rook
    } else if k == 2 {
        Piece::Knight
    } else if k == 3 {
        Piece::Bishop
    } else if k == 4 {
        Piece::King
    } else if k == 5 {
        Piece::Queen
    } else {
        Piece::Pawn
    }
}

/// The wire code of a tile: 0 for empty, 1..6 for White's pieces and 7..12
/// for Black's, in the order of `piece_code`.
pub open spec fn tile_code(t: Tile) -> int {
    match t {
        Tile::Empty => 0,
        Tile::Taken(c, p, _) => 6 * color_index(c) + piece_code(p),
    }
}

/// The tile a wire code stands for; a decoded piece has not moved yet.
pub open spec fn tile_of_code(n: int) -> Tile {
    if n == 0 {
        Tile::Empty
    } else if n <= 6 {
        Tile::Taken(Color::White, piece_of_code(n), PieceInfo::Unmoved)
    } else {
        Tile::Taken(Color::Black, piece_of_code(n - 6), PieceInfo::Unmoved)
    }
}

/// Material value of a piece.
pub open spec fn piece_value(p: Piece) -> int {
    match p {
        Piece::Rook => 5,
        Piece::Bishop => 3,
        Piece::Knight => 3,
        Piece::Queen => 9,
        Piece::Pawn => 1,
        Piece::King => 3,
    }
}

pub open spec fn tile_value(t: Tile) -> int {
    match t {
        Tile::Empty => 0,
        Tile::Taken(_, p, _) => piece_value(p),
    }
}

/// Is `n` one of the promotion selectors: 1 Rook, 2 Knight, 3 Bishop, 5 Queen.
pub open spec fn valid_upgrade(n: u8) -> bool {
    n == 1 || n == 2 || n == 3 || n == 5
}

impl Tile {
    pub fn to_num(&self) -> (r: u32)
        ensures
            r as int == tile_code(*self),
            r <= 12,
    {
        match self {
            Tile::Empty => 0,
            Tile::Taken(color, piece, _) => {
                let shift: u32 = match color {
                    Color::White => 0,
                    Color::Black => 6,
                };
                shift + match piece {
                    Piece::Rook => 1,
                    Piece::Knight => 2,
                    Piece::Bishop => 3,
                    Piece::King => 4,
                    Piece::Queen => 5,
                    Piece::Pawn => 6,
                }
            },
        }
    }

    pub fn from_num(num: u32) -> (r: Tile)
        requires
            num <= 12,
        ensures
            r == tile_of_code(num as int),
    {
        if num == 0 {
            Tile::Empty
        } else {
            let (color, k) = if num > 6 {
                (Color::Black, num - 6)
            } else {
                (Color::White, num)
            };
            let piece = if k == 1 {
                Piece::Rook
            } else if k == 2 {
                Piece::Knight
            } else if k == 3 {
                Piece::Bishop
            } else if k == 4 {
                Piece::King
            } else if k == 5 {
                Piece::Queen
            } else {
                Piece::Pawn
            };
            Tile::Taken(color, piece, PieceInfo::Unmoved)
        }
    }

    pub fn get_value(&self) -> (r: i8)
        ensures
            r as int == tile_value(*self),
    {
        match self {
            Tile::Empty => 0,
            Tile::Taken(_, piece, _) => match piece {
                Piece::Rook => 5,
                Piece::Bishop => 3,
                Piece::Knight => 3,
                Piece::Queen => 9,
                Piece::Pawn => 1,
                Piece::King => 3,
            },
        }
    }

    pub fn is_empty(&self) -> (r: bool)
        ensures
            r == (*self is Empty),
    {
        match self {
            Tile::Empty => true,
            _ => false,
        }
    }
}

/// Decoding a wire code and encoding it again gives the code back, for each of
/// the thirteen codes.
pub proof fn lemma_code_round_trip(n: int)
    requires
        0 <= n <= 12,
    ensures
        tile_code(tile_of_code(n)) == n,
{
}

/// Encoding a tile whose piece has not moved and decoding the code gives the
/// tile back; so the codes and the unmoved tiles correspond one to one.
pub proof fn lemma_tile_round_trip(t: Tile)
    requires
        t is Empty || t->Taken_2 == PieceInfo::Unmoved,
    ensures
        0 <= tile_code(t) <= 12,
        tile_of_code(tile_code(t)) == t,
{
}

} // verus!
