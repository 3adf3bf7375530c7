use vstd::prelude::*;

verus! {

/// A square of the board: its index 0..63 and its file `x` and rank `y`.
#[derive(Clone, Copy, Debug, PartialEq, Eq, Structural)]
pub struct Pos {
    pub num: usize,
    pub x: i8,
    pub y: i8,
}

impl Pos {
    /// The index, file and rank agree and lie on the board.
    pub open spec fn wf(&self) -> bool {
        &&& 0 <= self.x < 8
        &&& 0 <= self.y < 8
        &&& self.num == self.x + 8 * self.y
    }

    pub open spec fn at(x: int, y: int) -> Pos {
        Pos { num: (x + 8 * y) as usize, x: x as i8, y: y as i8 }
    }

    pub fn from_num(num: usize) -> (r: Pos)
        requires
            num < 64,
        ensures
            r.wf(),
            r.num == num,
            r.x == num % 8,
            r.y == num / 8,
    {
        Pos { num, x: (num % 8) as i8, y: (num / 8) as i8 }
    }

    pub fn from_ints(x: i8, y: i8) -> (r: Pos)
        requires
            0 <= x < 8,
            0 <= y < 8,
        ensures
            r.wf(),
            r == Pos::at(x as int, y as int),
    {
        Pos { num: x as usize + y as usize * 8, x, y }
    }

    /// The square `(dx, dy)` away, if it lies on the board.
    pub fn step(&self, dx: i8, dy: i8) -> (r: Option<Pos>)
        requires
            self.wf(),
            -8 <= dx <= 8,
            -8 <= dy <= 8,
        ensures
            r == step_to(*self, dx as int, dy as int),
    {
        let nx: i8 = self.x + dx;
        let ny: i8 = self.y + dy;
        if nx < 0 || nx > 7 || ny < 0 || ny > 7 {
            None
        } else {
            Some(Pos::from_ints(nx, ny))
        }
    }
}

/// Are these coordinates on the board.
pub open spec fn on_board(x: int, y: int) -> bool {
    0 <= x < 8 && 0 <= y < 8
}

/// The square `(dx, dy)` away from `p`, or none past the board's edge.
pub open spec fn step_to(p: Pos, dx: int, dy: int) -> Option<Pos> {
    if on_board(p.x + dx, p.y + dy) {
        Some(Pos::at(p.x + dx, p.y + dy))
    } else {
        None
    }
}

} // verus!
