use vstd::prelude::*;
use crate::piece::{Color, opponent};
use crate::board::{Board, BoardView, GameState, PossibleMove, side_to_move};
use crate::apply::apply_move;
use crate::legal::{legal_moves, after_listing};
use crate::movegen::{all_ok_from, move_ok};
use crate::eval::{eval, eval_score, SCALE};

verus! {

/// The weight of the exploration term, 0.03 in hundredths.
pub const BETA_PERCENT: u64 = 3;

/// ln 2 in thousandths.
pub const LN2_MILLI: u64 = 693;

/// The largest visit count a search may reach.
pub const VISIT_LIMIT: u64 = 1000000000;

/// The floor of the base-2 logarithm of `n` (0 for `n <= 1`).
pub open spec fn log2_floor(n: int) -> int
    decreases n,
{
    if n <= 1 {
        0
    } else {
        1 + log2_floor(n / 2)
    }
}

/// The integer square root of `x`, found digit by digit in base 4.
pub open spec fn root_floor(x: int) -> int
    decreases x,
{
    if x <= 0 {
        0
    } else {
        let r = 2 * root_floor(x / 4);
        if (r + 1) * (r + 1) <= x {
            r + 1
        } else {
            r
        }
    }
}

/// A node's mean result, floored, in thousandths, from its own side's view.
pub open spec fn mean(r: int, n: int) -> int {
    (r + SCALE * n) / n - SCALE
}

/// The exploration bonus of a child visited `n` times under a parent
/// visited `parent_n` times, in thousandths: beta * sqrt(2 ln(parent_n) / n).
/// This is an integer approximation, not the exact formula: ln(parent_n) is
/// taken as ln 2 times the floor of log2(parent_n), which lies below the
/// true logarithm by less than ln 2, and the square root is the integer one.
pub open spec fn exploration(parent_n: int, n: int) -> int {
    BETA_PERCENT * root_floor(2 * LN2_MILLI * log2_floor(parent_n) * SCALE / n) / 100
}

/// The upper-confidence score of a child with result `r` over `n` visits,
/// seen from its parent: the parent gains what the child loses.
pub open spec fn ucb(r: int, n: int, parent_n: int) -> int {
    (SCALE - mean(r, n)) + exploration(parent_n, n)
}

/// Two to the power `k`.
pub open spec fn two_pow(k: nat) -> int
    decreases k,
{
    if k == 0 {
        1
    } else {
        2 * two_pow((k - 1) as nat)
    }
}

proof fn lemma_log2_bound(n: int, k: nat)
    requires
        1 <= n < two_pow(k),
    ensures
        0 <= log2_floor(n) < k,
    decreases k,
{
    if k == 0 {
    } else if n > 1 {
        lemma_log2_bound(n / 2, (k - 1) as nat);
    }
}

proof fn lemma_root_floor(x: int)
    requires
        x >= 0,
    ensures
        root_floor(x) >= 0,
        root_floor(x) * root_floor(x) <= x,
        x < (root_floor(x) + 1) * (root_floor(x) + 1),
    decreases x,
{
    if x > 0 {
        let q = root_floor(x / 4);
        lemma_root_floor(x / 4);
        let r = 2 * q;
        assert(r * r <= x) by (nonlinear_arith)
            requires
                r == 2 * q,
                q * q <= x / 4,
                x >= 0,
        ;
        assert(x < (r + 2) * (r + 2)) by (nonlinear_arith)
            requires
                r == 2 * q,
                x / 4 < (q + 1) * (q + 1),
                x >= 0,
        ;
        if (r + 1) * (r + 1) <= x {
            assert(root_floor(x) == r + 1);
        } else {
            assert(root_floor(x) == r);
        }
    }
}

fn log2_floor_exec(n: u64) -> (r: u64)
    requires
        1 <= n <= VISIT_LIMIT,
    ensures
        r == log2_floor(n as int),
        r < 30,
{
    proof {
        reveal_with_fuel(two_pow, 31);
        assert(two_pow(30) == 0x4000_0000);
        lemma_log2_bound(n as int, 30);
    }
    let mut k: u64 = 0;
    let mut m: u64 = n;
    while m > 1
        invariant
            1 <= m,
            log2_floor(n as int) == k + log2_floor(m as int),
            log2_floor(n as int) < 30,
            0 <= log2_floor(m as int),
        decreases m,
    {
        proof {
            if m / 2 > 1 {
                assert(log2_floor(m as int / 2) == 1 + log2_floor(m as int / 4));
            }
            assert(log2_floor(m as int / 2) >= 0) by {
                if m / 2 > 1 {
                    lemma_nonneg_log2(m as int / 2);
                }
            }
        }
        m = m / 2;
        k = k + 1;
    }
    k
}

proof fn lemma_nonneg_log2(n: int)
    ensures
        log2_floor(n) >= 0,
    decreases n,
{
    if n > 1 {
        lemma_nonneg_log2(n / 2);
    }
}

fn root_floor_exec(x: u64) -> (r: u64)
    requires
        x < 0x100_0000_0000,
    ensures
        r == root_floor(x as int),
        r * r <= x,
    decreases x,
{
    proof {
        lemma_root_floor(x as int);
    }
    if x == 0 {
        0
    } else {
        let q = root_floor_exec(x / 4);
        proof {
            lemma_root_floor(x as int / 4);
            assert(q * q <= x / 4);
            assert(q <= 0x10_0000) by (nonlinear_arith)
                requires
                    q * q <= x / 4,
                    x < 0x100_0000_0000,
            ;
        }
        let r = 2 * q;
        assert((r + 1) * (r + 1) <= 0x40_0000_0000_0000) by (nonlinear_arith)
            requires
                r <= 0x20_0000,
        ;
        if (r + 1) * (r + 1) <= x {
            r + 1
        } else {
            r
        }
    }
}

/// One position in the search: its board, the side about to move there, its
/// legal moves once listed, the children grown for a prefix of them, and
/// its visit count and summed result, from `player`'s view.
pub struct SearchNode {
    pub possible_moves: Vec<PossibleMove>,
    pub children: Vec<usize>,
    pub player: Color,
    pub data: Board,
    pub n: u64,
    pub r: i64,
}

/// A search tree kept as an arena: node 0 is the root, and every child
/// stands after its parent.
pub struct SearchTree {
    pub nodes: Vec<SearchNode>,
}

impl SearchNode {
    /// A fresh node: visited once, its result the evaluation for `color`.
    pub fn new(board: Board, color: Color) -> (r: SearchNode)
        ensures
            r.data == board,
            r.player == color,
            r.n == 1,
            r.r == eval_score(board@, color),
            r.possible_moves@.len() == 0,
            r.children@.len() == 0,
    {
        let e = eval(&board, color);
        SearchNode {
            possible_moves: Vec::new(),
            children: Vec::new(),
            player: color,
            data: board,
            n: 1,
            r: e.score,
        }
    }
}

impl SearchTree {
    /// Node `i` is well formed: its board is, its result is bounded by its
    /// visits, its children stand after it, and its move list, once made, is
    /// the legal moves of its position.
    pub open spec fn node_ok(&self, i: int) -> bool {
        &&& self.node_core(i)
        &&& self.nodes@[i].n == 1 ==> self.nodes@[i].possible_moves@.len() == 0
    }

    pub open spec fn node_core(&self, i: int) -> bool {
        let nd = self.nodes@[i];
        &&& nd.data.wf()
        &&& 1 <= nd.n
        &&& -SCALE * nd.n <= nd.r <= SCALE * nd.n
        &&& nd.children@.len() <= nd.possible_moves@.len()
        &&& forall|k: int|
            0 <= k < nd.children@.len() ==> i < #[trigger] nd.children@[k] < self.nodes@.len()
        &&& nd.data.counter <= self.nodes@[0].data.counter + i
        &&& nd.possible_moves@.len() > 0 ==> nd.possible_moves@ == legal_moves(nd.data@)
        &&& all_ok_from(nd.data.data@, nd.possible_moves@, 0)
        &&& forall|k: int| 0 <= k < nd.children@.len() ==> #[trigger] self.child_made(i, k)
    }

    /// The `k`-th child of node `i` holds the position after node `i`'s
    /// `k`-th move (marked as lost once its listing found no legal move),
    /// with the other side about to move.
    pub open spec fn child_made(&self, i: int, k: int) -> bool {
        let nd = self.nodes@[i];
        let ch = self.nodes@[nd.children@[k] as int];
        &&& (ch.data@ == apply_move(nd.data@, nd.possible_moves@[k]) || ch.data@ == after_listing(
            apply_move(nd.data@, nd.possible_moves@[k]),
        ))
        &&& ch.player == opponent(nd.player)
    }

    pub open spec fn wf(&self) -> bool {
        &&& self.nodes@.len() >= 1
        &&& forall|i: int| 0 <= i < self.nodes@.len() ==> #[trigger] self.node_ok(i)
        &&& forall|i: int|
            0 <= i < self.nodes@.len() ==> #[trigger] self.nodes@[i].n <= self.nodes@[0].n
        &&& self.nodes@.len() <= self.nodes@[0].n
    }

    /// Room for one more expansion step.
    pub open spec fn has_room(&self) -> bool {
        &&& self.nodes@[0].n < VISIT_LIMIT
        &&& self.nodes@[0].data.counter + self.nodes@[0].n + 2 < i32::MAX
    }

    fn bump(&mut self, i: usize, d: i64)
        requires
            i < old(self).nodes@.len(),
            old(self).nodes@[i as int].n < VISIT_LIMIT,
            -SCALE <= d <= SCALE,
            -SCALE * old(self).nodes@[i as int].n <= old(self).nodes@[i as int].r <= SCALE * old(self).nodes@[i as int].n,
        ensures
            final(self).nodes@.len() == old(self).nodes@.len(),
            forall|k: int|
                0 <= k < old(self).nodes@.len() && k != i ==> #[trigger] final(self).nodes@[k]
                    == old(self).nodes@[k],
            final(self).nodes@[i as int] == (SearchNode {
                n: (old(self).nodes@[i as int].n + 1) as u64,
                r: (old(self).nodes@[i as int].r + d) as i64,
                ..old(self).nodes@[i as int]
            }),
    {
        let n = self.nodes[i].n;
        let r = self.nodes[i].r;
        assert(-SCALE * VISIT_LIMIT <= r <= SCALE * VISIT_LIMIT) by (nonlinear_arith)
            requires
                -SCALE * n <= r <= SCALE * n,
                n < VISIT_LIMIT,
        ;
        self.nodes[i].n = n + 1;
        self.nodes[i].r = r + d;
    }

    fn ucb_of(&self, c: usize, parent_n: u64) -> (r: i64)
        requires
            c < self.nodes@.len(),
            1 <= self.nodes@[c as int].n <= VISIT_LIMIT,
            -SCALE * self.nodes@[c as int].n <= self.nodes@[c as int].r <= SCALE * self.nodes@[c as int].n,
            1 <= parent_n <= VISIT_LIMIT,
        ensures
            r == ucb(self.nodes@[c as int].r as int, self.nodes@[c as int].n as int, parent_n as int),
    {
        let n = self.nodes[c].n;
        let r = self.nodes[c].r;
        assert(-SCALE * VISIT_LIMIT <= r <= SCALE * VISIT_LIMIT) by (nonlinear_arith)
            requires
                -SCALE * n <= r <= SCALE * n,
                n <= VISIT_LIMIT,
        ;
        assert(n == self.nodes@[c as int].n);
        assert(r == self.nodes@[c as int].r);
        assert(0 <= (r as int) + 1000 * (n as int) <= 2000 * (n as int)) by (nonlinear_arith)
            requires
                -SCALE * n <= r <= SCALE * n,
                SCALE == 1000,
        ;
        let shifted: u64 = (r + SCALE * (n as i64)) as u64;
        let q: u64 = shifted / n;
        assert(0 <= shifted / n <= 2 * SCALE) by (nonlinear_arith)
            requires
                0 <= shifted <= 2 * SCALE * n,
                n >= 1,
        ;
        let m: i64 = q as i64 - SCALE;
        let l = log2_floor_exec(parent_n);
        assert(2 * 693 * l * 1000 <= 2 * 693 * 29 * 1000) by (nonlinear_arith)
            requires
                l < 30,
        ;
        let x: u64 = 2 * LN2_MILLI * l * (SCALE as u64) / n;
        assert(x as int <= 2 * 693 * 30 * 1000) by (nonlinear_arith)
            requires
                x as int == 2 * 693 * (l as int) * 1000 / (n as int),
                l < 30,
                n >= 1,
        ;
        let rf = root_floor_exec(x);
        assert(rf <= x) by (nonlinear_arith)
            requires
                rf * rf <= x,
        ;
        let e: u64 = BETA_PERCENT * rf / 100;
        (SCALE - m) + e as i64
    }

    /// One expansion step from node `i`; returns the result it adds to node
    /// `i`, from the view of node `i`'s side.
    fn expand_at(&mut self, i: usize) -> (delta: i64)
        requires
            old(self).wf(),
            old(self).has_room(),
            i < old(self).nodes@.len(),
        ensures
            step_post(*old(self), *final(self), i as int, delta as int),
        decreases old(self).nodes@.len() - i,
    {
        proof {
            assert(self.node_ok(i as int));
            assert(self.node_ok(0));
            assert(self.nodes@[i as int].n <= self.nodes@[0].n);
        }
        if self.nodes[i].data.state != GameState::Ongoing {
            return self.finish_terminal(i);
        }
        if self.nodes[i].n == 1 {
            return self.first_visit(i);
        }
        let nm = self.nodes[i].possible_moves.len();
        let nc = self.nodes[i].children.len();
        if nm > nc {
            return self.grow(i);
        }
        let pn: u64 = self.nodes[i].n + 1;
        let mut best: usize = nc;
        let mut best_score: i64 = 0;
        let mut k: usize = 0;
        while k < nc
            invariant
                self.wf(),
                self.has_room(),
                nc == self.nodes@[i as int].children@.len(),
                i < self.nodes@.len(),
                1 <= pn <= VISIT_LIMIT,
                pn == self.nodes@[i as int].n + 1,
                *self == *old(self),
                k <= nc,
                k == 0 ==> best == nc,
                k >= 1 ==> best < k && best == best_child(*self, i as int, k as int) && best_score
                    == child_ucb(*self, i as int, best as int),
            decreases nc - k,
        {
            let c = self.nodes[i].children[k];
            proof {
                assert(self.node_ok(i as int));
                assert(self.node_ok(c as int));
                assert(self.nodes@[c as int].n <= self.nodes@[0].n);
            }
            let sc = self.ucb_of(c, pn);
            if best == nc || sc > best_score {
                best = k;
                best_score = sc;
            }
            k = k + 1;
        }
        let ghost before = *self;
        proof {
            assert(self.node_ok(i as int));
        }
        if best == nc {
            self.bump(i, 0);
            proof {
                lemma_bumped(before, *self, i as int, 0);
                assert(self.nodes@ =~= before.nodes@.update(i as int, bumped(before.nodes@[i as int], 0)));
            }
            return 0;
        }
        let c = self.nodes[i].children[best];
        proof {
            assert(self.node_ok(i as int));
        }
        let sub = self.expand_at(c);
        let ghost mid = *self;
        let d: i64 = -sub;
        proof {
            assert(self.node_ok(i as int));
            assert(before.node_ok(i as int));
            assert(self.nodes@[i as int] == before.nodes@[i as int]);
            assert(self.nodes@[i as int].n < VISIT_LIMIT);
        }
        self.bump(i, d);
        proof {
            lemma_bumped(mid, *self, i as int, d as int);
            assert(self.nodes@ =~= mid.nodes@.update(i as int, bumped(mid.nodes@[i as int], d as int)));
            assert(-(d as int) == sub as int);
            assert(step_post(before, mid, c as int, -(d as int)));
            assert(before.node_ok(i as int));
            lemma_descend_post(before, *self, mid, i as int, d as int);
        }
        d
    }

    fn finish_terminal(&mut self, i: usize) -> (delta: i64)
        requires
            old(self).wf(),
            old(self).has_room(),
            i < old(self).nodes@.len(),
            old(self).nodes@[i as int].data.state != GameState::Ongoing,
        ensures
            step_frame(*old(self), *final(self), i as int, delta as int),
            final(self).nodes@ == old(self).nodes@.update(i as int, bumped(old(self).nodes@[i as int], delta as int)),
            delta == outcome(old(self).nodes@[i as int].data.state, old(self).nodes@[i as int].player),
    {
        proof {
            assert(self.node_ok(i as int));
            assert(self.node_ok(0));
            assert(self.nodes@[i as int].n <= self.nodes@[0].n);
        }
        let d: i64 = match self.nodes[i].data.state {
            GameState::Won(w) => if w == self.nodes[i].player { SCALE } else { -SCALE },
            GameState::Ongoing => 0,
        };
        let ghost before = *self;
        self.bump(i, d);
        proof {
            lemma_bumped(before, *self, i as int, d as int);
            assert(self.nodes@ =~= before.nodes@.update(i as int, bumped(before.nodes@[i as int], d as int)));
        }
        d
    }

    /// The first real visit of node `i`: its legal moves are listed; with
    /// none the position is over, else the first child is grown.
    fn first_visit(&mut self, i: usize) -> (delta: i64)
        requires
            old(self).wf(),
            old(self).has_room(),
            i < old(self).nodes@.len(),
            old(self).nodes@[i as int].data.state == GameState::Ongoing,
            old(self).nodes@[i as int].n == 1,
        ensures
            step_frame(*old(self), *final(self), i as int, delta as int),
            legal_moves(old(self).nodes@[i as int].data@).len() == 0 ==> stuck_ok(*old(self), *final(self), i as int, delta as int),
            legal_moves(old(self).nodes@[i as int].data@).len() > 0 ==> grow_ok(
                *old(self),
                *final(self),
                i as int,
                delta as int,
                legal_moves(old(self).nodes@[i as int].data@),
            ),
    {
        proof {
            assert(self.node_ok(i as int));
            assert(self.node_ok(0));
            assert(self.nodes@[i as int].n <= self.nodes@[0].n);
        }
        let mut b = self.nodes[i].data;
        let mv = b.get_legal_moves();
        if mv.len() == 0 {
            let d: i64 = match b.state {
                GameState::Won(w) => if w == self.nodes[i].player { SCALE } else { -SCALE },
                GameState::Ongoing => 0,
            };
            let ghost before = *self;
            self.nodes[i].data = b;
            let ghost mid = *self;
            proof {
                assert(mid.nodes@[i as int].data.data@ == before.nodes@[i as int].data.data@);
                lemma_children_kept(before, mid);
                assert forall|k: int| 0 <= k < mid.nodes@.len() implies #[trigger] mid.node_ok(k) by {
                    assert(before.node_ok(k));
                    assert(before.node_ok(0));
                    assert forall|j: int| 0 <= j < mid.nodes@[k].children@.len() implies #[trigger] mid.child_made(k, j) by {}
                }
            }
            self.bump(i, d);
            proof {
                lemma_bumped(mid, *self, i as int, d as int);
                assert forall|k: int| 0 <= k < before.nodes@.len() && k != i implies #[trigger] self.nodes@[k] == before.nodes@[k] by {
                    assert(self.nodes@[k] == mid.nodes@[k]);
                }
            }
            return d;
        }
        let ghost before = *self;
        self.nodes[i].possible_moves = mv;
        let ghost mid = *self;
        proof {
            lemma_children_kept(before, mid);
            assert forall|k: int| 0 <= k < mid.nodes@.len() implies #[trigger] mid.node_core(k) by {
                assert(before.node_ok(k));
                assert(before.node_ok(0));
                assert forall|j: int| 0 <= j < mid.nodes@[k].children@.len() implies #[trigger] mid.child_made(k, j) by {}
            }
            assert forall|k: int| 0 <= k < mid.nodes@.len() && k != i implies #[trigger] mid.node_ok(k) by {
                assert(before.node_ok(k));
                assert(before.node_ok(0));
            }
            assert forall|k: int| 0 <= k < mid.nodes@.len() implies #[trigger] mid.nodes@[k].n <= mid.nodes@[0].n by {
                assert(before.nodes@[k].n <= before.nodes@[0].n);
            }
        }
        let d = self.add_child(i);
        proof {
            assert forall|k: int| 0 <= k < i implies #[trigger] self.nodes@[k] == before.nodes@[k] by {
                assert(self.nodes@[k] == mid.nodes@[k]);
            }
            assert forall|k: int| 0 <= k < before.nodes@.len() implies before.nodes@[k].n <= #[trigger] self.nodes@[k].n <= before.nodes@[k].n + 1 by {
                assert(mid.nodes@[k].n <= self.nodes@[k].n <= mid.nodes@[k].n + 1);
            }
            assert forall|j: int| 0 <= j < before.nodes@.len() && j != i implies #[trigger] self.nodes@[j] == before.nodes@[j] by {
                assert(self.nodes@[j] == mid.nodes@[j]);
            }
        }
        d
    }

    /// Grows a child of node `i` for its next untried move.
    fn add_child(&mut self, i: usize) -> (delta: i64)
        requires
            i < old(self).nodes@.len(),
            old(self).nodes@.len() >= 1,
            forall|k: int| 0 <= k < old(self).nodes@.len() ==> #[trigger] old(self).node_core(k),
            forall|k: int| 0 <= k < old(self).nodes@.len() && k != i ==> #[trigger] old(self).node_ok(k),
            forall|k: int| 0 <= k < old(self).nodes@.len() ==> #[trigger] old(self).nodes@[k].n <= old(self).nodes@[0].n,
            old(self).nodes@.len() <= old(self).nodes@[0].n,
            old(self).has_room(),
            old(self).nodes@[i as int].possible_moves@.len() > old(self).nodes@[i as int].children@.len(),
            old(self).nodes@[i as int].data.state == GameState::Ongoing,
        ensures
            step_frame(*old(self), *final(self), i as int, delta as int),
            grow_ok(*old(self), *final(self), i as int, delta as int, old(self).nodes@[i as int].possible_moves@),
            final(self).nodes@[i as int].possible_moves@ == old(self).nodes@[i as int].possible_moves@,
            final(self).nodes@[i as int].children@.len() >= 1,
    {
        proof {
            assert(self.node_core(i as int));
            assert(self.node_core(0));
            assert(self.nodes@[i as int].n <= self.nodes@[0].n);
        }
        let nc = self.nodes[i].children.len();
        let mv = self.nodes[i].possible_moves[nc];
        assert(move_ok(self.nodes@[i as int].data.data@, mv));
        let mut nb = self.nodes[i].data;
        nb.make_possible_move(&mv);
        let child = SearchNode::new(nb, self.nodes[i].player.other());
        proof {
            crate::eval::lemma_eval_bound(nb@, child.player);
        }
        let d: i64 = -child.r;
        let idx = self.nodes.len();
        let ghost before = *self;
        self.nodes.push(child);
        self.nodes[i].children.push(idx);
        let ghost mid = *self;
        proof {
            assert(mid.nodes@[i as int].children@ == before.nodes@[i as int].children@.push(idx));
        }
        self.bump(i, d);
        proof {
            let fin = *self;
            assert(fin.nodes@[0].data == before.nodes@[0].data);
            assert forall|k: int| 0 <= k < fin.nodes@.len() implies #[trigger] fin.node_ok(k) by {
                if k == idx {
                    assert(fin.nodes@[k] == child);
                } else {
                    assert(before.node_core(k));
                    let nd = fin.nodes@[k];
                    assert forall|j: int| 0 <= j < nd.children@.len() implies #[trigger] fin.child_made(k, j) by {
                        if k == i && j == before.nodes@[k].children@.len() {
                            assert(nd.children@[j] == idx);
                            assert(fin.nodes@[idx as int] == child);
                        } else {
                            assert(nd.children@[j] == before.nodes@[k].children@[j]);
                            assert(before.child_made(k, j));
                            let c = nd.children@[j] as int;
                            assert(fin.nodes@[c].data == before.nodes@[c].data);
                            assert(fin.nodes@[c].player == before.nodes@[c].player);
                        }
                    }
                    if k != i {
                        assert(before.node_ok(k));
                        assert(fin.nodes@[k] == before.nodes@[k]);
                    } else {
                        assert forall|j: int| 0 <= j < nd.children@.len() implies k < #[trigger] nd.children@[j] < fin.nodes@.len() by {
                            if j < before.nodes@[k].children@.len() {
                                assert(nd.children@[j] == before.nodes@[k].children@[j]);
                            }
                        }
                    }
                }
            }
            assert forall|k: int| 0 <= k < before.nodes@.len() implies before.nodes@[k].n <= #[trigger] fin.nodes@[k].n <= before.nodes@[k].n + 1 by {
                if k != i {
                    assert(fin.nodes@[k] == before.nodes@[k]);
                }
            }
            assert forall|k: int| 0 <= k < i implies #[trigger] fin.nodes@[k] == before.nodes@[k] by {
                assert(fin.nodes@[k] == mid.nodes@[k]);
            }
            assert forall|k: int| before.nodes@.len() <= k < fin.nodes@.len() implies #[trigger] fin.nodes@[k].n == 1 by {
                assert(k == idx);
            }
            assert(fin.nodes@.len() == before.nodes@.len() + 1);
            assert(fin.nodes@[0].data.counter == before.nodes@[0].data.counter);
            assert(fin.nodes@[i as int].n == before.nodes@[i as int].n + 1);
            assert(-SCALE <= d <= SCALE);
            assert(fin.nodes@[i as int].children@.len() >= before.nodes@[i as int].children@.len());
            assert(fin.nodes@[i as int].possible_moves@ == before.nodes@[i as int].possible_moves@);
            assert(before.nodes@[i as int].possible_moves@ == legal_moves(before.nodes@[i as int].data@));
            assert forall|j: int| 0 <= j < idx && j != i implies #[trigger] fin.nodes@[j] == before.nodes@[j] by {}
            assert(fin.nodes@[idx as int] == child);
            assert(fin.nodes@[i as int].children@ == before.nodes@[i as int].children@.push(idx));
        }
        d
    }

    /// Grows the next untried move of node `i`.
    fn grow(&mut self, i: usize) -> (delta: i64)
        requires
            old(self).wf(),
            old(self).has_room(),
            i < old(self).nodes@.len(),
            old(self).nodes@[i as int].data.state == GameState::Ongoing,
            old(self).nodes@[i as int].n > 1,
            old(self).nodes@[i as int].possible_moves@.len() > old(self).nodes@[i as int].children@.len(),
        ensures
            step_frame(*old(self), *final(self), i as int, delta as int),
            grow_ok(*old(self), *final(self), i as int, delta as int, old(self).nodes@[i as int].possible_moves@),
    {
        proof {
            assert forall|k: int| 0 <= k < self.nodes@.len() implies #[trigger] self.node_core(k) by {
                assert(self.node_ok(k));
            }
        }
        self.add_child(i)
    }
}

/// What one expansion step from node `i` keeps and changes: at most one
/// node is added, with one visit; each node gains at most one visit and
/// node `i` exactly one; the returned result, within one unit, is added to
/// node `i`'s; a finished position adds +1 if its side won, else -1, and
/// stays as it is; the nodes before `i` stay as they were; node `i`'s
/// children and listed moves are kept; and its first visit lists its legal
/// moves and grows a child if there is any.
pub open spec fn step_frame(a: SearchTree, b: SearchTree, i: int, delta: int) -> bool {
    &&& b.nodes@.len() == a.nodes@.len() || b.nodes@.len() == a.nodes@.len() + 1
    &&& b.nodes@[0].data.counter == a.nodes@[0].data.counter
    &&& forall|k: int| 0 <= k < b.nodes@.len() ==> #[trigger] b.node_ok(k)
    &&& forall|k: int|
        0 <= k < a.nodes@.len() ==> a.nodes@[k].n <= #[trigger] b.nodes@[k].n <= a.nodes@[k].n + 1
    &&& forall|k: int| a.nodes@.len() <= k < b.nodes@.len() ==> #[trigger] b.nodes@[k].n == 1
    &&& forall|k: int| 0 <= k < i ==> #[trigger] b.nodes@[k] == a.nodes@[k]
    &&& b.nodes@[i].n == a.nodes@[i].n + 1
    &&& b.nodes@[i].r == a.nodes@[i].r + delta
    &&& -SCALE <= delta <= SCALE
    &&& (a.nodes@[i].data.state matches GameState::Won(w) ==> delta == if w == a.nodes@[i].player {
        SCALE as int
    } else {
        -SCALE
    })
    &&& b.nodes@[i].children@.len() >= a.nodes@[i].children@.len()
    &&& a.nodes@[i].possible_moves@.len() > 0 ==> b.nodes@[i].possible_moves@
        == a.nodes@[i].possible_moves@
    &&& (a.nodes@[i].n == 1 && a.nodes@[i].data.state == GameState::Ongoing && legal_moves(
        a.nodes@[i].data@,
    ).len() > 0) ==> b.nodes@[i].children@.len() >= 1 && b.nodes@[i].possible_moves@
        == legal_moves(a.nodes@[i].data@)
    &&& a.nodes@[i].data.state != GameState::Ongoing ==> b.nodes@[i].children@.len()
        == a.nodes@[i].children@.len() && b.nodes@[i].data == a.nodes@[i].data
    &&& b.nodes@[i].data == a.nodes@[i].data || (b.nodes@[i].children@.len() == 0
        && b.nodes@[i].data.state != GameState::Ongoing)
}

/// Node `nd` after one more visit that adds `delta` to its result.
pub open spec fn bumped(nd: SearchNode, delta: int) -> SearchNode {
    SearchNode { n: (nd.n + 1) as u64, r: (nd.r + delta) as i64, ..nd }
}

/// The result a finished position brings its node: +1 if the node's side
/// won, else -1.
pub open spec fn outcome(state: GameState, player: Color) -> int {
    if state == GameState::Won(player) {
        SCALE as int
    } else {
        -SCALE
    }
}

/// The first visit of node `i` found no legal move: its position is marked
/// as lost for its side, its move list stays empty, and the step counts as a
/// finished position.
pub open spec fn stuck_ok(a: SearchTree, b: SearchTree, i: int, delta: int) -> bool {
    let nd = a.nodes@[i];
    let w = after_listing(nd.data@);
    &&& b.nodes@.len() == a.nodes@.len()
    &&& forall|k: int| 0 <= k < a.nodes@.len() && k != i ==> #[trigger] b.nodes@[k] == a.nodes@[k]
    &&& b.nodes@[i].data@ == w
    &&& b.nodes@[i].possible_moves@.len() == 0
    &&& b.nodes@[i].children@ == nd.children@
    &&& b.nodes@[i].player == nd.player
    &&& b.nodes@[i].n == nd.n + 1
    &&& b.nodes@[i].r == nd.r + delta
    &&& delta == outcome(w.state, nd.player)
}

/// Node `i`, whose move list is `moves`, grows a child for its next untried
/// move: the new node, at the end of the arena, holds the position after that
/// move with the other side to move, one visit and its evaluation as result;
/// node `i` gains the negated evaluation.
pub open spec fn grow_ok(a: SearchTree, b: SearchTree, i: int, delta: int, moves: Seq<PossibleMove>) -> bool {
    let nd = a.nodes@[i];
    let idx = a.nodes@.len() as int;
    let ch = b.nodes@[idx];
    &&& b.nodes@.len() == idx + 1
    &&& forall|j: int| 0 <= j < idx && j != i ==> #[trigger] b.nodes@[j] == a.nodes@[j]
    &&& b.nodes@[i].data == nd.data
    &&& b.nodes@[i].player == nd.player
    &&& b.nodes@[i].possible_moves@ == moves
    &&& b.nodes@[i].children@ == nd.children@.push(idx as usize)
    &&& b.nodes@[i].n == nd.n + 1
    &&& b.nodes@[i].r == nd.r + delta
    &&& ch.data@ == apply_move(nd.data@, moves[nd.children@.len() as int])
    &&& ch.player == opponent(nd.player)
    &&& ch.n == 1
    &&& ch.r == eval_score(ch.data@, ch.player)
    &&& ch.children@.len() == 0
    &&& ch.possible_moves@.len() == 0
    &&& delta == -ch.r
}

/// The upper-confidence score of node `i`'s `k`-th child during a visit of
/// node `i`.
pub open spec fn child_ucb(t: SearchTree, i: int, k: int) -> int {
    let c = t.nodes@[t.nodes@[i].children@[k] as int];
    ucb(c.r as int, c.n as int, t.nodes@[i].n + 1)
}

/// The first of node `i`'s first `m` children with the greatest score.
pub open spec fn best_child(t: SearchTree, i: int, m: int) -> int
    decreases m,
{
    if m <= 1 {
        0
    } else {
        let b = best_child(t, i, m - 1);
        if child_ucb(t, i, m - 1) > child_ucb(t, i, b) {
            m - 1
        } else {
            b
        }
    }
}

/// One expansion step from node `i`, returning `delta`, turns tree `a` into
/// tree `b`. Besides `step_frame`: a finished position only counts the
/// visit; a first visit lists the legal moves and, with none, marks the
/// position as lost, else grows the first child; a node with untried moves
/// grows the next child; a node whose moves all have children descends into
/// the child of greatest upper-confidence score, and gains the negation of
/// that child's result.
pub open spec fn step_post(a: SearchTree, b: SearchTree, i: int, delta: int) -> bool
    decreases a.nodes@.len() - i,
{
    let nd = a.nodes@[i];
    &&& step_frame(a, b, i, delta)
    &&& if nd.data.state != GameState::Ongoing {
        b.nodes@ == a.nodes@.update(i, bumped(nd, delta)) && delta == outcome(nd.data.state, nd.player)
    } else if nd.n == 1 && legal_moves(nd.data@).len() == 0 {
        stuck_ok(a, b, i, delta)
    } else if nd.n == 1 {
        grow_ok(a, b, i, delta, legal_moves(nd.data@))
    } else if nd.possible_moves@.len() > nd.children@.len() {
        grow_ok(a, b, i, delta, nd.possible_moves@)
    } else if nd.children@.len() > 0 {
        let c = nd.children@[best_child(a, i, nd.children@.len() as int)] as int;
        if 0 <= i < c < a.nodes@.len() {
            exists|mid: SearchTree|
                #![trigger mid.nodes@.update(i, bumped(mid.nodes@[i], delta))]
                step_post(a, mid, c, -delta) && b.nodes@ == mid.nodes@.update(
                    i,
                    bumped(mid.nodes@[i], delta),
                )
        } else {
            false
        }
    } else {
        delta == 0 && b.nodes@ == a.nodes@.update(i, bumped(nd, 0))
    }
}

/// A change that keeps every node's side and children, keeps every board
/// but for marking a position in play as lost after its listing, and keeps
/// the board and move list of every node that has children, keeps each child
/// made from its parent's move.
/// Tree `b` comes from tree `a` by `n` expansion steps from the root.
pub open spec fn steps_from(a: SearchTree, b: SearchTree, n: nat) -> bool
    decreases n,
{
    if n == 0 {
        b == a
    } else {
        exists|mid: SearchTree, delta: int|
            #![trigger step_post(mid, b, 0, delta)]
            steps_from(a, mid, (n - 1) as nat) && step_post(mid, b, 0, delta)
    }
}

proof fn lemma_descend_post(a: SearchTree, b: SearchTree, mid: SearchTree, i: int, delta: int)
    requires
        0 <= i < a.nodes@.len(),
        step_frame(a, b, i, delta),
        a.nodes@[i].data.state == GameState::Ongoing,
        a.nodes@[i].n != 1,
        a.nodes@[i].possible_moves@.len() == a.nodes@[i].children@.len(),
        a.nodes@[i].children@.len() > 0,
        i < a.nodes@[i].children@[best_child(a, i, a.nodes@[i].children@.len() as int)] < a.nodes@.len(),
        step_post(a, mid, a.nodes@[i].children@[best_child(a, i, a.nodes@[i].children@.len() as int)] as int, -delta),
        b.nodes@ == mid.nodes@.update(i, bumped(mid.nodes@[i], delta)),
    ensures
        step_post(a, b, i, delta),
{
}

proof fn lemma_children_kept(a: SearchTree, b: SearchTree)
    requires
        a.nodes@.len() <= b.nodes@.len(),
        forall|k: int| 0 <= k < a.nodes@.len() ==> #[trigger] a.node_ok(k),
        forall|k: int|
            0 <= k < a.nodes@.len() ==> ((#[trigger] b.nodes@[k]).data == a.nodes@[k].data || (
                b.nodes@[k].data@ == after_listing(a.nodes@[k].data@) && a.nodes@[k].data.state
                == GameState::Ongoing)) && b.nodes@[k].player == a.nodes@[k].player && b.nodes@[k].children@
                == a.nodes@[k].children@ && (a.nodes@[k].children@.len() == 0 || (b.nodes@[k].data
                == a.nodes@[k].data && b.nodes@[k].possible_moves@ == a.nodes@[k].possible_moves@)),
    ensures
        forall|k: int, j: int|
            0 <= k < a.nodes@.len() && 0 <= j < b.nodes@[k].children@.len() ==> #[trigger] b.child_made(
                k,
                j,
            ),
{
    assert forall|k: int, j: int|
        0 <= k < a.nodes@.len() && 0 <= j < b.nodes@[k].children@.len() implies #[trigger] b.child_made(
        k,
        j,
    ) by {
        assert(a.node_ok(k));
        assert(a.child_made(k, j));
        let c = a.nodes@[k].children@[j] as int;
        let x = apply_move(a.nodes@[k].data@, a.nodes@[k].possible_moves@[j]);
        assert(b.nodes@[c] == b.nodes@[c]);
        if b.nodes@[c].data != a.nodes@[c].data {
            if a.nodes@[c].data@ == after_listing(x) {
                assert(after_listing(x) == x);
            }
            assert(a.nodes@[c].data@ == x);
        }
    }
}

proof fn lemma_bumped(a: SearchTree, b: SearchTree, i: int, d: int)
    requires
        0 <= i < a.nodes@.len(),
        forall|k: int| 0 <= k < a.nodes@.len() ==> #[trigger] a.node_ok(k),
        a.nodes@[i].n < VISIT_LIMIT,
        -SCALE <= d <= SCALE,
        b.nodes@.len() == a.nodes@.len(),
        forall|k: int| 0 <= k < a.nodes@.len() && k != i ==> #[trigger] b.nodes@[k] == a.nodes@[k],
        b.nodes@[i] == (SearchNode {
            n: (a.nodes@[i].n + 1) as u64,
            r: (a.nodes@[i].r + d) as i64,
            ..a.nodes@[i]
        }),
    ensures
        forall|k: int| 0 <= k < b.nodes@.len() ==> #[trigger] b.node_ok(k),
{
    assert(a.node_ok(i));
    assert(-SCALE * VISIT_LIMIT <= a.nodes@[i].r <= SCALE * VISIT_LIMIT) by (nonlinear_arith)
        requires
            -SCALE * a.nodes@[i].n <= a.nodes@[i].r <= SCALE * a.nodes@[i].n,
            a.nodes@[i].n < VISIT_LIMIT,
    ;
    let n = a.nodes@[i].n as int;
    let r = a.nodes@[i].r as int;
    assert(-SCALE * (n + 1) <= r + d <= SCALE * (n + 1)) by (nonlinear_arith)
        requires
            -SCALE * n <= r <= SCALE * n,
            -SCALE <= d <= SCALE,
            SCALE == 1000,
    ;
    assert(b.nodes@[i].r == r + d);
    assert(b.nodes@[i].n == n + 1);
    lemma_children_kept(a, b);
    assert forall|k: int| 0 <= k < b.nodes@.len() implies #[trigger] b.node_ok(k) by {
        assert(a.node_ok(k));
        assert forall|j: int| 0 <= j < b.nodes@[k].children@.len() implies #[trigger] b.child_made(k, j) by {}
        assert(a.node_ok(0));
        assert(b.nodes@[0].data == a.nodes@[0].data);
    }
}

impl SearchTree {
    /// A tree of one node for `board`, with `color` about to move.
    pub fn new(board: Board, color: Color) -> (t: SearchTree)
        requires
            board.wf(),
        ensures
            t.wf(),
            t.nodes@.len() == 1,
            t.nodes@[0].data == board,
            t.nodes@[0].player == color,
            t.nodes@[0].n == 1,
            t.nodes@[0].r == eval_score(board@, color),
            t.nodes@[0].children@.len() == 0,
            t.nodes@[0].possible_moves@.len() == 0,
    {
        let root = SearchNode::new(board, color);
        proof {
            crate::eval::lemma_eval_bound(board@, color);
        }
        let mut nodes: Vec<SearchNode> = Vec::new();
        nodes.push(root);
        let t = SearchTree { nodes };
        assert(t.node_ok(0));
        t
    }

    /// One expansion step from the root; returns the result it adds to the
    /// root, from the view of the root's side.
    pub fn expand(&mut self) -> (delta: i64)
        requires
            old(self).wf(),
            old(self).has_room(),
        ensures
            final(self).wf(),
            final(self).nodes@[0].n == old(self).nodes@[0].n + 1,
            step_post(*old(self), *final(self), 0, delta as int),
    {
        let d = self.expand_at(0);
        proof {
            let a = *old(self);
            let b = *self;
            assert forall|k: int| 0 <= k < b.nodes@.len() implies #[trigger] b.nodes@[k].n <= b.nodes@[0].n by {
                if k < a.nodes@.len() {
                    assert(a.nodes@[k].n <= a.nodes@[0].n);
                    assert(a.nodes@[k].n <= b.nodes@[k].n <= a.nodes@[k].n + 1);
                }
            }
        }
        d
    }

    /// Runs `steps` expansion steps from the root.
    pub fn search(&mut self, steps: u64)
        requires
            old(self).wf(),
            old(self).nodes@[0].n + steps <= VISIT_LIMIT,
            old(self).nodes@[0].data.counter + old(self).nodes@[0].n + steps + 2 < i32::MAX,
        ensures
            final(self).wf(),
            steps_from(*old(self), *final(self), steps as nat),
            final(self).nodes@[0].n == old(self).nodes@[0].n + steps,
            final(self).nodes@[0].data.counter == old(self).nodes@[0].data.counter,
            final(self).nodes@[0].children@.len() >= old(self).nodes@[0].children@.len(),
            old(self).nodes@[0].possible_moves@.len() > 0 ==> final(self).nodes@[0].possible_moves@
                == old(self).nodes@[0].possible_moves@,
            final(self).nodes@[0].data == old(self).nodes@[0].data || (final(self).nodes@[0].children@.len() == 0
                && final(self).nodes@[0].data.state != GameState::Ongoing),
            old(self).nodes@[0].data.state != GameState::Ongoing ==> final(self).nodes@[0].data
                == old(self).nodes@[0].data && final(self).nodes@[0].children@.len()
                == old(self).nodes@[0].children@.len(),
            (steps >= 1 && old(self).nodes@[0].n == 1 && old(self).nodes@[0].data.state
                == GameState::Ongoing && legal_moves(old(self).nodes@[0].data@).len() > 0)
                ==> final(self).nodes@[0].children@.len() >= 1,
    {
        let ghost start = *self;
        let mut j: u64 = 0;
        while j < steps
            invariant
                j <= steps,
                self.wf(),
                self.nodes@[0].n == start.nodes@[0].n + j,
                self.nodes@[0].data.counter == start.nodes@[0].data.counter,
                start.nodes@[0].n + steps <= VISIT_LIMIT,
                start.nodes@[0].data.counter + start.nodes@[0].n + steps + 2 < i32::MAX,
                self.nodes@[0].children@.len() >= start.nodes@[0].children@.len(),
                start.nodes@[0].possible_moves@.len() > 0 ==> self.nodes@[0].possible_moves@
                    == start.nodes@[0].possible_moves@,
                self.nodes@[0].data == start.nodes@[0].data || (self.nodes@[0].children@.len() == 0
                    && self.nodes@[0].data.state != GameState::Ongoing),
                j == 0 ==> *self == start,
                steps_from(start, *self, j as nat),
                start.nodes@[0].data.state != GameState::Ongoing ==> self.nodes@[0].data
                    == start.nodes@[0].data && self.nodes@[0].children@.len()
                    == start.nodes@[0].children@.len(),
                (j >= 1 && start.nodes@[0].n == 1 && start.nodes@[0].data.state
                    == GameState::Ongoing && legal_moves(start.nodes@[0].data@).len() > 0)
                    ==> self.nodes@[0].children@.len() >= 1,
            decreases steps - j,
        {
            let ghost before = *self;
            let d = self.expand();
            proof {
                assert(steps_from(start, before, j as nat));
                assert(step_post(before, *self, 0, d as int));
                assert(steps_from(start, *self, (j + 1) as nat));
                if j == 0 && start.nodes@[0].n == 1 && start.nodes@[0].data.state == GameState::Ongoing
                    && legal_moves(start.nodes@[0].data@).len() > 0 {
                    assert(before.nodes@[0] == start.nodes@[0]);
                }
            }
            j = j + 1;
        }
    }

    /// Among the root's children, the position of the one with the lowest
    /// mean result (the first such); none if the root has no children.
    pub fn get_future(&self) -> (r: Option<usize>)
        requires
            self.wf(),
            self.nodes@[0].n <= VISIT_LIMIT,
        ensures
            r is None <==> self.nodes@[0].children@.len() == 0,
            r matches Some(k) ==> first_lowest(*self, k as int),
    {
        let nc = self.nodes[0].children.len();
        if nc == 0 {
            return None;
        }
        proof {
            assert(self.node_ok(0));
        }
        let mut best: usize = 0;
        let mut k: usize = 1;
        while k < nc
            invariant
                self.wf(),
                self.nodes@[0].n <= VISIT_LIMIT,
                nc == self.nodes@[0].children@.len(),
                1 <= k <= nc,
                best < k,
                forall|j: int| 0 <= j < k ==> !mean_below(
                    self.nodes@[self.nodes@[0].children@[j] as int],
                    self.nodes@[self.nodes@[0].children@[best as int] as int],
                ),
                forall|j: int| 0 <= j < best ==> mean_below(
                    self.nodes@[self.nodes@[0].children@[best as int] as int],
                    self.nodes@[self.nodes@[0].children@[j] as int],
                ),
            decreases nc - k,
        {
            proof {
                assert(self.node_ok(0));
            }
            let c = self.nodes[0].children[k];
            let b = self.nodes[0].children[best];
            proof {
                assert(self.node_ok(c as int));
                assert(self.node_ok(b as int));
                assert(self.nodes@[c as int].n <= self.nodes@[0].n);
                assert(self.nodes@[b as int].n <= self.nodes@[0].n);
            }
            if self.lower_mean(c, b) {
                proof {
                    assert forall|j: int| 0 <= j <= k implies !mean_below(
                        self.nodes@[self.nodes@[0].children@[j] as int],
                        self.nodes@[c as int],
                    ) by {
                        if j < k {
                            assert(self.node_ok(self.nodes@[0].children@[j] as int));
                            lemma_below_chain(
                                self.nodes@[c as int],
                                self.nodes@[b as int],
                                self.nodes@[self.nodes@[0].children@[j] as int],
                            );
                            lemma_mean_below_trans(
                            self.nodes@[self.nodes@[0].children@[j] as int],
                            self.nodes@[b as int],
                            self.nodes@[c as int],
                        );
                        }
                    }
                }
                proof {
                    assert forall|j: int| 0 <= j < k implies mean_below(
                        self.nodes@[c as int],
                        self.nodes@[self.nodes@[0].children@[j] as int],
                    ) by {
                        assert(self.node_ok(self.nodes@[0].children@[j] as int));
                        lemma_below_chain(
                            self.nodes@[c as int],
                            self.nodes@[b as int],
                            self.nodes@[self.nodes@[0].children@[j] as int],
                        );
                    }
                }
                best = k;
            }
            k = k + 1;
        }
        Some(best)
    }

    fn lower_mean(&self, a: usize, b: usize) -> (r: bool)
        requires
            a < self.nodes@.len(),
            b < self.nodes@.len(),
            1 <= self.nodes@[a as int].n <= VISIT_LIMIT,
            1 <= self.nodes@[b as int].n <= VISIT_LIMIT,
            -SCALE * self.nodes@[a as int].n <= self.nodes@[a as int].r <= SCALE * self.nodes@[a as int].n,
            -SCALE * self.nodes@[b as int].n <= self.nodes@[b as int].r <= SCALE * self.nodes@[b as int].n,
        ensures
            r == mean_below(self.nodes@[a as int], self.nodes@[b as int]),
    {
        let ra = self.nodes[a].r as i128;
        let na = self.nodes[a].n as i128;
        let rb = self.nodes[b].r as i128;
        let nb = self.nodes[b].n as i128;
        assert(-1_000_000_000_000 <= ra <= 1_000_000_000_000) by (nonlinear_arith)
            requires
                -SCALE * na <= ra <= SCALE * na,
                na <= VISIT_LIMIT,
                SCALE == 1000,
        ;
        assert(-1_000_000_000_000 <= rb <= 1_000_000_000_000) by (nonlinear_arith)
            requires
                -SCALE * nb <= rb <= SCALE * nb,
                nb <= VISIT_LIMIT,
                SCALE == 1000,
        ;
        assert(-1_000_000_000_000_000_000_000 <= ra * nb <= 1_000_000_000_000_000_000_000) by (nonlinear_arith)
            requires
                -1_000_000_000_000 <= ra <= 1_000_000_000_000,
                1 <= nb <= 1_000_000_000,
        ;
        assert(-1_000_000_000_000_000_000_000 <= rb * na <= 1_000_000_000_000_000_000_000) by (nonlinear_arith)
            requires
                -1_000_000_000_000 <= rb <= 1_000_000_000_000,
                1 <= na <= 1_000_000_000,
        ;
        ra * nb < rb * na
    }

    /// The move the search picks: the root's move whose child has the lowest
    /// mean result, that is the best for the root's side.
    pub fn best_move(&self) -> (r: Option<PossibleMove>)
        requires
            self.wf(),
            self.nodes@[0].n <= VISIT_LIMIT,
        ensures
            r is None <==> self.nodes@[0].children@.len() == 0,
            r matches Some(m) ==> self.nodes@[0].possible_moves@.contains(m),
            picks(*self, r),
    {
        match self.get_future() {
            None => None,
            Some(k) => {
                proof {
                    assert(self.node_ok(0));
                }
                let m = self.nodes[0].possible_moves[k];
                assert(self.nodes@[0].possible_moves@[k as int] == m);
                assert(first_lowest(*self, k as int));
                Some(m)
            },
        }
    }
}

/// `r` is the move of the root's child with the lowest mean result (the
/// first such), or none if the root has no child.
pub open spec fn picks(t: SearchTree, r: Option<PossibleMove>) -> bool {
    match r {
        None => t.nodes@[0].children@.len() == 0,
        Some(m) => exists|k: int| first_lowest(t, k) && m == t.nodes@[0].possible_moves@[k],
    }
}

/// A tree of one unvisited-but-once root for `board`, with `color` to move.
pub open spec fn fresh_tree(t: SearchTree, board: BoardView, color: Color) -> bool {
    &&& t.nodes@.len() == 1
    &&& t.nodes@[0].data@ == board
    &&& t.nodes@[0].player == color
    &&& t.nodes@[0].n == 1
    &&& t.nodes@[0].r == eval_score(board, color)
    &&& t.nodes@[0].children@.len() == 0
    &&& t.nodes@[0].possible_moves@.len() == 0
}

/// Node `k` of the root's children has the lowest mean result, and is the
/// first such.
pub open spec fn first_lowest(t: SearchTree, k: int) -> bool {
    let ch = t.nodes@[0].children@;
    &&& 0 <= k < ch.len()
    &&& forall|j: int| 0 <= j < ch.len() ==> !mean_below(t.nodes@[ch[j] as int], t.nodes@[ch[k] as int])
    &&& forall|j: int| 0 <= j < k ==> mean_below(t.nodes@[ch[k] as int], t.nodes@[ch[j] as int])
}

proof fn lemma_below_chain(c: SearchNode, b: SearchNode, j: SearchNode)
    requires
        c.n >= 1,
        b.n >= 1,
        j.n >= 1,
        mean_below(c, b),
        b.r * j.n <= j.r * b.n,
    ensures
        mean_below(c, j),
{
    assert(c.r * j.n < j.r * c.n) by (nonlinear_arith)
        requires
            c.n >= 1,
            b.n >= 1,
            j.n >= 1,
            c.r * b.n < b.r * c.n,
            b.r * j.n <= j.r * b.n,
    ;
}

/// Is the mean result of node `a` below that of node `b` (compared exactly).
pub open spec fn mean_below(a: SearchNode, b: SearchNode) -> bool {
    a.r * b.n < b.r * a.n
}

proof fn lemma_mean_below_trans(a: SearchNode, b: SearchNode, c: SearchNode)
    requires
        a.n >= 1,
        b.n >= 1,
        c.n >= 1,
        !mean_below(a, b),
        mean_below(c, b),
    ensures
        !mean_below(a, c),
{
    assert(!(a.r * c.n < c.r * a.n)) by (nonlinear_arith)
        requires
            a.n >= 1,
            b.n >= 1,
            c.n >= 1,
            a.r * b.n >= b.r * a.n,
            c.r * b.n < b.r * c.n,
    ;
}

/// Searches `steps` expansion steps from `board`, with the side to move as
/// the root's side, and returns the move of the root's child with the lowest
/// mean result: one of the legal moves, present whenever the game goes on,
/// there is a legal move and a step ran.
pub fn choose_move(board: Board, steps: u64) -> (r: Option<PossibleMove>)
    requires
        board.wf(),
        steps < VISIT_LIMIT,
        board.counter + steps + 3 < i32::MAX,
    ensures
        r matches Some(m) ==> legal_moves(board@).contains(m),
        (steps >= 1 && board.state == GameState::Ongoing && legal_moves(board@).len() > 0) ==> r is Some,
        board.state != GameState::Ongoing ==> r is None,
        exists|t0: SearchTree, t: SearchTree|
            fresh_tree(t0, board@, side_to_move(board@)) && #[trigger] steps_from(t0, t, steps as nat)
                && picks(t, r),
{
    let side = Color::from_num((board.counter % 2) as usize);
    let mut root = SearchTree::new(board, side);
    let ghost t0 = root;
    root.search(steps);
    proof {
        assert(root.node_ok(0));
    }
    let r = root.best_move();
    proof {
        assert(fresh_tree(t0, board@, side_to_move(board@)));
        assert(steps_from(t0, root, steps as nat));
    }
    r
}

} // verus!
