use chess_engine::{
    choose_move, eval, Board, Color, GameState, Overwrites, Piece, PieceInfo, Pos, PossibleMove,
    SearchTree, Tile, Game,
};

fn empty_codes() -> [u32; 64] {
    [0; 64]
}

fn legal(board: &Board) -> Vec<PossibleMove> {
    let mut b = *board;
    b.get_legal_moves()
}

fn from(moves: &[PossibleMove], start: usize) -> Vec<PossibleMove> {
    moves.iter().copied().filter(|m| m.start.num == start).collect()
}

#[test]
fn tile_codes_round_trip() {
    let mut seen = Vec::new();
    for n in 0..=12u32 {
        let t = Tile::from_num(n);
        assert_eq!(t.to_num(), n);
        assert!(!seen.contains(&t));
        seen.push(t);
    }
    assert_eq!(Tile::from_num(0), Tile::Empty);
    assert_eq!(Tile::from_num(4), Tile::Taken(Color::White, Piece::King, PieceInfo::Unmoved));
    assert_eq!(Tile::from_num(12), Tile::Taken(Color::Black, Piece::Pawn, PieceInfo::Unmoved));
    assert_eq!(Tile::Taken(Color::Black, Piece::Queen, PieceInfo::Moved).to_num(), 11);
}

#[test]
fn tile_values() {
    assert_eq!(Tile::Empty.get_value(), 0);
    assert_eq!(Tile::from_num(5).get_value(), 9);
    assert_eq!(Tile::from_num(7).get_value(), 5);
    assert_eq!(Tile::from_num(12).get_value(), 1);
}

#[test]
fn colors() {
    assert_eq!(Color::White.other(), Color::Black);
    assert_eq!(Color::Black.get_dir(), -1);
    assert_eq!(Color::from_num(1), Color::Black);
    assert_eq!(Color::White.to_num(), 0);
}

#[test]
fn step_stops_at_the_edge() {
    let p = Pos::from_num(0);
    assert_eq!(p.step(-1, 0), None);
    assert_eq!(p.step(0, -1), None);
    assert_eq!(p.step(1, 2), Some(Pos::from_ints(1, 2)));
    assert_eq!(Pos::from_num(63).step(1, 0), None);
    assert_eq!(Pos::from_num(10), Pos::from_ints(2, 1));
}

#[test]
fn start_position_has_twenty_moves() {
    let board = Board::new();
    assert_eq!(legal(&board).len(), 20);
    assert_eq!(board.get_value_counts(), [42, 42]);
    assert_eq!(board.get_state(), GameState::Ongoing);
    let data = board.get_data();
    assert_eq!(data[0], 1);
    assert_eq!(data[3], 4);
    assert_eq!(data[60], 11);
    assert_eq!(data[52], 12);
    assert_eq!(data[20], 0);
}

#[test]
fn legal_moves_keep_own_king_safe() {
    let mut board = Board::new();
    board = board.update(11, 27, 0);
    board = board.update(52, 36, 0);
    board = board.update(4, 32, 0);
    assert_eq!(board.get_counter(), 3);
    let moves = legal(&board);
    assert!(!moves.is_empty());
    for m in moves.iter() {
        let mut b = board;
        b.make_possible_move(m);
        assert!(b.check_board_safety()[1]);
    }
    // the pawn on file 2 is pinned against its king by the queen
    assert!(from(&moves, 50).is_empty());
    // an unpinned pawn still moves
    assert_eq!(from(&moves, 55).len(), 2);
}

#[test]
fn mate_in_one() {
    let mut codes = empty_codes();
    codes[56] = 10;
    codes[48] = 12;
    codes[49] = 12;
    codes[7] = 1;
    codes[4] = 4;
    let board = Board::from_nums(codes);
    let after = board.update(7, 63, 0);
    assert_eq!(after.get_counter(), 1);
    let mut b = after;
    let replies = b.get_legal_moves();
    assert_eq!(replies.len(), 0);
    assert_eq!(b.get_state(), GameState::Won(Color::White));
}

fn castling_board() -> Board {
    let mut codes = empty_codes();
    codes[3] = 4;
    codes[0] = 1;
    codes[7] = 1;
    codes[59] = 10;
    Board::from_nums(codes)
}

#[test]
fn castling_both_sides() {
    let board = castling_board();
    let king = from(&legal(&board), 3);
    let short: Vec<_> = king.iter().filter(|m| m.end.num == 5).collect();
    let long: Vec<_> = king.iter().filter(|m| m.end.num == 1).collect();
    assert_eq!(short.len(), 1);
    assert_eq!(long.len(), 1);
    assert!(matches!(short[0].extra, Overwrites::Two(_, Tile::Empty, _, _)));
    let after = board.update(3, 1, 0);
    let data = after.get_data();
    assert_eq!(data[1], 4);
    assert_eq!(data[2], 1);
    assert_eq!(data[0], 0);
    assert_eq!(data[3], 0);
    assert_eq!(after.get_value_counts(), [13, 3]);
}

#[test]
fn castling_blocked_by_attacked_path() {
    let mut codes = empty_codes();
    codes[3] = 4;
    codes[0] = 1;
    codes[7] = 1;
    codes[63] = 10;
    codes[58] = 7;
    let board = Board::from_nums(codes);
    let king = from(&legal(&board), 3);
    assert!(king.iter().all(|m| m.end.num != 1));
    assert!(king.iter().any(|m| m.end.num == 5));
}

#[test]
fn castling_blocked_by_piece_between() {
    let mut codes = empty_codes();
    codes[3] = 4;
    codes[7] = 1;
    codes[6] = 2;
    codes[59] = 10;
    let board = Board::from_nums(codes);
    let king = from(&legal(&board), 3);
    assert!(king.iter().all(|m| m.end.num != 5));
}

#[test]
fn castling_gone_after_king_moved() {
    let board = castling_board();
    let b = board.update(3, 11, 0);
    let b = b.update(59, 58, 0);
    let b = b.update(11, 3, 0);
    let b = b.update(58, 59, 0);
    assert_eq!(b.get_counter(), 4);
    let king = from(&legal(&b), 3);
    assert!(king.iter().all(|m| m.end.num != 1 && m.end.num != 5));
}

fn en_passant_board() -> Board {
    let mut codes = empty_codes();
    codes[36] = 6;
    codes[51] = 12;
    codes[7] = 4;
    codes[63] = 10;
    let b = Board::from_nums(codes);
    let b = b.update(7, 15, 0);
    b.update(51, 35, 0)
}

#[test]
fn en_passant_on_next_ply() {
    let b = en_passant_board();
    assert_eq!(b.get_counter(), 2);
    let pawn = from(&legal(&b), 36);
    let ep: Vec<_> = pawn.iter().filter(|m| m.end.num == 43).collect();
    assert_eq!(ep.len(), 1);
    assert_eq!(ep[0].extra, Overwrites::One(Pos::from_num(35), Tile::Empty));
    let after = b.update(36, 43, 0);
    let data = after.get_data();
    assert_eq!(data[35], 0);
    assert_eq!(data[43], 6);
    assert_eq!(after.get_value_counts(), [4, 3]);
}

#[test]
fn en_passant_not_two_plies_later() {
    let b = en_passant_board();
    let b = b.update(15, 7, 0);
    let b = b.update(63, 62, 0);
    assert_eq!(b.get_counter(), 4);
    let pawn = from(&legal(&b), 36);
    assert!(pawn.iter().all(|m| m.end.num != 43));
}

#[test]
fn promotion_offers_four_pieces() {
    let mut codes = empty_codes();
    codes[48] = 6;
    codes[7] = 4;
    codes[47] = 10;
    let board = Board::from_nums(codes);
    let pawn = from(&legal(&board), 48);
    let mut ups: Vec<u8> = pawn.iter().filter(|m| m.end.num == 56).map(|m| m.upgrade).collect();
    ups.sort();
    assert_eq!(ups, vec![1, 2, 3, 5]);
    let before = board.get_value_counts();
    let queen = board.update(48, 56, 5);
    assert_eq!(queen.get_value_counts()[0], before[0] + 8);
    assert_eq!(queen.get_data()[56], 5);
    let knight = board.update(48, 56, 2);
    assert_eq!(knight.get_value_counts()[0], before[0] + 2);
    assert_eq!(knight.get_data()[56], 2);
}

#[test]
fn promotion_needs_a_selector() {
    let mut codes = empty_codes();
    codes[48] = 6;
    codes[7] = 4;
    codes[47] = 10;
    let board = Board::from_nums(codes);
    let same = board.update(48, 56, 0);
    assert_eq!(same.get_counter(), 0);
    assert_eq!(same.get_data(), board.get_data());
}

#[test]
fn invalid_move_is_a_no_op() {
    let board = Board::new();
    let same = board.update(0, 40, 0);
    assert_eq!(same.get_counter(), 0);
    assert_eq!(same.get_data(), board.get_data());
    let wrong_side = board.update(48, 40, 0);
    assert_eq!(wrong_side.get_counter(), 0);
    let mut b = board;
    assert!(!b.make_move(20, 28, 0));
    assert!(b.make_move(12, 28, 0));
    assert_eq!(b.get_data()[28], 6);
}

#[test]
fn capturing_a_king_ends_the_game() {
    let mut codes = empty_codes();
    codes[0] = 4;
    codes[9] = 10;
    codes[63] = 2;
    let board = Board::from_nums(codes);
    let mut b = board;
    let m = PossibleMove::basic(Pos::from_num(0), Pos::from_num(9), 0);
    b.make_possible_move(&m);
    assert_eq!(b.get_state(), GameState::Won(Color::White));
    assert_eq!(b.get_value_counts(), [1, 0]);
}

#[test]
fn safety_check_sees_each_attacker() {
    let mut codes = empty_codes();
    codes[27] = 4;
    let lone = Board::from_nums(codes);
    assert!(lone.check_safety(3, 3, Color::White));
    let mut knight = codes;
    knight[44] = 8;
    assert!(!Board::from_nums(knight).check_safety(3, 3, Color::White));
    let mut bishop = codes;
    bishop[63] = 9;
    assert!(!Board::from_nums(bishop).check_safety(3, 3, Color::White));
    let mut blocked = bishop;
    blocked[45] = 6;
    assert!(Board::from_nums(blocked).check_safety(3, 3, Color::White));
    let mut rook = codes;
    rook[31] = 7;
    assert!(!Board::from_nums(rook).check_safety(3, 3, Color::White));
    let mut pawn = codes;
    pawn[36] = 12;
    assert!(!Board::from_nums(pawn).check_safety(3, 3, Color::White));
    let mut behind = codes;
    behind[20] = 12;
    assert!(Board::from_nums(behind).check_safety(3, 3, Color::White));
    let mut king = codes;
    king[28] = 10;
    assert!(!Board::from_nums(king).check_safety(3, 3, Color::White));
}

#[test]
fn eval_of_start_is_even() {
    let board = Board::new();
    assert_eq!(eval(&board, Color::White).score, 0);
    assert_eq!(eval(&board, Color::Black).score, 0);
    assert!(!eval(&board, Color::White).clamped);
}

#[test]
fn eval_exact_value() {
    // white: pawn on rank 1 (10 + 1 = 11), king at d1 with no bonus;
    // black: knight at h8 (30), king at a8 corner (5)
    let mut codes = empty_codes();
    codes[3] = 4;
    codes[11] = 6;
    codes[63] = 8;
    codes[56] = 10;
    let board = Board::from_nums(codes);
    // (11 - 35) / 46 = -0.5217...
    assert_eq!(eval(&board, Color::White).score, -521);
    assert_eq!(eval(&board, Color::Black).score, 521);
}

#[test]
fn eval_is_clamped() {
    let mut codes = empty_codes();
    codes[3] = 4;
    codes[27] = 5;
    codes[59] = 10;
    let board = Board::from_nums(codes);
    let e = eval(&board, Color::White);
    assert_eq!(e.score, 990);
    assert!(e.clamped);
    assert_eq!(eval(&board, Color::Black).score, -990);
}

#[test]
fn expansion_steps_count_visits() {
    let board = Board::new();
    let mut tree = SearchTree::new(board, Color::White);
    assert_eq!(tree.nodes[0].n, 1);
    tree.search(60);
    assert_eq!(tree.nodes[0].n, 61);
    assert_eq!(tree.nodes[0].children.len(), 20);
    tree.expand();
    assert_eq!(tree.nodes[0].n, 62);
}

#[test]
fn terminal_root_counts_visits() {
    let mut codes = empty_codes();
    codes[56] = 10;
    codes[48] = 12;
    codes[49] = 12;
    codes[63] = 1;
    codes[4] = 4;
    let mut board = Board::from_nums(codes);
    board.counter = 1;
    let mut tree = SearchTree::new(board, Color::Black);
    tree.search(5);
    assert_eq!(tree.nodes[0].n, 6);
    assert_eq!(tree.nodes[0].children.len(), 0);
    assert_eq!(tree.best_move(), None);
    assert_eq!(choose_move(board, 10), None);
}

#[test]
fn chosen_move_is_legal() {
    let board = Board::new();
    let m = choose_move(board, 200).unwrap();
    assert!(legal(&board).contains(&m));
}

#[test]
fn search_finds_mate_in_one() {
    let mut codes = empty_codes();
    codes[56] = 10;
    codes[48] = 12;
    codes[49] = 12;
    codes[7] = 1;
    codes[4] = 4;
    let board = Board::from_nums(codes);
    let m = choose_move(board, 300).unwrap();
    assert_eq!((m.start.num, m.end.num), (7, 63));
}

#[test]
fn game_plays_and_replies() {
    let mut g = Game::new();
    g.set_steps(50);
    let data = g.make_move(12, 28, 0);
    assert_eq!(data[28], 6);
    assert_eq!(data[12], 0);
    assert_eq!(g.get_board().get_counter(), 1);
    g.respond();
    assert_eq!(g.get_board().get_counter(), 2);
    let before = g.get_data();
    g.make_move(0, 40, 0);
    assert_eq!(g.get_data(), before);
    assert_eq!(g.get_board().get_counter(), 2);
    g.respond();
    assert_eq!(g.get_board().get_counter(), 2);
    assert_eq!(g.get_winner(), -1);
}


fn material_on_board(board: &Board) -> [i64; 2] {
    let mut totals = [0i64; 2];
    for code in board.get_data().iter() {
        if *code != 0 {
            let side = if *code > 6 { 1 } else { 0 };
            totals[side] += Tile::from_num(*code).get_value() as i64;
        }
    }
    totals
}

#[test]
fn material_follows_the_board() {
    let mut b = Board::new();
    let moves = [(12, 28), (51, 35), (28, 35), (60, 51), (1, 18), (51, 35), (18, 35)];
    for (s, e) in moves.iter() {
        let before = b.get_counter();
        b = b.update(*s, *e, 0);
        assert_eq!(b.get_counter(), before + 1);
        assert_eq!(b.get_value_counts(), material_on_board(&b));
    }
    assert_eq!(b.get_value_counts(), [41, 32]);
}

#[test]
fn castling_needs_own_rook() {
    let mut codes = empty_codes();
    codes[3] = 4;
    codes[0] = 7;
    codes[59] = 10;
    let board = Board::from_nums(codes);
    let king = from(&legal(&board), 3);
    assert!(king.iter().all(|m| m.end.num != 1));
}

#[test]
fn castling_needs_king_on_home_file() {
    let mut codes = empty_codes();
    codes[5] = 4;
    codes[0] = 1;
    codes[3] = 2;
    codes[61] = 10;
    let board = Board::from_nums(codes);
    let king = from(&legal(&board), 5);
    assert!(king.iter().all(|m| !matches!(m.extra, Overwrites::Two(_, _, _, _))));
}

#[test]
fn search_tree_children_follow_moves() {
    let board = Board::new();
    let mut tree = SearchTree::new(board, Color::White);
    tree.search(5);
    let root = &tree.nodes[0];
    assert_eq!(root.possible_moves.len(), 20);
    assert_eq!(root.children.len(), 5);
    for (k, c) in root.children.iter().enumerate() {
        let mut b = board;
        b.make_possible_move(&root.possible_moves[k]);
        assert_eq!(tree.nodes[*c].data.get_data(), b.get_data());
        assert_eq!(tree.nodes[*c].player, Color::Black);
        assert_eq!(tree.nodes[*c].n, 1);
    }
}
