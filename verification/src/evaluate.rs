use vstd::prelude::*;

use crate::board::Board;
use crate::board::Color;
use crate::board::PieceKind;
use crate::board::count_bits;
use crate::board::has_bit;
use crate::board::pop_count;
use crate::utils::spec_fork;
use crate::utils::spec_in_check;
use crate::utils::spec_is_checkmate;
use crate::utils::spec_is_draw;
use crate::utils::spec_is_stalemate;

verus! {

pub const PAWN_VALUE: i32 = 10;

pub const KNIGHT_VALUE: i32 = 32;

pub const BISHOP_VALUE: i32 = 33;

pub const ROOK_VALUE: i32 = 50;

pub const QUEEN_VALUE: i32 = 90;

pub const KING_VALUE: i32 = 2000;

pub const CHECKMATE_VALUE: i32 = 1000;

pub const STALEMATE_VALUE: i32 = 0;

pub const DRAW_VALUE: i32 = 0;

pub const CHECK_VALUE: i32 = 25;

pub const CASTLING_VALUE: i32 = 50;

pub const FORK_VALUE: i32 = 50;

pub const PAWN_TABLE: [i32; 64] = [
    0, 5, 5, -10, -10, 5, 5, 0,
    0, 10, -5, 0, 0, -5, 10, 0,
    0, 10, 10, 20, 20, 10, 10, 0,
    0, 5, 10, 25, 25, 10, 5, 0,
    5, 10, 20, 30, 30, 20, 10, 5,
    10, 20, 30, 40, 40, 30, 20, 10,
    50, 50, 50, 50, 50, 50, 50, 50,
    0, 0, 0, 0, 0, 0, 0, 0,
];

pub const KNIGHT_TABLE: [i32; 64] = [
    -50, -40, -30, -30, -30, -30, -40, -50,
    -40, -20, 0, 0, 0, 0, -20, -40,
    -30, 0, 10, 15, 15, 10, 0, -30,
    -30, 5, 15, 20, 20, 15, 5, -30,
    -30, 0, 15, 20, 20, 15, 0, -30,
    -30, 5, 10, 15, 15, 10, 5, -30,
    -40, -20, 0, 5, 5, 0, -20, -40,
    -50, -40, -30, -30, -30, -30, -40, -50,
];

pub const BISHOP_TABLE: [i32; 64] = [
    -20, -10, -10, -10, -10, -10, -10, -20,
    -10, 5, 0, 0, 0, 0, 5, -10,
    -10, 10, 10, 10, 10, 10, 10, -10,
    -10, 0, 10, 10, 10, 10, 0, -10,
    -10, 5, 5, 10, 10, 5, 5, -10,
    -10, 0, 5, 10, 10, 5, 0, -10,
    -10, 0, 0, 0, 0, 0, 0, -10,
    -20, -10, -10, -10, -10, -10, -10, -20,
];

pub const ROOK_TABLE: [i32; 64] = [
    0, 0, 0, 5, 5, 0, 0, 0,
    -5, 0, 0, 0, 0, 0, 0, -5,
    -5, 0, 0, 0, 0, 0, 0, -5,
    -5, 0, 0, 0, 0, 0, 0, -5,
    -5, 0, 0, 0, 0, 0, 0, -5,
    -5, 0, 0, 0, 0, 0, 0, -5,
    5, 10, 10, 10, 10, 10, 10, 5,
    0, 0, 0, 0, 0, 0, 0, 0,
];

pub const QUEEN_TABLE: [i32; 64] = [
    -20, -10, -10, -5, -5, -10, -10, -20,
    -10, 0, 0, 0, 0, 0, 0, -10,
    -10, 0, 5, 5, 5, 5, 0, -10,
    -5, 0, 5, 5, 5, 5, 0, -5,
    0, 0, 5, 5, 5, 5, 0, -5,
    -10, 5, 5, 5, 5, 5, 0, -10,
    -10, 0, 5, 0, 0, 0, 0, -10,
    -20, -10, -10, -5, -5, -10, -10, -20,
];

pub const KING_OPENING_TABLE: [i32; 64] = [
    20, 30, 10, 0, 0, 10, 30, 20,
    20, 20, 0, 0, 0, 0, 20, 20,
    -10, -20, -20, -20, -20, -20, -20, -10,
    -20, -30, -30, -40, -40, -30, -30, -20,
    -30, -40, -40, -50, -50, -40, -40, -30,
    -30, -40, -40, -50, -50, -40, -40, -30,
    -30, -40, -40, -50, -50, -40, -40, -30,
    -30, -40, -40, -50, -50, -40, -40, -30,
];

pub const KING_ENDGAME_TABLE: [i32; 64] = [
    -50, -30, -30, -30, -30, -30, -30, -50,
    -30, -30, 0, 0, 0, 0, -30, -30,
    -30, -10, 20, 30, 30, 20, -10, -30,
    -30, -10, 30, 40, 40, 30, -10, -30,
    -30, -10, 30, 40, 40, 30, -10, -30,
    -30, -10, 20, 30, 30, 20, -10, -30,
    -30, -20, -20, 0, 0, -20, -20, -30,
    -50, -40, -30, -20, -20, -30, -40, -50,
];

/// A piece-square table with every entry between -50 and 50.
pub open spec fn table_ok(t: [i32; 64]) -> bool {
    forall|i: int| 0 <= i < 64 ==> -50 <= #[trigger] t[i] <= 50
}

/// All eight tables stay within the bound that the summation relies on.
proof fn lemma_tables_ok()
    ensures
        table_ok(PAWN_TABLE),
        table_ok(KNIGHT_TABLE),
        table_ok(BISHOP_TABLE),
        table_ok(ROOK_TABLE),
        table_ok(QUEEN_TABLE),
        table_ok(KING_OPENING_TABLE),
        table_ok(KING_ENDGAME_TABLE),
{
}

/// Material plus placement score of the pieces of one occupancy set on
/// squares below `n`.
pub open spec fn piece_sum(bb: u64, value: int, t: [i32; 64], n: int) -> int
    decreases n,
{
    if n <= 0 {
        0
    } else {
        piece_sum(bb, value, t, n - 1) + if has_bit(bb, n - 1) {
            value + t[n - 1]
        } else {
            0int
        }
    }
}

/// Sum, over the pieces of `bb`, of the material value plus the table entry
/// at the piece's square.
fn evaluate_piece(bb: u64, value: i32, table: &[i32; 64]) -> (score: i32)
    requires
        -2000 <= value <= 2000,
        table_ok(*table),
    ensures
        score as int == piece_sum(bb, value as int, *table, 64),
        -131200 <= score <= 131200,
{
    let mut score: i32 = 0;
    let mut sq: usize = 0;
    while sq < 64
        invariant
            sq <= 64,
            -2000 <= value <= 2000,
            table_ok(*table),
            score as int == piece_sum(bb, value as int, *table, sq as int),
            -2050 * sq as int <= score as int <= 2050 * sq as int,
        decreases 64 - sq,
    {
        if bb & (1u64 << sq) != 0 {
            score = score + value + table[sq];
        }
        sq = sq + 1;
    }
    score
}

/// The positional score of a king: its table entry, with the table chosen by
/// the endgame flag; zero for a side with no king.
pub open spec fn spec_eval_king(bb: u64, endgame: bool) -> int {
    if bb == 0 {
        0
    } else {
        let sq = vstd::std_specs::bits::u64_trailing_zeros(bb) as int;
        if endgame {
            KING_ENDGAME_TABLE[sq] as int
        } else {
            KING_OPENING_TABLE[sq] as int
        }
    }
}

fn evaluate_king(bb: u64, endgame: bool) -> (score: i32)
    ensures
        score as int == spec_eval_king(bb, endgame),
        -50 <= score <= 50,
{
    proof {
        lemma_tables_ok();
    }
    if bb == 0 {
        return 0;
    }
    proof {
        vstd::std_specs::bits::axiom_u64_trailing_zeros(bb);
    }
    let sq = bb.trailing_zeros() as usize;
    if endgame {
        KING_ENDGAME_TABLE[sq]
    } else {
        KING_OPENING_TABLE[sq]
    }
}

/// The material value a fork bonus awards for an attacked piece kind.
pub open spec fn fork_kind_value(k: PieceKind) -> int {
    match k {
        PieceKind::Pawn => 10,
        PieceKind::Knight => 32,
        PieceKind::Bishop => 33,
        PieceKind::Rook => 50,
        PieceKind::Queen => 90,
        PieceKind::King => 0,
    }
}

fn fork_kind_value_exec(k: PieceKind) -> (v: i32)
    ensures
        v as int == fork_kind_value(k),
        0 <= v <= 90,
{
    match k {
        PieceKind::Pawn => PAWN_VALUE,
        PieceKind::Knight => KNIGHT_VALUE,
        PieceKind::Bishop => BISHOP_VALUE,
        PieceKind::Rook => ROOK_VALUE,
        PieceKind::Queen => QUEEN_VALUE,
        PieceKind::King => 0,
    }
}

/// The summed fork value of the kinds below index `n`.
pub open spec fn kinds_value_upto(s: Seq<PieceKind>, n: int) -> int
    decreases n,
{
    if n <= 0 {
        0
    } else {
        kinds_value_upto(s, n - 1) + fork_kind_value(s[n - 1])
    }
}

/// The total non-king piece count of both sides.
pub open spec fn nonking_count(b: Board) -> int {
    count_bits(b.wp, 64) + count_bits(b.wn, 64) + count_bits(b.wb, 64) + count_bits(b.wr, 64)
        + count_bits(b.wq, 64) + count_bits(b.bp, 64) + count_bits(b.bn, 64) + count_bits(b.bb, 64)
        + count_bits(b.br, 64) + count_bits(b.bq, 64)
}

/// The material and placement part of the evaluation: white sums minus
/// black sums, the kings scored by table alone.
pub open spec fn material_score(b: Board) -> int {
    let endgame = nonking_count(b) <= 10;
    piece_sum(b.wp, 10, PAWN_TABLE, 64) + piece_sum(b.wn, 32, KNIGHT_TABLE, 64) + piece_sum(
        b.wb,
        33,
        BISHOP_TABLE,
        64,
    ) + piece_sum(b.wr, 50, ROOK_TABLE, 64) + piece_sum(b.wq, 90, QUEEN_TABLE, 64) + spec_eval_king(
        b.wk,
        endgame,
    ) - piece_sum(b.bp, 10, PAWN_TABLE, 64) - piece_sum(b.bn, 32, KNIGHT_TABLE, 64) - piece_sum(
        b.bb,
        33,
        BISHOP_TABLE,
        64,
    ) - piece_sum(b.br, 50, ROOK_TABLE, 64) - piece_sum(b.bq, 90, QUEEN_TABLE, 64) - spec_eval_king(
        b.bk,
        endgame,
    )
}

/// The terminal and check adjustment: a checkmate counts a large constant
/// against the side to move, a draw counts nothing, and otherwise each side
/// in check costs it a small constant.
pub open spec fn event_score(b: Board) -> int {
    if spec_is_checkmate(b) {
        if b.turn == Color::White {
            -1000
        } else {
            1000
        }
    } else if spec_is_stalemate(b) || spec_is_draw(b) {
        0
    } else {
        (if spec_in_check(b, Color::Black) {
            25int
        } else {
            0int
        }) - (if spec_in_check(b, Color::White) {
            25int
        } else {
            0int
        })
    }
}

/// The bonus for a king standing on one of the squares castling would reach.
pub open spec fn castling_score(b: Board) -> int {
    (if b.wk != 0 && {
        let ks = vstd::std_specs::bits::u64_trailing_zeros(b.wk) as int;
        ks == 6 || ks == 2
    } {
        50int
    } else {
        0int
    }) - (if b.bk != 0 && {
        let ks = vstd::std_specs::bits::u64_trailing_zeros(b.bk) as int;
        ks == 62 || ks == 58
    } {
        50int
    } else {
        0int
    })
}

/// The fork bonus of one side: a constant plus the value of each attacked
/// kind, when its best fork attacks at least two pieces.
pub open spec fn fork_score(b: Board, color: Color) -> int {
    let f = spec_fork(b, color);
    if f.0 >= 2 {
        50 + kinds_value_upto(f.1, f.1.len() as int)
    } else {
        0
    }
}

/// The full evaluation of a position, positive in White's favour.
pub open spec fn spec_evaluate(b: Board) -> int {
    material_score(b) + event_score(b) + castling_score(b) + fork_score(b, Color::White)
        - fork_score(b, Color::Black)
}

/// The attacked-kind list of a fork report never exceeds the board.
proof fn lemma_fork_kinds_len(b: Board, color: Color)
    ensures
        spec_fork(b, color).1.len() <= 64,
{
    let bt = Board { turn: color, ..b };
    let s = crate::moves::spec_legal_moves(bt);
    let enemy = color.spec_flip();
    let ep = crate::utils::enemy_nonking(b, enemy);
    let best = crate::utils::fork_best_upto(s, ep, 64);
    lemma_fork_kinds_upto_len(b, s, enemy, best.1, 64);
}

proof fn lemma_fork_kinds_upto_len(b: Board, s: Seq<crate::board::Move>, enemy: Color, o: int, n: int)
    requires
        n >= 0,
    ensures
        crate::utils::fork_kinds_upto(b, s, enemy, o, n).len() <= n,
    decreases n,
{
    if n > 0 {
        lemma_fork_kinds_upto_len(b, s, enemy, o, n - 1);
    }
}

/// Score a position: material and placement, terminal adjustments, the
/// castled-king bonus, and the fork bonuses of both sides; positive favours
/// White.
#[verifier::rlimit(100)]
pub fn evaluate_board(board: &Board) -> (score: i32)
    requires
        board.board_ok(),
    ensures
        score as int == spec_evaluate(*board),
{
    proof {
        lemma_tables_ok();
    }
    let non_king_count = pop_count(board.wp) + pop_count(board.wn) + pop_count(board.wb)
        + pop_count(board.wr) + pop_count(board.wq) + pop_count(board.bp) + pop_count(board.bn)
        + pop_count(board.bb) + pop_count(board.br) + pop_count(board.bq);
    let endgame = non_king_count <= 10;

    let mut score: i32 = 0;
    score = score + evaluate_piece(board.wp, PAWN_VALUE, &PAWN_TABLE);
    score = score + evaluate_piece(board.wn, KNIGHT_VALUE, &KNIGHT_TABLE);
    score = score + evaluate_piece(board.wb, BISHOP_VALUE, &BISHOP_TABLE);
    score = score + evaluate_piece(board.wr, ROOK_VALUE, &ROOK_TABLE);
    score = score + evaluate_piece(board.wq, QUEEN_VALUE, &QUEEN_TABLE);
    score = score + evaluate_king(board.wk, endgame);
    score = score - evaluate_piece(board.bp, PAWN_VALUE, &PAWN_TABLE);
    score = score - evaluate_piece(board.bn, KNIGHT_VALUE, &KNIGHT_TABLE);
    score = score - evaluate_piece(board.bb, BISHOP_VALUE, &BISHOP_TABLE);
    score = score - evaluate_piece(board.br, ROOK_VALUE, &ROOK_TABLE);
    score = score - evaluate_piece(board.bq, QUEEN_VALUE, &QUEEN_TABLE);
    score = score - evaluate_king(board.bk, endgame);
    assert(score as int == material_score(*board));

    if crate::utils::is_checkmate(board) {
        match board.turn {
            Color::White => {
                score = score - CHECKMATE_VALUE;
            },
            Color::Black => {
                score = score + CHECKMATE_VALUE;
            },
        }
    } else if crate::utils::is_stalemate(board) || crate::utils::is_draw(board) {
        // no adjustment for a draw
    } else {
        if crate::utils::is_king_in_check(board, Color::Black) {
            score = score + CHECK_VALUE;
        }
        if crate::utils::is_king_in_check(board, Color::White) {
            score = score - CHECK_VALUE;
        }
    }
    assert(score as int == material_score(*board) + event_score(*board));

    if board.wk != 0 {
        proof {
            vstd::std_specs::bits::axiom_u64_trailing_zeros(board.wk);
        }
        let king_sq = board.wk.trailing_zeros();
        if king_sq == 6 || king_sq == 2 {
            score = score + CASTLING_VALUE;
        }
    }
    if board.bk != 0 {
        proof {
            vstd::std_specs::bits::axiom_u64_trailing_zeros(board.bk);
        }
        let king_sq = board.bk.trailing_zeros();
        if king_sq == 62 || king_sq == 58 {
            score = score - CASTLING_VALUE;
        }
    }
    assert(score as int == material_score(*board) + event_score(*board) + castling_score(*board));

    let white_fork = crate::utils::is_fork(board, Color::White);
    proof {
        lemma_fork_kinds_len(*board, Color::White);
    }
    if white_fork.0 >= 2 {
        let kinds = white_fork.1;
        let mut bonus: i32 = FORK_VALUE;
        let mut i: usize = 0;
        while i < kinds.len()
            invariant
                i <= kinds.len(),
                kinds.len() <= 64,
                bonus as int == 50 + kinds_value_upto(kinds@, i as int),
                50 <= bonus <= 50 + 90 * i as int,
            decreases kinds.len() - i,
        {
            bonus = bonus + fork_kind_value_exec(kinds[i]);
            i = i + 1;
        }
        score = score + bonus;
    }
    assert(score as int == material_score(*board) + event_score(*board) + castling_score(*board)
        + fork_score(*board, Color::White));

    let black_fork = crate::utils::is_fork(board, Color::Black);
    proof {
        lemma_fork_kinds_len(*board, Color::Black);
    }
    if black_fork.0 >= 2 {
        let kinds = black_fork.1;
        let mut bonus: i32 = FORK_VALUE;
        let mut i: usize = 0;
        while i < kinds.len()
            invariant
                i <= kinds.len(),
                kinds.len() <= 64,
                bonus as int == 50 + kinds_value_upto(kinds@, i as int),
                50 <= bonus <= 50 + 90 * i as int,
            decreases kinds.len() - i,
        {
            bonus = bonus + fork_kind_value_exec(kinds[i]);
            i = i + 1;
        }
        score = score - bonus;
    }
    score
}

} // verus!
