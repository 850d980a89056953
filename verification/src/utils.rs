use vstd::prelude::*;

use crate::board::Board;
use crate::board::Color;
use crate::board::Move;
use crate::board::PieceKind;
use crate::board::dir_dist;
use crate::board::file_of;
use crate::board::has_bit;
use crate::board::knight_off;
use crate::board::knight_off_s;
use crate::board::on_board;
use crate::board::rank_of;

verus! {

/// The piece standing on `sq`, if any.
pub fn get_piece_at(board: &Board, sq: usize) -> (p: Option<(Color, PieceKind)>)
    requires
        sq < 64,
    ensures
        p == board.spec_piece_at(sq as int),
{
    let bit = 1u64 << sq;
    if board.wp & bit != 0 {
        Some((Color::White, PieceKind::Pawn))
    } else if board.wn & bit != 0 {
        Some((Color::White, PieceKind::Knight))
    } else if board.wb & bit != 0 {
        Some((Color::White, PieceKind::Bishop))
    } else if board.wr & bit != 0 {
        Some((Color::White, PieceKind::Rook))
    } else if board.wq & bit != 0 {
        Some((Color::White, PieceKind::Queen))
    } else if board.wk & bit != 0 {
        Some((Color::White, PieceKind::King))
    } else if board.bp & bit != 0 {
        Some((Color::Black, PieceKind::Pawn))
    } else if board.bn & bit != 0 {
        Some((Color::Black, PieceKind::Knight))
    } else if board.bb & bit != 0 {
        Some((Color::Black, PieceKind::Bishop))
    } else if board.br & bit != 0 {
        Some((Color::Black, PieceKind::Rook))
    } else if board.bq & bit != 0 {
        Some((Color::Black, PieceKind::Queen))
    } else if board.bk & bit != 0 {
        Some((Color::Black, PieceKind::King))
    } else {
        None
    }
}

/// Empty square `sq` in every occupancy set.
fn clear_piece_at(board: &mut Board, sq: usize)
    requires
        sq < 64,
    ensures
        *final(board) == old(board).spec_clear_sq(sq as int),
{
    let bit = !(1u64 << sq);
    board.wp = board.wp & bit;
    board.wn = board.wn & bit;
    board.wb = board.wb & bit;
    board.wr = board.wr & bit;
    board.wq = board.wq & bit;
    board.wk = board.wk & bit;
    board.bp = board.bp & bit;
    board.bn = board.bn & bit;
    board.bb = board.bb & bit;
    board.br = board.br & bit;
    board.bq = board.bq & bit;
    board.bk = board.bk & bit;
}

/// Put `piece` down on square `sq` (nothing happens for `None`).
pub(crate) fn set_piece_at(board: &mut Board, sq: usize, piece: Option<(Color, PieceKind)>)
    requires
        sq < 64,
    ensures
        *final(board) == old(board).spec_set_sq(sq as int, piece),
{
    if let Some((color, kind)) = piece {
        let bit = 1u64 << sq;
        match (color, kind) {
            (Color::White, PieceKind::Pawn) => board.wp = board.wp | bit,
            (Color::White, PieceKind::Knight) => board.wn = board.wn | bit,
            (Color::White, PieceKind::Bishop) => board.wb = board.wb | bit,
            (Color::White, PieceKind::Rook) => board.wr = board.wr | bit,
            (Color::White, PieceKind::Queen) => board.wq = board.wq | bit,
            (Color::White, PieceKind::King) => board.wk = board.wk | bit,
            (Color::Black, PieceKind::Pawn) => board.bp = board.bp | bit,
            (Color::Black, PieceKind::Knight) => board.bn = board.bn | bit,
            (Color::Black, PieceKind::Bishop) => board.bb = board.bb | bit,
            (Color::Black, PieceKind::Rook) => board.br = board.br | bit,
            (Color::Black, PieceKind::Queen) => board.bq = board.bq | bit,
            (Color::Black, PieceKind::King) => board.bk = board.bk | bit,
        }
    }
}

/// Apply a move to the board in place and report the piece that stood on the
/// destination square, which the paired `undo_move` needs. Applying keeps the
/// board well formed.
pub fn apply_move(board: &mut Board, mv: Move) -> (captured: Option<(Color, PieceKind)>)
    requires
        mv.from < 64,
        mv.to < 64,
    ensures
        *final(board) == old(board).spec_apply(mv),
        captured == old(board).spec_piece_at(mv.to as int),
        old(board).board_ok() ==> final(board).board_ok(),
{
    proof {
        if old(board).board_ok() {
            crate::board::lemma_apply_ok(*old(board), mv);
        }
    }
    let moving_piece = get_piece_at(board, mv.from);
    let captured = get_piece_at(board, mv.to);
    clear_piece_at(board, mv.from);
    clear_piece_at(board, mv.to);
    set_piece_at(board, mv.to, moving_piece);
    board.turn = board.turn.flip();
    captured
}

/// Undo a move: the inverse of `apply_move` when handed the captured piece
/// that `apply_move` returned, in strict reverse order of application.
pub fn undo_move(board: &mut Board, mv: Move, captured: Option<(Color, PieceKind)>)
    requires
        mv.from < 64,
        mv.to < 64,
    ensures
        *final(board) == old(board).spec_undo(mv, captured),
{
    let moving_piece = get_piece_at(board, mv.to);
    clear_piece_at(board, mv.to);
    set_piece_at(board, mv.from, moving_piece);
    set_piece_at(board, mv.to, captured);
    board.turn = board.turn.flip();
}

/// Whether a pawn of `pawn_color` in `pawns` attacks square `tsq`.
pub open spec fn spec_pawn_attacks(pawns: u64, tsq: int, pawn_color: Color) -> bool {
    match pawn_color {
        Color::White => rank_of(tsq) > 0 && ((file_of(tsq) > 0 && has_bit(pawns, tsq - 9)) || (
        file_of(tsq) < 7 && has_bit(pawns, tsq - 7))),
        Color::Black => rank_of(tsq) < 7 && ((file_of(tsq) > 0 && has_bit(pawns, tsq + 7)) || (
        file_of(tsq) < 7 && has_bit(pawns, tsq + 9))),
    }
}

fn check_pawn_attacks(target_sq: usize, pawn_bb: u64, pawn_color: Color) -> (res: bool)
    requires
        target_sq < 64,
    ensures
        res == spec_pawn_attacks(pawn_bb, target_sq as int, pawn_color),
{
    let rank = target_sq / 8;
    let file = target_sq % 8;
    match pawn_color {
        Color::White => {
            if rank > 0 {
                if file > 0 && (pawn_bb & (1u64 << (target_sq - 9))) != 0 {
                    return true;
                }
                if file < 7 && (pawn_bb & (1u64 << (target_sq - 7))) != 0 {
                    return true;
                }
            }
        },
        Color::Black => {
            if rank < 7 {
                if file > 0 && (pawn_bb & (1u64 << (target_sq + 7))) != 0 {
                    return true;
                }
                if file < 7 && (pawn_bb & (1u64 << (target_sq + 9))) != 0 {
                    return true;
                }
            }
        },
    }
    false
}

/// Whether the knight jump numbered `k` lands a knight from `knights` on
/// square `tsq`.
pub open spec fn knight_attack_at(knights: u64, tsq: int, k: int) -> bool {
    let f = file_of(tsq) + knight_off_s(k).0;
    let r = rank_of(tsq) + knight_off_s(k).1;
    on_board(f, r) && has_bit(knights, r * 8 + f)
}

/// Whether any knight in `knights` attacks square `tsq`.
pub open spec fn spec_knight_attacks(knights: u64, tsq: int) -> bool {
    exists|k: int| 0 <= k < 8 && #[trigger] knight_attack_at(knights, tsq, k)
}

fn check_knight_attacks(target_sq: usize, knight_bb: u64) -> (res: bool)
    requires
        target_sq < 64,
    ensures
        res == spec_knight_attacks(knight_bb, target_sq as int),
{
    let rank = (target_sq / 8) as i32;
    let file = (target_sq % 8) as i32;
    let mut k: usize = 0;
    while k < 8
        invariant
            k <= 8,
            target_sq < 64,
            0 <= rank <= 7,
            0 <= file <= 7,
            rank == rank_of(target_sq as int),
            file == file_of(target_sq as int),
            forall|j: int| 0 <= j < k ==> !#[trigger] knight_attack_at(knight_bb, target_sq as int, j),
        decreases 8 - k,
    {
        let (df, dr) = knight_off(k);
        let new_file = file + df;
        let new_rank = rank + dr;
        if new_file >= 0 && new_file < 8 && new_rank >= 0 && new_rank < 8 {
            let sq = (new_rank * 8 + new_file) as usize;
            if (knight_bb & (1u64 << sq)) != 0 {
                assert(knight_attack_at(knight_bb, target_sq as int, k as int));
                return true;
            }
        }
        k = k + 1;
    }
    false
}

/// Scanning outward from (`f`, `r`) in direction (`df`, `dr`): does the first
/// occupied square hold one of `attackers`?
pub open spec fn ray_attacks(attackers: u64, occ: u64, f: int, r: int, df: int, dr: int) -> bool
    decreases dir_dist(f, df) + dir_dist(r, dr),
    when (df != 0 || dr != 0) && -1 <= df <= 1 && -1 <= dr <= 1
{
    if !on_board(f, r) {
        false
    } else if has_bit(occ, r * 8 + f) {
        has_bit(attackers, r * 8 + f)
    } else {
        ray_attacks(attackers, occ, f + df, r + dr, df, dr)
    }
}

fn check_ray(attackers: u64, occ: u64, f0: i32, r0: i32, df: i32, dr: i32) -> (res: bool)
    requires
        -1 <= f0 <= 8,
        -1 <= r0 <= 8,
        -1 <= df <= 1,
        -1 <= dr <= 1,
        df != 0 || dr != 0,
    ensures
        res == ray_attacks(attackers, occ, f0 as int, r0 as int, df as int, dr as int),
{
    let mut f = f0;
    let mut r = r0;
    while f >= 0 && f < 8 && r >= 0 && r < 8
        invariant
            -1 <= f <= 8,
            -1 <= r <= 8,
            -1 <= df <= 1,
            -1 <= dr <= 1,
            df != 0 || dr != 0,
            ray_attacks(attackers, occ, f as int, r as int, df as int, dr as int)
                == ray_attacks(attackers, occ, f0 as int, r0 as int, df as int, dr as int),
        decreases dir_dist(f as int, df as int) + dir_dist(r as int, dr as int),
    {
        let sq = (r * 8 + f) as usize;
        let bit = 1u64 << sq;
        if (occ & bit) != 0 {
            return (attackers & bit) != 0;
        }
        f = f + df;
        r = r + dr;
    }
    false
}

/// Whether a diagonal slider among `attackers` attacks square `tsq` on a
/// board whose occupied set is `occ`.
pub open spec fn spec_diag_attacks(attackers: u64, occ: u64, tsq: int) -> bool {
    let f = file_of(tsq);
    let r = rank_of(tsq);
    ray_attacks(attackers, occ, f + 1, r + 1, 1, 1) || ray_attacks(attackers, occ, f - 1, r + 1, -1, 1)
        || ray_attacks(attackers, occ, f + 1, r - 1, 1, -1) || ray_attacks(
        attackers,
        occ,
        f - 1,
        r - 1,
        -1,
        -1,
    )
}

/// Whether an orthogonal slider among `attackers` attacks square `tsq`.
pub open spec fn spec_straight_attacks(attackers: u64, occ: u64, tsq: int) -> bool {
    let f = file_of(tsq);
    let r = rank_of(tsq);
    ray_attacks(attackers, occ, f, r + 1, 0, 1) || ray_attacks(attackers, occ, f, r - 1, 0, -1)
        || ray_attacks(attackers, occ, f + 1, r, 1, 0) || ray_attacks(attackers, occ, f - 1, r, -1, 0)
}

fn check_diagonal_attacks(target_sq: usize, attackers: u64, occupied: u64) -> (res: bool)
    requires
        target_sq < 64,
    ensures
        res == spec_diag_attacks(attackers, occupied, target_sq as int),
{
    let f = (target_sq % 8) as i32;
    let r = (target_sq / 8) as i32;
    if check_ray(attackers, occupied, f + 1, r + 1, 1, 1) {
        return true;
    }
    if check_ray(attackers, occupied, f - 1, r + 1, -1, 1) {
        return true;
    }
    if check_ray(attackers, occupied, f + 1, r - 1, 1, -1) {
        return true;
    }
    check_ray(attackers, occupied, f - 1, r - 1, -1, -1)
}

fn check_straight_attacks(target_sq: usize, attackers: u64, occupied: u64) -> (res: bool)
    requires
        target_sq < 64,
    ensures
        res == spec_straight_attacks(attackers, occupied, target_sq as int),
{
    let f = (target_sq % 8) as i32;
    let r = (target_sq / 8) as i32;
    if check_ray(attackers, occupied, f, r + 1, 0, 1) {
        return true;
    }
    if check_ray(attackers, occupied, f, r - 1, 0, -1) {
        return true;
    }
    if check_ray(attackers, occupied, f + 1, r, 1, 0) {
        return true;
    }
    check_ray(attackers, occupied, f - 1, r, -1, 0)
}

/// Whether any bishop, rook or queen attacks square `tsq`.
pub open spec fn spec_sliding_attacks(bishops: u64, rooks: u64, queens: u64, occ: u64, tsq: int) -> bool {
    spec_diag_attacks(bishops | queens, occ, tsq) || spec_straight_attacks(rooks | queens, occ, tsq)
}

fn check_sliding_attacks(target_sq: usize, bishops: u64, rooks: u64, queens: u64, occupied: u64) -> (res: bool)
    requires
        target_sq < 64,
    ensures
        res == spec_sliding_attacks(bishops, rooks, queens, occupied, target_sq as int),
{
    if check_diagonal_attacks(target_sq, bishops | queens, occupied) {
        return true;
    }
    check_straight_attacks(target_sq, rooks | queens, occupied)
}

/// Distance between two coordinates.
pub open spec fn coord_dist(a: int, b: int) -> int {
    if a > b {
        a - b
    } else {
        b - a
    }
}

/// Whether the king in `king_bb` stands within one square of `tsq`.
pub open spec fn spec_king_attacks(king_bb: u64, tsq: int) -> bool {
    if king_bb == 0 {
        false
    } else {
        let ks = vstd::std_specs::bits::u64_trailing_zeros(king_bb) as int;
        coord_dist(rank_of(ks), rank_of(tsq)) <= 1 && coord_dist(file_of(ks), file_of(tsq)) <= 1
    }
}

fn check_king_attacks(target_sq: usize, king_bb: u64) -> (res: bool)
    requires
        target_sq < 64,
    ensures
        res == spec_king_attacks(king_bb, target_sq as int),
{
    if king_bb == 0 {
        return false;
    }
    let king_sq = king_bb.trailing_zeros() as usize;
    let king_rank = (king_sq / 8) as i32;
    let king_file = (king_sq % 8) as i32;
    let target_rank = (target_sq / 8) as i32;
    let target_file = (target_sq % 8) as i32;
    let rank_diff = if king_rank > target_rank {
        king_rank - target_rank
    } else {
        target_rank - king_rank
    };
    let file_diff = if king_file > target_file {
        king_file - target_file
    } else {
        target_file - king_file
    };
    rank_diff <= 1 && file_diff <= 1
}

/// Whether the side of `king_color` has its square `tsq` attacked by any
/// enemy piece.
pub open spec fn spec_enemy_attacks(b: Board, tsq: int, king_color: Color) -> bool {
    match king_color {
        Color::White => spec_pawn_attacks(b.bp, tsq, Color::Black) || spec_knight_attacks(b.bn, tsq)
            || spec_sliding_attacks(b.bb, b.br, b.bq, b.spec_occupied(), tsq) || spec_king_attacks(
            b.bk,
            tsq,
        ),
        Color::Black => spec_pawn_attacks(b.wp, tsq, Color::White) || spec_knight_attacks(b.wn, tsq)
            || spec_sliding_attacks(b.wb, b.wr, b.wq, b.spec_occupied(), tsq) || spec_king_attacks(
            b.wk,
            tsq,
        ),
    }
}

fn check_enemy_attacks(board: &Board, target_sq: usize, king_color: Color) -> (res: bool)
    requires
        target_sq < 64,
    ensures
        res == spec_enemy_attacks(*board, target_sq as int, king_color),
{
    match king_color {
        Color::White => {
            if check_pawn_attacks(target_sq, board.bp, Color::Black) {
                return true;
            }
            if check_knight_attacks(target_sq, board.bn) {
                return true;
            }
            if check_sliding_attacks(target_sq, board.bb, board.br, board.bq, board.occupied()) {
                return true;
            }
            check_king_attacks(target_sq, board.bk)
        },
        Color::Black => {
            if check_pawn_attacks(target_sq, board.wp, Color::White) {
                return true;
            }
            if check_knight_attacks(target_sq, board.wn) {
                return true;
            }
            if check_sliding_attacks(target_sq, board.wb, board.wr, board.wq, board.occupied()) {
                return true;
            }
            check_king_attacks(target_sq, board.wk)
        },
    }
}

/// The king occupancy set of a side.
pub open spec fn king_bb_of(b: Board, color: Color) -> u64 {
    match color {
        Color::White => b.wk,
        Color::Black => b.bk,
    }
}

/// Whether `color`'s king is attacked. A side with no king on the board is
/// never in check.
pub open spec fn spec_in_check(b: Board, color: Color) -> bool {
    let kbb = king_bb_of(b, color);
    if kbb == 0 {
        false
    } else {
        spec_enemy_attacks(b, vstd::std_specs::bits::u64_trailing_zeros(kbb) as int, color)
    }
}

/// Whether `color`'s king stands attacked on `board`.
pub fn is_king_in_check(board: &Board, color: Color) -> (res: bool)
    ensures
        res == spec_in_check(*board, color),
        king_bb_of(*board, color) == 0 ==> res == false,
{
    let king_bb = match color {
        Color::White => board.wk,
        Color::Black => board.bk,
    };
    if king_bb == 0 {
        return false;
    }
    proof {
        vstd::std_specs::bits::axiom_u64_trailing_zeros(king_bb);
    }
    let king_sq = king_bb.trailing_zeros() as usize;
    check_enemy_attacks(board, king_sq, color)
}

/// Checkmate: the side to move stands in check and has no legal move.
pub open spec fn spec_is_checkmate(b: Board) -> bool {
    spec_in_check(b, b.turn) && crate::moves::spec_legal_moves(b).len() == 0
}

pub fn is_checkmate(board: &Board) -> (res: bool)
    requires
        board.board_ok(),
    ensures
        res == spec_is_checkmate(*board),
{
    if !is_king_in_check(board, board.turn) {
        return false;
    }
    let moves = crate::moves::generate_legal_moves(board);
    moves.len() == 0
}

/// Stalemate: the side to move does not stand in check and has no legal
/// move.
pub open spec fn spec_is_stalemate(b: Board) -> bool {
    !spec_in_check(b, b.turn) && crate::moves::spec_legal_moves(b).len() == 0
}

pub fn is_stalemate(board: &Board) -> (res: bool)
    requires
        board.board_ok(),
    ensures
        res == spec_is_stalemate(*board),
{
    if is_king_in_check(board, board.turn) {
        return false;
    }
    let moves = crate::moves::generate_legal_moves(board);
    moves.len() == 0
}

/// Checkmate and stalemate exclude one another, and each one implies that
/// the side to move has no legal move at all.
pub proof fn lemma_mate_stalemate_exclusive(b: Board)
    ensures
        !(spec_is_checkmate(b) && spec_is_stalemate(b)),
        spec_is_checkmate(b) ==> crate::moves::spec_legal_moves(b).len() == 0,
        spec_is_stalemate(b) ==> crate::moves::spec_legal_moves(b).len() == 0,
{
}

/// The narrow draw-by-material rule: both sides have nothing but their
/// kings.
pub open spec fn spec_insufficient_material(b: Board) -> bool {
    crate::board::count_bits(b.wp, 64) + crate::board::count_bits(b.wn, 64)
        + crate::board::count_bits(b.wb, 64) + crate::board::count_bits(b.wr, 64)
        + crate::board::count_bits(b.wq, 64) == 0 && crate::board::count_bits(b.bp, 64)
        + crate::board::count_bits(b.bn, 64) + crate::board::count_bits(b.bb, 64)
        + crate::board::count_bits(b.br, 64) + crate::board::count_bits(b.bq, 64) == 0
}

pub fn is_insufficient_material(board: &Board) -> (res: bool)
    ensures
        res == spec_insufficient_material(*board),
{
    proof {
        crate::board::lemma_count_bits_bounds(board.wp, 64);
        crate::board::lemma_count_bits_bounds(board.wn, 64);
        crate::board::lemma_count_bits_bounds(board.wb, 64);
        crate::board::lemma_count_bits_bounds(board.wr, 64);
        crate::board::lemma_count_bits_bounds(board.wq, 64);
        crate::board::lemma_count_bits_bounds(board.bp, 64);
        crate::board::lemma_count_bits_bounds(board.bn, 64);
        crate::board::lemma_count_bits_bounds(board.bb, 64);
        crate::board::lemma_count_bits_bounds(board.br, 64);
        crate::board::lemma_count_bits_bounds(board.bq, 64);
    }
    let white_non_king = crate::board::pop_count(board.wp) + crate::board::pop_count(board.wn)
        + crate::board::pop_count(board.wb) + crate::board::pop_count(board.wr)
        + crate::board::pop_count(board.wq);
    let black_non_king = crate::board::pop_count(board.bp) + crate::board::pop_count(board.bn)
        + crate::board::pop_count(board.bb) + crate::board::pop_count(board.br)
        + crate::board::pop_count(board.bq);
    white_non_king == 0 && black_non_king == 0
}

/// The enemy pieces a fork can win: everything but the king.
pub open spec fn enemy_nonking(b: Board, enemy: Color) -> u64 {
    match enemy {
        Color::White => b.wp | b.wn | b.wb | b.wr | b.wq,
        Color::Black => b.bp | b.bn | b.bb | b.br | b.bq,
    }
}

/// Whether the move list holds a move from `o` to `t`.
pub open spec fn ms_has(s: Seq<Move>, o: int, t: int) -> bool {
    exists|i: int| 0 <= i < s.len() && (#[trigger] s[i]).from as int == o && s[i].to as int == t
}

fn moves_hit(moves: &Vec<Move>, o: usize, t: usize) -> (res: bool)
    ensures
        res == ms_has(moves@, o as int, t as int),
{
    let mut i: usize = 0;
    while i < moves.len()
        invariant
            i <= moves.len(),
            forall|j: int| 0 <= j < i ==> !((#[trigger] moves@[j]).from as int == o as int
                && moves@[j].to as int == t as int),
        decreases moves.len() - i,
    {
        let mv = moves[i];
        if mv.from == o && mv.to == t {
            return true;
        }
        i = i + 1;
    }
    false
}

/// How many enemy pieces on squares below `n` a piece standing on `o` can
/// reach in one legal move.
pub open spec fn fork_count_upto(s: Seq<Move>, ep: u64, o: int, n: int) -> int
    decreases n,
{
    if n <= 0 {
        0
    } else {
        fork_count_upto(s, ep, o, n - 1) + if has_bit(ep, n - 1) && ms_has(s, o, n - 1) {
            1int
        } else {
            0int
        }
    }
}

fn fork_count_for(moves: &Vec<Move>, ep: u64, o: usize) -> (count: u32)
    ensures
        count as int == fork_count_upto(moves@, ep, o as int, 64),
        count <= 64,
{
    let mut count: u32 = 0;
    let mut t: usize = 0;
    while t < 64
        invariant
            t <= 64,
            count as int <= t as int,
            count as int == fork_count_upto(moves@, ep, o as int, t as int),
        decreases 64 - t,
    {
        if (ep & (1u64 << t)) != 0 && moves_hit(moves, o, t) {
            count = count + 1;
        }
        t = t + 1;
    }
    count
}

/// The origin whose piece attacks the most enemy pieces, scanning origins in
/// square order; only counts of two or more are recorded, and a later origin
/// replaces an earlier one only with a strictly greater count.
pub open spec fn fork_best_upto(s: Seq<Move>, ep: u64, n: int) -> (int, int)
    decreases n,
{
    if n <= 0 {
        (0, 0)
    } else {
        let prev = fork_best_upto(s, ep, n - 1);
        let c = fork_count_upto(s, ep, n - 1, 64);
        if c >= 2 && c > prev.0 {
            (c, n - 1)
        } else {
            prev
        }
    }
}

/// The kind of the enemy piece standing on `sq`, read from the enemy's
/// non-king occupancy sets.
pub open spec fn enemy_kind_at(b: Board, enemy: Color, sq: int) -> PieceKind {
    match enemy {
        Color::White => if has_bit(b.wp, sq) {
            PieceKind::Pawn
        } else if has_bit(b.wn, sq) {
            PieceKind::Knight
        } else if has_bit(b.wb, sq) {
            PieceKind::Bishop
        } else if has_bit(b.wr, sq) {
            PieceKind::Rook
        } else {
            PieceKind::Queen
        },
        Color::Black => if has_bit(b.bp, sq) {
            PieceKind::Pawn
        } else if has_bit(b.bn, sq) {
            PieceKind::Knight
        } else if has_bit(b.bb, sq) {
            PieceKind::Bishop
        } else if has_bit(b.br, sq) {
            PieceKind::Rook
        } else {
            PieceKind::Queen
        },
    }
}

fn enemy_kind_exec(board: &Board, enemy: Color, sq: usize) -> (k: PieceKind)
    requires
        sq < 64,
    ensures
        k == enemy_kind_at(*board, enemy, sq as int),
{
    let bit = 1u64 << sq;
    match enemy {
        Color::White => if board.wp & bit != 0 {
            PieceKind::Pawn
        } else if board.wn & bit != 0 {
            PieceKind::Knight
        } else if board.wb & bit != 0 {
            PieceKind::Bishop
        } else if board.wr & bit != 0 {
            PieceKind::Rook
        } else {
            PieceKind::Queen
        },
        Color::Black => if board.bp & bit != 0 {
            PieceKind::Pawn
        } else if board.bn & bit != 0 {
            PieceKind::Knight
        } else if board.bb & bit != 0 {
            PieceKind::Bishop
        } else if board.br & bit != 0 {
            PieceKind::Rook
        } else {
            PieceKind::Queen
        },
    }
}

/// The distinct kinds of the enemy pieces on squares below `n` that the
/// piece on `o` attacks, in square order of first sight.
pub open spec fn fork_kinds_upto(b: Board, s: Seq<Move>, enemy: Color, o: int, n: int) -> Seq<
    PieceKind,
>
    decreases n,
{
    if n <= 0 {
        Seq::empty()
    } else {
        let prev = fork_kinds_upto(b, s, enemy, o, n - 1);
        let ep = enemy_nonking(b, enemy);
        if has_bit(ep, n - 1) && ms_has(s, o, n - 1) && !prev.contains(
            enemy_kind_at(b, enemy, n - 1),
        ) {
            prev.push(enemy_kind_at(b, enemy, n - 1))
        } else {
            prev
        }
    }
}

fn kinds_contain(kinds: &Vec<PieceKind>, k: PieceKind) -> (res: bool)
    ensures
        res == kinds@.contains(k),
{
    let mut i: usize = 0;
    while i < kinds.len()
        invariant
            i <= kinds.len(),
            forall|j: int| 0 <= j < i ==> kinds@[j] != k,
        decreases kinds.len() - i,
    {
        if kinds[i] == k {
            return true;
        }
        i = i + 1;
    }
    false
}

/// What `is_fork` reports for `color` on `b`: the number of enemy pieces the
/// best forking piece attacks (zero when no piece attacks two or more), and
/// the distinct kinds attacked.
pub open spec fn spec_fork(b: Board, color: Color) -> (int, Seq<PieceKind>) {
    let bt = Board { turn: color, ..b };
    let s = crate::moves::spec_legal_moves(bt);
    let enemy = color.spec_flip();
    let ep = enemy_nonking(b, enemy);
    let best = fork_best_upto(s, ep, 64);
    if best.0 >= 2 {
        (best.0, fork_kinds_upto(b, s, enemy, best.1, 64))
    } else {
        (0int, Seq::empty())
    }
}

/// Fork report for `color`: the count of enemy pieces attacked by the piece
/// of `color` that attacks the most of them (at least two, else zero), and
/// the kinds attacked.
pub fn is_fork(board: &Board, color: Color) -> (res: (u32, Vec<PieceKind>))
    requires
        board.board_ok(),
    ensures
        res.0 as int == spec_fork(*board, color).0,
        res.1@ == spec_fork(*board, color).1,
{
    let mut temp: Board = *board;
    temp.turn = color;
    assert(temp.board_ok()) by {
        assert(forall|q: int| 0 <= q < 64 ==> temp.piece_count_at(q) == board.piece_count_at(q));
    };
    let moves = crate::moves::generate_legal_moves(&temp);
    let enemy = color.flip();
    let ep = match enemy {
        Color::White => board.wp | board.wn | board.wb | board.wr | board.wq,
        Color::Black => board.bp | board.bn | board.bb | board.br | board.bq,
    };
    let mut best: u32 = 0;
    let mut best_o: usize = 0;
    let mut o: usize = 0;
    while o < 64
        invariant
            o <= 64,
            ep == enemy_nonking(*board, color.spec_flip()),
            moves@ == crate::moves::spec_legal_moves(Board { turn: color, ..*board }),
            best as int == fork_best_upto(moves@, ep, o as int).0,
            best_o as int == fork_best_upto(moves@, ep, o as int).1,
            best == 0 || best >= 2,
            best_o < 64,
            best <= 64,
        decreases 64 - o,
    {
        let c = fork_count_for(&moves, ep, o);
        if c >= 2 && c > best {
            best = c;
            best_o = o;
        }
        o = o + 1;
    }
    let mut kinds: Vec<PieceKind> = Vec::new();
    if best >= 2 {
        let mut t: usize = 0;
        while t < 64
            invariant
                t <= 64,
                best_o < 64,
                enemy == color.spec_flip(),
                ep == enemy_nonking(*board, color.spec_flip()),
                moves@ == crate::moves::spec_legal_moves(Board { turn: color, ..*board }),
                kinds@ == fork_kinds_upto(
                    *board,
                    moves@,
                    color.spec_flip(),
                    best_o as int,
                    t as int,
                ),
            decreases 64 - t,
        {
            if (ep & (1u64 << t)) != 0 && moves_hit(&moves, best_o, t) {
                let k = enemy_kind_exec(board, enemy, t);
                if !kinds_contain(&kinds, k) {
                    kinds.push(k);
                }
            }
            t = t + 1;
        }
        (best, kinds)
    } else {
        (0, kinds)
    }
}

/// A draw: stalemate, or bare kings on both sides.
pub open spec fn spec_is_draw(b: Board) -> bool {
    spec_is_stalemate(b) || spec_insufficient_material(b)
}

pub fn is_draw(board: &Board) -> (res: bool)
    requires
        board.board_ok(),
    ensures
        res == spec_is_draw(*board),
{
    is_stalemate(board) || is_insufficient_material(board)
}

} // verus!
