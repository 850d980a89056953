use vstd::prelude::*;

use crate::board::Board;
use crate::board::Color;
use crate::board::Move;
use crate::board::dir_dist;
use crate::board::file_of;
use crate::board::has_bit;
use crate::board::knight_off;
use crate::board::knight_off_s;
use crate::board::on_board;
use crate::board::queen_dir;
use crate::board::queen_dir_s;
use crate::board::rank_of;
use crate::utils::apply_move;
use crate::utils::is_king_in_check;
use crate::utils::spec_in_check;
use crate::utils::undo_move;

verus! {

/// A move between two board squares, as move generation produces it.
pub open spec fn mk_move(from: int, to: int) -> Move {
    Move { from: from as usize, to: to as usize, captured: None }
}

/// Every move of the sequence stays within the 64 squares.
pub open spec fn moves_in_range(s: Seq<Move>) -> bool {
    forall|i: int| 0 <= i < s.len() ==> (#[trigger] s[i]).from < 64 && s[i].to < 64
}

/// The pawn occupancy set of the side to move.
pub open spec fn pawns_of(b: Board) -> u64 {
    match b.turn {
        Color::White => b.wp,
        Color::Black => b.bp,
    }
}

/// The knight occupancy set of the side to move.
pub open spec fn knights_of(b: Board) -> u64 {
    match b.turn {
        Color::White => b.wn,
        Color::Black => b.bn,
    }
}

/// The bishop occupancy set of the side to move.
pub open spec fn bishops_of(b: Board) -> u64 {
    match b.turn {
        Color::White => b.wb,
        Color::Black => b.bb,
    }
}

/// The rook occupancy set of the side to move.
pub open spec fn rooks_of(b: Board) -> u64 {
    match b.turn {
        Color::White => b.wr,
        Color::Black => b.br,
    }
}

/// The queen occupancy set of the side to move.
pub open spec fn queens_of(b: Board) -> u64 {
    match b.turn {
        Color::White => b.wq,
        Color::Black => b.bq,
    }
}

/// The king occupancy set of the side to move.
pub open spec fn kings_of(b: Board) -> u64 {
    match b.turn {
        Color::White => b.wk,
        Color::Black => b.bk,
    }
}

/// One candidate move of a white pawn standing on `sq`: single push, double
/// push from the second rank, and the two diagonal captures, guarded against
/// leaving the board or wrapping across its edge.
pub open spec fn white_pawn_step(b: Board, sq: int, j: int) -> Seq<Move> {
    let occ = b.spec_occupied();
    let enemy = b.spec_black();
    if j == 0 {
        if rank_of(sq) < 7 && !has_bit(occ, sq + 8) {
            seq![mk_move(sq, sq + 8)]
        } else {
            Seq::empty()
        }
    } else if j == 1 {
        if rank_of(sq) == 1 && !has_bit(occ, sq + 8) && !has_bit(occ, sq + 16) {
            seq![mk_move(sq, sq + 16)]
        } else {
            Seq::empty()
        }
    } else if j == 2 {
        if file_of(sq) > 0 && rank_of(sq) < 7 && has_bit(enemy, sq + 7) {
            seq![mk_move(sq, sq + 7)]
        } else {
            Seq::empty()
        }
    } else {
        if file_of(sq) < 7 && rank_of(sq) < 7 && has_bit(enemy, sq + 9) {
            seq![mk_move(sq, sq + 9)]
        } else {
            Seq::empty()
        }
    }
}

/// One candidate move of a black pawn standing on `sq`, the mirror image of
/// `white_pawn_step`.
pub open spec fn black_pawn_step(b: Board, sq: int, j: int) -> Seq<Move> {
    let occ = b.spec_occupied();
    let enemy = b.spec_white();
    if j == 0 {
        if rank_of(sq) > 0 && !has_bit(occ, sq - 8) {
            seq![mk_move(sq, sq - 8)]
        } else {
            Seq::empty()
        }
    } else if j == 1 {
        if rank_of(sq) == 6 && !has_bit(occ, sq - 8) && !has_bit(occ, sq - 16) {
            seq![mk_move(sq, sq - 16)]
        } else {
            Seq::empty()
        }
    } else if j == 2 {
        if file_of(sq) > 0 && rank_of(sq) > 0 && has_bit(enemy, sq - 9) {
            seq![mk_move(sq, sq - 9)]
        } else {
            Seq::empty()
        }
    } else {
        if file_of(sq) < 7 && rank_of(sq) > 0 && has_bit(enemy, sq - 7) {
            seq![mk_move(sq, sq - 7)]
        } else {
            Seq::empty()
        }
    }
}

/// One candidate move of the pawn of the side to move.
pub open spec fn pawn_step(b: Board, sq: int, j: int) -> Seq<Move> {
    match b.turn {
        Color::White => white_pawn_step(b, sq, j),
        Color::Black => black_pawn_step(b, sq, j),
    }
}

/// The pawn moves from `sq` among candidates below `j`.
pub open spec fn pawn_from_upto(b: Board, sq: int, j: int) -> Seq<Move>
    decreases j,
{
    if j <= 0 {
        Seq::empty()
    } else {
        pawn_from_upto(b, sq, j - 1) + pawn_step(b, sq, j - 1)
    }
}

/// The moves of the pawn of the side to move standing on `sq`, empty if none
/// stands there.
pub open spec fn pawn_moves_from(b: Board, sq: int) -> Seq<Move> {
    if !has_bit(pawns_of(b), sq) {
        Seq::empty()
    } else {
        pawn_from_upto(b, sq, 4)
    }
}

/// All pawn moves from squares below `n`, in square order.
pub open spec fn pawn_moves_upto(b: Board, n: int) -> Seq<Move>
    decreases n,
{
    if n <= 0 {
        Seq::empty()
    } else {
        pawn_moves_upto(b, n - 1) + pawn_moves_from(b, n - 1)
    }
}

/// All pawn moves of the side to move.
pub open spec fn spec_pawn_moves(b: Board) -> Seq<Move> {
    pawn_moves_upto(b, 64)
}

#[verifier::rlimit(60)]
fn generate_pawn_moves(board: &Board) -> (moves: Vec<Move>)
    ensures
        moves@ == spec_pawn_moves(*board),
        moves_in_range(moves@),
{
    let mut moves: Vec<Move> = Vec::new();
    let occ = board.occupied();
    let white = match board.turn {
        Color::White => true,
        Color::Black => false,
    };
    let pawns = if white {
        board.wp
    } else {
        board.bp
    };
    let enemy = if white {
        board.bp | board.bn | board.bb | board.br | board.bq | board.bk
    } else {
        board.wp | board.wn | board.wb | board.wr | board.wq | board.wk
    };
    let mut sq: usize = 0;
    while sq < 64
        invariant
            sq <= 64,
            occ == board.spec_occupied(),
            white == (board.turn == Color::White),
            pawns == pawns_of(*board),
            enemy == if white {
                board.spec_black()
            } else {
                board.spec_white()
            },
            moves@ == pawn_moves_upto(*board, sq as int),
            moves_in_range(moves@),
        decreases 64 - sq,
    {
        if pawns & (1u64 << sq) != 0 {
            let ghost base = moves@;
            let r = sq / 8;
            let f = sq % 8;
            if white {
                if r < 7 && (occ & (1u64 << (sq + 8))) == 0 {
                    moves.push(Move::new(sq, sq + 8));
                }
                proof {
                    assert(pawn_from_upto(*board, sq as int, 0) =~= Seq::<Move>::empty());
                    assert(moves@ =~= base + pawn_from_upto(*board, sq as int, 1));
                }
                if r == 1 && (occ & (1u64 << (sq + 8))) == 0 && (occ & (1u64 << (sq + 16))) == 0 {
                    moves.push(Move::new(sq, sq + 16));
                }
                proof {
                    assert(moves@ =~= base + pawn_from_upto(*board, sq as int, 2));
                }
                if f > 0 && r < 7 && (enemy & (1u64 << (sq + 7))) != 0 {
                    moves.push(Move::new(sq, sq + 7));
                }
                proof {
                    assert(moves@ =~= base + pawn_from_upto(*board, sq as int, 3));
                }
                if f < 7 && r < 7 && (enemy & (1u64 << (sq + 9))) != 0 {
                    moves.push(Move::new(sq, sq + 9));
                }
                proof {
                    assert(moves@ =~= base + pawn_from_upto(*board, sq as int, 4));
                }
            } else {
                if r > 0 && (occ & (1u64 << (sq - 8))) == 0 {
                    moves.push(Move::new(sq, sq - 8));
                }
                proof {
                    assert(pawn_from_upto(*board, sq as int, 0) =~= Seq::<Move>::empty());
                    assert(moves@ =~= base + pawn_from_upto(*board, sq as int, 1));
                }
                if r == 6 && (occ & (1u64 << (sq - 8))) == 0 && (occ & (1u64 << (sq - 16))) == 0 {
                    moves.push(Move::new(sq, sq - 16));
                }
                proof {
                    assert(moves@ =~= base + pawn_from_upto(*board, sq as int, 2));
                }
                if f > 0 && r > 0 && (enemy & (1u64 << (sq - 9))) != 0 {
                    moves.push(Move::new(sq, sq - 9));
                }
                proof {
                    assert(moves@ =~= base + pawn_from_upto(*board, sq as int, 3));
                }
                if f < 7 && r > 0 && (enemy & (1u64 << (sq - 7))) != 0 {
                    moves.push(Move::new(sq, sq - 7));
                }
                proof {
                    assert(moves@ =~= base + pawn_from_upto(*board, sq as int, 4));
                }
            }
            proof {
                assert(moves@ =~= pawn_moves_upto(*board, sq as int + 1));
            }
        } else {
            proof {
                assert(moves@ =~= pawn_moves_upto(*board, sq as int + 1));
            }
        }
        sq = sq + 1;
    }
    moves
}

/// The knight move along jump `k` from square `sq`, if it stays on the board
/// and lands off the mover's own pieces.
pub open spec fn knight_step(b: Board, sq: int, k: int) -> Seq<Move> {
    let f = file_of(sq) + knight_off_s(k).0;
    let r = rank_of(sq) + knight_off_s(k).1;
    if on_board(f, r) && !has_bit(b.spec_friendly(), r * 8 + f) {
        seq![mk_move(sq, r * 8 + f)]
    } else {
        Seq::empty()
    }
}

/// The knight moves from `sq` along jumps below `k`.
pub open spec fn knight_from_upto(b: Board, sq: int, k: int) -> Seq<Move>
    decreases k,
{
    if k <= 0 {
        Seq::empty()
    } else {
        knight_from_upto(b, sq, k - 1) + knight_step(b, sq, k - 1)
    }
}

/// The moves of the knight of the side to move standing on `sq`.
pub open spec fn knight_moves_from(b: Board, sq: int) -> Seq<Move> {
    if !has_bit(knights_of(b), sq) {
        Seq::empty()
    } else {
        knight_from_upto(b, sq, 8)
    }
}

/// All knight moves from squares below `n`, in square order.
pub open spec fn knight_moves_upto(b: Board, n: int) -> Seq<Move>
    decreases n,
{
    if n <= 0 {
        Seq::empty()
    } else {
        knight_moves_upto(b, n - 1) + knight_moves_from(b, n - 1)
    }
}

/// All knight moves of the side to move.
pub open spec fn spec_knight_moves(b: Board) -> Seq<Move> {
    knight_moves_upto(b, 64)
}

fn generate_knight_moves(board: &Board) -> (moves: Vec<Move>)
    ensures
        moves@ == spec_knight_moves(*board),
        moves_in_range(moves@),
{
    let mut moves: Vec<Move> = Vec::new();
    let friendly = board.friendly_pieces();
    let knights = match board.turn {
        Color::White => board.wn,
        Color::Black => board.bn,
    };
    let mut sq: usize = 0;
    while sq < 64
        invariant
            sq <= 64,
            friendly == board.spec_friendly(),
            knights == knights_of(*board),
            moves@ == knight_moves_upto(*board, sq as int),
            moves_in_range(moves@),
        decreases 64 - sq,
    {
        if knights & (1u64 << sq) != 0 {
            let f = (sq % 8) as i32;
            let r = (sq / 8) as i32;
            let mut k: usize = 0;
            while k < 8
                invariant
                    k <= 8,
                    sq < 64,
                    f == file_of(sq as int),
                    r == rank_of(sq as int),
                    0 <= f <= 7,
                    0 <= r <= 7,
                    friendly == board.spec_friendly(),
                    moves@ == knight_moves_upto(*board, sq as int) + knight_from_upto(
                        *board,
                        sq as int,
                        k as int,
                    ),
                    moves_in_range(moves@),
                decreases 8 - k,
            {
                let ghost prev = moves@;
                let off = knight_off(k);
                let to_f = f + off.0;
                let to_r = r + off.1;
                if to_f >= 0 && to_f < 8 && to_r >= 0 && to_r < 8 {
                    let to_sq = (to_r * 8 + to_f) as usize;
                    if (friendly & (1u64 << to_sq)) == 0 {
                        moves.push(Move::new(sq, to_sq));
                    }
                }
                proof {
                    assert(moves@ =~= prev + knight_step(*board, sq as int, k as int));
                    assert(moves@ =~= knight_moves_upto(*board, sq as int) + knight_from_upto(
                        *board,
                        sq as int,
                        k as int + 1,
                    ));
                }
                k = k + 1;
            }
            proof {
                assert(moves@ =~= knight_moves_upto(*board, sq as int + 1));
            }
        } else {
            proof {
                assert(moves@ =~= knight_moves_upto(*board, sq as int + 1));
            }
        }
        sq = sq + 1;
    }
    moves
}

/// What a knight move is, stated directly: a knight of the side to move
/// stands on `from`, `to` lies a (1,2) or (2,1) jump away, and no piece of
/// the mover's own side stands on `to`.
pub open spec fn knight_move_ok(b: Board, from: int, to: int) -> bool {
    let df = file_of(to) - file_of(from);
    let dr = rank_of(to) - rank_of(from);
    &&& 0 <= from < 64
    &&& 0 <= to < 64
    &&& has_bit(knights_of(b), from)
    &&& !has_bit(b.spec_friendly(), to)
    &&& ((df == 1 && dr == 2) || (df == 2 && dr == 1) || (df == 2 && dr == -1) || (df == 1 && dr
        == -2) || (df == -1 && dr == -2) || (df == -2 && dr == -1) || (df == -2 && dr == 1) || (df
        == -1 && dr == 2))
}

proof fn lemma_knight_from_upto_mem(b: Board, sq: int, k: int, m: Move)
    requires
        0 <= k <= 8,
    ensures
        knight_from_upto(b, sq, k).contains(m) <==> exists|j: int|
            0 <= j < k && #[trigger] knight_step(b, sq, j).contains(m),
    decreases k,
{
    if k > 0 {
        lemma_knight_from_upto_mem(b, sq, k - 1, m);
        let pre = knight_from_upto(b, sq, k - 1);
        let st = knight_step(b, sq, k - 1);
        assert forall|i: int|
            0 <= i < pre.len() && pre[i] == m implies knight_from_upto(b, sq, k).contains(m) by {
            assert(knight_from_upto(b, sq, k)[i] == m);
        }
        if st.contains(m) {
            assert(knight_from_upto(b, sq, k)[pre.len() as int] == m);
        }
        if knight_from_upto(b, sq, k).contains(m) {
            let i = choose|i: int|
                0 <= i < knight_from_upto(b, sq, k).len() && #[trigger] knight_from_upto(b, sq, k)[i]
                    == m;
            if i < pre.len() {
                assert(pre[i] == m);
                assert(pre.contains(m));
            } else {
                assert(st[i - pre.len()] == m);
                assert(st.contains(m));
            }
        }
    }
}

proof fn lemma_knight_moves_upto_mem(b: Board, n: int, m: Move)
    requires
        0 <= n <= 64,
    ensures
        knight_moves_upto(b, n).contains(m) <==> exists|sq: int|
            0 <= sq < n && #[trigger] knight_moves_from(b, sq).contains(m),
    decreases n,
{
    if n > 0 {
        lemma_knight_moves_upto_mem(b, n - 1, m);
        let pre = knight_moves_upto(b, n - 1);
        let fr = knight_moves_from(b, n - 1);
        assert forall|i: int|
            0 <= i < pre.len() && pre[i] == m implies knight_moves_upto(b, n).contains(m) by {
            assert(knight_moves_upto(b, n)[i] == m);
        }
        if fr.contains(m) {
            let i = choose|i: int| 0 <= i < fr.len() && #[trigger] fr[i] == m;
            assert(knight_moves_upto(b, n)[pre.len() + i] == m);
        }
        if knight_moves_upto(b, n).contains(m) {
            let i = choose|i: int|
                0 <= i < knight_moves_upto(b, n).len() && #[trigger] knight_moves_upto(b, n)[i]
                    == m;
            if i < pre.len() {
                assert(pre[i] == m);
                assert(pre.contains(m));
            } else {
                assert(fr[i - pre.len()] == m);
                assert(fr.contains(m));
            }
        }
    }
}

/// The generated knight moves are exactly the moves `knight_move_ok`
/// describes.
pub proof fn lemma_knight_moves_characterisation(b: Board, from: int, to: int)
    requires
        0 <= from < 64,
        0 <= to < 64,
    ensures
        spec_knight_moves(b).contains(mk_move(from, to)) <==> knight_move_ok(b, from, to),
{
    let m = mk_move(from, to);
    lemma_knight_moves_upto_mem(b, 64, m);
    if knight_move_ok(b, from, to) {
        let df = file_of(to) - file_of(from);
        let dr = rank_of(to) - rank_of(from);
        let j = choose|j: int| 0 <= j < 8 && #[trigger] knight_off_s(j) == (df, dr);
        assert(exists|j: int| 0 <= j < 8 && #[trigger] knight_off_s(j) == (df, dr)) by {
            if df == 1 && dr == 2 {
                assert(knight_off_s(0) == (df, dr));
            } else if df == 2 && dr == 1 {
                assert(knight_off_s(1) == (df, dr));
            } else if df == 2 && dr == -1 {
                assert(knight_off_s(2) == (df, dr));
            } else if df == 1 && dr == -2 {
                assert(knight_off_s(3) == (df, dr));
            } else if df == -1 && dr == -2 {
                assert(knight_off_s(4) == (df, dr));
            } else if df == -2 && dr == -1 {
                assert(knight_off_s(5) == (df, dr));
            } else if df == -2 && dr == 1 {
                assert(knight_off_s(6) == (df, dr));
            } else {
                assert(knight_off_s(7) == (df, dr));
            }
        }
        assert(to == (rank_of(from) + dr) * 8 + (file_of(from) + df));
        assert(knight_step(b, from, j).contains(m)) by {
            assert(knight_step(b, from, j)[0] == m);
        }
        assert(knight_moves_from(b, from).contains(m)) by {
            lemma_knight_from_upto_mem(b, from, 8, m);
        }
    }
    if spec_knight_moves(b).contains(m) {
        let sq = choose|sq: int| 0 <= sq < 64 && #[trigger] knight_moves_from(b, sq).contains(m);
        lemma_knight_from_upto_mem(b, sq, 8, m);
        let j = choose|j: int| 0 <= j < 8 && #[trigger] knight_step(b, sq, j).contains(m);
        assert(knight_step(b, sq, j)[0] == m);
        assert(sq == from);
        let f2 = file_of(sq) + knight_off_s(j).0;
        let r2 = rank_of(sq) + knight_off_s(j).1;
        assert(to == r2 * 8 + f2);
        assert(file_of(to) == f2 && rank_of(to) == r2) by {
            assert(on_board(f2, r2));
        }
    }
}

/// A sliding walk from `from` that has reached (`f`, `r`): an empty square
/// yields a move and the walk goes on; the first occupied square yields a
/// capture if it holds an enemy piece, and stops the walk either way.
pub open spec fn ray_moves(b: Board, from: int, f: int, r: int, df: int, dr: int) -> Seq<Move>
    decreases dir_dist(f, df) + dir_dist(r, dr),
    when (df != 0 || dr != 0) && -1 <= df <= 1 && -1 <= dr <= 1
{
    if !on_board(f, r) {
        Seq::empty()
    } else {
        let to = r * 8 + f;
        if !has_bit(b.spec_occupied(), to) {
            seq![mk_move(from, to)] + ray_moves(b, from, f + df, r + dr, df, dr)
        } else if !has_bit(b.spec_friendly(), to) {
            seq![mk_move(from, to)]
        } else {
            Seq::empty()
        }
    }
}

fn push_ray(moves: &mut Vec<Move>, board: &Board, from: usize, f: i32, r: i32, df: i32, dr: i32)
    requires
        from < 64,
        -1 <= f <= 8,
        -1 <= r <= 8,
        -1 <= df <= 1,
        -1 <= dr <= 1,
        df != 0 || dr != 0,
    ensures
        final(moves)@ == old(moves)@ + ray_moves(*board, from as int, f as int, r as int, df as int, dr as int),
        moves_in_range(old(moves)@) ==> moves_in_range(final(moves)@),
    decreases dir_dist(f as int, df as int) + dir_dist(r as int, dr as int),
{
    let ghost prev = moves@;
    if f >= 0 && f < 8 && r >= 0 && r < 8 {
        let to_sq = (r * 8 + f) as usize;
        let bit = 1u64 << to_sq;
        let occ = board.occupied();
        if (occ & bit) == 0 {
            moves.push(Move::new(from, to_sq));
            push_ray(moves, board, from, f + df, r + dr, df, dr);
            proof {
                assert(final(moves)@ =~= prev + ray_moves(
                    *board,
                    from as int,
                    f as int,
                    r as int,
                    df as int,
                    dr as int,
                ));
            }
        } else {
            let friendly = board.friendly_pieces();
            if (friendly & bit) == 0 {
                moves.push(Move::new(from, to_sq));
            }
            proof {
                assert(final(moves)@ =~= prev + ray_moves(
                    *board,
                    from as int,
                    f as int,
                    r as int,
                    df as int,
                    dr as int,
                ));
            }
        }
    } else {
        proof {
            assert(final(moves)@ =~= prev + ray_moves(
                *board,
                from as int,
                f as int,
                r as int,
                df as int,
                dr as int,
            ));
        }
    }
}

/// `d` steps of a unit direction: `d`, `-d` or 0.
pub open spec fn mul_dir(d: int, step: int) -> int {
    if step > 0 {
        d
    } else if step < 0 {
        -d
    } else {
        0
    }
}

/// The square reached from `from` after `d` steps in direction (`df`, `dr`).
pub open spec fn ray_sq(from: int, df: int, dr: int, d: int) -> int {
    (rank_of(from) + mul_dir(d, dr)) * 8 + (file_of(from) + mul_dir(d, df))
}

/// Whether step `d` of the ray stays on the board.
pub open spec fn ray_on_board(from: int, df: int, dr: int, d: int) -> bool {
    on_board(file_of(from) + mul_dir(d, df), rank_of(from) + mul_dir(d, dr))
}

/// One square that a sliding walk passes through: on the board and empty.
pub open spec fn ray_step_clear(b: Board, from: int, df: int, dr: int, e: int) -> bool {
    ray_on_board(from, df, dr, e) && !has_bit(b.spec_occupied(), ray_sq(from, df, dr, e))
}

/// The tail of a sliding walk, summed up: from step `s` onward, `d` names
/// a landing step whose strictly earlier squares are on the board and
/// empty, whose own square is on the board and empty or not friendly, and
/// which `m` moves to.
pub open spec fn ray_tail_ok(b: Board, from: int, df: int, dr: int, s: int, d: int, m: Move) -> bool {
    &&& s <= d
    &&& (forall|e: int| s <= e < d ==> #[trigger] ray_step_clear(b, from, df, dr, e))
    &&& ray_on_board(from, df, dr, d)
    &&& (!has_bit(b.spec_occupied(), ray_sq(from, df, dr, d)) || !has_bit(
        b.spec_friendly(),
        ray_sq(from, df, dr, d),
    ))
    &&& m == mk_move(from, ray_sq(from, df, dr, d))
}

/// What a sliding move along direction (`df`, `dr`) is, stated directly:
/// some number of steps lands on `to`, every square strictly between is on
/// the board and empty, and `to` is empty or holds an enemy piece.
pub open spec fn slide_dir_ok(b: Board, from: int, to: int, df: int, dr: int) -> bool {
    exists|d: int| #[trigger] ray_tail_ok(b, from, df, dr, 1, d, mk_move(from, to))
}

#[verifier::rlimit(100)]
proof fn lemma_ray_mem_fwd(b: Board, from: int, df: int, dr: int, s: int, m: Move)
    requires
        0 <= from < 64,
        -1 <= df <= 1,
        -1 <= dr <= 1,
        df != 0 || dr != 0,
        1 <= s,
        ray_moves(
            b,
            from,
            file_of(from) + mul_dir(s, df),
            rank_of(from) + mul_dir(s, dr),
            df,
            dr,
        ).contains(m),
    ensures
        exists|d: int| #[trigger] ray_tail_ok(b, from, df, dr, s, d, m),
    decreases dir_dist(file_of(from) + mul_dir(s, df), df) + dir_dist(
        rank_of(from) + mul_dir(s, dr),
        dr,
    ),
{
    let f = file_of(from) + mul_dir(s, df);
    let r = rank_of(from) + mul_dir(s, dr);
    let ray = ray_moves(b, from, f, r, df, dr);
    let sq = r * 8 + f;
    assert(sq == ray_sq(from, df, dr, s));
    if !on_board(f, r) {
        assert(ray.len() == 0);
        assert(false);
    } else if !has_bit(b.spec_occupied(), sq) {
        let rest = ray_moves(b, from, f + df, r + dr, df, dr);
        let i = choose|i: int| 0 <= i < ray.len() && #[trigger] ray[i] == m;
        if i == 0 {
            assert(m == mk_move(from, sq));
            assert(ray_tail_ok(b, from, df, dr, s, s, m));
        } else {
            assert(rest[i - 1] == m);
            assert(rest.contains(m));
            lemma_ray_mem_fwd(b, from, df, dr, s + 1, m);
            let d = choose|d: int| #[trigger] ray_tail_ok(b, from, df, dr, s + 1, d, m);
            assert(ray_tail_ok(b, from, df, dr, s + 1, d, m));
            assert forall|e: int| s <= e < d implies #[trigger] ray_step_clear(
                b,
                from,
                df,
                dr,
                e,
            ) by {
                if e == s {
                    assert(ray_on_board(from, df, dr, s));
                    assert(!has_bit(b.spec_occupied(), ray_sq(from, df, dr, s)));
                } else {
                    assert(ray_step_clear(b, from, df, dr, e));
                }
            }
            assert(ray_on_board(from, df, dr, d));
            assert(m == mk_move(from, ray_sq(from, df, dr, d)));
            assert(ray_tail_ok(b, from, df, dr, s, d, m));
        }
    } else {
        assert(ray[0] == m);
        assert(ray_tail_ok(b, from, df, dr, s, s, m));
    }
}

#[verifier::rlimit(100)]
proof fn lemma_ray_mem_bwd(b: Board, from: int, df: int, dr: int, s: int, d: int, m: Move)
    requires
        0 <= from < 64,
        -1 <= df <= 1,
        -1 <= dr <= 1,
        df != 0 || dr != 0,
        1 <= s,
        ray_tail_ok(b, from, df, dr, s, d, m),
    ensures
        ray_moves(
            b,
            from,
            file_of(from) + mul_dir(s, df),
            rank_of(from) + mul_dir(s, dr),
            df,
            dr,
        ).contains(m),
    decreases dir_dist(file_of(from) + mul_dir(s, df), df) + dir_dist(
        rank_of(from) + mul_dir(s, dr),
        dr,
    ),
{
    let f = file_of(from) + mul_dir(s, df);
    let r = rank_of(from) + mul_dir(s, dr);
    let ray = ray_moves(b, from, f, r, df, dr);
    let sq = r * 8 + f;
    assert(sq == ray_sq(from, df, dr, s));
    if d == s {
        assert(on_board(f, r));
        assert(ray[0] == m);
    } else {
        assert(ray_step_clear(b, from, df, dr, s));
        assert(ray_on_board(from, df, dr, s) && !has_bit(b.spec_occupied(), sq));
        let rest = ray_moves(b, from, f + df, r + dr, df, dr);
        assert forall|e: int| s + 1 <= e < d implies #[trigger] ray_step_clear(
            b,
            from,
            df,
            dr,
            e,
        ) by {
            assert(s <= e < d);
        }
        assert(ray_on_board(from, df, dr, d));
        assert(ray_tail_ok(b, from, df, dr, s + 1, d, m));
        lemma_ray_mem_bwd(b, from, df, dr, s + 1, d, m);
        let i = choose|i: int| 0 <= i < rest.len() && #[trigger] rest[i] == m;
        assert(ray[i + 1] == m);
    }
}

/// The full sliding walk from `sq` along the queen direction numbered `j`.
pub open spec fn dir_ray(b: Board, sq: int, j: int) -> Seq<Move> {
    let d = queen_dir_s(j);
    ray_moves(b, sq, file_of(sq) + d.0, rank_of(sq) + d.1, d.0, d.1)
}

/// The sliding moves from `sq` along the queen directions numbered
/// `dlo..k`.
pub open spec fn slide_from_upto(b: Board, sq: int, dlo: int, k: int) -> Seq<Move>
    decreases k - dlo,
{
    if k <= dlo {
        Seq::empty()
    } else {
        slide_from_upto(b, sq, dlo, k - 1) + dir_ray(b, sq, k - 1)
    }
}

/// All sliding moves of the pieces of `pieces` on squares below `n`, along
/// the queen directions numbered `dlo..dhi`.
pub open spec fn slide_moves_upto(b: Board, pieces: u64, n: int, dlo: int, dhi: int) -> Seq<Move>
    decreases n,
{
    if n <= 0 {
        Seq::empty()
    } else {
        slide_moves_upto(b, pieces, n - 1, dlo, dhi) + if has_bit(pieces, n - 1) {
            slide_from_upto(b, n - 1, dlo, dhi)
        } else {
            Seq::empty()
        }
    }
}

/// Sliding move generation shared by bishops, rooks and queens; the
/// direction range selects which rays the piece may take.
fn generate_sliding_moves(board: &Board, pieces: u64, dlo: usize, dhi: usize) -> (moves: Vec<Move>)
    requires
        dlo <= dhi <= 8,
    ensures
        moves@ == slide_moves_upto(*board, pieces, 64, dlo as int, dhi as int),
        moves_in_range(moves@),
{
    let mut moves: Vec<Move> = Vec::new();
    let mut sq: usize = 0;
    while sq < 64
        invariant
            sq <= 64,
            dlo <= dhi <= 8,
            moves@ == slide_moves_upto(*board, pieces, sq as int, dlo as int, dhi as int),
            moves_in_range(moves@),
        decreases 64 - sq,
    {
        if pieces & (1u64 << sq) != 0 {
            let f = (sq % 8) as i32;
            let r = (sq / 8) as i32;
            let mut k: usize = dlo;
            while k < dhi
                invariant
                    dlo <= k <= dhi <= 8,
                    sq < 64,
                    f == file_of(sq as int),
                    r == rank_of(sq as int),
                    0 <= f <= 7,
                    0 <= r <= 7,
                    moves@ == slide_moves_upto(*board, pieces, sq as int, dlo as int, dhi as int)
                        + slide_from_upto(*board, sq as int, dlo as int, k as int),
                    moves_in_range(moves@),
                decreases dhi - k,
            {
                let ghost prev = moves@;
                let d = queen_dir(k);
                push_ray(&mut moves, board, sq, f + d.0, r + d.1, d.0, d.1);
                proof {
                    assert(moves@ =~= slide_moves_upto(
                        *board,
                        pieces,
                        sq as int,
                        dlo as int,
                        dhi as int,
                    ) + slide_from_upto(*board, sq as int, dlo as int, k as int + 1));
                }
                k = k + 1;
            }
            proof {
                assert(moves@ =~= slide_moves_upto(
                    *board,
                    pieces,
                    sq as int + 1,
                    dlo as int,
                    dhi as int,
                ));
            }
        } else {
            proof {
                assert(moves@ =~= slide_moves_upto(
                    *board,
                    pieces,
                    sq as int + 1,
                    dlo as int,
                    dhi as int,
                ));
            }
        }
        sq = sq + 1;
    }
    moves
}

/// All bishop moves of the side to move.
pub open spec fn spec_bishop_moves(b: Board) -> Seq<Move> {
    slide_moves_upto(b, bishops_of(b), 64, 4, 8)
}

fn generate_bishop_moves(board: &Board) -> (moves: Vec<Move>)
    ensures
        moves@ == spec_bishop_moves(*board),
        moves_in_range(moves@),
{
    let bishops = match board.turn {
        Color::White => board.wb,
        Color::Black => board.bb,
    };
    generate_sliding_moves(board, bishops, 4, 8)
}

/// All rook moves of the side to move.
pub open spec fn spec_rook_moves(b: Board) -> Seq<Move> {
    slide_moves_upto(b, rooks_of(b), 64, 0, 4)
}

fn generate_rook_moves(board: &Board) -> (moves: Vec<Move>)
    ensures
        moves@ == spec_rook_moves(*board),
        moves_in_range(moves@),
{
    let rooks = match board.turn {
        Color::White => board.wr,
        Color::Black => board.br,
    };
    generate_sliding_moves(board, rooks, 0, 4)
}

/// All queen moves of the side to move.
pub open spec fn spec_queen_moves(b: Board) -> Seq<Move> {
    slide_moves_upto(b, queens_of(b), 64, 0, 8)
}

fn generate_queen_moves(board: &Board) -> (moves: Vec<Move>)
    ensures
        moves@ == spec_queen_moves(*board),
        moves_in_range(moves@),
{
    let queens = match board.turn {
        Color::White => board.wq,
        Color::Black => board.bq,
    };
    generate_sliding_moves(board, queens, 0, 8)
}

/// What a sliding move of a piece from `pieces` is, stated directly: the
/// piece stands on `from` and one of the queen directions numbered
/// `dlo..dhi` reaches `to` over empty squares.
pub open spec fn slide_move_ok(b: Board, pieces: u64, from: int, to: int, dlo: int, dhi: int) -> bool {
    &&& 0 <= from < 64
    &&& 0 <= to < 64
    &&& has_bit(pieces, from)
    &&& exists|k: int|
        dlo <= k < dhi && #[trigger] slide_dir_ok(
            b,
            from,
            to,
            queen_dir_s(k).0,
            queen_dir_s(k).1,
        )
}

proof fn lemma_slide_from_upto_mem(b: Board, sq: int, dlo: int, k: int, m: Move)
    requires
        dlo <= k,
    ensures
        slide_from_upto(b, sq, dlo, k).contains(m) <==> exists|j: int|
            dlo <= j < k && #[trigger] dir_ray(b, sq, j).contains(m),
    decreases k - dlo,
{
    if k > dlo {
        lemma_slide_from_upto_mem(b, sq, dlo, k - 1, m);
        let pre = slide_from_upto(b, sq, dlo, k - 1);
        let st = dir_ray(b, sq, k - 1);
        assert forall|i: int|
            0 <= i < pre.len() && pre[i] == m implies slide_from_upto(b, sq, dlo, k).contains(
            m,
        ) by {
            assert(slide_from_upto(b, sq, dlo, k)[i] == m);
        }
        if st.contains(m) {
            let i = choose|i: int| 0 <= i < st.len() && #[trigger] st[i] == m;
            assert(slide_from_upto(b, sq, dlo, k)[pre.len() + i] == m);
        }
        if slide_from_upto(b, sq, dlo, k).contains(m) {
            let i = choose|i: int|
                0 <= i < slide_from_upto(b, sq, dlo, k).len() && #[trigger] slide_from_upto(
                    b,
                    sq,
                    dlo,
                    k,
                )[i] == m;
            if i < pre.len() {
                assert(pre[i] == m);
                assert(pre.contains(m));
            } else {
                assert(st[i - pre.len()] == m);
                assert(st.contains(m));
            }
        }
    }
}

proof fn lemma_slide_moves_upto_mem(b: Board, pieces: u64, n: int, dlo: int, dhi: int, m: Move)
    requires
        0 <= n <= 64,
        dlo <= dhi,
    ensures
        slide_moves_upto(b, pieces, n, dlo, dhi).contains(m) <==> exists|sq: int|
            0 <= sq < n && has_bit(pieces, sq) && #[trigger] slide_from_upto(
                b,
                sq,
                dlo,
                dhi,
            ).contains(m),
    decreases n,
{
    if n > 0 {
        lemma_slide_moves_upto_mem(b, pieces, n - 1, dlo, dhi, m);
        let pre = slide_moves_upto(b, pieces, n - 1, dlo, dhi);
        let fr: Seq<Move> = if has_bit(pieces, n - 1) {
            slide_from_upto(b, n - 1, dlo, dhi)
        } else {
            Seq::empty()
        };
        assert forall|i: int|
            0 <= i < pre.len() && pre[i] == m implies slide_moves_upto(
            b,
            pieces,
            n,
            dlo,
            dhi,
        ).contains(m) by {
            assert(slide_moves_upto(b, pieces, n, dlo, dhi)[i] == m);
        }
        if has_bit(pieces, n - 1) && slide_from_upto(b, n - 1, dlo, dhi).contains(m) {
            let i = choose|i: int| 0 <= i < fr.len() && #[trigger] fr[i] == m;
            assert(slide_moves_upto(b, pieces, n, dlo, dhi)[pre.len() + i] == m);
        }
        if slide_moves_upto(b, pieces, n, dlo, dhi).contains(m) {
            let i = choose|i: int|
                0 <= i < slide_moves_upto(b, pieces, n, dlo, dhi).len()
                    && #[trigger] slide_moves_upto(b, pieces, n, dlo, dhi)[i] == m;
            if i < pre.len() {
                assert(pre[i] == m);
                assert(pre.contains(m));
            } else {
                assert(fr[i - pre.len()] == m);
                assert(fr.contains(m));
            }
        }
    }
}

/// The generated sliding moves are exactly the moves `slide_move_ok`
/// describes, whichever occupancy set and direction range a piece type
/// uses.
#[verifier::rlimit(100)]
pub proof fn lemma_slide_moves_characterisation(
    b: Board,
    pieces: u64,
    dlo: int,
    dhi: int,
    from: int,
    to: int,
)
    requires
        0 <= from < 64,
        0 <= to < 64,
        0 <= dlo <= dhi <= 8,
    ensures
        slide_moves_upto(b, pieces, 64, dlo, dhi).contains(mk_move(from, to)) <==> slide_move_ok(
            b,
            pieces,
            from,
            to,
            dlo,
            dhi,
        ),
{
    let m = mk_move(from, to);
    lemma_slide_moves_upto_mem(b, pieces, 64, dlo, dhi, m);
    if slide_moves_upto(b, pieces, 64, dlo, dhi).contains(m) {
        let sq = choose|sq: int|
            0 <= sq < 64 && has_bit(pieces, sq) && #[trigger] slide_from_upto(
                b,
                sq,
                dlo,
                dhi,
            ).contains(m);
        lemma_slide_from_upto_mem(b, sq, dlo, dhi, m);
        let j = choose|j: int| dlo <= j < dhi && #[trigger] dir_ray(b, sq, j).contains(m);
        let df = queen_dir_s(j).0;
        let dr = queen_dir_s(j).1;
        assert(-1 <= df <= 1 && -1 <= dr <= 1 && (df != 0 || dr != 0));
        assert(sq == from) by {
            let i = choose|i: int|
                0 <= i < dir_ray(b, sq, j).len() && #[trigger] dir_ray(b, sq, j)[i] == m;
            lemma_ray_from_is_from(b, sq, file_of(sq) + df, rank_of(sq) + dr, df, dr, i);
        }
        lemma_ray_mem_fwd(b, from, df, dr, 1, m);
        assert(slide_dir_ok(b, from, to, df, dr));
    }
    if slide_move_ok(b, pieces, from, to, dlo, dhi) {
        let k = choose|k: int|
            dlo <= k < dhi && #[trigger] slide_dir_ok(
                b,
                from,
                to,
                queen_dir_s(k).0,
                queen_dir_s(k).1,
            );
        let df = queen_dir_s(k).0;
        let dr = queen_dir_s(k).1;
        assert(-1 <= df <= 1 && -1 <= dr <= 1 && (df != 0 || dr != 0));
        let d = choose|d: int| #[trigger] ray_tail_ok(b, from, df, dr, 1, d, m);
        lemma_ray_mem_bwd(b, from, df, dr, 1, d, m);
        assert(dir_ray(b, from, k).contains(m));
        lemma_slide_from_upto_mem(b, from, dlo, dhi, m);
        assert(slide_from_upto(b, from, dlo, dhi).contains(m));
    }
}

/// Every move a ray emits starts at the walk's own origin.
proof fn lemma_ray_from_is_from(b: Board, from: int, f: int, r: int, df: int, dr: int, i: int)
    requires
        0 <= from < 64,
        -1 <= df <= 1,
        -1 <= dr <= 1,
        df != 0 || dr != 0,
        0 <= i < ray_moves(b, from, f, r, df, dr).len(),
    ensures
        ray_moves(b, from, f, r, df, dr)[i].from == from,
    decreases dir_dist(f, df) + dir_dist(r, dr),
{
    if on_board(f, r) {
        let to = r * 8 + f;
        if !has_bit(b.spec_occupied(), to) {
            if i > 0 {
                lemma_ray_from_is_from(b, from, f + df, r + dr, df, dr, i - 1);
            }
        }
    }
}

/// The generated bishop moves are exactly the diagonal sliding moves.
pub proof fn lemma_bishop_moves_characterisation(b: Board, from: int, to: int)
    requires
        0 <= from < 64,
        0 <= to < 64,
    ensures
        spec_bishop_moves(b).contains(mk_move(from, to)) <==> slide_move_ok(
            b,
            bishops_of(b),
            from,
            to,
            4,
            8,
        ),
{
    lemma_slide_moves_characterisation(b, bishops_of(b), 4, 8, from, to);
}

/// The generated rook moves are exactly the orthogonal sliding moves.
pub proof fn lemma_rook_moves_characterisation(b: Board, from: int, to: int)
    requires
        0 <= from < 64,
        0 <= to < 64,
    ensures
        spec_rook_moves(b).contains(mk_move(from, to)) <==> slide_move_ok(
            b,
            rooks_of(b),
            from,
            to,
            0,
            4,
        ),
{
    lemma_slide_moves_characterisation(b, rooks_of(b), 0, 4, from, to);
}

/// The generated queen moves are exactly the sliding moves along all eight
/// directions.
pub proof fn lemma_queen_moves_characterisation(b: Board, from: int, to: int)
    requires
        0 <= from < 64,
        0 <= to < 64,
    ensures
        spec_queen_moves(b).contains(mk_move(from, to)) <==> slide_move_ok(
            b,
            queens_of(b),
            from,
            to,
            0,
            8,
        ),
{
    lemma_slide_moves_characterisation(b, queens_of(b), 0, 8, from, to);
}

/// The king step numbered `k`, walking the square neighbourhood in file-major
/// order; `k == 4` is the king's own square and yields nothing.
pub open spec fn king_step(b: Board, sq: int, k: int) -> Seq<Move> {
    if k == 4 {
        Seq::empty()
    } else {
        let f = file_of(sq) + (k / 3 - 1);
        let r = rank_of(sq) + (k % 3 - 1);
        if on_board(f, r) && !has_bit(b.spec_friendly(), r * 8 + f) {
            seq![mk_move(sq, r * 8 + f)]
        } else {
            Seq::empty()
        }
    }
}

/// The king moves from `sq` along steps below `k`.
pub open spec fn king_from_upto(b: Board, sq: int, k: int) -> Seq<Move>
    decreases k,
{
    if k <= 0 {
        Seq::empty()
    } else {
        king_from_upto(b, sq, k - 1) + king_step(b, sq, k - 1)
    }
}

/// All moves of the king of the side to move; only the first king found is
/// expanded, and a side with no king contributes nothing.
pub open spec fn spec_king_moves(b: Board) -> Seq<Move> {
    let kbb = kings_of(b);
    if kbb == 0 {
        Seq::empty()
    } else {
        king_from_upto(b, vstd::std_specs::bits::u64_trailing_zeros(kbb) as int, 9)
    }
}

fn generate_king_moves(board: &Board) -> (moves: Vec<Move>)
    ensures
        moves@ == spec_king_moves(*board),
        moves_in_range(moves@),
{
    let mut moves: Vec<Move> = Vec::new();
    let friendly = board.friendly_pieces();
    let king = match board.turn {
        Color::White => board.wk,
        Color::Black => board.bk,
    };
    if king == 0 {
        return moves;
    }
    proof {
        vstd::std_specs::bits::axiom_u64_trailing_zeros(king);
    }
    let sq = king.trailing_zeros() as usize;
    let f = (sq % 8) as i32;
    let r = (sq / 8) as i32;
    let mut k: usize = 0;
    while k < 9
        invariant
            k <= 9,
            sq < 64,
            f == file_of(sq as int),
            r == rank_of(sq as int),
            0 <= f <= 7,
            0 <= r <= 7,
            friendly == board.spec_friendly(),
            moves@ == king_from_upto(*board, sq as int, k as int),
            moves_in_range(moves@),
        decreases 9 - k,
    {
        let ghost prev = moves@;
        if k != 4 {
            let to_f = f + ((k as i32) / 3 - 1);
            let to_r = r + ((k as i32) % 3 - 1);
            if to_f >= 0 && to_f < 8 && to_r >= 0 && to_r < 8 {
                let to_sq = (to_r * 8 + to_f) as usize;
                if (friendly & (1u64 << to_sq)) == 0 {
                    moves.push(Move::new(sq, to_sq));
                }
            }
        }
        proof {
            assert(moves@ =~= prev + king_step(*board, sq as int, k as int));
            assert(moves@ =~= king_from_upto(*board, sq as int, k as int + 1));
        }
        k = k + 1;
    }
    moves
}

/// What a king move is, stated directly: the expanded king stands on
/// `from`, `to` is a different square at most one file and one rank away,
/// and no piece of the mover's own side stands on `to`.
pub open spec fn king_move_ok(b: Board, from: int, to: int) -> bool {
    let kbb = kings_of(b);
    &&& kbb != 0
    &&& from == vstd::std_specs::bits::u64_trailing_zeros(kbb) as int
    &&& 0 <= from < 64
    &&& 0 <= to < 64
    &&& to != from
    &&& !has_bit(b.spec_friendly(), to)
    &&& -1 <= file_of(to) - file_of(from) <= 1
    &&& -1 <= rank_of(to) - rank_of(from) <= 1
}

proof fn lemma_king_from_upto_mem(b: Board, sq: int, k: int, m: Move)
    requires
        0 <= k <= 9,
    ensures
        king_from_upto(b, sq, k).contains(m) <==> exists|j: int|
            0 <= j < k && #[trigger] king_step(b, sq, j).contains(m),
    decreases k,
{
    if k > 0 {
        lemma_king_from_upto_mem(b, sq, k - 1, m);
        let pre = king_from_upto(b, sq, k - 1);
        let st = king_step(b, sq, k - 1);
        assert forall|i: int|
            0 <= i < pre.len() && pre[i] == m implies king_from_upto(b, sq, k).contains(m) by {
            assert(king_from_upto(b, sq, k)[i] == m);
        }
        if st.contains(m) {
            assert(king_from_upto(b, sq, k)[pre.len() as int] == m);
        }
        if king_from_upto(b, sq, k).contains(m) {
            let i = choose|i: int|
                0 <= i < king_from_upto(b, sq, k).len() && #[trigger] king_from_upto(b, sq, k)[i]
                    == m;
            if i < pre.len() {
                assert(pre[i] == m);
                assert(pre.contains(m));
            } else {
                assert(st[i - pre.len()] == m);
                assert(st.contains(m));
            }
        }
    }
}

/// The generated king moves are exactly the moves `king_move_ok` describes.
#[verifier::rlimit(100)]
pub proof fn lemma_king_moves_characterisation(b: Board, from: int, to: int)
    requires
        0 <= from < 64,
        0 <= to < 64,
    ensures
        spec_king_moves(b).contains(mk_move(from, to)) <==> king_move_ok(b, from, to),
{
    let m = mk_move(from, to);
    let kbb = kings_of(b);
    if kbb == 0 {
        assert(!spec_king_moves(b).contains(m));
        assert(!king_move_ok(b, from, to));
    } else {
        vstd::std_specs::bits::axiom_u64_trailing_zeros(kbb);
        let ks = vstd::std_specs::bits::u64_trailing_zeros(kbb) as int;
        lemma_king_from_upto_mem(b, ks, 9, m);
        if king_move_ok(b, from, to) {
            let df = file_of(to) - file_of(from);
            let dr = rank_of(to) - rank_of(from);
            let j = (df + 1) * 3 + (dr + 1);
            assert(j != 4);
            assert(j / 3 - 1 == df && j % 3 - 1 == dr);
            assert(to == (rank_of(from) + dr) * 8 + (file_of(from) + df));
            assert(king_step(b, ks, j).contains(m)) by {
                assert(king_step(b, ks, j)[0] == m);
            }
        }
        if spec_king_moves(b).contains(m) {
            let j = choose|j: int| 0 <= j < 9 && #[trigger] king_step(b, ks, j).contains(m);
            assert(king_step(b, ks, j)[0] == m);
            assert(ks == from);
            let f2 = file_of(ks) + (j / 3 - 1);
            let r2 = rank_of(ks) + (j % 3 - 1);
            assert(to == r2 * 8 + f2);
            assert(file_of(to) == f2 && rank_of(to) == r2) by {
                assert(on_board(f2, r2));
            }
            assert(to != from) by {
                if j / 3 - 1 == 0 && j % 3 - 1 == 0 {
                    assert(j == 4);
                }
            }
        }
    }
}

/// What a pawn move of the side to move is, stated directly: a push one
/// rank ahead onto an empty square, a double push from the pawn's home rank
/// through two empty squares, or a diagonal capture one rank ahead onto an
/// enemy piece, never off the board nor across its edge.
pub open spec fn pawn_move_ok(b: Board, from: int, to: int) -> bool {
    let occ = b.spec_occupied();
    &&& 0 <= from < 64
    &&& 0 <= to < 64
    &&& has_bit(pawns_of(b), from)
    &&& match b.turn {
        Color::White => {
            let enemy = b.spec_black();
            ||| (to == from + 8 && rank_of(from) < 7 && !has_bit(occ, to))
            ||| (to == from + 16 && rank_of(from) == 1 && !has_bit(occ, from + 8) && !has_bit(
                occ,
                to,
            ))
            ||| (to == from + 7 && file_of(from) > 0 && rank_of(from) < 7 && has_bit(enemy, to))
            ||| (to == from + 9 && file_of(from) < 7 && rank_of(from) < 7 && has_bit(enemy, to))
        },
        Color::Black => {
            let enemy = b.spec_white();
            ||| (to == from - 8 && rank_of(from) > 0 && !has_bit(occ, to))
            ||| (to == from - 16 && rank_of(from) == 6 && !has_bit(occ, from - 8) && !has_bit(
                occ,
                to,
            ))
            ||| (to == from - 9 && file_of(from) > 0 && rank_of(from) > 0 && has_bit(enemy, to))
            ||| (to == from - 7 && file_of(from) < 7 && rank_of(from) > 0 && has_bit(enemy, to))
        },
    }
}

proof fn lemma_pawn_from_upto_mem(b: Board, sq: int, k: int, m: Move)
    requires
        0 <= k <= 4,
    ensures
        pawn_from_upto(b, sq, k).contains(m) <==> exists|j: int|
            0 <= j < k && #[trigger] pawn_step(b, sq, j).contains(m),
    decreases k,
{
    if k > 0 {
        lemma_pawn_from_upto_mem(b, sq, k - 1, m);
        let pre = pawn_from_upto(b, sq, k - 1);
        let st = pawn_step(b, sq, k - 1);
        assert forall|i: int|
            0 <= i < pre.len() && pre[i] == m implies pawn_from_upto(b, sq, k).contains(m) by {
            assert(pawn_from_upto(b, sq, k)[i] == m);
        }
        if st.contains(m) {
            assert(pawn_from_upto(b, sq, k)[pre.len() as int] == m);
        }
        if pawn_from_upto(b, sq, k).contains(m) {
            let i = choose|i: int|
                0 <= i < pawn_from_upto(b, sq, k).len() && #[trigger] pawn_from_upto(b, sq, k)[i]
                    == m;
            if i < pre.len() {
                assert(pre[i] == m);
                assert(pre.contains(m));
            } else {
                assert(st[i - pre.len()] == m);
                assert(st.contains(m));
            }
        }
    }
}

proof fn lemma_pawn_moves_upto_mem(b: Board, n: int, m: Move)
    requires
        0 <= n <= 64,
    ensures
        pawn_moves_upto(b, n).contains(m) <==> exists|sq: int|
            0 <= sq < n && #[trigger] pawn_moves_from(b, sq).contains(m),
    decreases n,
{
    if n > 0 {
        lemma_pawn_moves_upto_mem(b, n - 1, m);
        let pre = pawn_moves_upto(b, n - 1);
        let fr = pawn_moves_from(b, n - 1);
        assert forall|i: int|
            0 <= i < pre.len() && pre[i] == m implies pawn_moves_upto(b, n).contains(m) by {
            assert(pawn_moves_upto(b, n)[i] == m);
        }
        if fr.contains(m) {
            let i = choose|i: int| 0 <= i < fr.len() && #[trigger] fr[i] == m;
            assert(pawn_moves_upto(b, n)[pre.len() + i] == m);
        }
        if pawn_moves_upto(b, n).contains(m) {
            let i = choose|i: int|
                0 <= i < pawn_moves_upto(b, n).len() && #[trigger] pawn_moves_upto(b, n)[i] == m;
            if i < pre.len() {
                assert(pre[i] == m);
                assert(pre.contains(m));
            } else {
                assert(fr[i - pre.len()] == m);
                assert(fr.contains(m));
            }
        }
    }
}

/// The generated pawn moves are exactly the moves `pawn_move_ok` describes.
pub proof fn lemma_pawn_moves_characterisation(b: Board, from: int, to: int)
    requires
        0 <= from < 64,
        0 <= to < 64,
    ensures
        spec_pawn_moves(b).contains(mk_move(from, to)) <==> pawn_move_ok(b, from, to),
{
    let m = mk_move(from, to);
    lemma_pawn_moves_upto_mem(b, 64, m);
    if pawn_move_ok(b, from, to) {
        let j: int = match b.turn {
            Color::White => {
                if to == from + 8 {
                    0
                } else if to == from + 16 {
                    1
                } else if to == from + 7 {
                    2
                } else {
                    3
                }
            },
            Color::Black => {
                if to == from - 8 {
                    0
                } else if to == from - 16 {
                    1
                } else if to == from - 9 {
                    2
                } else {
                    3
                }
            },
        };
        assert(pawn_step(b, from, j).contains(m)) by {
            assert(pawn_step(b, from, j)[0] == m);
        }
        assert(pawn_moves_from(b, from).contains(m)) by {
            lemma_pawn_from_upto_mem(b, from, 4, m);
        }
    }
    if spec_pawn_moves(b).contains(m) {
        let sq = choose|sq: int| 0 <= sq < 64 && #[trigger] pawn_moves_from(b, sq).contains(m);
        lemma_pawn_from_upto_mem(b, sq, 4, m);
        let j = choose|j: int| 0 <= j < 4 && #[trigger] pawn_step(b, sq, j).contains(m);
        assert(pawn_step(b, sq, j)[0] == m);
        assert(sq == from);
    }
}

/// All pseudo-legal moves of the side to move, in generation order: pawns,
/// knights, bishops, rooks, queens, king.
pub open spec fn spec_moves(b: Board) -> Seq<Move> {
    spec_pawn_moves(b) + spec_knight_moves(b) + spec_bishop_moves(b) + spec_rook_moves(b)
        + spec_queen_moves(b) + spec_king_moves(b)
}

/// Generate the pseudo-legal moves for the side to move; legality with
/// respect to check is not tested here.
pub fn generate_moves(board: &Board) -> (moves: Vec<Move>)
    ensures
        moves@ == spec_moves(*board),
        moves_in_range(moves@),
{
    let mut moves = generate_pawn_moves(board);
    let mut knight = generate_knight_moves(board);
    let mut bishop = generate_bishop_moves(board);
    let mut rook = generate_rook_moves(board);
    let mut queen = generate_queen_moves(board);
    let mut king = generate_king_moves(board);
    moves.append(&mut knight);
    moves.append(&mut bishop);
    moves.append(&mut rook);
    moves.append(&mut queen);
    moves.append(&mut king);
    proof {
        assert(moves@ =~= spec_moves(*board));
    }
    moves
}

/// What a pseudo-legal move is, stated directly: a pawn, knight, sliding or
/// king move following that piece's movement rule, with no regard yet to
/// the mover's own king.
pub open spec fn pseudo_move_ok(b: Board, from: int, to: int) -> bool {
    ||| pawn_move_ok(b, from, to)
    ||| knight_move_ok(b, from, to)
    ||| slide_move_ok(b, bishops_of(b), from, to, 4, 8)
    ||| slide_move_ok(b, rooks_of(b), from, to, 0, 4)
    ||| slide_move_ok(b, queens_of(b), from, to, 0, 8)
    ||| king_move_ok(b, from, to)
}

proof fn lemma_add_contains(a: Seq<Move>, c: Seq<Move>, m: Move)
    ensures
        (a + c).contains(m) <==> a.contains(m) || c.contains(m),
{
    if (a + c).contains(m) {
        let i = choose|i: int| 0 <= i < (a + c).len() && #[trigger] (a + c)[i] == m;
        if i < a.len() {
            assert(a[i] == m);
        } else {
            assert(c[i - a.len()] == m);
        }
    }
    if a.contains(m) {
        let i = choose|i: int| 0 <= i < a.len() && #[trigger] a[i] == m;
        assert((a + c)[i] == m);
    }
    if c.contains(m) {
        let i = choose|i: int| 0 <= i < c.len() && #[trigger] c[i] == m;
        assert((a + c)[a.len() + i] == m);
    }
}

/// The generated pseudo-legal moves are exactly the moves `pseudo_move_ok`
/// describes.
pub proof fn lemma_moves_characterisation(b: Board, from: int, to: int)
    requires
        0 <= from < 64,
        0 <= to < 64,
    ensures
        spec_moves(b).contains(mk_move(from, to)) <==> pseudo_move_ok(b, from, to),
{
    let m = mk_move(from, to);
    let p = spec_pawn_moves(b);
    let n = spec_knight_moves(b);
    let bi = spec_bishop_moves(b);
    let ro = spec_rook_moves(b);
    let qu = spec_queen_moves(b);
    let ki = spec_king_moves(b);
    lemma_add_contains(p, n, m);
    lemma_add_contains(p + n, bi, m);
    lemma_add_contains(p + n + bi, ro, m);
    lemma_add_contains(p + n + bi + ro, qu, m);
    lemma_add_contains(p + n + bi + ro + qu, ki, m);
    lemma_pawn_moves_characterisation(b, from, to);
    lemma_knight_moves_characterisation(b, from, to);
    lemma_bishop_moves_characterisation(b, from, to);
    lemma_rook_moves_characterisation(b, from, to);
    lemma_queen_moves_characterisation(b, from, to);
    lemma_king_moves_characterisation(b, from, to);
}

/// What a legal move is, stated directly: a pseudo-legal move that leaves
/// the mover's own king out of check once applied.
pub proof fn lemma_legal_moves_meaning(b: Board, from: int, to: int)
    requires
        0 <= from < 64,
        0 <= to < 64,
    ensures
        spec_legal_moves(b).contains(mk_move(from, to)) <==> (pseudo_move_ok(b, from, to)
            && !spec_in_check(b.spec_apply(mk_move(from, to)), b.turn)),
{
    lemma_moves_characterisation(b, from, to);
    lemma_legal_moves_characterisation(b);
}

/// The pseudo-legal moves among the first `n` of `ms` that do not leave the
/// mover's own king in check.
pub open spec fn legal_upto(b: Board, ms: Seq<Move>, n: int) -> Seq<Move>
    decreases n,
{
    if n <= 0 {
        Seq::empty()
    } else {
        legal_upto(b, ms, n - 1) + if !spec_in_check(b.spec_apply(ms[n - 1]), b.turn) {
            seq![ms[n - 1]]
        } else {
            Seq::empty()
        }
    }
}

/// All legal moves of the side to move: the pseudo-legal moves that leave
/// the mover's own king safe.
pub open spec fn spec_legal_moves(b: Board) -> Seq<Move> {
    legal_upto(b, spec_moves(b), spec_moves(b).len() as int)
}

proof fn lemma_legal_upto_characterisation(b: Board, ms: Seq<Move>, n: int)
    requires
        0 <= n <= ms.len(),
    ensures
        forall|m: Move|
            #[trigger] legal_upto(b, ms, n).contains(m) <==> (ms.subrange(0, n).contains(m)
                && !spec_in_check(b.spec_apply(m), b.turn)),
    decreases n,
{
    if n > 0 {
        lemma_legal_upto_characterisation(b, ms, n - 1);
        assert forall|m: Move| #[trigger] legal_upto(b, ms, n).contains(m) implies (ms.subrange(
            0,
            n,
        ).contains(m) && !spec_in_check(b.spec_apply(m), b.turn)) by {
            let l = legal_upto(b, ms, n);
            let i = choose|i: int| 0 <= i < l.len() && #[trigger] l[i] == m;
            if i < legal_upto(b, ms, n - 1).len() {
                assert(legal_upto(b, ms, n - 1).contains(m));
                assert(ms.subrange(0, n - 1).contains(m));
                let j = choose|j: int| 0 <= j < n - 1 && #[trigger] ms.subrange(0, n - 1)[j] == m;
                assert(ms.subrange(0, n)[j] == m);
            } else {
                assert(m == ms[n - 1]);
                assert(ms.subrange(0, n)[n - 1] == m);
            }
        }
        assert forall|m: Move|
            (ms.subrange(0, n).contains(m) && !spec_in_check(
                b.spec_apply(m),
                b.turn,
            )) implies #[trigger] legal_upto(b, ms, n).contains(m) by {
            let j = choose|j: int| 0 <= j < n && #[trigger] ms.subrange(0, n)[j] == m;
            if j < n - 1 {
                assert(ms.subrange(0, n - 1)[j] == m);
                assert(legal_upto(b, ms, n - 1).contains(m));
                let i = choose|i: int|
                    0 <= i < legal_upto(b, ms, n - 1).len() && #[trigger] legal_upto(b, ms, n - 1)[i]
                        == m;
                assert(legal_upto(b, ms, n)[i] == m);
            } else {
                assert(m == ms[n - 1]);
                let l1 = legal_upto(b, ms, n - 1);
                assert(legal_upto(b, ms, n)[l1.len() as int] == m);
            }
        }
    }
}

/// What legality means, move by move: a move is legal exactly when it is
/// pseudo-legal and leaves the mover's own king out of check after it is
/// applied.
pub proof fn lemma_legal_moves_characterisation(b: Board)
    ensures
        forall|m: Move|
            #[trigger] spec_legal_moves(b).contains(m) <==> (spec_moves(b).contains(m)
                && !spec_in_check(b.spec_apply(m), b.turn)),
{
    let ms = spec_moves(b);
    lemma_legal_upto_characterisation(b, ms, ms.len() as int);
    assert(ms.subrange(0, ms.len() as int) =~= ms);
}

/// Generate the legal moves for the side to move: each pseudo-legal move is
/// applied, rejected if the mover's own king is then attacked, and undone.
pub fn generate_legal_moves(board: &Board) -> (moves: Vec<Move>)
    requires
        board.board_ok(),
    ensures
        moves@ == spec_legal_moves(*board),
        moves_in_range(moves@),
{
    let pseudo = generate_moves(board);
    let mut legal: Vec<Move> = Vec::new();
    let mut temp: Board = *board;
    let mut i: usize = 0;
    while i < pseudo.len()
        invariant
            i <= pseudo.len(),
            board.board_ok(),
            temp == *board,
            pseudo@ == spec_moves(*board),
            moves_in_range(pseudo@),
            legal@ == legal_upto(*board, pseudo@, i as int),
            moves_in_range(legal@),
        decreases pseudo.len() - i,
    {
        let ghost prev = legal@;
        let mv = pseudo[i];
        let captured = apply_move(&mut temp, mv);
        if !is_king_in_check(&temp, board.turn) {
            legal.push(mv);
        }
        undo_move(&mut temp, mv, captured);
        proof {
            crate::board::lemma_apply_undo(*board, mv);
            assert(legal@ =~= legal_upto(*board, pseudo@, i as int + 1));
        }
        i = i + 1;
    }
    legal
}

} // verus!
