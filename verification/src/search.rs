use vstd::prelude::*;

use crate::board::Board;
use crate::board::Move;
use crate::board::PieceKind;
use crate::evaluate::evaluate_board;
use crate::evaluate::spec_evaluate;
use crate::moves::generate_legal_moves;
use crate::moves::moves_in_range;
use crate::moves::spec_legal_moves;
use crate::utils::apply_move;
use crate::utils::get_piece_at;
use crate::utils::undo_move;

verus! {

/// The material scale used for move ordering alone.
pub open spec fn piece_order_value(k: PieceKind) -> int {
    match k {
        PieceKind::Pawn => 100,
        PieceKind::Knight => 320,
        PieceKind::Bishop => 330,
        PieceKind::Rook => 500,
        PieceKind::Queen => 900,
        PieceKind::King => 20000,
    }
}

fn get_piece_value(kind: PieceKind) -> (v: i32)
    ensures
        v as int == piece_order_value(kind),
        100 <= v <= 20000,
{
    match kind {
        PieceKind::Pawn => 100,
        PieceKind::Knight => 320,
        PieceKind::Bishop => 330,
        PieceKind::Rook => 500,
        PieceKind::Queen => 900,
        PieceKind::King => 20000,
    }
}

/// The ordering score of a move: captures are rated by the victim's value
/// tenfold minus the attacker's value, and quiet moves score zero.
pub open spec fn spec_score_move(b: Board, m: Move) -> int {
    match b.spec_piece_at(m.to as int) {
        Some(victim) => {
            let vv = piece_order_value(victim.1) * 10;
            match b.spec_piece_at(m.from as int) {
                Some(attacker) => vv - piece_order_value(attacker.1),
                None => vv,
            }
        },
        None => 0,
    }
}

fn score_move(board: &Board, mv: Move) -> (score: i32)
    requires
        mv.from < 64,
        mv.to < 64,
    ensures
        score as int == spec_score_move(*board, mv),
        -20000 <= score <= 200000,
{
    match get_piece_at(board, mv.to) {
        Some(captured_piece) => {
            let victim_value = get_piece_value(captured_piece.1);
            match get_piece_at(board, mv.from) {
                Some(attacker_piece) => {
                    let attacker_value = get_piece_value(attacker_piece.1);
                    victim_value * 10 - attacker_value
                },
                None => victim_value * 10,
            }
        },
        None => 0,
    }
}

/// Insert a move into a list sorted by descending ordering score, behind
/// every move that scores at least as much: a stable insertion.
pub open spec fn insert_move(b: Board, m: Move, s: Seq<Move>) -> Seq<Move>
    decreases s.len(),
{
    if s.len() > 0 && spec_score_move(b, s[0]) >= spec_score_move(b, m) {
        seq![s[0]] + insert_move(b, m, s.drop_first())
    } else {
        seq![m] + s
    }
}

/// The first `n` moves of `ms`, insertion-sorted by descending ordering
/// score.
pub open spec fn sort_upto(b: Board, ms: Seq<Move>, n: int) -> Seq<Move>
    decreases n,
{
    if n <= 0 {
        Seq::empty()
    } else {
        insert_move(b, ms[n - 1], sort_upto(b, ms, n - 1))
    }
}

/// The move list reordered for better pruning: captures first, by
/// most-valuable victim and least-valuable attacker.
pub open spec fn spec_sorted_moves(b: Board, ms: Seq<Move>) -> Seq<Move> {
    sort_upto(b, ms, ms.len() as int)
}

/// Inserting at the position the scan found is the recursive insertion.
proof fn lemma_insert_at(b: Board, m: Move, s: Seq<Move>, j: int)
    requires
        0 <= j <= s.len(),
        forall|idx: int| 0 <= idx < j ==> spec_score_move(b, #[trigger] s[idx]) >= spec_score_move(
            b,
            m,
        ),
        j == s.len() || spec_score_move(b, s[j]) < spec_score_move(b, m),
    ensures
        s.insert(j, m) =~= insert_move(b, m, s),
    decreases j,
{
    if j == 0 {
        assert(s.insert(0, m) =~= seq![m] + s);
    } else {
        lemma_insert_at(b, m, s.drop_first(), j - 1);
        assert(s.insert(j, m) =~= seq![s[0]] + s.drop_first().insert(j - 1, m));
    }
}

/// Order the moves for better pruning: a stable insertion sort by
/// descending capture score.
fn sort_moves(board: &Board, moves: &Vec<Move>) -> (sorted: Vec<Move>)
    requires
        moves_in_range(moves@),
    ensures
        sorted@ == spec_sorted_moves(*board, moves@),
        moves_in_range(sorted@),
{
    let mut sorted: Vec<Move> = Vec::new();
    let mut i: usize = 0;
    while i < moves.len()
        invariant
            i <= moves.len(),
            moves_in_range(moves@),
            sorted@ == sort_upto(*board, moves@, i as int),
            moves_in_range(sorted@),
        decreases moves.len() - i,
    {
        let mv = moves[i];
        let msc = score_move(board, mv);
        let mut j: usize = 0;
        while j < sorted.len() && score_move(board, sorted[j]) >= msc
            invariant
                j <= sorted.len(),
                moves_in_range(sorted@),
                msc as int == spec_score_move(*board, mv),
                forall|idx: int| 0 <= idx < j ==> spec_score_move(*board, #[trigger] sorted@[idx])
                    >= spec_score_move(*board, mv),
            decreases sorted.len() - j,
        {
            j = j + 1;
        }
        sorted.insert(j, mv);
        proof {
            lemma_insert_at(*board, mv, sort_upto(*board, moves@, i as int), j as int);
        }
        i = i + 1;
    }
    sorted
}

/// The alpha-beta scan of a maximizing or minimizing node, walking the move
/// list from index `i` with the window (`alpha`, `beta`) and the best value
/// seen so far.
pub open spec fn mm_loop(
    b: Board,
    ms: Seq<Move>,
    i: int,
    depth: int,
    alpha: int,
    beta: int,
    maximizing: bool,
    best: int,
) -> int
    decreases depth, 0int, ms.len() - i,
    when depth >= 1 && 0 <= i
{
    if i >= ms.len() {
        best
    } else {
        let val = spec_minimax(b.spec_apply(ms[i]), depth - 1, alpha, beta, !maximizing);
        if maximizing {
            let best2 = if val > best {
                val
            } else {
                best
            };
            let alpha2 = if best2 > alpha {
                best2
            } else {
                alpha
            };
            if beta <= alpha2 {
                best2
            } else {
                mm_loop(b, ms, i + 1, depth, alpha2, beta, true, best2)
            }
        } else {
            let best2 = if val < best {
                val
            } else {
                best
            };
            let beta2 = if best2 < beta {
                best2
            } else {
                beta
            };
            if beta2 <= alpha {
                best2
            } else {
                mm_loop(b, ms, i + 1, depth, alpha, beta2, false, best2)
            }
        }
    }
}

/// Fixed-depth minimax with alpha-beta pruning. At depth zero it is exactly
/// the evaluator; above, it folds the legal moves through the alpha-beta
/// scan. The search always scores positions White-positive, whoever is to
/// move.
pub open spec fn spec_minimax(b: Board, depth: int, alpha: int, beta: int, maximizing: bool) -> int
    decreases depth, 1int, 0int,
    when depth >= 0
{
    if depth <= 0 {
        spec_evaluate(b)
    } else {
        let ms = spec_legal_moves(b);
        if maximizing {
            mm_loop(b, ms, 0, depth, alpha, beta, true, i32::MIN as int)
        } else {
            mm_loop(b, ms, 0, depth, alpha, beta, false, i32::MAX as int)
        }
    }
}

/// Minimax with alpha-beta pruning over the shared board, which is restored
/// to its starting state before returning; at depth zero the result is the
/// evaluator's score of the position, exactly.
#[verifier::rlimit(100)]
pub fn minimax(board: &mut Board, depth: i32, alpha: i32, beta: i32, maximizing: bool) -> (res: i32)
    requires
        old(board).board_ok(),
        depth >= 0,
    ensures
        *final(board) == *old(board),
        res as int == spec_minimax(*old(board), depth as int, alpha as int, beta as int, maximizing),
        depth == 0 ==> res as int == spec_evaluate(*old(board)),
    decreases depth,
{
    if depth == 0 {
        return evaluate_board(board);
    }
    let ghost b0 = *board;
    let moves_list = generate_legal_moves(board);
    if maximizing {
        let mut best: i32 = i32::MIN;
        let mut alpha_m = alpha;
        let mut i: usize = 0;
        while i < moves_list.len()
            invariant
                i <= moves_list.len(),
                depth >= 1,
                maximizing,
                b0 == *old(board),
                *board == b0,
                b0.board_ok(),
                moves_list@ == spec_legal_moves(b0),
                moves_in_range(moves_list@),
                mm_loop(
                    b0,
                    moves_list@,
                    i as int,
                    depth as int,
                    alpha_m as int,
                    beta as int,
                    true,
                    best as int,
                ) == spec_minimax(b0, depth as int, alpha as int, beta as int, true),
            decreases moves_list.len() - i,
        {
            let ghost alpha_in = alpha_m;
            let ghost best_in = best;
            let mv = moves_list[i];
            let captured = apply_move(board, mv);
            let val = minimax(board, depth - 1, alpha_m, beta, false);
            undo_move(board, mv, captured);
            proof {
                crate::board::lemma_apply_undo(b0, mv);
            }
            if val > best {
                best = val;
            }
            if best > alpha_m {
                alpha_m = best;
            }
            if beta <= alpha_m {
                proof {
                    assert(mm_loop(
                        b0,
                        moves_list@,
                        i as int,
                        depth as int,
                        alpha_in as int,
                        beta as int,
                        true,
                        best_in as int,
                    ) == best as int);
                }
                return best;
            }
            i = i + 1;
        }
        best
    } else {
        let mut best: i32 = i32::MAX;
        let mut beta_m = beta;
        let mut i: usize = 0;
        while i < moves_list.len()
            invariant
                i <= moves_list.len(),
                depth >= 1,
                !maximizing,
                b0 == *old(board),
                *board == b0,
                b0.board_ok(),
                moves_list@ == spec_legal_moves(b0),
                moves_in_range(moves_list@),
                mm_loop(
                    b0,
                    moves_list@,
                    i as int,
                    depth as int,
                    alpha as int,
                    beta_m as int,
                    false,
                    best as int,
                ) == spec_minimax(b0, depth as int, alpha as int, beta as int, false),
            decreases moves_list.len() - i,
        {
            let ghost beta_in = beta_m;
            let ghost best_in = best;
            let mv = moves_list[i];
            let captured = apply_move(board, mv);
            let val = minimax(board, depth - 1, alpha, beta_m, true);
            undo_move(board, mv, captured);
            proof {
                crate::board::lemma_apply_undo(b0, mv);
            }
            if val < best {
                best = val;
            }
            if best < beta_m {
                beta_m = best;
            }
            if beta_m <= alpha {
                proof {
                    assert(mm_loop(
                        b0,
                        moves_list@,
                        i as int,
                        depth as int,
                        alpha as int,
                        beta_in as int,
                        false,
                        best_in as int,
                    ) == best as int);
                }
                return best;
            }
            i = i + 1;
        }
        best
    }
}

/// The root scan: like the maximizing alpha-beta scan, but tracking the move
/// that yields the best score rather than the score alone.
pub open spec fn root_loop(
    b: Board,
    ms: Seq<Move>,
    i: int,
    depth: int,
    alpha: int,
    beta: int,
    best_score: int,
    best_move: Move,
) -> Move
    decreases ms.len() - i,
    when 0 <= i && depth >= 1
{
    if i >= ms.len() {
        best_move
    } else {
        let score = spec_minimax(b.spec_apply(ms[i]), depth - 1, alpha, beta, false);
        let bs2 = if score > best_score {
            score
        } else {
            best_score
        };
        let bm2 = if score > best_score {
            ms[i]
        } else {
            best_move
        };
        let alpha2 = if bs2 > alpha {
            bs2
        } else {
            alpha
        };
        if beta <= alpha2 {
            bm2
        } else {
            root_loop(b, ms, i + 1, depth, alpha2, beta, bs2, bm2)
        }
    }
}

/// The move the search settles on: the legal moves, ordered by capture
/// score, scanned by the root loop; the identical-square default when the
/// depth is zero or no legal move exists.
pub open spec fn spec_find_best_move(b: Board, depth: int) -> Move {
    if depth <= 0 {
        Move { from: 0, to: 0, captured: None }
    } else {
        let ms = spec_sorted_moves(b, spec_legal_moves(b));
        root_loop(
            b,
            ms,
            0,
            depth,
            i32::MIN as int,
            i32::MAX as int,
            i32::MIN as int,
            Move { from: 0, to: 0, captured: None },
        )
    }
}

/// Find the best move for the position by fixed-depth alpha-beta search.
/// The root is always treated as the maximizer of the White-positive score,
/// whichever side is to move. With no legal move, or at depth zero, the
/// degenerate move from square 0 to square 0 comes back.
pub fn find_best_move(board: Board, depth: i32) -> (best: Move)
    requires
        board.board_ok(),
        depth >= 0,
    ensures
        best == spec_find_best_move(board, depth as int),
{
    let mut work = board;
    if depth == 0 {
        return Move::new(0, 0);
    }
    let legal = generate_legal_moves(&work);
    let moves_list = sort_moves(&work, &legal);
    let mut best_score: i32 = i32::MIN;
    let mut best_move = Move::new(0, 0);
    let mut alpha: i32 = i32::MIN;
    let beta: i32 = i32::MAX;
    let mut i: usize = 0;
    while i < moves_list.len()
        invariant
            i <= moves_list.len(),
            depth >= 1,
            work == board,
            board.board_ok(),
            moves_list@ == spec_sorted_moves(board, spec_legal_moves(board)),
            moves_in_range(moves_list@),
            beta == i32::MAX,
            root_loop(
                board,
                moves_list@,
                i as int,
                depth as int,
                alpha as int,
                beta as int,
                best_score as int,
                best_move,
            ) == spec_find_best_move(board, depth as int),
        decreases moves_list.len() - i,
    {
        let ghost alpha_in = alpha;
        let ghost bs_in = best_score;
        let ghost bm_in = best_move;
        let mv = moves_list[i];
        let captured = apply_move(&mut work, mv);
        let score = minimax(&mut work, depth - 1, alpha, beta, false);
        undo_move(&mut work, mv, captured);
        proof {
            crate::board::lemma_apply_undo(board, mv);
        }
        if score > best_score {
            best_score = score;
            best_move = mv;
        }
        if best_score > alpha {
            alpha = best_score;
        }
        if beta <= alpha {
            proof {
                assert(root_loop(
                    board,
                    moves_list@,
                    i as int,
                    depth as int,
                    alpha_in as int,
                    beta as int,
                    bs_in as int,
                    bm_in,
                ) == best_move);
            }
            return best_move;
        }
        i = i + 1;
    }
    best_move
}

/// With no legal move at the root, the search settles on the degenerate
/// move whose two squares coincide, whatever the depth; it does not fail.
pub proof fn lemma_no_legal_moves_default(b: Board, depth: int)
    requires
        depth >= 1,
        spec_legal_moves(b).len() == 0,
    ensures
        spec_find_best_move(b, depth) == (Move { from: 0, to: 0, captured: None }),
{
    assert(spec_sorted_moves(b, spec_legal_moves(b)) =~= Seq::<Move>::empty());
}

/// At depth zero the search does not look at the position at all: it hands
/// back the degenerate move at once.
pub proof fn lemma_depth_zero_default(b: Board)
    ensures
        spec_find_best_move(b, 0) == (Move { from: 0, to: 0, captured: None }),
{
}

/// Determinism of the search: the best move is a function of the position
/// and the depth alone, so two identical calls return the same move.
pub proof fn lemma_find_best_move_deterministic(b: Board, depth: int, m1: Move, m2: Move)
    requires
        m1 == spec_find_best_move(b, depth),
        m2 == spec_find_best_move(b, depth),
    ensures
        m1 == m2,
{
}

/// The minimax base case is exact: at depth zero the search value is the
/// evaluator's score of the very same position, whatever the window.
pub proof fn lemma_minimax_base_case(b: Board, alpha: int, beta: int, maximizing: bool)
    ensures
        spec_minimax(b, 0, alpha, beta, maximizing) == spec_evaluate(b),
{
}

} // verus!
