use vstd::prelude::*;

use crate::board::Board;
use crate::board::Color;
use crate::board::Move;
use crate::board::PieceKind;
use crate::utils::set_piece_at;
use vstd::string::StringSliceAdditionalSpecFns;

verus! {

/// The board with nothing on it and White to move.
pub open spec fn empty_board() -> Board {
    Board {
        wp: 0u64,
        wn: 0u64,
        wb: 0u64,
        wr: 0u64,
        wq: 0u64,
        wk: 0u64,
        bp: 0u64,
        bn: 0u64,
        bb: 0u64,
        br: 0u64,
        bq: 0u64,
        bk: 0u64,
        turn: Color::White,
    }
}

/// The first position at or after `i` that does not hold a space.
pub open spec fn skip_spaces(s: Seq<u8>, i: int) -> int
    decreases s.len() - i,
{
    if 0 <= i < s.len() && s[i] == 32 {
        skip_spaces(s, i + 1)
    } else {
        i
    }
}

/// The first position at or after `i` that holds a space, or the end.
pub open spec fn token_end(s: Seq<u8>, i: int) -> int
    decreases s.len() - i,
{
    if 0 <= i < s.len() && s[i] != 32 {
        token_end(s, i + 1)
    } else {
        i
    }
}

/// The piece a placement letter names, if it names one.
pub open spec fn piece_of_letter(c: u8) -> Option<(Color, PieceKind)> {
    if c == 80 {
        Some((Color::White, PieceKind::Pawn))
    } else if c == 78 {
        Some((Color::White, PieceKind::Knight))
    } else if c == 66 {
        Some((Color::White, PieceKind::Bishop))
    } else if c == 82 {
        Some((Color::White, PieceKind::Rook))
    } else if c == 81 {
        Some((Color::White, PieceKind::Queen))
    } else if c == 75 {
        Some((Color::White, PieceKind::King))
    } else if c == 112 {
        Some((Color::Black, PieceKind::Pawn))
    } else if c == 110 {
        Some((Color::Black, PieceKind::Knight))
    } else if c == 98 {
        Some((Color::Black, PieceKind::Bishop))
    } else if c == 114 {
        Some((Color::Black, PieceKind::Rook))
    } else if c == 113 {
        Some((Color::Black, PieceKind::Queen))
    } else if c == 107 {
        Some((Color::Black, PieceKind::King))
    } else {
        None
    }
}

/// Walk the piece-placement field: `/` steps down one rank, a digit skips
/// that many files, a recognised letter puts its piece down, and any other
/// character is passed over silently, still costing one file. The walk ends
/// at a space or at the end of the text.
pub open spec fn place_loop(s: Seq<u8>, i: int, rank: int, file: int, b: Board) -> Board
    decreases s.len() - i,
{
    if !(0 <= i < s.len()) || s[i] == 32 {
        b
    } else {
        let c = s[i];
        if c == 47 {
            place_loop(
                s,
                i + 1,
                if rank >= 0 {
                    rank - 1
                } else {
                    rank
                },
                0,
                b,
            )
        } else if 48 <= c <= 57 {
            let nf = file + (c - 48);
            place_loop(
                s,
                i + 1,
                rank,
                if nf > 8 {
                    9
                } else {
                    nf
                },
                b,
            )
        } else {
            let b2 = if 0 <= rank < 8 && 0 <= file < 8 {
                b.spec_set_sq(rank * 8 + file, piece_of_letter(c))
            } else {
                b
            };
            place_loop(
                s,
                i + 1,
                rank,
                if file + 1 > 8 {
                    9
                } else {
                    file + 1
                },
                b2,
            )
        }
    }
}

/// What parsing a positional record yields: the piece placement read from
/// the first token, and the side to move read from a second token that is
/// exactly `b`; anything else, or no second token, leaves White to move.
pub open spec fn spec_parse_fen(s: Seq<u8>) -> Board {
    let i0 = skip_spaces(s, 0);
    let b = place_loop(s, i0, 7, 0, empty_board());
    let t1 = token_end(s, i0);
    let j = skip_spaces(s, t1);
    let k = token_end(s, j);
    let black = k == j + 1 && 0 <= j < s.len() && s[j] == 98;
    Board {
        turn: if black {
            Color::Black
        } else {
            Color::White
        },
        ..b
    }
}

/// A square the placement walk has not reached yet: on a rank below the
/// current one, or on the current rank at or past the current file.
pub open spec fn untouched(q: int, rank: int, file: int) -> bool {
    crate::board::rank_of(q) < rank || (crate::board::rank_of(q) == rank && crate::board::file_of(q)
        >= file)
}

/// Parse a simplified positional record: eight rank strings from the top
/// rank down, separated by `/`, uppercase letters for White and lowercase
/// for Black, digits for runs of empty squares, then a side-to-move token
/// `w` or `b`. Unrecognised characters are ignored; malformed fields give a
/// partially populated board. The board that comes back is always well
/// formed.
pub fn parse_fen(fen: &str) -> (board: Board)
    ensures
        board == spec_parse_fen(fen.spec_bytes()),
        board.board_ok(),
{
    let bytes = fen.as_bytes();
    let ghost s = fen.spec_bytes();
    let n = bytes.len();
    let mut board = Board::new();
    proof {
        assert forall|q: int| 0 <= q < 64 implies #[trigger] board.piece_count_at(q) == 0 by {
            crate::board::lemma_zero_has_no_bit(q as u64);
        }
    }

    let mut i: usize = 0;
    while i < n && bytes[i] == 32
        invariant
            i <= n,
            n == s.len(),
            bytes@ == s,
            skip_spaces(s, i as int) == skip_spaces(s, 0),
        decreases n - i,
    {
        i = i + 1;
    }
    assert(i as int == skip_spaces(s, 0));
    let ghost i0 = i as int;

    let mut rank: i32 = 7;
    let mut file: i32 = 0;
    while i < n && bytes[i] != 32
        invariant
            i0 <= i as int <= n,
            n == s.len(),
            bytes@ == s,
            forall|x: int| i0 <= x < i as int ==> s[x] != 32,
            -1 <= rank <= 7,
            0 <= file <= 9,
            board.board_ok(),
            board.turn == Color::White,
            forall|q: int|
                0 <= q < 64 && untouched(q, rank as int, file as int)
                    ==> #[trigger] board.piece_count_at(q) == 0,
            place_loop(s, i as int, rank as int, file as int, board) == place_loop(
                s,
                i0,
                7,
                0,
                empty_board(),
            ),
        decreases n - i,
    {
        let c = bytes[i];
        if c == 47 {
            if rank >= 0 {
                rank = rank - 1;
            }
            file = 0;
        } else if 48 <= c && c <= 57 {
            let nf = file + (c - 48) as i32;
            file = if nf > 8 {
                9
            } else {
                nf
            };
        } else {
            if rank >= 0 && file < 8 {
                let square = (rank * 8 + file) as usize;
                let piece = letter_piece(c);
                proof {
                    assert(board.piece_count_at(square as int) == 0);
                    crate::board::lemma_set_on_empty(board, square as int, piece_of_letter(c));
                }
                set_piece_at(&mut board, square, piece);
            }
            file = if file + 1 > 8 {
                9
            } else {
                file + 1
            };
        }
        i = i + 1;
    }
    assert(board == place_loop(s, i0, 7, 0, empty_board()));

    let ghost t1 = i as int;
    assert(t1 == token_end(s, i0)) by {
        lemma_token_end_from(s, i0, t1);
    };
    let mut j: usize = i;
    while j < n && bytes[j] == 32
        invariant
            j <= n,
            n == s.len(),
            bytes@ == s,
            skip_spaces(s, j as int) == skip_spaces(s, t1),
        decreases n - j,
    {
        j = j + 1;
    }
    assert(j as int == skip_spaces(s, t1));
    let mut k: usize = j;
    while k < n && bytes[k] != 32
        invariant
            j <= k <= n,
            n == s.len(),
            bytes@ == s,
            token_end(s, k as int) == token_end(s, j as int),
        decreases n - k,
    {
        k = k + 1;
    }
    assert(k as int == token_end(s, j as int));

    let black = k - j == 1 && bytes[j] == 98;
    board.turn = if black {
        Color::Black
    } else {
        Color::White
    };
    proof {
        assert(forall|q: int|
            0 <= q < 64 ==> #[trigger] board.piece_count_at(q) == place_loop(
                s,
                i0,
                7,
                0,
                empty_board(),
            ).piece_count_at(q));
    }
    board
}

/// A walk that started inside the token it ends is the token's end.
proof fn lemma_token_end_from(s: Seq<u8>, i: int, t: int)
    requires
        0 <= i <= t <= s.len(),
        forall|x: int| i <= x < t ==> s[x] != 32,
        t == s.len() || s[t] == 32,
    ensures
        token_end(s, i) == t,
    decreases t - i,
{
    if i < t {
        lemma_token_end_from(s, i + 1, t);
    }
}

/// The piece a placement letter names, if it names one.
fn letter_piece(c: u8) -> (p: Option<(Color, PieceKind)>)
    ensures
        p == piece_of_letter(c),
{
    if c == 80 {
        Some((Color::White, PieceKind::Pawn))
    } else if c == 78 {
        Some((Color::White, PieceKind::Knight))
    } else if c == 66 {
        Some((Color::White, PieceKind::Bishop))
    } else if c == 82 {
        Some((Color::White, PieceKind::Rook))
    } else if c == 81 {
        Some((Color::White, PieceKind::Queen))
    } else if c == 75 {
        Some((Color::White, PieceKind::King))
    } else if c == 112 {
        Some((Color::Black, PieceKind::Pawn))
    } else if c == 110 {
        Some((Color::Black, PieceKind::Knight))
    } else if c == 98 {
        Some((Color::Black, PieceKind::Bishop))
    } else if c == 114 {
        Some((Color::Black, PieceKind::Rook))
    } else if c == 113 {
        Some((Color::Black, PieceKind::Queen))
    } else if c == 107 {
        Some((Color::Black, PieceKind::King))
    } else {
        None
    }
}

/// What a four-letter coordinate text names: file letters from `a`, rank
/// digits from `1`, source square then destination square; texts that are
/// too short or name squares off the board yield nothing.
pub open spec fn spec_uci_move(s: Seq<u8>) -> Option<Move> {
    if s.len() < 4 {
        None
    } else {
        let ff = s[0] - 97;
        let fr = s[1] - 49;
        let tf = s[2] - 97;
        let tr = s[3] - 49;
        let from = fr * 8 + ff;
        let to = tr * 8 + tf;
        if 0 <= from < 64 && 0 <= to < 64 {
            Some(Move { from: from as usize, to: to as usize, captured: None })
        } else {
            None
        }
    }
}

/// Read a move from coordinate text such as `e2e4`. Malformed text, or a
/// square outside the board, yields `None`.
pub fn convert_uci_to_move(uci: &str) -> (m: Option<Move>)
    ensures
        m == spec_uci_move(uci.spec_bytes()),
        m is Some ==> m.unwrap().from < 64 && m.unwrap().to < 64,
{
    let bytes = uci.as_bytes();
    if bytes.len() < 4 {
        return None;
    }
    let ff = bytes[0] as i32 - 97;
    let fr = bytes[1] as i32 - 49;
    let tf = bytes[2] as i32 - 97;
    let tr = bytes[3] as i32 - 49;
    let from = fr * 8 + ff;
    let to = tr * 8 + tf;
    if 0 <= from && from < 64 && 0 <= to && to < 64 {
        Some(Move::new(from as usize, to as usize))
    } else {
        None
    }
}

} // verus!
