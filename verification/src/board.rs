use vstd::prelude::*;

verus! {

/// A 64-square occupancy set, one bit per square; bit index `rank*8 + file`,
/// with bit 0 = a1 and bit 63 = h8.
pub type Bitboard = u64;

/// The side a piece belongs to, and whose turn it is to move.
#[derive(Debug, Copy, Clone, PartialEq, Eq, Structural)]
pub enum Color {
    White,
    Black,
}

/// The six piece kinds of chess.
#[derive(Debug, Copy, Clone, PartialEq, Eq, Structural)]
pub enum PieceKind {
    Pawn,
    Knight,
    Bishop,
    Rook,
    Queen,
    King,
}

impl Color {
    /// The opposite side.
    pub open spec fn spec_flip(self) -> Color {
        match self {
            Color::White => Color::Black,
            Color::Black => Color::White,
        }
    }

    pub fn flip(&self) -> (c: Color)
        ensures
            c == self.spec_flip(),
    {
        match self {
            Color::White => Color::Black,
            Color::Black => Color::White,
        }
    }
}

/// A move from one square to another. `captured` records the piece that
/// stood on the destination square when the move was applied; it exists so
/// that the move can be undone, and plays no part in move identity.
#[derive(Debug, Copy, Clone, PartialEq, Eq)]
pub struct Move {
    pub from: usize,
    pub to: usize,
    pub captured: Option<(Color, PieceKind)>,
}

impl Move {
    pub fn new(from: usize, to: usize) -> (m: Move)
        ensures
            m == (Move { from, to, captured: None }),
    {
        Move { from, to, captured: None }
    }

    pub fn with_capture(from: usize, to: usize, captured: (Color, PieceKind)) -> (m: Move)
        ensures
            m == (Move { from, to, captured: Some(captured) }),
    {
        Move { from, to, captured: Some(captured) }
    }
}

/// The letter of a board file, `a` through `h`.
pub open spec fn file_char(f: int) -> char {
    if f == 0 {
        'a'
    } else if f == 1 {
        'b'
    } else if f == 2 {
        'c'
    } else if f == 3 {
        'd'
    } else if f == 4 {
        'e'
    } else if f == 5 {
        'f'
    } else if f == 6 {
        'g'
    } else {
        'h'
    }
}

/// The digit of a board rank, `1` through `8`.
pub open spec fn rank_char(r: int) -> char {
    if r == 0 {
        '1'
    } else if r == 1 {
        '2'
    } else if r == 2 {
        '3'
    } else if r == 3 {
        '4'
    } else if r == 4 {
        '5'
    } else if r == 5 {
        '6'
    } else if r == 6 {
        '7'
    } else {
        '8'
    }
}

/// The four-character coordinate text of a move: source file and rank, then
/// destination file and rank.
pub open spec fn spec_move_text(m: Move) -> Seq<char> {
    seq![
        file_char(m.from as int % 8),
        rank_char(m.from as int / 8),
        file_char(m.to as int % 8),
        rank_char(m.to as int / 8),
    ]
}

fn file_str(f: usize) -> (s: &'static str)
    requires
        f < 8,
    ensures
        s@ == seq![file_char(f as int)],
{
    proof {
        reveal_strlit("a");
        reveal_strlit("b");
        reveal_strlit("c");
        reveal_strlit("d");
        reveal_strlit("e");
        reveal_strlit("f");
        reveal_strlit("g");
        reveal_strlit("h");
    }
    let s = if f == 0 {
        "a"
    } else if f == 1 {
        "b"
    } else if f == 2 {
        "c"
    } else if f == 3 {
        "d"
    } else if f == 4 {
        "e"
    } else if f == 5 {
        "f"
    } else if f == 6 {
        "g"
    } else {
        "h"
    };
    proof {
        assert(s@ =~= seq![file_char(f as int)]);
    }
    s
}

fn rank_str(r: usize) -> (s: &'static str)
    requires
        r < 8,
    ensures
        s@ == seq![rank_char(r as int)],
{
    proof {
        reveal_strlit("1");
        reveal_strlit("2");
        reveal_strlit("3");
        reveal_strlit("4");
        reveal_strlit("5");
        reveal_strlit("6");
        reveal_strlit("7");
        reveal_strlit("8");
    }
    let s = if r == 0 {
        "1"
    } else if r == 1 {
        "2"
    } else if r == 2 {
        "3"
    } else if r == 3 {
        "4"
    } else if r == 4 {
        "5"
    } else if r == 5 {
        "6"
    } else if r == 6 {
        "7"
    } else {
        "8"
    };
    proof {
        assert(s@ =~= seq![rank_char(r as int)]);
    }
    s
}

impl Move {
    /// The coordinate text of the move, such as `a1a2`.
    pub fn to_text(&self) -> (s: String)
        requires
            self.from < 64,
            self.to < 64,
        ensures
            s@ == spec_move_text(*self),
    {
        let ff = file_str(self.from % 8);
        let fr = rank_str(self.from / 8);
        let tf = file_str(self.to % 8);
        let tr = rank_str(self.to / 8);
        let out = ff.to_owned().concat(fr).concat(tf).concat(tr);
        proof {
            assert(out@ =~= spec_move_text(*self));
        }
        out
    }
}

/// The single-bit mask of a square.
pub open spec fn sq_bb(sq: int) -> u64 {
    1u64 << (sq as u64)
}

/// Whether square `sq` is set in the occupancy set `bb`.
pub open spec fn has_bit(bb: u64, sq: int) -> bool {
    bb & sq_bb(sq) != 0u64
}

/// The number of set bits among the low `n` bits of `bb`.
pub open spec fn count_bits(bb: u64, n: int) -> int
    decreases n,
{
    if n <= 0 {
        0
    } else {
        count_bits(bb, n - 1) + if has_bit(bb, n - 1) {
            1int
        } else {
            0int
        }
    }
}

/// A bit count over `n` positions lies between 0 and `n`.
pub proof fn lemma_count_bits_bounds(bb: u64, n: int)
    requires
        n >= 0,
    ensures
        0 <= count_bits(bb, n) <= n,
    decreases n,
{
    if n > 0 {
        lemma_count_bits_bounds(bb, n - 1);
    }
}

/// The file (column, 0-7) of a square index.
pub open spec fn file_of(sq: int) -> int {
    sq % 8
}

/// The rank (row, 0-7) of a square index.
pub open spec fn rank_of(sq: int) -> int {
    sq / 8
}

/// Whether a (file, rank) pair lies on the board.
pub open spec fn on_board(file: int, rank: int) -> bool {
    0 <= file < 8 && 0 <= rank < 8
}

/// The board: one occupancy set per (color, piece kind) pair, plus the side
/// to move. A well-formed board (`board_ok`) has each square occupied by at
/// most one piece.
#[derive(Debug, Copy, Clone, PartialEq, Eq)]
pub struct Board {
    pub wp: Bitboard,
    pub wn: Bitboard,
    pub wb: Bitboard,
    pub wr: Bitboard,
    pub wq: Bitboard,
    pub wk: Bitboard,
    pub bp: Bitboard,
    pub bn: Bitboard,
    pub bb: Bitboard,
    pub br: Bitboard,
    pub bq: Bitboard,
    pub bk: Bitboard,
    pub turn: Color,
}

impl Board {
    /// Union of the white occupancy sets.
    pub open spec fn spec_white(self) -> u64 {
        self.wp | self.wn | self.wb | self.wr | self.wq | self.wk
    }

    /// Union of the black occupancy sets.
    pub open spec fn spec_black(self) -> u64 {
        self.bp | self.bn | self.bb | self.br | self.bq | self.bk
    }

    /// Union of all twelve occupancy sets.
    pub open spec fn spec_occupied(self) -> u64 {
        self.spec_white() | self.spec_black()
    }

    /// Occupancy of the side to move.
    pub open spec fn spec_friendly(self) -> u64 {
        match self.turn {
            Color::White => self.spec_white(),
            Color::Black => self.spec_black(),
        }
    }

    /// Occupancy of the side not to move.
    pub open spec fn spec_enemy(self) -> u64 {
        match self.turn {
            Color::White => self.spec_black(),
            Color::Black => self.spec_white(),
        }
    }

    /// The piece standing on `sq`, reading the occupancy sets in a fixed
    /// order; on a well-formed board at most one set can hold the square.
    pub open spec fn spec_piece_at(self, sq: int) -> Option<(Color, PieceKind)> {
        if has_bit(self.wp, sq) {
            Some((Color::White, PieceKind::Pawn))
        } else if has_bit(self.wn, sq) {
            Some((Color::White, PieceKind::Knight))
        } else if has_bit(self.wb, sq) {
            Some((Color::White, PieceKind::Bishop))
        } else if has_bit(self.wr, sq) {
            Some((Color::White, PieceKind::Rook))
        } else if has_bit(self.wq, sq) {
            Some((Color::White, PieceKind::Queen))
        } else if has_bit(self.wk, sq) {
            Some((Color::White, PieceKind::King))
        } else if has_bit(self.bp, sq) {
            Some((Color::Black, PieceKind::Pawn))
        } else if has_bit(self.bn, sq) {
            Some((Color::Black, PieceKind::Knight))
        } else if has_bit(self.bb, sq) {
            Some((Color::Black, PieceKind::Bishop))
        } else if has_bit(self.br, sq) {
            Some((Color::Black, PieceKind::Rook))
        } else if has_bit(self.bq, sq) {
            Some((Color::Black, PieceKind::Queen))
        } else if has_bit(self.bk, sq) {
            Some((Color::Black, PieceKind::King))
        } else {
            None
        }
    }

    /// The board with square `sq` emptied in every occupancy set.
    pub open spec fn spec_clear_sq(self, sq: int) -> Board {
        Board {
            wp: self.wp & !sq_bb(sq),
            wn: self.wn & !sq_bb(sq),
            wb: self.wb & !sq_bb(sq),
            wr: self.wr & !sq_bb(sq),
            wq: self.wq & !sq_bb(sq),
            wk: self.wk & !sq_bb(sq),
            bp: self.bp & !sq_bb(sq),
            bn: self.bn & !sq_bb(sq),
            bb: self.bb & !sq_bb(sq),
            br: self.br & !sq_bb(sq),
            bq: self.bq & !sq_bb(sq),
            bk: self.bk & !sq_bb(sq),
            turn: self.turn,
        }
    }

    /// The board with `piece` added on square `sq` (nothing added for `None`).
    pub open spec fn spec_set_sq(self, sq: int, piece: Option<(Color, PieceKind)>) -> Board {
        match piece {
            None => self,
            Some((Color::White, PieceKind::Pawn)) => Board { wp: self.wp | sq_bb(sq), ..self },
            Some((Color::White, PieceKind::Knight)) => Board { wn: self.wn | sq_bb(sq), ..self },
            Some((Color::White, PieceKind::Bishop)) => Board { wb: self.wb | sq_bb(sq), ..self },
            Some((Color::White, PieceKind::Rook)) => Board { wr: self.wr | sq_bb(sq), ..self },
            Some((Color::White, PieceKind::Queen)) => Board { wq: self.wq | sq_bb(sq), ..self },
            Some((Color::White, PieceKind::King)) => Board { wk: self.wk | sq_bb(sq), ..self },
            Some((Color::Black, PieceKind::Pawn)) => Board { bp: self.bp | sq_bb(sq), ..self },
            Some((Color::Black, PieceKind::Knight)) => Board { bn: self.bn | sq_bb(sq), ..self },
            Some((Color::Black, PieceKind::Bishop)) => Board { bb: self.bb | sq_bb(sq), ..self },
            Some((Color::Black, PieceKind::Rook)) => Board { br: self.br | sq_bb(sq), ..self },
            Some((Color::Black, PieceKind::Queen)) => Board { bq: self.bq | sq_bb(sq), ..self },
            Some((Color::Black, PieceKind::King)) => Board { bk: self.bk | sq_bb(sq), ..self },
        }
    }

    /// Applying a move: lift the mover off its source square, empty the
    /// destination, put the mover down there, and pass the turn.
    pub open spec fn spec_apply(self, m: Move) -> Board {
        let moving = self.spec_piece_at(m.from as int);
        let b = self.spec_clear_sq(m.from as int).spec_clear_sq(m.to as int).spec_set_sq(
            m.to as int,
            moving,
        );
        Board { turn: b.turn.spec_flip(), ..b }
    }

    /// Undoing a move: lift the mover off the destination square, put it back
    /// on the source square, restore the captured piece, and pass the turn
    /// back.
    pub open spec fn spec_undo(self, m: Move, captured: Option<(Color, PieceKind)>) -> Board {
        let moving = self.spec_piece_at(m.to as int);
        let b = self.spec_clear_sq(m.to as int).spec_set_sq(m.from as int, moving).spec_set_sq(
            m.to as int,
            captured,
        );
        Board { turn: b.turn.spec_flip(), ..b }
    }

    /// How many occupancy sets hold square `sq`.
    pub open spec fn piece_count_at(self, sq: int) -> int {
        (if has_bit(self.wp, sq) { 1int } else { 0int }) + (if has_bit(self.wn, sq) { 1int } else { 0int })
            + (if has_bit(self.wb, sq) { 1int } else { 0int }) + (if has_bit(self.wr, sq) { 1int } else { 0int })
            + (if has_bit(self.wq, sq) { 1int } else { 0int }) + (if has_bit(self.wk, sq) { 1int } else { 0int })
            + (if has_bit(self.bp, sq) { 1int } else { 0int }) + (if has_bit(self.bn, sq) { 1int } else { 0int })
            + (if has_bit(self.bb, sq) { 1int } else { 0int }) + (if has_bit(self.br, sq) { 1int } else { 0int })
            + (if has_bit(self.bq, sq) { 1int } else { 0int }) + (if has_bit(self.bk, sq) { 1int } else { 0int })
    }

    /// Well-formedness: no square is occupied by two pieces.
    pub open spec fn board_ok(self) -> bool {
        forall|sq: int| 0 <= sq < 64 ==> #[trigger] self.piece_count_at(sq) <= 1
    }

    pub fn new() -> (b: Board)
        ensures
            b == (Board {
                wp: 0u64,
                wn: 0u64,
                wb: 0u64,
                wr: 0u64,
                wq: 0u64,
                wk: 0u64,
                bp: 0u64,
                bn: 0u64,
                bb: 0u64,
                br: 0u64,
                bq: 0u64,
                bk: 0u64,
                turn: Color::White,
            }),
    {
        Board {
            wp: 0,
            wn: 0,
            wb: 0,
            wr: 0,
            wq: 0,
            wk: 0,
            bp: 0,
            bn: 0,
            bb: 0,
            br: 0,
            bq: 0,
            bk: 0,
            turn: Color::White,
        }
    }

    /// All occupied squares.
    pub fn occupied(&self) -> (bb: Bitboard)
        ensures
            bb == self.spec_occupied(),
    {
        let white = self.wp | self.wn | self.wb | self.wr | self.wq | self.wk;
        let black = self.bp | self.bn | self.bb | self.br | self.bq | self.bk;
        white | black
    }

    /// All pieces of the side to move.
    pub fn friendly_pieces(&self) -> (bb: Bitboard)
        ensures
            bb == self.spec_friendly(),
    {
        match self.turn {
            Color::White => self.wp | self.wn | self.wb | self.wr | self.wq | self.wk,
            Color::Black => self.bp | self.bn | self.bb | self.br | self.bq | self.bk,
        }
    }

    /// All pieces of the side not to move.
    pub fn enemy_pieces(&self) -> (bb: Bitboard)
        ensures
            bb == self.spec_enemy(),
    {
        match self.turn {
            Color::White => self.bp | self.bn | self.bb | self.br | self.bq | self.bk,
            Color::Black => self.wp | self.wn | self.wb | self.wr | self.wq | self.wk,
        }
    }
}

impl Default for Board {
    fn default() -> (b: Board)
        ensures
            b == (Board {
                wp: 0u64,
                wn: 0u64,
                wb: 0u64,
                wr: 0u64,
                wq: 0u64,
                wk: 0u64,
                bp: 0u64,
                bn: 0u64,
                bb: 0u64,
                br: 0u64,
                bq: 0u64,
                bk: 0u64,
                turn: Color::White,
            }),
    {
        Board::new()
    }
}

/// The number of set bits in an occupancy set.
pub fn pop_count(bb: Bitboard) -> (n: u32)
    ensures
        n as int == count_bits(bb, 64),
        n <= 64,
{
    let mut n: u32 = 0;
    let mut sq: usize = 0;
    while sq < 64
        invariant
            sq <= 64,
            n as int <= sq as int,
            n as int == count_bits(bb, sq as int),
        decreases 64 - sq,
    {
        if bb & (1u64 << sq) != 0 {
            n = n + 1;
        }
        sq = sq + 1;
    }
    n
}

/// The file (column, 0-7) of a square index.
pub fn file(sq: usize) -> (f: usize)
    ensures
        f as int == file_of(sq as int),
{
    sq % 8
}

/// The rank (row, 0-7) of a square index.
pub fn rank(sq: usize) -> (r: usize)
    ensures
        r as int == rank_of(sq as int),
{
    sq / 8
}

/// Whether a (file, rank) pair lies on the board.
pub fn is_on_board(file: i32, rank: i32) -> (b: bool)
    ensures
        b == on_board(file as int, rank as int),
{
    file >= 0 && file < 8 && rank >= 0 && rank < 8
}

/// How clearing or setting one square changes an occupancy set, bit by bit.
proof fn lemma_bit_effects(m: u64, s: u64, q: u64)
    by (bit_vector)
    requires
        s < 64,
        q < 64,
    ensures
        q == s ==> ((m & !(1u64 << s)) & (1u64 << q)) == 0,
        q != s ==> ((m & !(1u64 << s)) & (1u64 << q)) == (m & (1u64 << q)),
        q == s ==> ((m | (1u64 << s)) & (1u64 << q)) != 0,
        q != s ==> ((m | (1u64 << s)) & (1u64 << q)) == (m & (1u64 << q)),
{
}

/// The mask-level core of the apply/undo round trip: however a single
/// occupancy set is touched by the pair (cleared at the source and the
/// destination, possibly re-set at either), it comes back to its old value.
proof fn lemma_mask_roundtrip(m: u64, f: u64, t: u64)
    by (bit_vector)
    requires
        f < 64,
        t < 64,
    ensures
        m & (1u64 << f) != 0 && m & (1u64 << t) == 0 ==> (((((m & !(1u64 << f)) & !(1u64 << t))
            | (1u64 << t)) & !(1u64 << t)) | (1u64 << f)) == m,
        m & (1u64 << f) != 0 && m & (1u64 << t) != 0 ==> ((((((m & !(1u64 << f)) & !(1u64 << t))
            | (1u64 << t)) & !(1u64 << t)) | (1u64 << f)) | (1u64 << t)) == m,
        m & (1u64 << f) == 0 && m & (1u64 << t) != 0 ==> ((((m & !(1u64 << f)) & !(1u64 << t))
            & !(1u64 << t)) | (1u64 << t)) == m,
        m & (1u64 << f) == 0 && m & (1u64 << t) == 0 ==> (((m & !(1u64 << f)) & !(1u64 << t))
            & !(1u64 << t)) == m,
{
}

/// Round-trip law: on a well-formed board, applying any move and then
/// undoing it with the captured piece that the application reported restores
/// the board bit for bit, the side to move included.
pub proof fn lemma_apply_undo(b: Board, m: Move)
    requires
        b.board_ok(),
        m.from < 64,
        m.to < 64,
    ensures
        b.spec_apply(m).spec_undo(m, b.spec_piece_at(m.to as int)) == b,
{
    let fi = m.from as int;
    let ti = m.to as int;
    let f = m.from as u64;
    let t = m.to as u64;
    assert(b.piece_count_at(fi) <= 1);
    assert(b.piece_count_at(ti) <= 1);
    lemma_mask_roundtrip(b.wp, f, t);
    lemma_mask_roundtrip(b.wn, f, t);
    lemma_mask_roundtrip(b.wb, f, t);
    lemma_mask_roundtrip(b.wr, f, t);
    lemma_mask_roundtrip(b.wq, f, t);
    lemma_mask_roundtrip(b.wk, f, t);
    lemma_mask_roundtrip(b.bp, f, t);
    lemma_mask_roundtrip(b.bn, f, t);
    lemma_mask_roundtrip(b.bb, f, t);
    lemma_mask_roundtrip(b.br, f, t);
    lemma_mask_roundtrip(b.bq, f, t);
    lemma_mask_roundtrip(b.bk, f, t);
    lemma_bit_effects(b.wp & !sq_bb(fi), t, t);
    lemma_bit_effects(b.wn & !sq_bb(fi), t, t);
    lemma_bit_effects(b.wb & !sq_bb(fi), t, t);
    lemma_bit_effects(b.wr & !sq_bb(fi), t, t);
    lemma_bit_effects(b.wq & !sq_bb(fi), t, t);
    lemma_bit_effects(b.wk & !sq_bb(fi), t, t);
    lemma_bit_effects(b.bp & !sq_bb(fi), t, t);
    lemma_bit_effects(b.bn & !sq_bb(fi), t, t);
    lemma_bit_effects(b.bb & !sq_bb(fi), t, t);
    lemma_bit_effects(b.br & !sq_bb(fi), t, t);
    lemma_bit_effects(b.bq & !sq_bb(fi), t, t);
    lemma_bit_effects(b.bk & !sq_bb(fi), t, t);
    lemma_bit_effects((b.wp & !sq_bb(fi)) & !sq_bb(ti), t, t);
    lemma_bit_effects((b.wn & !sq_bb(fi)) & !sq_bb(ti), t, t);
    lemma_bit_effects((b.wb & !sq_bb(fi)) & !sq_bb(ti), t, t);
    lemma_bit_effects((b.wr & !sq_bb(fi)) & !sq_bb(ti), t, t);
    lemma_bit_effects((b.wq & !sq_bb(fi)) & !sq_bb(ti), t, t);
    lemma_bit_effects((b.wk & !sq_bb(fi)) & !sq_bb(ti), t, t);
    lemma_bit_effects((b.bp & !sq_bb(fi)) & !sq_bb(ti), t, t);
    lemma_bit_effects((b.bn & !sq_bb(fi)) & !sq_bb(ti), t, t);
    lemma_bit_effects((b.bb & !sq_bb(fi)) & !sq_bb(ti), t, t);
    lemma_bit_effects((b.br & !sq_bb(fi)) & !sq_bb(ti), t, t);
    lemma_bit_effects((b.bq & !sq_bb(fi)) & !sq_bb(ti), t, t);
    lemma_bit_effects((b.bk & !sq_bb(fi)) & !sq_bb(ti), t, t);
}

/// Applying a move keeps the board well formed.
pub proof fn lemma_apply_ok(b: Board, m: Move)
    requires
        b.board_ok(),
        m.from < 64,
        m.to < 64,
    ensures
        b.spec_apply(m).board_ok(),
{
    let fi = m.from as int;
    let ti = m.to as int;
    let f = m.from as u64;
    let t = m.to as u64;
    let a = b.spec_apply(m);
    assert forall|q: int| 0 <= q < 64 implies #[trigger] a.piece_count_at(q) <= 1 by {
        let qu = q as u64;
        assert(b.piece_count_at(q) <= 1);
        assert(b.piece_count_at(fi) <= 1);
        lemma_bit_effects(b.wp, f, qu);
        lemma_bit_effects(b.wn, f, qu);
        lemma_bit_effects(b.wb, f, qu);
        lemma_bit_effects(b.wr, f, qu);
        lemma_bit_effects(b.wq, f, qu);
        lemma_bit_effects(b.wk, f, qu);
        lemma_bit_effects(b.bp, f, qu);
        lemma_bit_effects(b.bn, f, qu);
        lemma_bit_effects(b.bb, f, qu);
        lemma_bit_effects(b.br, f, qu);
        lemma_bit_effects(b.bq, f, qu);
        lemma_bit_effects(b.bk, f, qu);
        lemma_bit_effects(b.wp & !sq_bb(fi), t, qu);
        lemma_bit_effects(b.wn & !sq_bb(fi), t, qu);
        lemma_bit_effects(b.wb & !sq_bb(fi), t, qu);
        lemma_bit_effects(b.wr & !sq_bb(fi), t, qu);
        lemma_bit_effects(b.wq & !sq_bb(fi), t, qu);
        lemma_bit_effects(b.wk & !sq_bb(fi), t, qu);
        lemma_bit_effects(b.bp & !sq_bb(fi), t, qu);
        lemma_bit_effects(b.bn & !sq_bb(fi), t, qu);
        lemma_bit_effects(b.bb & !sq_bb(fi), t, qu);
        lemma_bit_effects(b.br & !sq_bb(fi), t, qu);
        lemma_bit_effects(b.bq & !sq_bb(fi), t, qu);
        lemma_bit_effects(b.bk & !sq_bb(fi), t, qu);
        lemma_bit_effects((b.wp & !sq_bb(fi)) & !sq_bb(ti), t, qu);
        lemma_bit_effects((b.wn & !sq_bb(fi)) & !sq_bb(ti), t, qu);
        lemma_bit_effects((b.wb & !sq_bb(fi)) & !sq_bb(ti), t, qu);
        lemma_bit_effects((b.wr & !sq_bb(fi)) & !sq_bb(ti), t, qu);
        lemma_bit_effects((b.wq & !sq_bb(fi)) & !sq_bb(ti), t, qu);
        lemma_bit_effects((b.wk & !sq_bb(fi)) & !sq_bb(ti), t, qu);
        lemma_bit_effects((b.bp & !sq_bb(fi)) & !sq_bb(ti), t, qu);
        lemma_bit_effects((b.bn & !sq_bb(fi)) & !sq_bb(ti), t, qu);
        lemma_bit_effects((b.bb & !sq_bb(fi)) & !sq_bb(ti), t, qu);
        lemma_bit_effects((b.br & !sq_bb(fi)) & !sq_bb(ti), t, qu);
        lemma_bit_effects((b.bq & !sq_bb(fi)) & !sq_bb(ti), t, qu);
        lemma_bit_effects((b.bk & !sq_bb(fi)) & !sq_bb(ti), t, qu);
    }
}

/// An empty occupancy set holds no square.
pub proof fn lemma_zero_has_no_bit(q: u64)
    by (bit_vector)
    requires
        q < 64,
    ensures
        0u64 & (1u64 << q) == 0,
{
}

/// Putting a piece down on an empty square leaves every other square as it
/// was and occupies its own square once at most.
pub proof fn lemma_set_on_empty(b: Board, sq: int, p: Option<(Color, PieceKind)>)
    requires
        0 <= sq < 64,
        b.piece_count_at(sq) == 0,
    ensures
        forall|q: int|
            0 <= q < 64 && q != sq ==> #[trigger] b.spec_set_sq(sq, p).piece_count_at(q)
                == b.piece_count_at(q),
        b.spec_set_sq(sq, p).piece_count_at(sq) <= 1,
{
    let s = sq as u64;
    assert forall|q: int| 0 <= q < 64 && q != sq implies #[trigger] b.spec_set_sq(
        sq,
        p,
    ).piece_count_at(q) == b.piece_count_at(q) by {
        let qu = q as u64;
        lemma_bit_effects(b.wp, s, qu);
        lemma_bit_effects(b.wn, s, qu);
        lemma_bit_effects(b.wb, s, qu);
        lemma_bit_effects(b.wr, s, qu);
        lemma_bit_effects(b.wq, s, qu);
        lemma_bit_effects(b.wk, s, qu);
        lemma_bit_effects(b.bp, s, qu);
        lemma_bit_effects(b.bn, s, qu);
        lemma_bit_effects(b.bb, s, qu);
        lemma_bit_effects(b.br, s, qu);
        lemma_bit_effects(b.bq, s, qu);
        lemma_bit_effects(b.bk, s, qu);
    }
    lemma_bit_effects(b.wp, s, s);
    lemma_bit_effects(b.wn, s, s);
    lemma_bit_effects(b.wb, s, s);
    lemma_bit_effects(b.wr, s, s);
    lemma_bit_effects(b.wq, s, s);
    lemma_bit_effects(b.wk, s, s);
    lemma_bit_effects(b.bp, s, s);
    lemma_bit_effects(b.bn, s, s);
    lemma_bit_effects(b.bb, s, s);
    lemma_bit_effects(b.br, s, s);
    lemma_bit_effects(b.bq, s, s);
    lemma_bit_effects(b.bk, s, s);
}

/// The eight knight jumps, as (file delta, rank delta).
pub open spec fn knight_off_s(k: int) -> (int, int) {
    if k == 0 {
        (1, 2)
    } else if k == 1 {
        (2, 1)
    } else if k == 2 {
        (2, -1)
    } else if k == 3 {
        (1, -2)
    } else if k == 4 {
        (-1, -2)
    } else if k == 5 {
        (-2, -1)
    } else if k == 6 {
        (-2, 1)
    } else {
        (-1, 2)
    }
}

pub fn knight_off(k: usize) -> (o: (i32, i32))
    requires
        k < 8,
    ensures
        o.0 as int == knight_off_s(k as int).0,
        o.1 as int == knight_off_s(k as int).1,
        -2 <= o.0 <= 2,
        -2 <= o.1 <= 2,
{
    if k == 0 {
        (1, 2)
    } else if k == 1 {
        (2, 1)
    } else if k == 2 {
        (2, -1)
    } else if k == 3 {
        (1, -2)
    } else if k == 4 {
        (-1, -2)
    } else if k == 5 {
        (-2, -1)
    } else if k == 6 {
        (-2, 1)
    } else {
        (-1, 2)
    }
}

/// The eight queen directions, as (file delta, rank delta): the four rook
/// directions first, then the four bishop diagonals.
pub open spec fn queen_dir_s(k: int) -> (int, int) {
    if k == 0 {
        (0, 1)
    } else if k == 1 {
        (0, -1)
    } else if k == 2 {
        (1, 0)
    } else if k == 3 {
        (-1, 0)
    } else if k == 4 {
        (1, 1)
    } else if k == 5 {
        (1, -1)
    } else if k == 6 {
        (-1, 1)
    } else {
        (-1, -1)
    }
}

pub fn queen_dir(k: usize) -> (o: (i32, i32))
    requires
        k < 8,
    ensures
        o.0 as int == queen_dir_s(k as int).0,
        o.1 as int == queen_dir_s(k as int).1,
{
    if k == 0 {
        (0, 1)
    } else if k == 1 {
        (0, -1)
    } else if k == 2 {
        (1, 0)
    } else if k == 3 {
        (-1, 0)
    } else if k == 4 {
        (1, 1)
    } else if k == 5 {
        (1, -1)
    } else if k == 6 {
        (-1, 1)
    } else {
        (-1, -1)
    }
}

/// One-sided distance to the board edge along one axis, the measure that a
/// sliding walk decreases.
pub open spec fn dir_dist(x: int, d: int) -> int {
    if d > 0 {
        8 - x
    } else if d < 0 {
        x + 1
    } else {
        8
    }
}

} // verus!
