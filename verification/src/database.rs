use vstd::prelude::*;

use vstd::string::StrSliceExecFns;

verus! {

/// The whitespace characters that line trimming and token splitting treat
/// as blank.
pub open spec fn is_ws(c: char) -> bool {
    c == ' ' || c == '\t' || c == '\r' || c == '\n'
}

/// The first position at or after `lo` (and before `hi`) holding something
/// other than whitespace.
pub open spec fn skip_ws_r(s: Seq<char>, lo: int, hi: int) -> int
    decreases hi - lo,
{
    if lo < hi && 0 <= lo < s.len() && is_ws(s[lo]) {
        skip_ws_r(s, lo + 1, hi)
    } else {
        lo
    }
}

/// The position after the last non-whitespace character in `lo..hi`.
pub open spec fn rskip_ws_r(s: Seq<char>, lo: int, hi: int) -> int
    decreases hi - lo,
{
    if lo < hi && 0 <= hi - 1 < s.len() && is_ws(s[hi - 1]) {
        rskip_ws_r(s, lo, hi - 1)
    } else {
        hi
    }
}

/// The first position of the three-character key separator in `i..hi`, or
/// -1 when the range holds none.
pub open spec fn sep_pos(s: Seq<char>, i: int, hi: int) -> int
    decreases hi - i,
{
    if !(0 <= i && i + 3 <= hi && hi <= s.len()) {
        -1
    } else if s[i] == ' ' && s[i + 1] == ':' && s[i + 2] == ' ' {
        i
    } else {
        sep_pos(s, i + 1, hi)
    }
}

/// The whitespace-separated tokens of `i..hi`, scanned left to right;
/// `start` marks where the token being read began, or -1 outside a token,
/// and `acc` holds the tokens already read.
pub open spec fn tokens_r(s: Seq<char>, i: int, hi: int, start: int, acc: Seq<Seq<char>>) -> Seq<
    Seq<char>,
>
    decreases hi - i,
{
    if !(0 <= i < hi && hi <= s.len()) {
        if start >= 0 {
            acc.push(s.subrange(start, i))
        } else {
            acc
        }
    } else if is_ws(s[i]) {
        tokens_r(
            s,
            i + 1,
            hi,
            -1,
            if start >= 0 {
                acc.push(s.subrange(start, i))
            } else {
                acc
            },
        )
    } else {
        tokens_r(
            s,
            i + 1,
            hi,
            if start >= 0 {
                start
            } else {
                i
            },
            acc,
        )
    }
}

/// The abstract shape of the table: keys with their move texts.
pub type DbView = Seq<(Seq<char>, Seq<Seq<char>>)>;

/// The index of `key` in the table at or after `i`, or -1.
pub open spec fn db_find(d: DbView, key: Seq<char>, i: int) -> int
    decreases d.len() - i,
{
    if !(0 <= i < d.len()) {
        -1
    } else if d[i].0 == key {
        i
    } else {
        db_find(d, key, i + 1)
    }
}

/// Record a parsed line: a new key is appended, a known key has the new
/// moves appended to the ones already recorded.
pub open spec fn db_insert(d: DbView, key: Seq<char>, vals: Seq<Seq<char>>) -> DbView {
    let f = db_find(d, key, 0);
    if f >= 0 {
        d.update(f, (key, d[f].1 + vals))
    } else {
        d.push((key, vals))
    }
}

/// What one line `ls..le` contributes to the table: a trailing carriage
/// return is dropped; a blank line, a line opening with `*`, and a line
/// without the key separator contribute nothing; any other line yields its
/// trimmed key and its whitespace-separated move texts.
pub open spec fn db_line(s: Seq<char>, ls: int, le: int, acc: DbView) -> DbView {
    let le2 = if ls < le && 0 <= le - 1 < s.len() && s[le - 1] == '\r' {
        le - 1
    } else {
        le
    };
    let a = skip_ws_r(s, ls, le2);
    if a >= le2 {
        acc
    } else if 0 <= ls < s.len() && s[ls] == '*' {
        acc
    } else {
        let p = sep_pos(s, ls, le2);
        if p < 0 {
            acc
        } else {
            let kl = skip_ws_r(s, ls, p);
            let kh = rskip_ws_r(s, kl, p);
            let key = s.subrange(kl, kh);
            let vals = tokens_r(s, p + 3, le2, -1, Seq::empty());
            db_insert(acc, key, vals)
        }
    }
}

/// Walk the text: each newline closes a line, and the text's end closes the
/// last one.
pub open spec fn db_scan(s: Seq<char>, i: int, ls: int, acc: DbView) -> DbView
    decreases s.len() - i,
{
    if !(0 <= i < s.len()) {
        db_line(s, ls, i, acc)
    } else if s[i] == '\n' {
        db_scan(s, i + 1, i + 1, db_line(s, ls, i, acc))
    } else {
        db_scan(s, i + 1, ls, acc)
    }
}

/// The table an opening-book text denotes.
pub open spec fn spec_parse_database(s: Seq<char>) -> DbView {
    db_scan(s, 0, 0, Seq::empty())
}

/// The abstract view of a built token list.
pub open spec fn strs_abs(v: Seq<String>) -> Seq<Seq<char>> {
    Seq::new(v.len(), |j: int| v[j]@)
}

/// The abstract view of the built table.
pub open spec fn db_abs(v: Seq<(String, Vec<String>)>) -> DbView {
    Seq::new(v.len(), |i: int| (v[i].0@, strs_abs(v[i].1@)))
}

fn is_ws_exec(c: char) -> (r: bool)
    ensures
        r == is_ws(c),
{
    c == ' ' || c == '\t' || c == '\r' || c == '\n'
}

fn skip_ws_from(text: &str, lo: usize, hi: usize) -> (r: usize)
    requires
        lo <= hi <= text@.len(),
    ensures
        r as int == skip_ws_r(text@, lo as int, hi as int),
        lo <= r <= hi,
{
    let mut a = lo;
    while a < hi && is_ws_exec(text.get_char(a))
        invariant
            lo <= a <= hi <= text@.len(),
            skip_ws_r(text@, a as int, hi as int) == skip_ws_r(text@, lo as int, hi as int),
        decreases hi - a,
    {
        a = a + 1;
    }
    a
}

fn rskip_ws_from(text: &str, lo: usize, hi: usize) -> (r: usize)
    requires
        lo <= hi <= text@.len(),
    ensures
        r as int == rskip_ws_r(text@, lo as int, hi as int),
        lo <= r <= hi,
{
    let mut b = hi;
    while b > lo && is_ws_exec(text.get_char(b - 1))
        invariant
            lo <= b <= hi <= text@.len(),
            rskip_ws_r(text@, lo as int, b as int) == rskip_ws_r(text@, lo as int, hi as int),
        decreases b,
    {
        b = b - 1;
    }
    b
}

fn find_sep(text: &str, lo: usize, hi: usize) -> (r: Option<usize>)
    requires
        lo <= hi <= text@.len(),
    ensures
        match r {
            Some(p) => p as int == sep_pos(text@, lo as int, hi as int) && lo <= p && p + 3 <= hi,
            None => sep_pos(text@, lo as int, hi as int) == -1,
        },
{
    let mut p = lo;
    while p < hi && hi - p >= 3
        invariant
            lo <= p <= hi,
            hi <= text@.len(),
            sep_pos(text@, p as int, hi as int) == sep_pos(text@, lo as int, hi as int),
        decreases hi - p,
    {
        if text.get_char(p) == ' ' && text.get_char(p + 1) == ':' && text.get_char(p + 2) == ' ' {
            return Some(p);
        }
        p = p + 1;
    }
    None
}

fn read_tokens(text: &str, lo: usize, hi: usize) -> (v: Vec<String>)
    requires
        lo <= hi <= text@.len(),
    ensures
        strs_abs(v@) == tokens_r(text@, lo as int, hi as int, -1, Seq::empty()),
{
    let mut v: Vec<String> = Vec::new();
    let mut st: usize = 0;
    let mut in_tok: bool = false;
    let mut i = lo;
    proof {
        assert(strs_abs(v@) =~= Seq::<Seq<char>>::empty());
    }
    while i < hi
        invariant
            lo <= i <= hi <= text@.len(),
            in_tok ==> lo <= st && (st as int) < i as int,
            tokens_r(
                text@,
                i as int,
                hi as int,
                if in_tok {
                    st as int
                } else {
                    -1
                },
                strs_abs(v@),
            ) == tokens_r(text@, lo as int, hi as int, -1, Seq::empty()),
        decreases hi - i,
    {
        let c = text.get_char(i);
        if is_ws_exec(c) {
            if in_tok {
                let tok = text.substring_char(st, i).to_owned();
                let ghost prev = v@;
                v.push(tok);
                proof {
                    assert(strs_abs(v@) =~= strs_abs(prev).push(
                        text@.subrange(st as int, i as int),
                    ));
                }
                in_tok = false;
            }
        } else {
            if !in_tok {
                st = i;
                in_tok = true;
            }
        }
        i = i + 1;
    }
    if in_tok {
        let tok = text.substring_char(st, hi).to_owned();
        let ghost prev = v@;
        v.push(tok);
        proof {
            assert(strs_abs(v@) =~= strs_abs(prev).push(text@.subrange(st as int, hi as int)));
        }
    }
    v
}

/// Process one line of the book text, growing the table as `db_line` says.
fn process_line(db: &mut Vec<(String, Vec<String>)>, text: &str, ls: usize, le: usize)
    requires
        ls <= le <= text@.len(),
    ensures
        db_abs(final(db)@) == db_line(text@, ls as int, le as int, db_abs(old(db)@)),
{
    let mut le2 = le;
    if le2 > ls && text.get_char(le2 - 1) == '\r' {
        le2 = le2 - 1;
    }
    let a = skip_ws_from(text, ls, le2);
    if a >= le2 {
        return;
    }
    if text.get_char(ls) == '*' {
        return;
    }
    let sep = find_sep(text, ls, le2);
    match sep {
        None => {},
        Some(p) => {
            let kl = skip_ws_from(text, ls, p);
            let kh = rskip_ws_from(text, kl, p);
            let key = text.substring_char(kl, kh).to_owned();
            let mut vals = read_tokens(text, p + 3, le2);
            let ghost key_s = text@.subrange(kl as int, kh as int);
            let ghost vals_s = strs_abs(vals@);
            let ghost d0 = db_abs(db@);

            let mut idx: usize = 0;
            let mut found: bool = false;
            while !found && idx < db.len()
                invariant
                    idx <= db.len(),
                    key@ == key_s,
                    d0 == db_abs(db@),
                    !found ==> db_find(d0, key_s, 0) == db_find(d0, key_s, idx as int),
                    found ==> 0 <= (idx as int) < d0.len() && db_find(d0, key_s, 0) == idx as int
                        && d0[idx as int].0 == key_s,
                decreases db.len() - idx + if found {
                    0int
                } else {
                    1int
                },
            {
                if db[idx].0 == key {
                    found = true;
                } else {
                    idx = idx + 1;
                }
            }
            if found {
                let mut entry = db.remove(idx);
                entry.1.append(&mut vals);
                let ghost merged = entry.1@;
                db.insert(idx, entry);
                proof {
                    assert(strs_abs(merged) =~= d0[idx as int].1 + vals_s);
                    assert(db_abs(db@) =~= d0.update(idx as int, (key_s, d0[idx as int].1 + vals_s)));
                }
            } else {
                db.push((key, vals));
                proof {
                    assert(db_find(d0, key_s, idx as int) == -1);
                    assert(db_abs(db@) =~= d0.push((key_s, vals_s)));
                }
            }
        },
    }
}

/// Parse an opening-book text into its table: one line per position, the
/// positional record, the separator, then the moves; blank lines and lines
/// opening with `*` are passed over, and a repeated position gathers all
/// its moves.
pub fn parse_database(text: &str) -> (db: Vec<(String, Vec<String>)>)
    ensures
        db_abs(db@) == spec_parse_database(text@),
{
    let n = text.unicode_len();
    let mut db: Vec<(String, Vec<String>)> = Vec::new();
    let mut i: usize = 0;
    let mut ls: usize = 0;
    proof {
        assert(db_abs(db@) =~= Seq::<(Seq<char>, Seq<Seq<char>>)>::empty());
    }
    while i < n
        invariant
            ls <= i <= n,
            n == text@.len(),
            db_scan(text@, i as int, ls as int, db_abs(db@)) == spec_parse_database(text@),
        decreases n - i,
    {
        let c = text.get_char(i);
        if c == '\n' {
            process_line(&mut db, text, ls, i);
            ls = i + 1;
        }
        i = i + 1;
    }
    process_line(&mut db, text, ls, n);
    db
}

/// The moves the table records for `key`, or nothing.
pub open spec fn db_lookup(d: DbView, key: Seq<char>) -> Option<Seq<Seq<char>>> {
    let f = db_find(d, key, 0);
    if f >= 0 {
        Some(d[f].1)
    } else {
        None
    }
}

/// Look a positional record up in the parsed table and hand back its moves
/// in recorded order, or nothing when the table does not know the position.
pub fn get_opening_moves(db: &Vec<(String, Vec<String>)>, fen: &str) -> (r: Option<Vec<String>>)
    ensures
        match r {
            Some(v) => db_lookup(db_abs(db@), fen@) == Some(strs_abs(v@)),
            None => db_lookup(db_abs(db@), fen@) is None,
        },
{
    let key = fen.to_owned();
    let ghost d = db_abs(db@);
    let mut idx: usize = 0;
    while idx < db.len()
        invariant
            idx <= db.len(),
            key@ == fen@,
            d == db_abs(db@),
            db_find(d, fen@, 0) == db_find(d, fen@, idx as int),
        decreases db.len() - idx,
    {
        if db[idx].0 == key {
            let stored = &db[idx].1;
            let mut out: Vec<String> = Vec::new();
            let mut j: usize = 0;
            while j < stored.len()
                invariant
                    j <= stored.len(),
                    strs_abs(out@) =~= strs_abs(stored@).subrange(0, j as int),
                decreases stored.len() - j,
            {
                let ghost prev = out@;
                out.push(stored[j].as_str().to_owned());
                proof {
                    assert(strs_abs(out@) =~= strs_abs(prev).push(stored@[j as int]@));
                }
                j = j + 1;
            }
            proof {
                assert(strs_abs(out@) =~= d[idx as int].1);
            }
            return Some(out);
        }
        idx = idx + 1;
    }
    None
}

} // verus!
