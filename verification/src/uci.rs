//! Parsing of the engine-control text protocol: coordinate moves and
//! the fields of a "go" command.

use vstd::prelude::*;
use vstd::string::*;
use crate::board::Board;
use crate::constants::Piece;
use crate::moves::{Move, MoveList, from_of, to_of, cap_of, file_letter, digit_letter, file_str,
    digit_str};
use crate::rules::occ_at;

verus! {

/// The square denoted by a file letter and a rank digit, or -1.
pub open spec fn sq_from_chars(fc: char, rc: char) -> int {
    let f = (fc as int) - 97;
    let r = (rc as int) - 48;
    if 0 <= f < 9 && 0 <= r <= 9 {
        (9 - r) * 9 + f
    } else {
        -1
    }
}

/// A four-character coordinate move string denotes a pair of squares.
pub open spec fn move_str_ok(cs: Seq<char>) -> bool {
    cs.len() == 4 && sq_from_chars(cs[0], cs[1]) >= 0 && sq_from_chars(cs[2], cs[3]) >= 0
}

pub open spec fn move_str_from(cs: Seq<char>) -> int {
    sq_from_chars(cs[0], cs[1])
}

pub open spec fn move_str_to(cs: Seq<char>) -> int {
    sq_from_chars(cs[2], cs[3])
}

/// Reads one square from a file letter and a rank digit.
fn parse_sq(fc: char, rc: char) -> (r: Option<usize>)
    ensures
        r matches Some(s) ==> s < 90 && s == sq_from_chars(fc, rc),
        r is None ==> sq_from_chars(fc, rc) < 0,
{
    let f = fc as u32;
    let r = rc as u32;
    if f < 97 || f > 105 || r < 48 || r > 57 {
        return None;
    }
    let file = (f - 97) as usize;
    let rank = (r - 48) as usize;
    Some((9 - rank) * 9 + file)
}

/// Parses a coordinate move against the current position, recording
/// whether the destination is occupied.  A string that is not four
/// characters of file letter and rank digit is rejected.
pub fn parse_uci_move(board: &Board, move_str: &str) -> (r: Option<Move>)
    requires
        board@.squares.len() == 90,
    ensures
        r is Some <==> move_str_ok(move_str@),
        r matches Some(m) ==> {
            &&& from_of(m) == move_str_from(move_str@)
            &&& to_of(m) == move_str_to(move_str@)
            &&& cap_of(m) == occ_at(board@.squares, move_str_to(move_str@))
        },
{
    let n = move_str.unicode_len();
    if n != 4 {
        return None;
    }
    let c0 = move_str.get_char(0);
    let c1 = move_str.get_char(1);
    let c2 = move_str.get_char(2);
    let c3 = move_str.get_char(3);
    let from_sq = match parse_sq(c0, c1) {
        Some(s) => s,
        None => {
            return None;
        },
    };
    let to_sq = match parse_sq(c2, c3) {
        Some(s) => s,
        None => {
            return None;
        },
    };
    let captured = board.board[to_sq];
    let cap: Option<Piece> = if captured != Piece::Empty {
        Some(captured)
    } else {
        None
    };
    Some(Move::new(from_sq, to_sq, cap))
}

/// Finds the legal move written as the given coordinate string, if any.
/// `None` comes back exactly when the string is not a well-formed move
/// or no listed move has its squares.
pub fn parse_move_string(input: &str, legal_moves: &MoveList) -> (r: Option<Move>)
    ensures
        r matches Some(m) ==> exists|i: int| 0 <= i < legal_moves@.len() && #[trigger] legal_moves@[i]
            == m && move_str_ok(input@) && from_of(m) == move_str_from(input@) && to_of(m)
            == move_str_to(input@),
        r is None ==> !move_str_ok(input@) || forall|i: int|
            0 <= i < legal_moves@.len() ==> !(from_of(#[trigger] legal_moves@[i]) == move_str_from(
                input@,
            ) && to_of(legal_moves@[i]) == move_str_to(input@)),
{
    let n = input.unicode_len();
    if n != 4 {
        return None;
    }
    let from_sq = match parse_sq(input.get_char(0), input.get_char(1)) {
        Some(s) => s,
        None => {
            return None;
        },
    };
    let to_sq = match parse_sq(input.get_char(2), input.get_char(3)) {
        Some(s) => s,
        None => {
            return None;
        },
    };
    let m = legal_moves.len();
    let mut i: usize = 0;
    while i < m
        invariant
            i <= m,
            m == legal_moves@.len(),
            move_str_ok(input@),
            from_sq == move_str_from(input@),
            to_sq == move_str_to(input@),
            forall|j: int|
                0 <= j < i ==> !(from_of(#[trigger] legal_moves@[j]) == move_str_from(input@)
                    && to_of(legal_moves@[j]) == move_str_to(input@)),
        decreases m - i,
    {
        let mv = legal_moves.get(i);
        if mv.from_sq() == from_sq && mv.to_sq() == to_sq {
            return Some(mv);
        }
        i = i + 1;
    }
    None
}

/// The two-character coordinate name of a square.
pub fn get_square_notation(sq: usize) -> (r: String)
    requires
        sq < 90,
    ensures
        r@ == seq![file_letter(sq as int % 9), digit_letter(9 - sq as int / 9)],
{
    let mut s = String::new();
    s.append(file_str(sq % 9));
    s.append(digit_str(9 - sq / 9));
    proof {
        assert(s@ =~= seq![file_letter(sq as int % 9), digit_letter(9 - sq as int / 9)]);
    }
    s
}

// ---------------------------------------------------------------------------
// The "go" command.
// ---------------------------------------------------------------------------

/// A nonempty string of decimal digits.
pub open spec fn is_dec(cs: Seq<char>) -> bool {
    cs.len() >= 1 && forall|i: int| 0 <= i < cs.len() ==> '0' <= #[trigger] cs[i] <= '9'
}

/// The value of a decimal digit string.
pub open spec fn dec_val(cs: Seq<char>) -> int
    decreases cs.len(),
{
    if cs.len() == 0 {
        0
    } else {
        dec_val(cs.drop_last()) * 10 + ((cs.last() as int) - 48)
    }
}

/// The first position of the token in the word list, or its length.
pub open spec fn tok_at(pv: Seq<Seq<char>>, t: Seq<char>, i: int) -> int
    decreases pv.len() - i,
{
    if i < 0 || i >= pv.len() {
        pv.len() as int
    } else if pv[i] == t {
        i
    } else {
        tok_at(pv, t, i + 1)
    }
}

/// The number following the first occurrence of a keyword, if it is
/// there and in range.
pub open spec fn key_val(pv: Seq<Seq<char>>, key: Seq<char>) -> Option<int> {
    let i = tok_at(pv, key, 0);
    if i + 1 < pv.len() && is_dec(pv[i + 1]) && dec_val(pv[i + 1]) <= u64::MAX {
        Some(dec_val(pv[i + 1]))
    } else {
        None
    }
}

/// The views of the words.
pub open spec fn views_of(parts: Seq<String>) -> Seq<Seq<char>> {
    parts.map_values(|s: String| s@)
}

/// The depth a "go" command asks for: unbounded for "infinite", the
/// "depth" value when one is given and fits, else 64.
pub open spec fn go_depth(pv: Seq<Seq<char>>) -> int {
    if tok_at(pv, "infinite"@, 0) < pv.len() {
        i32::MAX as int
    } else {
        match key_val(pv, "depth"@) {
            Some(d) => if d <= i32::MAX {
                d
            } else {
                64
            },
            None => 64,
        }
    }
}

/// The millisecond budget a "go" command asks for: none for "infinite",
/// the "movetime" value when given, else the mover's clock divided among
/// the remaining moves (or by 20) plus its increment.
pub open spec fn go_time(pv: Seq<Seq<char>>, red_to_move: bool) -> Option<int> {
    if tok_at(pv, "infinite"@, 0) < pv.len() {
        None
    } else {
        match key_val(pv, "movetime"@) {
            Some(t) => Some(t),
            None => {
                let t = if red_to_move {
                    key_val(pv, "wtime"@)
                } else {
                    key_val(pv, "btime"@)
                };
                let inc = if red_to_move {
                    key_val(pv, "winc"@)
                } else {
                    key_val(pv, "binc"@)
                };
                match t {
                    Some(tv) => {
                        let iv = match inc {
                            Some(v) => v,
                            None => 0,
                        };
                        match key_val(pv, "movestogo"@) {
                            Some(m) => if m >= 1 {
                                Some(tv / m + iv)
                            } else {
                                Some(tv / 20 + iv)
                            },
                            None => Some(tv / 20 + iv),
                        }
                    },
                    None => None,
                }
            },
        }
    }
}

/// Parses a nonempty digit string into a value, if it fits in 64 bits.
fn parse_number(s: &String) -> (r: Option<u64>)
    ensures
        r matches Some(v) ==> is_dec(s@) && v == dec_val(s@),
        r is None ==> !is_dec(s@) || dec_val(s@) > u64::MAX,
{
    let cs = s.as_str();
    let n = cs.unicode_len();
    if n == 0 {
        return None;
    }
    let mut acc: u64 = 0;
    let mut i: usize = 0;
    while i < n
        invariant
            i <= n,
            n == cs@.len(),
            cs@ == s@,
            n >= 1,
            acc == dec_val(cs@.subrange(0, i as int)),
            forall|j: int| 0 <= j < i ==> '0' <= #[trigger] cs@[j] <= '9',
        decreases n - i,
    {
        let ch = cs.get_char(i);
        let cv = ch as u32;
        if cv < 48 || cv > 57 {
            return None;
        }
        let d = (cv - 48) as u64;
        let limit = (u64::MAX - d) / 10;
        if acc > limit {
            proof {
                if is_dec(s@) {
                    vstd::arithmetic::div_mod::lemma_fundamental_div_mod(
                        (u64::MAX - d) as int,
                        10,
                    );
                    assert(acc * 10 >= (limit + 1) * 10) by (nonlinear_arith)
                        requires
                            acc >= limit + 1,
                    ;
                    assert((limit + 1) * 10 == limit * 10 + 10) by (nonlinear_arith);
                    assert(cs@.subrange(0, i + 1).drop_last() =~= cs@.subrange(0, i as int));
                    assert(dec_val(cs@.subrange(0, i + 1)) == acc * 10 + d);
                    lemma_dec_prefix_le(cs@, i + 1);
                }
            }
            return None;
        }
        proof {
            vstd::arithmetic::div_mod::lemma_fundamental_div_mod((u64::MAX - d) as int, 10);
            assert(acc * 10 <= limit * 10) by (nonlinear_arith)
                requires
                    acc <= limit,
            ;
        }
        acc = acc * 10 + d;
        proof {
            assert(cs@.subrange(0, i + 1).drop_last() =~= cs@.subrange(0, i as int));
            assert(cs@.subrange(0, i + 1).last() == cs@[i as int]);
        }
        i = i + 1;
    }
    proof {
        assert(cs@.subrange(0, n as int) =~= cs@);
    }
    Some(acc)
}

/// Under digits only, the value of a prefix never exceeds the whole.
proof fn lemma_dec_prefix_le(cs: Seq<char>, k: int)
    requires
        is_dec(cs),
        0 <= k <= cs.len(),
    ensures
        dec_val(cs.subrange(0, k)) <= dec_val(cs),
    decreases cs.len() - k,
{
    lemma_dec_nonneg(cs.subrange(0, k));
    if k < cs.len() {
        lemma_dec_prefix_le(cs, k + 1);
        assert(cs.subrange(0, k + 1).drop_last() =~= cs.subrange(0, k));
        assert(dec_val(cs.subrange(0, k + 1)) == dec_val(cs.subrange(0, k)) * 10 + ((
        cs.subrange(0, k + 1).last() as int) - 48));
        assert(dec_val(cs.subrange(0, k)) * 10 >= dec_val(cs.subrange(0, k)))
            by (nonlinear_arith)
            requires
                dec_val(cs.subrange(0, k)) >= 0,
        ;
    } else {
        assert(cs.subrange(0, k) =~= cs);
    }
}

/// A string of digits has a nonnegative value.
proof fn lemma_dec_nonneg(cs: Seq<char>)
    requires
        forall|j: int| 0 <= j < cs.len() ==> '0' <= #[trigger] cs[j] <= '9',
    ensures
        dec_val(cs) >= 0,
    decreases cs.len(),
{
    if cs.len() > 0 {
        assert forall|j: int| 0 <= j < cs.drop_last().len() implies '0' <= #[trigger] cs.drop_last()[j]
            <= '9' by {
            assert(cs.drop_last()[j] == cs[j]);
        }
        lemma_dec_nonneg(cs.drop_last());
        assert(dec_val(cs.drop_last()) * 10 >= 0) by (nonlinear_arith)
            requires
                dec_val(cs.drop_last()) >= 0,
        ;
    }
}

/// Whether the word equals the literal.
fn word_is(s: &String, lit: &str) -> (r: bool)
    ensures
        r == (s@ == lit@),
{
    let l = String::from_str(lit);
    s.eq(&l)
}

/// The position of the first word equal to the literal, or the length.
fn find_token(parts: &Vec<String>, lit: &str) -> (r: usize)
    ensures
        r == tok_at(views_of(parts@), lit@, 0),
        r <= parts@.len(),
{
    let n = parts.len();
    let mut i: usize = 0;
    while i < n
        invariant
            i <= n,
            n == parts@.len(),
            tok_at(views_of(parts@), lit@, 0) == tok_at(views_of(parts@), lit@, i as int),
            forall|j: int| 0 <= j < i ==> views_of(parts@)[j] != lit@,
        decreases n - i,
    {
        if word_is(&parts[i], lit) {
            proof {
                assert(views_of(parts@)[i as int] == parts@[i as int]@);
            }
            return i;
        }
        proof {
            assert(views_of(parts@)[i as int] == parts@[i as int]@);
        }
        i = i + 1;
    }
    n
}

/// The number following the first occurrence of the keyword.
fn find_value(parts: &Vec<String>, lit: &str) -> (r: Option<u64>)
    ensures
        (match key_val(views_of(parts@), lit@) {
            Some(v) => r matches Some(x) && x == v,
            None => r is None,
        }),
{
    let i = find_token(parts, lit);
    let n = parts.len();
    if n == 0 || i >= n - 1 {
        return None;
    }
    proof {
        assert(views_of(parts@)[i + 1] == parts@[i + 1]@);
    }
    parse_number(&parts[i + 1])
}

/// Reads the depth cap and millisecond budget from the words of a "go"
/// command: "infinite" for an unbounded search, an explicit "movetime",
/// or the mover's clock and increment split over the moves to go.
pub fn parse_go_command(parts: &Vec<String>, board: &Board) -> (r: (i32, Option<u128>))
    ensures
        r.0 == go_depth(views_of(parts@)),
        (match go_time(views_of(parts@), board@.to_move == crate::constants::Player::Red) {
            Some(t) => r.1 matches Some(x) && x == t,
            None => r.1 is None,
        }),
{
    let ghost pv = views_of(parts@);
    let inf = find_token(parts, "infinite");
    if inf < parts.len() {
        return (i32::MAX, None);
    }
    let depth: i32 = match find_value(parts, "depth") {
        Some(d) => if d <= i32::MAX as u64 {
            d as i32
        } else {
            64
        },
        None => 64,
    };
    match find_value(parts, "movetime") {
        Some(t) => {
            return (depth, Some(t as u128));
        },
        None => {},
    }
    let red = board.player_to_move == crate::constants::Player::Red;
    let t = if red {
        find_value(parts, "wtime")
    } else {
        find_value(parts, "btime")
    };
    let inc = if red {
        find_value(parts, "winc")
    } else {
        find_value(parts, "binc")
    };
    let time_limit: Option<u128> = match t {
        Some(tv) => {
            let iv: u64 = match inc {
                Some(v) => v,
                None => 0,
            };
            let per: u64 = match find_value(parts, "movestogo") {
                Some(m) => if m >= 1 {
                    tv / m
                } else {
                    tv / 20
                },
                None => tv / 20,
            };
            Some(per as u128 + iv as u128)
        },
        None => None,
    };
    (depth, time_limit)
}

} // verus!
