//! The position string: ten slash-separated ranks from Black's back rank
//! down, empty runs as digits, pieces as single letters (uppercase Red),
//! then the side to move, "w" or "b".

use vstd::prelude::*;
use vstd::string::*;
use crate::board::Board;
use crate::constants::{Piece, Player, fen_char_of, piece_from_char};
use crate::model::{hash_acc, hash_of, lemma_empty_position};
use crate::rules::occ_at;
use crate::zobrist::ZOBRIST_PLAYER;

verus! {

/// The numeric value of an empty-run digit 1..9, or -1 otherwise.
pub open spec fn digit_val(ch: char) -> int {
    if '1' <= ch <= '9' {
        (ch as int) - 48
    } else {
        -1
    }
}

/// Parses a layout from position (rank `r`, file `c`) onward into the
/// accumulator, or fails.
pub open spec fn parse_layout(cs: Seq<char>, r: int, c: int, acc: Seq<Piece>) -> Option<
    Seq<Piece>,
>
    decreases cs.len(),
{
    if cs.len() == 0 {
        if r == 9 && c == 9 {
            Some(acc)
        } else {
            None
        }
    } else {
        let ch = cs[0];
        let rest = cs.subrange(1, cs.len() as int);
        if ch == '/' {
            if c == 9 && r < 9 {
                parse_layout(rest, r + 1, 0, acc)
            } else {
                None
            }
        } else if digit_val(ch) >= 1 {
            if c + digit_val(ch) <= 9 {
                parse_layout(rest, r, c + digit_val(ch), acc)
            } else {
                None
            }
        } else {
            match piece_from_char(ch) {
                Some(p) => if 0 <= r < 10 && 0 <= c < 9 {
                    parse_layout(rest, r, c + 1, acc.update(9 * r + c, p))
                } else {
                    None
                },
                None => None,
            }
        }
    }
}

/// The empty 90-square position.
pub open spec fn empty_squares() -> Seq<Piece> {
    Seq::new(90, |i: int| Piece::Empty)
}

/// The index of the first space of the string, or its length.
pub open spec fn space_at(cs: Seq<char>, i: int) -> int
    decreases cs.len() - i,
{
    if i < 0 || i >= cs.len() {
        cs.len() as int
    } else if cs[i] == ' ' {
        i
    } else {
        space_at(cs, i + 1)
    }
}

/// A well-formed position string: a parsable layout, a space, then
/// "w" or "b".
pub open spec fn fen_ok(cs: Seq<char>) -> bool {
    let k = space_at(cs, 0);
    &&& k < cs.len()
    &&& parse_layout(cs.subrange(0, k), 0, 0, empty_squares()) is Some
    &&& k + 1 < cs.len()
    &&& (cs[k + 1] == 'w' || cs[k + 1] == 'b')
}

/// The position a well-formed string denotes.
pub open spec fn fen_squares(cs: Seq<char>) -> Seq<Piece> {
    parse_layout(cs.subrange(0, space_at(cs, 0)), 0, 0, empty_squares()).unwrap()
}

/// The side to move a well-formed string denotes.
pub open spec fn fen_side(cs: Seq<char>) -> Player {
    if cs[space_at(cs, 0) + 1] == 'w' {
        Player::Red
    } else {
        Player::Black
    }
}

impl Board {
    /// Builds a board from a position string, or reports that the string
    /// is malformed.  No half-built board ever escapes.
    #[verifier::rlimit(100)]
    pub fn try_from_fen(fen: &str) -> (r: Option<Board>)
        ensures
            r is Some <==> fen_ok(fen@),
            r matches Some(b) ==> {
                &&& b.wf()
                &&& b@.squares == fen_squares(fen@)
                &&& b@.to_move == fen_side(fen@)
                &&& b@.history_ply == 0
            },
    {
        let ghost cs = fen@;
        let len = fen.unicode_len();

        // Find the space separating the layout from the side field.
        let mut k: usize = 0;
        while k < len && fen.get_char(k) != ' '
            invariant
                k <= len,
                len == cs.len(),
                cs == fen@,
                forall|j: int| 0 <= j < k ==> cs[j] != ' ',
            decreases len - k,
        {
            k = k + 1;
        }
        proof {
            lemma_space_at_is(cs, k as int);
        }
        if k >= len || k + 1 >= len {
            return None;
        }
        let side_ch = fen.get_char(k + 1);
        if side_ch != 'w' && side_ch != 'b' {
            return None;
        }

        // Parse the layout into a fresh board.
        let ghost layout = cs.subrange(0, k as int);
        let mut board = Board::new();
        let mut rank: usize = 0;
        let mut file: usize = 0;
        let mut i: usize = 0;
        proof {
            assert(board@.squares =~= empty_squares());
            assert(cs.subrange(i as int, k as int) =~= layout);
            lemma_empty_position(board@.squares);
        }
        while i < k
            invariant
                i <= k,
                k < len,
                len == cs.len(),
                cs == fen@,
                space_at(cs, 0) == k as int,
                rank <= 9,
                file <= 9,
                layout == cs.subrange(0, k as int),
                board@.wf_bits(),
                board@.hash == hash_acc(board@.squares, 90),
                board@.squares.len() == 90,
                board@.to_move == Player::Red,
                board@.history_ply == 0,
                board@.history == seq![0u64],
                forall|s: int| 9 * rank + file <= s < 90 ==> board@.squares[s] == Piece::Empty,
                parse_layout(layout, 0, 0, empty_squares()) == parse_layout(
                    cs.subrange(i as int, k as int),
                    rank as int,
                    file as int,
                    board@.squares,
                ),
            decreases k - i,
        {
            let ch = fen.get_char(i);
            let ghost rem = cs.subrange(i as int, k as int);
            let ghost rem2 = cs.subrange(i + 1, k as int);
            proof {
                assert(rem[0] == cs[i as int]);
                assert(rem.subrange(1, rem.len() as int) =~= rem2);
            }
            if ch == '/' {
                if !(file == 9 && rank < 9) {
                    return None;
                }
                rank = rank + 1;
                file = 0;
            } else if '1' <= ch && ch <= '9' {
                let d = (ch as u32 - 48) as usize;
                if file + d > 9 {
                    return None;
                }
                file = file + d;
            } else {
                let p = match Piece::from_fen_char(ch) {
                    Some(p) => p,
                    None => {
                        return None;
                    },
                };
                if file >= 9 {
                    return None;
                }
                let sq = rank * 9 + file;
                proof {
                    crate::rules::lemma_sq_coords(rank as int, file as int);
                }
                board.set_piece(sq, p);
                file = file + 1;
            }
            i = i + 1;
        }
        proof {
            assert(cs.subrange(k as int, k as int) =~= Seq::<char>::empty());
        }
        if !(rank == 9 && file == 9) {
            return None;
        }

        // Side to move.
        if side_ch == 'b' {
            board.player_to_move = Player::Black;
            board.hash_key = board.hash_key ^ ZOBRIST_PLAYER;
        }
        proof {
            let a = hash_acc(board@.squares, 90);
            let zp = ZOBRIST_PLAYER;
            assert(a ^ 0 == a && (a ^ zp) == (a ^ zp)) by (bit_vector);
        }

        // Accumulators and history.
        let (material, mg, eg) = crate::evaluate::calculate_full_scores(&board);
        board.material_score = material;
        board.mg_pst_score = mg;
        board.eg_pst_score = eg;
        let h = board.hash_key;
        board.history.set(0, h);
        proof {
            assert(board@.wf());
        }
        Some(board)
    }

    /// Builds a board from a position string; a malformed string gives
    /// the empty board.
    pub fn from_fen(fen: &str) -> (r: Board)
        ensures
            r.wf(),
            fen_ok(fen@) ==> r@.squares == fen_squares(fen@) && r@.to_move == fen_side(fen@)
                && r@.history_ply == 0,
            !fen_ok(fen@) ==> forall|s: int| 0 <= s < 90 ==> r@.squares[s] == Piece::Empty,
    {
        match Board::try_from_fen(fen) {
            Some(b) => b,
            None => Board::new(),
        }
    }
}

proof fn lemma_space_at_is(cs: Seq<char>, k: int)
    requires
        0 <= k <= cs.len(),
        forall|j: int| 0 <= j < k ==> cs[j] != ' ',
        k < cs.len() ==> cs[k] == ' ',
    ensures
        space_at(cs, 0) == if k < cs.len() {
            k
        } else {
            cs.len() as int
        },
{
    lemma_space_at_from(cs, 0, k);
}

proof fn lemma_space_at_from(cs: Seq<char>, i: int, k: int)
    requires
        0 <= i <= k <= cs.len(),
        forall|j: int| 0 <= j < k ==> cs[j] != ' ',
        k < cs.len() ==> cs[k] == ' ',
    ensures
        space_at(cs, i) == if k < cs.len() {
            k
        } else {
            cs.len() as int
        },
    decreases cs.len() - i,
{
    if i < k {
        lemma_space_at_from(cs, i + 1, k);
    }
}

/// The characters of one rendered rank from file `c` on, with `run`
/// pending empty squares.
pub open spec fn rank_chars(sqs: Seq<Piece>, r: int, c: int, run: int) -> Seq<char>
    decreases 9 - c,
{
    if c >= 9 {
        if run > 0 {
            seq![run_digit(run)]
        } else {
            Seq::<char>::empty()
        }
    } else if !occ_at(sqs, 9 * r + c) {
        rank_chars(sqs, r, c + 1, run + 1)
    } else {
        (if run > 0 {
            seq![run_digit(run)]
        } else {
            Seq::<char>::empty()
        }) + seq![fen_char_of(sqs[9 * r + c])] + rank_chars(sqs, r, c + 1, 0)
    }
}

/// The digit character of an empty-run length 1..9.
pub open spec fn run_digit(run: int) -> char {
    if run == 1 {
        '1'
    } else if run == 2 {
        '2'
    } else if run == 3 {
        '3'
    } else if run == 4 {
        '4'
    } else if run == 5 {
        '5'
    } else if run == 6 {
        '6'
    } else if run == 7 {
        '7'
    } else if run == 8 {
        '8'
    } else {
        '9'
    }
}

/// The rendered ranks from `r` down, slash-separated.
pub open spec fn ranks_chars(sqs: Seq<Piece>, r: int) -> Seq<char>
    decreases 10 - r,
{
    if r >= 10 {
        Seq::<char>::empty()
    } else {
        rank_chars(sqs, r, 0, 0) + (if r < 9 {
            seq!['/']
        } else {
            Seq::<char>::empty()
        }) + ranks_chars(sqs, r + 1)
    }
}

/// The full rendered position string.
pub open spec fn fen_of(sqs: Seq<Piece>, side: Player) -> Seq<char> {
    ranks_chars(sqs, 0) + seq![' '] + (if side == Player::Red {
        seq!['w']
    } else {
        seq!['b']
    }) + seq![' ', '-', ' ', '-', ' ', '0', ' ', '1']
}

impl Board {
    /// Renders the position as a string: the layout, the side to move,
    /// and placeholder clock fields.
    #[verifier::rlimit(100)]
    pub fn to_fen(&self) -> (r: String)
        requires
            self@.squares.len() == 90,
        ensures
            r@ == fen_of(self@.squares, self@.to_move),
    {
        let ghost sqs = self@.squares;
        let mut out = String::new();
        let mut r: usize = 0;
        while r < 10
            invariant
                r <= 10,
                self@.squares == sqs,
                sqs.len() == 90,
                out@ + ranks_chars(sqs, r as int) == ranks_chars(sqs, 0),
            decreases 10 - r,
        {
            let mut c: usize = 0;
            let mut run: usize = 0;
            while c < 9
                invariant
                    c <= 9,
                    r < 10,
                    run <= c,
                    self@.squares == sqs,
                    sqs.len() == 90,
                    out@ + rank_chars(sqs, r as int, c as int, run as int) + (if r < 9 {
                        seq!['/']
                    } else {
                        Seq::<char>::empty()
                    }) + ranks_chars(sqs, r as int + 1) == ranks_chars(sqs, 0),
                decreases 9 - c,
            {
                let sq = r * 9 + c;
                proof {
                    crate::rules::lemma_sq_coords(r as int, c as int);
                }
                let p = self.board[sq];
                if p == Piece::Empty {
                    run = run + 1;
                } else {
                    if run > 0 {
                        out.append(run_digit_str(run));
                        run = 0;
                    }
                    out.append(piece_str(p));
                    proof {
                        assert(out@ + rank_chars(sqs, r as int, c as int + 1, 0) + (if r < 9 {
                            seq!['/']
                        } else {
                            Seq::<char>::empty()
                        }) + ranks_chars(sqs, r as int + 1) =~= ranks_chars(sqs, 0));
                    }
                }
                c = c + 1;
            }
            if run > 0 {
                out.append(run_digit_str(run));
            }
            if r < 9 {
                out.append("/");
            }
            proof {
                reveal_strlit("/");
                assert(out@ + ranks_chars(sqs, r as int + 1) =~= ranks_chars(sqs, 0));
            }
            r = r + 1;
        }
        out.append(" ");
        if self.player_to_move == Player::Red {
            out.append("w");
        } else {
            out.append("b");
        }
        out.append(" - - 0 1");
        proof {
            reveal_strlit("/");
            reveal_strlit(" ");
            reveal_strlit("w");
            reveal_strlit("b");
            reveal_strlit(" - - 0 1");
            assert(out@ =~= fen_of(sqs, self@.to_move));
        }
        out
    }
}

/// The single-character string of an empty-run length 1..9.
fn run_digit_str(run: usize) -> (r: &'static str)
    requires
        1 <= run <= 9,
    ensures
        r@ == seq![run_digit(run as int)],
{
    let s: &'static str = match run {
        1 => "1",
        2 => "2",
        3 => "3",
        4 => "4",
        5 => "5",
        6 => "6",
        7 => "7",
        8 => "8",
        _ => "9",
    };
    proof {
        reveal_strlit("1");
        reveal_strlit("2");
        reveal_strlit("3");
        reveal_strlit("4");
        reveal_strlit("5");
        reveal_strlit("6");
        reveal_strlit("7");
        reveal_strlit("8");
        reveal_strlit("9");
        assert(s@ =~= seq![run_digit(run as int)]);
    }
    s
}

/// The single-character string of a piece letter.
fn piece_str(p: Piece) -> (r: &'static str)
    requires
        p != Piece::Empty,
    ensures
        r@ == seq![fen_char_of(p)],
{
    let s: &'static str = match p {
        Piece::BKing => "k",
        Piece::BGuard => "a",
        Piece::BBishop => "b",
        Piece::BHorse => "n",
        Piece::BRook => "r",
        Piece::BCannon => "c",
        Piece::BPawn => "p",
        Piece::RKing => "K",
        Piece::RGuard => "A",
        Piece::RBishop => "B",
        Piece::RHorse => "N",
        Piece::RRook => "R",
        Piece::RCannon => "C",
        _ => "P",
    };
    proof {
        reveal_strlit("k");
        reveal_strlit("a");
        reveal_strlit("b");
        reveal_strlit("n");
        reveal_strlit("r");
        reveal_strlit("c");
        reveal_strlit("p");
        reveal_strlit("K");
        reveal_strlit("A");
        reveal_strlit("B");
        reveal_strlit("N");
        reveal_strlit("R");
        reveal_strlit("C");
        reveal_strlit("P");
        assert(s@ =~= seq![fen_char_of(p)]);
    }
    s
}

} // verus!
