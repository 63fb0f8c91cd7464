//! The executable board: square array, redundant bit sets, hash, history
//! and incremental evaluation accumulators, mutated in place by move and
//! unmove.

use vstd::prelude::*;
use crate::bits::{Bitboard, bb_has, lemma_bb_zero, lemma_bb_or};
use crate::constants::{Piece, Player, side_of, bb_idx_of, side_idx_of, opponent_of};
use crate::model::{BoardModel, make_model, unmake_model, move_ok, unmake_ok, null_model,
    lemma_make_wf, lemma_unmake_wf, lemma_null_wf, lemma_null_roundtrip, lemma_score_bounds,
    lemma_empty_position, sq_bb, piece_key, square_key, hash_of, hash_acc, lemma_hash_acc_diff};
use crate::moves::{Move, from_of, to_of};
use crate::rules::occ_at;
use crate::zobrist::{zobrist_key_at, ZOBRIST_PLAYER};

verus! {

/// Which pseudo-legal moves a generation pass produces.
pub enum MoveGenType {
    All,
    Captures,
    Quiets,
}

/// The state of the board at any point in a game.
#[derive(Debug, Clone)]
pub struct Board {
    /// One occupancy set per piece kind and side.
    pub piece_bitboards: Vec<Bitboard>,
    /// One occupancy set per side.
    pub color_bitboards: Vec<Bitboard>,
    /// What stands on each of the 90 squares.
    pub board: Vec<Piece>,
    pub player_to_move: Player,
    pub hash_key: u64,
    /// Hashes of this position and all its predecessors in the game.
    pub history: Vec<u64>,
    pub history_ply: usize,
    pub material_score: i32,
    pub mg_pst_score: i32,
    pub eg_pst_score: i32,
}

impl View for Board {
    type V = BoardModel;

    open spec fn view(&self) -> BoardModel {
        BoardModel {
            squares: self.board@,
            piece_bbs: self.piece_bitboards@,
            color_bbs: self.color_bitboards@,
            to_move: self.player_to_move,
            hash: self.hash_key,
            history: self.history@,
            history_ply: self.history_ply as int,
            material: self.material_score as int,
            mg: self.mg_pst_score as int,
            eg: self.eg_pst_score as int,
        }
    }
}

impl Board {
    /// Well-formedness of the whole state; see `BoardModel::wf`.
    pub open spec fn wf(&self) -> bool {
        self@.wf()
    }

    /// The empty board: no pieces, Red to move, hash zero.
    pub fn new() -> (r: Board)
        ensures
            r.wf(),
            r@.squares.len() == 90,
            forall|s: int| 0 <= s < 90 ==> r@.squares[s] == Piece::Empty,
            r@.to_move == Player::Red,
            r@.hash == 0,
            r@.history_ply == 0,
            r@.history == seq![0u64],
            r@.material == 0,
            r@.mg == 0,
            r@.eg == 0,
    {
        let mut board: Vec<Piece> = Vec::new();
        let mut i: usize = 0;
        while i < 90
            invariant
                i <= 90,
                board@.len() == i,
                forall|s: int| 0 <= s < i ==> board@[s] == Piece::Empty,
            decreases 90 - i,
        {
            board.push(Piece::Empty);
            i = i + 1;
        }
        let mut piece_bitboards: Vec<Bitboard> = Vec::new();
        let mut j: usize = 0;
        while j < 14
            invariant
                j <= 14,
                piece_bitboards@.len() == j,
                forall|k: int| 0 <= k < j ==> piece_bitboards@[k] == 0u128,
            decreases 14 - j,
        {
            piece_bitboards.push(0);
            j = j + 1;
        }
        let mut color_bitboards: Vec<Bitboard> = Vec::new();
        color_bitboards.push(0);
        color_bitboards.push(0);
        let mut history: Vec<u64> = Vec::new();
        history.push(0);
        let r = Board {
            piece_bitboards,
            color_bitboards,
            board,
            player_to_move: Player::Red,
            hash_key: 0,
            history,
            history_ply: 0,
            material_score: 0,
            mg_pst_score: 0,
            eg_pst_score: 0,
        };
        proof {
            lemma_empty_position(r@.squares);
            assert(0u64 ^ 0u64 == 0u64) by (bit_vector);
            assert forall|pi: int, s: int| 0 <= pi < 14 implies (#[trigger] bb_has(
                r@.piece_bbs[pi],
                s,
            ) <==> (occ_at(r@.squares, s) && bb_idx_of(r@.squares[s]) == pi)) by {
                lemma_bb_zero(s);
            }
            assert forall|ci: int, s: int| 0 <= ci < 2 implies (#[trigger] bb_has(
                r@.color_bbs[ci],
                s,
            ) <==> (occ_at(r@.squares, s) && side_idx_of(side_of(r@.squares[s])) == ci)) by {
                lemma_bb_zero(s);
            }
            assert(r@.history =~= seq![0u64]);
        }
        r
    }

    /// The union of both sides' occupancy sets.
    pub fn occupied_bitboard(&self) -> (r: Bitboard)
        requires
            self@.wf_bits(),
        ensures
            forall|s: int| #[trigger] bb_has(r, s) <==> occ_at(self@.squares, s),
    {
        let r = self.color_bitboards[0] | self.color_bitboards[1];
        proof {
            assert forall|s: int| #[trigger] bb_has(r, s) <==> occ_at(self@.squares, s) by {
                lemma_bb_or(self@.color_bbs[0], self@.color_bbs[1], s);
                if occ_at(self@.squares, s) {
                    let p = self@.squares[s];
                    assert(side_idx_of(side_of(p)) == 0 || side_idx_of(side_of(p)) == 1);
                }
            }
        }
        r
    }

    /// Puts a piece on an empty square during position construction.
    /// The square array, the bit sets and the hash are kept consistent;
    /// the history and the accumulators are the caller's business.
    pub(crate) fn set_piece(&mut self, sq: usize, piece: Piece)
        requires
            old(self)@.wf_bits(),
            old(self)@.hash == hash_acc(old(self)@.squares, 90),
            sq < 90,
            piece != Piece::Empty,
            !occ_at(old(self)@.squares, sq as int),
        ensures
            final(self)@.wf_bits(),
            final(self)@.hash == hash_acc(final(self)@.squares, 90),
            final(self)@.squares == old(self)@.squares.update(sq as int, piece),
            final(self)@.to_move == old(self)@.to_move,
            final(self)@.history == old(self)@.history,
            final(self)@.history_ply == old(self)@.history_ply,
            final(self)@.material == old(self)@.material,
            final(self)@.mg == old(self)@.mg,
            final(self)@.eg == old(self)@.eg,
    {
        let ghost sqs0 = self@.squares;
        let mask: u128 = 1u128 << (sq as u128);
        let pi = piece.get_bb_index().unwrap();
        let ci = piece.player().unwrap().get_bb_idx();
        let pv = self.piece_bitboards[pi];
        self.piece_bitboards.set(pi, pv | mask);
        let cv = self.color_bitboards[ci];
        self.color_bitboards.set(ci, cv | mask);
        self.board.set(sq, piece);
        let zi = piece.get_zobrist_idx().unwrap();
        let key = zobrist_key_at(zi, sq / 9, sq % 9);
        self.hash_key = self.hash_key ^ key;
        proof {
            let sqs2 = self@.squares;
            assert(sqs2 == sqs0.update(sq as int, piece));
            assert forall|pj: int, s: int| 0 <= pj < 14 implies (#[trigger] bb_has(
                self@.piece_bbs[pj],
                s,
            ) <==> (occ_at(sqs2, s) && bb_idx_of(sqs2[s]) == pj)) by {
                if pj == bb_idx_of(piece) {
                    crate::model::lemma_bb_set_bit(old(self)@.piece_bbs[pj], sq as int, s);
                }
            }
            assert forall|cj: int, s: int| 0 <= cj < 2 implies (#[trigger] bb_has(
                self@.color_bbs[cj],
                s,
            ) <==> (occ_at(sqs2, s) && side_idx_of(side_of(sqs2[s])) == cj)) by {
                if cj == side_idx_of(side_of(piece)) {
                    crate::model::lemma_bb_set_bit(old(self)@.color_bbs[cj], sq as int, s);
                }
            }
            lemma_hash_acc_diff(sqs0, sqs2, sq as int, 90);
            let a = hash_acc(sqs0, 90);
            assert(square_key(sqs0, sq as int) == 0);
            assert(square_key(sqs2, sq as int) == key);
            assert(hash_acc(sqs2, 90) == (a ^ 0) ^ key);
            assert((a ^ 0) ^ key == a ^ key) by (bit_vector);
        }
    }

    /// Plays a move: the piece on the from-square goes to the to-square
    /// and whatever stood there is returned.  Every component of the
    /// state — square array, bit sets, hash, history, accumulators — is
    /// updated in step, so well-formedness is preserved.
    pub fn move_piece(&mut self, mv: Move) -> (captured: Piece)
        requires
            old(self).wf(),
            move_ok(old(self)@, from_of(mv), to_of(mv)),
        ensures
            final(self)@ == make_model(old(self)@, from_of(mv), to_of(mv)),
            final(self).wf(),
            captured == old(self)@.squares[to_of(mv)],
    {
        proof {
            lemma_make_wf(old(self)@, from_of(mv), to_of(mv));
            lemma_score_bounds(old(self)@);
        }
        let from_sq = mv.from_sq();
        let to_sq = mv.to_sq();
        let moving_piece = self.board[from_sq];
        let captured_piece = self.board[to_sq];

        // Evaluation accumulators.
        let (mg_from, eg_from) = crate::evaluate::get_pst_scores(moving_piece, from_sq);
        self.mg_pst_score = self.mg_pst_score - mg_from;
        self.eg_pst_score = self.eg_pst_score - eg_from;
        if captured_piece != Piece::Empty {
            let cap_val = crate::psts::material_value_exec(captured_piece.abs_val());
            if crate::evaluate::is_red_exec(captured_piece) {
                self.material_score = self.material_score - cap_val;
            } else {
                self.material_score = self.material_score + cap_val;
            }
            let (mg_cap, eg_cap) = crate::evaluate::get_pst_scores(captured_piece, to_sq);
            self.mg_pst_score = self.mg_pst_score - mg_cap;
            self.eg_pst_score = self.eg_pst_score - eg_cap;
        }
        let (mg_to, eg_to) = crate::evaluate::get_pst_scores(moving_piece, to_sq);
        self.mg_pst_score = self.mg_pst_score + mg_to;
        self.eg_pst_score = self.eg_pst_score + eg_to;

        // Square array and bit sets.
        self.board.set(from_sq, Piece::Empty);
        self.board.set(to_sq, moving_piece);
        let move_mask: u128 = (1u128 << (from_sq as u128)) | (1u128 << (to_sq as u128));
        let mi = moving_piece.get_bb_index().unwrap();
        let pv = self.piece_bitboards[mi];
        self.piece_bitboards.set(mi, pv ^ move_mask);
        let oi = self.player_to_move.get_bb_idx();
        let cv = self.color_bitboards[oi];
        self.color_bitboards.set(oi, cv ^ move_mask);
        if captured_piece != Piece::Empty {
            let to_mask: u128 = 1u128 << (to_sq as u128);
            let cpi = captured_piece.get_bb_index().unwrap();
            let cpv = self.piece_bitboards[cpi];
            self.piece_bitboards.set(cpi, cpv & !to_mask);
            let cci = captured_piece.player().unwrap().get_bb_idx();
            let ccv = self.color_bitboards[cci];
            self.color_bitboards.set(cci, ccv & !to_mask);
        }

        // Hash.
        let mzi = moving_piece.get_zobrist_idx().unwrap();
        self.hash_key = self.hash_key ^ zobrist_key_at(mzi, from_sq / 9, from_sq % 9);
        self.hash_key = self.hash_key ^ zobrist_key_at(mzi, to_sq / 9, to_sq % 9);
        if captured_piece != Piece::Empty {
            let czi = captured_piece.get_zobrist_idx().unwrap();
            self.hash_key = self.hash_key ^ zobrist_key_at(czi, to_sq / 9, to_sq % 9);
        }

        // Side to move, history.
        self.player_to_move = self.player_to_move.opponent();
        self.hash_key = self.hash_key ^ ZOBRIST_PLAYER;
        let hl = self.history.len();
        self.history_ply = self.history_ply + 1;
        self.history.push(self.hash_key);

        proof {
            if captured_piece == Piece::Empty {
                let x = old(self)@.hash ^ piece_key(moving_piece, from_of(mv)) ^ piece_key(
                    moving_piece,
                    to_of(mv),
                );
                let zp = ZOBRIST_PLAYER;
                assert((x ^ 0) ^ zp == x ^ zp) by (bit_vector);
            }
            assert(self@ =~= make_model(old(self)@, from_of(mv), to_of(mv)));
        }
        captured_piece
    }

    /// Retracts a move played by `move_piece`, restoring the captured
    /// piece.  After retraction the state is bit-for-bit what it was
    /// before the move.
    pub fn unmove_piece(&mut self, mv: Move, captured_piece: Piece)
        requires
            old(self).wf(),
            unmake_ok(old(self)@, from_of(mv), to_of(mv), captured_piece),
        ensures
            final(self)@ == unmake_model(old(self)@, from_of(mv), to_of(mv), captured_piece),
            final(self).wf(),
    {
        proof {
            lemma_unmake_wf(old(self)@, from_of(mv), to_of(mv), captured_piece);
            lemma_score_bounds(old(self)@);
        }
        let from_sq = mv.from_sq();
        let to_sq = mv.to_sq();
        let moving_piece = self.board[to_sq];

        self.history_ply = self.history_ply - 1;
        let _ = self.history.pop();
        self.player_to_move = self.player_to_move.opponent();
        self.hash_key = self.hash_key ^ ZOBRIST_PLAYER;

        // Evaluation accumulators.
        let (mg_to, eg_to) = crate::evaluate::get_pst_scores(moving_piece, to_sq);
        self.mg_pst_score = self.mg_pst_score - mg_to;
        self.eg_pst_score = self.eg_pst_score - eg_to;
        let (mg_from, eg_from) = crate::evaluate::get_pst_scores(moving_piece, from_sq);
        self.mg_pst_score = self.mg_pst_score + mg_from;
        self.eg_pst_score = self.eg_pst_score + eg_from;
        if captured_piece != Piece::Empty {
            let cap_val = crate::psts::material_value_exec(captured_piece.abs_val());
            if crate::evaluate::is_red_exec(captured_piece) {
                self.material_score = self.material_score + cap_val;
            } else {
                self.material_score = self.material_score - cap_val;
            }
            let (mg_cap, eg_cap) = crate::evaluate::get_pst_scores(captured_piece, to_sq);
            self.mg_pst_score = self.mg_pst_score + mg_cap;
            self.eg_pst_score = self.eg_pst_score + eg_cap;
        }

        // Square array and bit sets.
        self.board.set(from_sq, moving_piece);
        self.board.set(to_sq, captured_piece);
        let move_mask: u128 = (1u128 << (from_sq as u128)) | (1u128 << (to_sq as u128));
        let mi = moving_piece.get_bb_index().unwrap();
        let pv = self.piece_bitboards[mi];
        self.piece_bitboards.set(mi, pv ^ move_mask);
        let oi = moving_piece.player().unwrap().get_bb_idx();
        let cv = self.color_bitboards[oi];
        self.color_bitboards.set(oi, cv ^ move_mask);
        if captured_piece != Piece::Empty {
            let to_mask: u128 = 1u128 << (to_sq as u128);
            let cpi = captured_piece.get_bb_index().unwrap();
            let cpv = self.piece_bitboards[cpi];
            self.piece_bitboards.set(cpi, cpv | to_mask);
            let cci = captured_piece.player().unwrap().get_bb_idx();
            let ccv = self.color_bitboards[cci];
            self.color_bitboards.set(cci, ccv | to_mask);
        }

        // Hash.
        let mzi = moving_piece.get_zobrist_idx().unwrap();
        self.hash_key = self.hash_key ^ zobrist_key_at(mzi, from_sq / 9, from_sq % 9);
        self.hash_key = self.hash_key ^ zobrist_key_at(mzi, to_sq / 9, to_sq % 9);
        if captured_piece != Piece::Empty {
            let czi = captured_piece.get_zobrist_idx().unwrap();
            self.hash_key = self.hash_key ^ zobrist_key_at(czi, to_sq / 9, to_sq % 9);
        }

        proof {
            if captured_piece == Piece::Empty {
                let x = (old(self)@.hash ^ ZOBRIST_PLAYER) ^ piece_key(
                    moving_piece,
                    from_of(mv),
                ) ^ piece_key(moving_piece, to_of(mv));
                let zp = ZOBRIST_PLAYER;
                let h0 = old(self)@.hash;
                let k1 = piece_key(moving_piece, from_of(mv));
                let k2 = piece_key(moving_piece, to_of(mv));
                assert(((h0 ^ zp) ^ k1) ^ k2 == (((h0 ^ k1) ^ k2) ^ 0) ^ zp) by (bit_vector);
            } else {
                let zp = ZOBRIST_PLAYER;
                let h0 = old(self)@.hash;
                let k1 = piece_key(moving_piece, from_of(mv));
                let k2 = piece_key(moving_piece, to_of(mv));
                let k3 = piece_key(captured_piece, to_of(mv));
                assert((((h0 ^ zp) ^ k1) ^ k2) ^ k3 == (((h0 ^ k1) ^ k2) ^ k3) ^ zp)
                    by (bit_vector);
            }
            assert(self@ =~= unmake_model(old(self)@, from_of(mv), to_of(mv), captured_piece));
        }
    }

    /// Passes the turn without moving: flips the side, toggles the side
    /// key, and records the new hash in the history.
    pub fn make_null_move(&mut self)
        requires
            old(self).wf(),
        ensures
            final(self)@ == null_model(old(self)@),
            final(self).wf(),
    {
        proof {
            lemma_null_wf(old(self)@);
        }
        self.player_to_move = self.player_to_move.opponent();
        self.hash_key = self.hash_key ^ ZOBRIST_PLAYER;
        let hl = self.history.len();
        self.history_ply = self.history_ply + 1;
        self.history.push(self.hash_key);
        proof {
            assert(self@ =~= null_model(old(self)@));
        }
    }

    /// Retracts a null move.
    pub fn unmake_null_move(&mut self)
        requires
            old(self).wf(),
            old(self)@.history_ply >= 1,
            old(self)@.history[old(self)@.history_ply - 1] == old(self)@.hash ^ ZOBRIST_PLAYER,
        ensures
            final(self)@ == (BoardModel {
                to_move: opponent_of(old(self)@.to_move),
                hash: old(self)@.hash ^ ZOBRIST_PLAYER,
                history: old(self)@.history.drop_last(),
                history_ply: old(self)@.history_ply - 1,
                ..old(self)@
            }),
            final(self).wf(),
    {
        self.player_to_move = self.player_to_move.opponent();
        self.hash_key = self.hash_key ^ ZOBRIST_PLAYER;
        self.history_ply = self.history_ply - 1;
        let _ = self.history.pop();
        proof {
            let a = hash_acc(old(self)@.squares, 90);
            let zp = ZOBRIST_PLAYER;
            let st: u64 = if old(self)@.to_move == Player::Black {
                zp
            } else {
                0
            };
            let st2: u64 = if self@.to_move == Player::Black {
                zp
            } else {
                0
            };
            assert(st2 == st ^ zp) by (bit_vector)
                requires
                    (st == 0 && st2 == zp) || (st == zp && st2 == 0),
            ;
            assert((a ^ st) ^ zp == a ^ (st ^ zp)) by (bit_vector);
            assert(self@ =~= (BoardModel {
                to_move: opponent_of(old(self)@.to_move),
                hash: old(self)@.hash ^ ZOBRIST_PLAYER,
                history: old(self)@.history.drop_last(),
                history_ply: old(self)@.history_ply - 1,
                ..old(self)@
            }));
        }
    }
}

} // verus!
