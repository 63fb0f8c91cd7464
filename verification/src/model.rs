//! The mathematical model of the board state.
//!
//! `BoardModel` mirrors every field of the executable board.  The
//! well-formedness predicate ties the redundant parts together: the
//! per-piece and per-side bit sets agree with the square array, the hash
//! equals its from-scratch recomputation, and the three evaluation
//! accumulators equal their from-scratch sums.  `make_model` and
//! `unmake_model` are the state transitions of playing and retracting a
//! move; the round-trip lemma at the bottom shows they are exact inverses.

use vstd::prelude::*;
use crate::bits::{bb_has, lemma_bb_or, lemma_bb_and, lemma_bb_not, lemma_bb_xor, lemma_bb_single,
    lemma_bb_xor_cancel, lemma_bb_clear_then_set};
use crate::constants::{Piece, Player, side_of, bb_idx_of, zob_idx_of, side_idx_of, opponent_of};
use crate::rules::{occ_at, rank_of, file_of, sum_of, lemma_sum_update, lemma_sum_bound};
use crate::psts::{pst_mg_at, pst_eg_at, material_at, lemma_pst_bounds};
use crate::zobrist::{zobrist_key, ZOBRIST_PLAYER};

verus! {

/// The single-square occupancy mask of square `s`.
pub open spec fn sq_bb(s: int) -> u128 {
    1u128 << (s as u128)
}

/// The Zobrist key of a non-empty piece standing on square `s`.
pub open spec fn piece_key(p: Piece, s: int) -> u64 {
    zobrist_key(zob_idx_of(p), rank_of(s), file_of(s))
}

/// The Zobrist contribution of square `s`: the key of its piece, or 0.
pub open spec fn square_key(sqs: Seq<Piece>, s: int) -> u64 {
    if occ_at(sqs, s) {
        piece_key(sqs[s], s)
    } else {
        0
    }
}

/// The xor of the square keys of the first `n` squares.
pub open spec fn hash_acc(sqs: Seq<Piece>, n: int) -> u64
    decreases n,
{
    if n <= 0 {
        0
    } else {
        hash_acc(sqs, n - 1) ^ square_key(sqs, n - 1)
    }
}

/// The from-scratch hash of a position: the xor of all square keys,
/// xored with the side key exactly when Black is to move.
pub open spec fn hash_of(sqs: Seq<Piece>, side: Player) -> u64 {
    hash_acc(sqs, 90) ^ (if side == Player::Black {
        ZOBRIST_PLAYER
    } else {
        0
    })
}

/// The from-scratch material balance, positive for Red.
pub open spec fn material_of(sqs: Seq<Piece>) -> int {
    sum_of(|s: int| material_at(sqs, s), 90)
}

/// The from-scratch midgame piece-square sum, positive for Red.
pub open spec fn mg_of(sqs: Seq<Piece>) -> int {
    sum_of(|s: int| pst_mg_at(sqs, s), 90)
}

/// The from-scratch endgame piece-square sum, positive for Red.
pub open spec fn eg_of(sqs: Seq<Piece>) -> int {
    sum_of(|s: int| pst_eg_at(sqs, s), 90)
}

/// The full mathematical state of a board.
#[verifier::ext_equal]
pub struct BoardModel {
    pub squares: Seq<Piece>,
    pub piece_bbs: Seq<u128>,
    pub color_bbs: Seq<u128>,
    pub to_move: Player,
    pub hash: u64,
    pub history: Seq<u64>,
    pub history_ply: int,
    pub material: int,
    pub mg: int,
    pub eg: int,
}

impl BoardModel {
    /// The bit sets agree with the square array: exactly the squares
    /// holding piece `pi` are set in piece bit set `pi`, and likewise for
    /// the two side bit sets.
    pub open spec fn wf_bits(self) -> bool {
        &&& self.squares.len() == 90
        &&& self.piece_bbs.len() == 14
        &&& self.color_bbs.len() == 2
        &&& forall|pi: int, s: int|
            0 <= pi < 14 ==> (#[trigger] bb_has(self.piece_bbs[pi], s) <==> (occ_at(
                self.squares,
                s,
            ) && bb_idx_of(self.squares[s]) == pi))
        &&& forall|ci: int, s: int|
            0 <= ci < 2 ==> (#[trigger] bb_has(self.color_bbs[ci], s) <==> (occ_at(
                self.squares,
                s,
            ) && side_idx_of(side_of(self.squares[s])) == ci))
    }

    /// The hash equals its from-scratch recomputation.
    pub open spec fn wf_hash(self) -> bool {
        self.hash == hash_of(self.squares, self.to_move)
    }

    /// The history records every hash up to the current ply, the current
    /// hash last.
    pub open spec fn wf_history(self) -> bool {
        &&& self.history_ply >= 0
        &&& self.history.len() == self.history_ply + 1
        &&& self.history[self.history_ply] == self.hash
    }

    /// The evaluation accumulators equal their from-scratch sums.
    pub open spec fn wf_scores(self) -> bool {
        &&& self.material == material_of(self.squares)
        &&& self.mg == mg_of(self.squares)
        &&& self.eg == eg_of(self.squares)
    }

    /// Well-formedness: all of the above.
    pub open spec fn wf(self) -> bool {
        self.wf_bits() && self.wf_hash() && self.wf_history() && self.wf_scores()
    }
}

/// What a move needs before it can be made: both squares on the board and
/// distinct, a piece of the side to move on the source, and not a friend
/// on the destination.
pub open spec fn move_ok(m: BoardModel, f: int, t: int) -> bool {
    &&& 0 <= f < 90
    &&& 0 <= t < 90
    &&& f != t
    &&& occ_at(m.squares, f)
    &&& side_of(m.squares[f]) == m.to_move
    &&& (occ_at(m.squares, t) ==> side_of(m.squares[t]) != m.to_move)
}

/// The state after moving the piece on `f` to `t`, capturing whatever
/// stood on `t`.
pub open spec fn make_model(m: BoardModel, f: int, t: int) -> BoardModel {
    let mover = m.squares[f];
    let cap = m.squares[t];
    let sqs2 = m.squares.update(f, Piece::Empty).update(t, mover);
    let mi = bb_idx_of(mover);
    let oi = side_idx_of(side_of(mover));
    let mask = sq_bb(f) | sq_bb(t);
    let pbb1 = m.piece_bbs.update(mi, m.piece_bbs[mi] ^ mask);
    let cbb1 = m.color_bbs.update(oi, m.color_bbs[oi] ^ mask);
    let pbb2 = if cap != Piece::Empty {
        pbb1.update(bb_idx_of(cap), pbb1[bb_idx_of(cap)] & !sq_bb(t))
    } else {
        pbb1
    };
    let cbb2 = if cap != Piece::Empty {
        cbb1.update(side_idx_of(side_of(cap)), cbb1[side_idx_of(side_of(cap))] & !sq_bb(t))
    } else {
        cbb1
    };
    let hash2 = m.hash ^ piece_key(mover, f) ^ piece_key(mover, t) ^ (if cap != Piece::Empty {
        piece_key(cap, t)
    } else {
        0
    }) ^ ZOBRIST_PLAYER;
    BoardModel {
        squares: sqs2,
        piece_bbs: pbb2,
        color_bbs: cbb2,
        to_move: opponent_of(m.to_move),
        hash: hash2,
        history: m.history.push(hash2),
        history_ply: m.history_ply + 1,
        material: m.material - material_at(m.squares, t),
        mg: m.mg - pst_mg_at(m.squares, f) - pst_mg_at(m.squares, t) + pst_mg_at(sqs2, t),
        eg: m.eg - pst_eg_at(m.squares, f) - pst_eg_at(m.squares, t) + pst_eg_at(sqs2, t),
    }
}

/// What a retraction needs: the mover's piece on `t`, an empty `f`, a
/// captured piece (possibly empty) belonging to the side now to move, and
/// at least one recorded ply.
pub open spec fn unmake_ok(m: BoardModel, f: int, t: int, cap: Piece) -> bool {
    &&& 0 <= f < 90
    &&& 0 <= t < 90
    &&& f != t
    &&& occ_at(m.squares, t)
    &&& side_of(m.squares[t]) == opponent_of(m.to_move)
    &&& !occ_at(m.squares, f)
    &&& (cap != Piece::Empty ==> side_of(cap) == m.to_move)
    &&& m.history_ply >= 1
    &&& m.history[m.history_ply - 1] == m.hash ^ piece_key(m.squares[t], f) ^ piece_key(
        m.squares[t],
        t,
    ) ^ (if cap != Piece::Empty {
        piece_key(cap, t)
    } else {
        0
    }) ^ ZOBRIST_PLAYER
}

/// The state after retracting a move of the piece now on `t` back to `f`,
/// restoring `cap` on `t`.
pub open spec fn unmake_model(m: BoardModel, f: int, t: int, cap: Piece) -> BoardModel {
    let mover = m.squares[t];
    let sqs2 = m.squares.update(f, mover).update(t, cap);
    let mi = bb_idx_of(mover);
    let oi = side_idx_of(side_of(mover));
    let mask = sq_bb(f) | sq_bb(t);
    let pbb1 = m.piece_bbs.update(mi, m.piece_bbs[mi] ^ mask);
    let cbb1 = m.color_bbs.update(oi, m.color_bbs[oi] ^ mask);
    let pbb2 = if cap != Piece::Empty {
        pbb1.update(bb_idx_of(cap), pbb1[bb_idx_of(cap)] | sq_bb(t))
    } else {
        pbb1
    };
    let cbb2 = if cap != Piece::Empty {
        cbb1.update(side_idx_of(side_of(cap)), cbb1[side_idx_of(side_of(cap))] | sq_bb(t))
    } else {
        cbb1
    };
    let hash2 = m.hash ^ piece_key(mover, f) ^ piece_key(mover, t) ^ (if cap != Piece::Empty {
        piece_key(cap, t)
    } else {
        0
    }) ^ ZOBRIST_PLAYER;
    BoardModel {
        squares: sqs2,
        piece_bbs: pbb2,
        color_bbs: cbb2,
        to_move: opponent_of(m.to_move),
        hash: hash2,
        history: m.history.drop_last(),
        history_ply: m.history_ply - 1,
        material: m.material + material_at(sqs2, t),
        mg: m.mg - pst_mg_at(m.squares, t) + pst_mg_at(sqs2, f) + pst_mg_at(sqs2, t),
        eg: m.eg - pst_eg_at(m.squares, t) + pst_eg_at(sqs2, f) + pst_eg_at(sqs2, t),
    }
}

// ---------------------------------------------------------------------------
// Bit-set transformation lemmas.
// ---------------------------------------------------------------------------

/// Xoring the two-square mask flips membership of exactly those squares.
pub proof fn lemma_bb_move_bits(bb: u128, f: int, t: int, s: int)
    requires
        0 <= f < 90,
        0 <= t < 90,
    ensures
        bb_has(bb ^ (sq_bb(f) | sq_bb(t)), s) <==> (if s == f || s == t {
            !bb_has(bb, s)
        } else {
            bb_has(bb, s)
        }),
{
    lemma_bb_single(f, s);
    lemma_bb_single(t, s);
    lemma_bb_or(sq_bb(f), sq_bb(t), s);
    lemma_bb_xor(bb, sq_bb(f) | sq_bb(t), s);
}

/// Clearing one square removes exactly that square.
pub proof fn lemma_bb_clear_bit(bb: u128, t: int, s: int)
    requires
        0 <= t < 90,
    ensures
        bb_has(bb & !sq_bb(t), s) <==> (s != t && bb_has(bb, s)),
{
    lemma_bb_single(t, s);
    if 0 <= s < 128 {
        lemma_bb_not(sq_bb(t), s);
    }
    lemma_bb_and(bb, !sq_bb(t), s);
}

/// Setting one square adds exactly that square.
pub proof fn lemma_bb_set_bit(bb: u128, t: int, s: int)
    requires
        0 <= t < 90,
    ensures
        bb_has(bb | sq_bb(t), s) <==> (s == t || bb_has(bb, s)),
{
    lemma_bb_single(t, s);
    lemma_bb_or(bb, sq_bb(t), s);
}

// ---------------------------------------------------------------------------
// Hash update.
// ---------------------------------------------------------------------------

/// Changing one square changes the key accumulator by the xor of the old
/// and new keys of that square.
pub proof fn lemma_hash_acc_diff(s1: Seq<Piece>, s2: Seq<Piece>, k: int, n: int)
    requires
        0 <= k < 90,
        forall|i: int| 0 <= i < 90 && i != k ==> s1[i] == s2[i],
        n <= 90,
    ensures
        k < n ==> hash_acc(s2, n) == hash_acc(s1, n) ^ square_key(s1, k) ^ square_key(s2, k),
        k >= n ==> hash_acc(s2, n) == hash_acc(s1, n),
    decreases n,
{
    if n > 0 {
        lemma_hash_acc_diff(s1, s2, k, n - 1);
        let h1 = hash_acc(s1, n - 1);
        let a1 = square_key(s1, n - 1);
        let a2 = square_key(s2, n - 1);
        if n - 1 == k {
            assert(h1 ^ a2 == ((h1 ^ a1) ^ a1) ^ a2) by (bit_vector);
        } else if k < n - 1 {
            let b1 = square_key(s1, k);
            let b2 = square_key(s2, k);
            assert(a1 == a2);
            assert(((h1 ^ b1) ^ b2) ^ a1 == ((h1 ^ a1) ^ b1) ^ b2) by (bit_vector);
        } else {
            assert(a1 == a2);
        }
    }
}

// ---------------------------------------------------------------------------
// Preservation and round trip.
// ---------------------------------------------------------------------------
/// The piece and side bit-set indices touched by a capture differ from
/// those of the mover.
proof fn lemma_cap_indices(mover: Piece, cap: Piece)
    requires
        mover != Piece::Empty,
        cap != Piece::Empty,
        side_of(cap) != side_of(mover),
    ensures
        bb_idx_of(cap) != bb_idx_of(mover),
        side_idx_of(side_of(cap)) != side_idx_of(side_of(mover)),
        0 <= bb_idx_of(cap) < 14,
        0 <= bb_idx_of(mover) < 14,
{
}

/// Making a move keeps the bit sets in agreement with the square array.
#[verifier::rlimit(100)]
proof fn lemma_make_wf_bits(m: BoardModel, f: int, t: int)
    requires
        m.wf_bits(),
        move_ok(m, f, t),
    ensures
        make_model(m, f, t).wf_bits(),
{
    let mover = m.squares[f];
    let cap = m.squares[t];
    let sqs2 = m.squares.update(f, Piece::Empty).update(t, mover);
    let m2 = make_model(m, f, t);
    let mi = bb_idx_of(mover);
    let oi = side_idx_of(side_of(mover));
    if cap != Piece::Empty {
        lemma_cap_indices(mover, cap);
    }
    assert forall|pi: int, s: int| 0 <= pi < 14 implies (#[trigger] bb_has(m2.piece_bbs[pi], s)
        <==> (occ_at(sqs2, s) && bb_idx_of(sqs2[s]) == pi)) by {
        if pi == mi {
            lemma_bb_move_bits(m.piece_bbs[mi], f, t, s);
        } else if cap != Piece::Empty && pi == bb_idx_of(cap) {
            lemma_bb_clear_bit(m.piece_bbs[pi], t, s);
        }
    }
    assert forall|ci: int, s: int| 0 <= ci < 2 implies (#[trigger] bb_has(m2.color_bbs[ci], s)
        <==> (occ_at(sqs2, s) && side_idx_of(side_of(sqs2[s])) == ci)) by {
        if ci == oi {
            lemma_bb_move_bits(m.color_bbs[oi], f, t, s);
        } else if cap != Piece::Empty && ci == side_idx_of(side_of(cap)) {
            lemma_bb_clear_bit(m.color_bbs[ci], t, s);
        }
    }
}

/// Making a move updates the hash to the from-scratch hash of the new
/// position.
proof fn lemma_make_wf_hash(m: BoardModel, f: int, t: int)
    requires
        m.squares.len() == 90,
        m.wf_hash(),
        move_ok(m, f, t),
    ensures
        make_model(m, f, t).wf_hash(),
{
    let mover = m.squares[f];
    let cap = m.squares[t];
    let sqs = m.squares;
    let sqs1 = sqs.update(f, Piece::Empty);
    let sqs2 = sqs1.update(t, mover);
    let m2 = make_model(m, f, t);
    lemma_hash_acc_diff(sqs, sqs1, f, 90);
    lemma_hash_acc_diff(sqs1, sqs2, t, 90);
    let a = hash_acc(sqs, 90);
    let k1 = piece_key(mover, f);
    let k2 = piece_key(mover, t);
    let k3 = square_key(sqs, t);
    assert(square_key(sqs, f) == k1);
    assert(square_key(sqs1, f) == 0);
    assert(square_key(sqs1, t) == k3);
    assert(square_key(sqs2, t) == k2);
    assert(hash_acc(sqs2, 90) == ((a ^ k1 ^ 0) ^ k3) ^ k2);
    let st: u64 = if m.to_move == Player::Black {
        ZOBRIST_PLAYER
    } else {
        0
    };
    let st2: u64 = if m2.to_move == Player::Black {
        ZOBRIST_PLAYER
    } else {
        0
    };
    let zp = ZOBRIST_PLAYER;
    assert(st2 == st ^ zp) by (bit_vector)
        requires
            (st == 0 && st2 == zp) || (st == zp && st2 == 0),
    ;
    assert((((a ^ k1 ^ 0) ^ k3) ^ k2) ^ (st ^ zp) == (((((a ^ st) ^ k1) ^ k2) ^ k3) ^ zp))
        by (bit_vector);
    assert(m2.hash == hash_of(sqs2, m2.to_move));
}

/// Making a move updates the three accumulators to their from-scratch
/// sums over the new position.
#[verifier::rlimit(100)]
proof fn lemma_make_wf_scores(m: BoardModel, f: int, t: int)
    requires
        m.squares.len() == 90,
        m.wf_scores(),
        move_ok(m, f, t),
    ensures
        make_model(m, f, t).wf_scores(),
{
    let mover = m.squares[f];
    let sqs = m.squares;
    let sqs1 = sqs.update(f, Piece::Empty);
    let sqs2 = sqs1.update(t, mover);
    let m2 = make_model(m, f, t);
    assert(m2.squares == sqs2);

    let fm0 = |s: int| material_at(sqs, s);
    let fm1 = |s: int| material_at(sqs1, s);
    let fm2 = |s: int| material_at(sqs2, s);
    lemma_sum_update(fm0, fm1, 90, f);
    lemma_sum_update(fm1, fm2, 90, t);
    assert(fm1(f) == 0);
    assert(fm1(t) == fm0(t));
    assert(fm2(t) == material_at(sqs2, t));
    assert(material_at(sqs2, t) == fm0(f)) by {
        assert(sqs2[t] == mover);
    }
    assert(material_of(sqs2) == m2.material);

    let g0 = |s: int| pst_mg_at(sqs, s);
    let g1 = |s: int| pst_mg_at(sqs1, s);
    let g2 = |s: int| pst_mg_at(sqs2, s);
    lemma_sum_update(g0, g1, 90, f);
    lemma_sum_update(g1, g2, 90, t);
    assert(g1(f) == 0);
    assert(g1(t) == g0(t));
    assert(mg_of(sqs2) == m2.mg);

    let e0 = |s: int| pst_eg_at(sqs, s);
    let e1 = |s: int| pst_eg_at(sqs1, s);
    let e2 = |s: int| pst_eg_at(sqs2, s);
    lemma_sum_update(e0, e1, 90, f);
    lemma_sum_update(e1, e2, 90, t);
    assert(e1(f) == 0);
    assert(e1(t) == e0(t));
    assert(eg_of(sqs2) == m2.eg);
}

/// Making a move preserves well-formedness, and leaves the board in a
/// state from which the same move can be retracted.  This is the
/// preservation half of the bit-set/array agreement, hash consistency and
/// accumulator consistency invariants.
pub proof fn lemma_make_wf(m: BoardModel, f: int, t: int)
    requires
        m.wf(),
        move_ok(m, f, t),
    ensures
        make_model(m, f, t).wf(),
        unmake_ok(make_model(m, f, t), f, t, m.squares[t]),
{
    lemma_make_wf_bits(m, f, t);
    lemma_make_wf_hash(m, f, t);
    lemma_make_wf_scores(m, f, t);
    let m2 = make_model(m, f, t);
    let mover = m.squares[f];
    let cap = m.squares[t];
    let h = m.hash;
    let k1 = piece_key(mover, f);
    let k2 = piece_key(mover, t);
    let k3: u64 = if cap != Piece::Empty {
        piece_key(cap, t)
    } else {
        0
    };
    let zp = ZOBRIST_PLAYER;
    // The entry below the new top of the history is the hash the
    // retraction will recompute.
    assert(m2.history[m2.history_ply - 1] == m.hash);
    assert(m2.squares[t] == mover && m2.squares[t] != Piece::Empty);
    assert(h == (((((h ^ k1) ^ k2) ^ k3) ^ zp) ^ k1) ^ k2 ^ k3 ^ zp) by (bit_vector);
}

/// Retracting a move keeps the bit sets in agreement with the square
/// array.
#[verifier::rlimit(100)]
proof fn lemma_unmake_wf_bits(m: BoardModel, f: int, t: int, cap: Piece)
    requires
        m.wf_bits(),
        unmake_ok(m, f, t, cap),
    ensures
        unmake_model(m, f, t, cap).wf_bits(),
{
    let mover = m.squares[t];
    let sqs2 = m.squares.update(f, mover).update(t, cap);
    let m2 = unmake_model(m, f, t, cap);
    let mi = bb_idx_of(mover);
    let oi = side_idx_of(side_of(mover));
    if cap != Piece::Empty {
        lemma_cap_indices(mover, cap);
    }
    assert forall|pi: int, s: int| 0 <= pi < 14 implies (#[trigger] bb_has(m2.piece_bbs[pi], s)
        <==> (occ_at(sqs2, s) && bb_idx_of(sqs2[s]) == pi)) by {
        if pi == mi {
            lemma_bb_move_bits(m.piece_bbs[mi], f, t, s);
        } else if cap != Piece::Empty && pi == bb_idx_of(cap) {
            lemma_bb_set_bit(m.piece_bbs[pi], t, s);
        }
    }
    assert forall|ci: int, s: int| 0 <= ci < 2 implies (#[trigger] bb_has(m2.color_bbs[ci], s)
        <==> (occ_at(sqs2, s) && side_idx_of(side_of(sqs2[s])) == ci)) by {
        if ci == oi {
            lemma_bb_move_bits(m.color_bbs[oi], f, t, s);
        } else if cap != Piece::Empty && ci == side_idx_of(side_of(cap)) {
            lemma_bb_set_bit(m.color_bbs[ci], t, s);
        }
    }
}

/// Retracting a move updates the hash to the from-scratch hash of the
/// restored position.
proof fn lemma_unmake_wf_hash(m: BoardModel, f: int, t: int, cap: Piece)
    requires
        m.squares.len() == 90,
        m.wf_hash(),
        unmake_ok(m, f, t, cap),
    ensures
        unmake_model(m, f, t, cap).wf_hash(),
{
    let mover = m.squares[t];
    let sqs = m.squares;
    let sqs1 = sqs.update(f, mover);
    let sqs2 = sqs1.update(t, cap);
    let m2 = unmake_model(m, f, t, cap);
    lemma_hash_acc_diff(sqs, sqs1, f, 90);
    lemma_hash_acc_diff(sqs1, sqs2, t, 90);
    let a = hash_acc(sqs, 90);
    let k1 = piece_key(mover, f);
    let k2 = piece_key(mover, t);
    let k3: u64 = if cap != Piece::Empty {
        piece_key(cap, t)
    } else {
        0
    };
    assert(square_key(sqs, f) == 0);
    assert(square_key(sqs1, f) == k1);
    assert(square_key(sqs1, t) == k2);
    assert(square_key(sqs2, t) == k3);
    assert(hash_acc(sqs2, 90) == ((a ^ 0 ^ k1) ^ k2) ^ k3);
    let st: u64 = if m.to_move == Player::Black {
        ZOBRIST_PLAYER
    } else {
        0
    };
    let st2: u64 = if m2.to_move == Player::Black {
        ZOBRIST_PLAYER
    } else {
        0
    };
    let zp = ZOBRIST_PLAYER;
    assert(st2 == st ^ zp) by (bit_vector)
        requires
            (st == 0 && st2 == zp) || (st == zp && st2 == 0),
    ;
    assert((((a ^ 0 ^ k1) ^ k2) ^ k3) ^ (st ^ zp) == (((((a ^ st) ^ k1) ^ k2) ^ k3) ^ zp))
        by (bit_vector);
    assert(m2.hash == hash_of(sqs2, m2.to_move));
}

/// Retracting a move updates the three accumulators to their from-scratch
/// sums over the restored position.
#[verifier::rlimit(100)]
proof fn lemma_unmake_wf_scores(m: BoardModel, f: int, t: int, cap: Piece)
    requires
        m.squares.len() == 90,
        m.wf_scores(),
        unmake_ok(m, f, t, cap),
    ensures
        unmake_model(m, f, t, cap).wf_scores(),
{
    let mover = m.squares[t];
    let sqs = m.squares;
    let sqs1 = sqs.update(f, mover);
    let sqs2 = sqs1.update(t, cap);
    let m2 = unmake_model(m, f, t, cap);
    assert(m2.squares == sqs2);

    let fm0 = |s: int| material_at(sqs, s);
    let fm1 = |s: int| material_at(sqs1, s);
    let fm2 = |s: int| material_at(sqs2, s);
    lemma_sum_update(fm0, fm1, 90, f);
    lemma_sum_update(fm1, fm2, 90, t);
    assert(fm0(f) == 0);
    assert(fm1(t) == fm0(t));
    assert(fm1(f) == fm0(t)) by {
        assert(sqs1[f] == mover);
    }
    assert(fm2(t) == material_at(sqs2, t));
    assert(material_of(sqs2) == m2.material);

    let g0 = |s: int| pst_mg_at(sqs, s);
    let g1 = |s: int| pst_mg_at(sqs1, s);
    let g2 = |s: int| pst_mg_at(sqs2, s);
    lemma_sum_update(g0, g1, 90, f);
    lemma_sum_update(g1, g2, 90, t);
    assert(g0(f) == 0);
    assert(g1(t) == g0(t));
    assert(g1(f) == pst_mg_at(sqs2, f)) by {
        assert(sqs1[f] == sqs2[f]);
    }
    assert(mg_of(sqs2) == m2.mg);

    let e0 = |s: int| pst_eg_at(sqs, s);
    let e1 = |s: int| pst_eg_at(sqs1, s);
    let e2 = |s: int| pst_eg_at(sqs2, s);
    lemma_sum_update(e0, e1, 90, f);
    lemma_sum_update(e1, e2, 90, t);
    assert(e0(f) == 0);
    assert(e1(t) == e0(t));
    assert(e1(f) == pst_eg_at(sqs2, f)) by {
        assert(sqs1[f] == sqs2[f]);
    }
    assert(eg_of(sqs2) == m2.eg);
}

/// Retracting a move preserves well-formedness.
pub proof fn lemma_unmake_wf(m: BoardModel, f: int, t: int, cap: Piece)
    requires
        m.wf(),
        unmake_ok(m, f, t, cap),
    ensures
        unmake_model(m, f, t, cap).wf(),
{
    lemma_unmake_wf_bits(m, f, t, cap);
    lemma_unmake_wf_hash(m, f, t, cap);
    lemma_unmake_wf_scores(m, f, t, cap);
    let m2 = unmake_model(m, f, t, cap);
    assert(m2.history.len() == m.history.len() - 1);
    assert(m2.history[m2.history_ply] == m.history[m.history_ply - 1]);
    assert(m2.history[m2.history_ply] == m2.hash);
}

/// Make followed by unmake restores the board bit for bit: every square,
/// every bit set, the side to move, the hash, the history and all three
/// evaluation accumulators.
#[verifier::rlimit(100)]
pub proof fn lemma_make_unmake_roundtrip(m: BoardModel, f: int, t: int)
    requires
        m.wf(),
        move_ok(m, f, t),
    ensures
        unmake_model(make_model(m, f, t), f, t, m.squares[t]) == m,
{
    let mover = m.squares[f];
    let cap = m.squares[t];
    let m1 = make_model(m, f, t);
    let m2 = unmake_model(m1, f, t, cap);
    lemma_make_wf(m, f, t);

    // Squares.
    assert(m2.squares =~= m.squares);

    // Bit sets: xor with the move mask twice cancels; clearing then
    // setting the captured square restores it.
    let mask = sq_bb(f) | sq_bb(t);
    let mi = bb_idx_of(mover);
    let oi = side_idx_of(side_of(mover));
    if cap != Piece::Empty {
        lemma_cap_indices(mover, cap);
        let ci = bb_idx_of(cap);
        let si = side_idx_of(side_of(cap));
        assert(bb_has(m.piece_bbs[ci], t));
        assert(bb_has(m.color_bbs[si], t));
        assert((m.piece_bbs[ci] >> (t as u128)) & 1 == 1);
        lemma_bb_clear_then_set(m.piece_bbs[ci], t as u128);
        lemma_bb_clear_then_set(m.color_bbs[si], t as u128);
        assert((m.piece_bbs[ci] & !(1u128 << (t as u128))) | (1u128 << (t as u128))
            == m.piece_bbs[ci]);
        assert((m.piece_bbs[ci] & !sq_bb(t)) | sq_bb(t) == m.piece_bbs[ci]);
        assert((m.color_bbs[si] & !sq_bb(t)) | sq_bb(t) == m.color_bbs[si]);
    }
    lemma_bb_xor_cancel(m.piece_bbs[mi], mask);
    lemma_bb_xor_cancel(m.color_bbs[oi], mask);
    assert(m2.piece_bbs =~= m.piece_bbs);
    assert(m2.color_bbs =~= m.color_bbs);

    // Side to move.
    assert(m2.to_move == m.to_move);

    // Hash: the same keys are xored out again.
    let k1 = piece_key(mover, f);
    let k2 = piece_key(mover, t);
    let k3: u64 = if cap != Piece::Empty {
        piece_key(cap, t)
    } else {
        0
    };
    let h = m.hash;
    let zp = ZOBRIST_PLAYER;
    assert((((((h ^ k1) ^ k2) ^ k3) ^ zp) ^ k1 ^ k2 ^ k3 ^ zp) == h) by (bit_vector);
    assert(m2.hash == m.hash);

    // History.
    assert(m2.history =~= m.history);

    // Accumulators cancel arithmetically.
    assert(m2.material == m.material);
    assert(m2.mg == m.mg);
    assert(m2.eg == m.eg);

    assert(m2 =~= m);
}

// ---------------------------------------------------------------------------
// Further facts used by the executable board.
// ---------------------------------------------------------------------------

/// Well-formed accumulators are small enough for 32-bit arithmetic.
pub proof fn lemma_score_bounds(m: BoardModel)
    requires
        m.squares.len() == 90,
        m.wf_scores(),
    ensures
        -900_000 <= m.material <= 900_000,
        -19_800 <= m.mg <= 19_800,
        -19_800 <= m.eg <= 19_800,
{
    let fm = |s: int| material_at(m.squares, s);
    assert forall|s: int| 0 <= s < 90 implies -10_000 <= #[trigger] fm(s) <= 10_000 by {}
    lemma_sum_bound(fm, 90, -10_000, 10_000);

    let g = |s: int| pst_mg_at(m.squares, s);
    assert forall|s: int| 0 <= s < 90 implies -220 <= #[trigger] g(s) <= 220 by {
        if occ_at(m.squares, s) {
            let p = m.squares[s];
            lemma_pst_bounds(crate::constants::abs_of(p), 9 - rank_of(s), 8 - file_of(s));
            lemma_pst_bounds(crate::constants::abs_of(p), rank_of(s), file_of(s));
        }
    }
    lemma_sum_bound(g, 90, -220, 220);

    let e = |s: int| pst_eg_at(m.squares, s);
    assert forall|s: int| 0 <= s < 90 implies -220 <= #[trigger] e(s) <= 220 by {
        if occ_at(m.squares, s) {
            let p = m.squares[s];
            lemma_pst_bounds(crate::constants::abs_of(p), 9 - rank_of(s), 8 - file_of(s));
            lemma_pst_bounds(crate::constants::abs_of(p), rank_of(s), file_of(s));
        }
    }
    lemma_sum_bound(e, 90, -220, 220);
}

/// An entirely empty position hashes to zero and sums to zero.
pub proof fn lemma_empty_position(sqs: Seq<Piece>)
    requires
        sqs.len() == 90,
        forall|s: int| 0 <= s < 90 ==> sqs[s] == Piece::Empty,
    ensures
        hash_acc(sqs, 90) == 0,
        material_of(sqs) == 0,
        mg_of(sqs) == 0,
        eg_of(sqs) == 0,
{
    lemma_hash_acc_empty(sqs, 90);
    let fm = |s: int| material_at(sqs, s);
    assert forall|s: int| 0 <= s < 90 implies #[trigger] fm(s) == 0 by {}
    lemma_sum_bound(fm, 90, 0, 0);
    let g = |s: int| pst_mg_at(sqs, s);
    assert forall|s: int| 0 <= s < 90 implies #[trigger] g(s) == 0 by {}
    lemma_sum_bound(g, 90, 0, 0);
    let e = |s: int| pst_eg_at(sqs, s);
    assert forall|s: int| 0 <= s < 90 implies #[trigger] e(s) == 0 by {}
    lemma_sum_bound(e, 90, 0, 0);
}

proof fn lemma_hash_acc_empty(sqs: Seq<Piece>, n: int)
    requires
        sqs.len() == 90,
        n <= 90,
        forall|s: int| 0 <= s < 90 ==> sqs[s] == Piece::Empty,
    ensures
        hash_acc(sqs, n) == 0,
    decreases n,
{
    if n > 0 {
        lemma_hash_acc_empty(sqs, n - 1);
        let h: u64 = hash_acc(sqs, n - 1);
        assert(h ^ 0 == h) by (bit_vector);
    }
}

/// The state after a null move: only the side, hash and history change.
pub open spec fn null_model(m: BoardModel) -> BoardModel {
    let hash2 = m.hash ^ ZOBRIST_PLAYER;
    BoardModel {
        to_move: opponent_of(m.to_move),
        hash: hash2,
        history: m.history.push(hash2),
        history_ply: m.history_ply + 1,
        ..m
    }
}

/// A null move preserves well-formedness.
pub proof fn lemma_null_wf(m: BoardModel)
    requires
        m.wf(),
    ensures
        null_model(m).wf(),
{
    let a = hash_acc(m.squares, 90);
    let zp = ZOBRIST_PLAYER;
    let st: u64 = if m.to_move == Player::Black {
        zp
    } else {
        0
    };
    let st2: u64 = if null_model(m).to_move == Player::Black {
        zp
    } else {
        0
    };
    assert(st2 == st ^ zp) by (bit_vector)
        requires
            (st == 0 && st2 == zp) || (st == zp && st2 == 0),
    ;
    assert((a ^ st) ^ zp == a ^ (st ^ zp)) by (bit_vector);
}

/// Retracting a null move restores the state exactly.
pub proof fn lemma_null_roundtrip(m: BoardModel)
    requires
        m.wf(),
    ensures
        (BoardModel {
            to_move: opponent_of(null_model(m).to_move),
            hash: null_model(m).hash ^ ZOBRIST_PLAYER,
            history: null_model(m).history.drop_last(),
            history_ply: null_model(m).history_ply - 1,
            ..null_model(m)
        }) == m,
{
    let h = m.hash;
    let zp = ZOBRIST_PLAYER;
    assert((h ^ zp) ^ zp == h) by (bit_vector);
    assert(null_model(m).history.drop_last() =~= m.history);
    assert(BoardModel {
        to_move: opponent_of(null_model(m).to_move),
        hash: null_model(m).hash ^ ZOBRIST_PLAYER,
        history: null_model(m).history.drop_last(),
        history_ply: null_model(m).history_ply - 1,
        ..null_model(m)
    } =~= m);
}

/// Hash consistency: after playing or retracting a move on a
/// well-formed board, the incrementally maintained hash still equals
/// the from-scratch recomputation from the squares and the side to
/// move.  Chained over a game, this holds after any sequence of moves
/// and retractions.
pub proof fn lemma_hash_tracks_position(m: BoardModel, f: int, t: int, cap: Piece)
    requires
        m.wf(),
    ensures
        move_ok(m, f, t) ==> make_model(m, f, t).hash == hash_of(
            make_model(m, f, t).squares,
            make_model(m, f, t).to_move,
        ),
        unmake_ok(m, f, t, cap) ==> unmake_model(m, f, t, cap).hash == hash_of(
            unmake_model(m, f, t, cap).squares,
            unmake_model(m, f, t, cap).to_move,
        ),
{
    if move_ok(m, f, t) {
        lemma_make_wf(m, f, t);
    }
    if unmake_ok(m, f, t, cap) {
        lemma_unmake_wf(m, f, t, cap);
    }
}

/// Accumulator consistency: after playing or retracting a move on a
/// well-formed board, the three evaluation accumulators still equal
/// their from-scratch sums over the squares.
pub proof fn lemma_accumulators_track_position(m: BoardModel, f: int, t: int, cap: Piece)
    requires
        m.wf(),
    ensures
        move_ok(m, f, t) ==> {
            let m2 = make_model(m, f, t);
            m2.material == material_of(m2.squares) && m2.mg == mg_of(m2.squares) && m2.eg
                == eg_of(m2.squares)
        },
        unmake_ok(m, f, t, cap) ==> {
            let m2 = unmake_model(m, f, t, cap);
            m2.material == material_of(m2.squares) && m2.mg == mg_of(m2.squares) && m2.eg
                == eg_of(m2.squares)
        },
{
    if move_ok(m, f, t) {
        lemma_make_wf(m, f, t);
    }
    if unmake_ok(m, f, t, cap) {
        lemma_unmake_wf(m, f, t, cap);
    }
}

} // verus!
