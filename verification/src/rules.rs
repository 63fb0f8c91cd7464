//! The rules of the game as mathematical predicates.
//!
//! Everything here is specification: squares are integers 0..89 with
//! rank `s / 9` (rank 0 is Black's back rank) and file `s % 9`; a position
//! is a sequence of 90 pieces.  The executable code in the rest of the
//! crate is verified against these predicates.

use vstd::prelude::*;
use crate::bits::bb_has;
use crate::constants::{Piece, Player, abs_of, side_of, piece_of, opponent_of};

verus! {

pub open spec fn rank_of(s: int) -> int {
    s / 9
}

pub open spec fn file_of(s: int) -> int {
    s % 9
}

pub open spec fn sq_of(r: int, c: int) -> int {
    9 * r + c
}

pub open spec fn on_board(s: int) -> bool {
    0 <= s < 90
}

/// The 3-by-3 palace regions: files 3..5, ranks 0..2 and 7..9.
pub open spec fn in_palace(s: int) -> bool {
    3 <= file_of(s) <= 5 && (rank_of(s) <= 2 || rank_of(s) >= 7)
}

/// The half of the board belonging to the given side.  Red's half is
/// ranks 5..9, Black's is ranks 0..4.
pub open spec fn on_own_half(side: Player, s: int) -> bool {
    match side {
        Player::Red => rank_of(s) >= 5,
        Player::Black => rank_of(s) <= 4,
    }
}

/// `s` and `t` are distinct squares of one rank or one file.
pub open spec fn on_line(s: int, t: int) -> bool {
    s != t && (file_of(s) == file_of(t) || rank_of(s) == rank_of(t))
}

/// `u` lies strictly between `s` and `t` on their shared rank or file.
pub open spec fn on_segment(s: int, t: int, u: int) -> bool {
    ||| (file_of(s) == file_of(t) && file_of(u) == file_of(s) && ((rank_of(s) < rank_of(u)
        < rank_of(t)) || (rank_of(t) < rank_of(u) < rank_of(s))))
    ||| (rank_of(s) == rank_of(t) && rank_of(u) == rank_of(s) && ((file_of(s) < file_of(u)
        < file_of(t)) || (file_of(t) < file_of(u) < file_of(s))))
}

// ---------------------------------------------------------------------------
// Generic counting and summation over square indices.
// ---------------------------------------------------------------------------

/// The number of `i` in `0 <= i < n` satisfying `p`.
pub open spec fn count_if(p: spec_fn(int) -> bool, n: int) -> int
    decreases n,
{
    if n <= 0 {
        0
    } else {
        count_if(p, n - 1) + if p(n - 1) {
            1int
        } else {
            0int
        }
    }
}

/// The sum of `f(i)` over `0 <= i < n`.
pub open spec fn sum_of(f: spec_fn(int) -> int, n: int) -> int
    decreases n,
{
    if n <= 0 {
        0
    } else {
        sum_of(f, n - 1) + f(n - 1)
    }
}

pub proof fn lemma_count_nonneg(p: spec_fn(int) -> bool, n: int)
    ensures
        0 <= count_if(p, n),
        n >= 0 ==> count_if(p, n) <= n,
    decreases n,
{
    if n > 0 {
        lemma_count_nonneg(p, n - 1);
    }
}

/// A predicate false below `n` counts zero.
pub proof fn lemma_count_zero(p: spec_fn(int) -> bool, n: int)
    requires
        forall|i: int| 0 <= i < n ==> !#[trigger] p(i),
    ensures
        count_if(p, n) == 0,
    decreases n,
{
    if n > 0 {
        lemma_count_zero(p, n - 1);
    }
}

/// A predicate true at exactly one point below `n` counts one.
pub proof fn lemma_count_one(p: spec_fn(int) -> bool, n: int, k: int)
    requires
        0 <= k < n,
        p(k),
        forall|i: int| 0 <= i < n && i != k ==> !#[trigger] p(i),
    ensures
        count_if(p, n) == 1,
    decreases n,
{
    if n - 1 == k {
        lemma_count_zero(p, n - 1);
    } else {
        lemma_count_one(p, n - 1, k);
    }
}

/// A witness gives a count of at least one.
pub proof fn lemma_count_ge_one(p: spec_fn(int) -> bool, n: int, k: int)
    requires
        0 <= k < n,
        p(k),
    ensures
        count_if(p, n) >= 1,
    decreases n,
{
    lemma_count_nonneg(p, n);
    if n - 1 != k {
        lemma_count_ge_one(p, n - 1, k);
    } else {
        lemma_count_nonneg(p, n - 1);
    }
}

/// Two distinct witnesses give a count of at least two.
pub proof fn lemma_count_ge_two(p: spec_fn(int) -> bool, n: int, k1: int, k2: int)
    requires
        0 <= k1 < n,
        0 <= k2 < n,
        k1 != k2,
        p(k1),
        p(k2),
    ensures
        count_if(p, n) >= 2,
    decreases n,
{
    if n - 1 == k1 {
        lemma_count_ge_one(p, n - 1, k2);
    } else if n - 1 == k2 {
        lemma_count_ge_one(p, n - 1, k1);
    } else {
        lemma_count_ge_two(p, n - 1, k1, k2);
    }
}

/// Predicates that agree below `n` count the same.
pub proof fn lemma_count_congruent(p: spec_fn(int) -> bool, q: spec_fn(int) -> bool, n: int)
    requires
        forall|i: int| 0 <= i < n ==> (#[trigger] p(i) <==> #[trigger] q(i)),
    ensures
        count_if(p, n) == count_if(q, n),
    decreases n,
{
    if n > 0 {
        lemma_count_congruent(p, q, n - 1);
    }
}

/// Changing a predicate at one point changes the count by the difference
/// at that point.
pub proof fn lemma_count_update(p: spec_fn(int) -> bool, q: spec_fn(int) -> bool, n: int, k: int)
    requires
        0 <= k,
        forall|i: int| 0 <= i < n && i != k ==> (#[trigger] p(i) <==> #[trigger] q(i)),
    ensures
        k < n ==> count_if(q, n) == count_if(p, n) - (if p(k) {
            1int
        } else {
            0int
        }) + (if q(k) {
            1int
        } else {
            0int
        }),
        k >= n ==> count_if(q, n) == count_if(p, n),
    decreases n,
{
    if n > 0 {
        lemma_count_update(p, q, n - 1, k);
    }
}

/// Changing a summand at one point changes the sum by the difference
/// at that point.
pub proof fn lemma_sum_update(f: spec_fn(int) -> int, g: spec_fn(int) -> int, n: int, k: int)
    requires
        0 <= k,
        forall|i: int| 0 <= i < n && i != k ==> #[trigger] f(i) == #[trigger] g(i),
    ensures
        k < n ==> sum_of(g, n) == sum_of(f, n) - f(k) + g(k),
        k >= n ==> sum_of(g, n) == sum_of(f, n),
    decreases n,
{
    if n > 0 {
        lemma_sum_update(f, g, n - 1, k);
    }
}

/// A pointwise bound on the summands bounds the sum.
pub proof fn lemma_sum_bound(f: spec_fn(int) -> int, n: int, lo: int, hi: int)
    requires
        n >= 0,
        forall|i: int| 0 <= i < n ==> lo <= #[trigger] f(i) <= hi,
    ensures
        n * lo <= sum_of(f, n) <= n * hi,
    decreases n,
{
    if n > 0 {
        lemma_sum_bound(f, n - 1, lo, hi);
        assert((n - 1) * lo + lo == n * lo) by (nonlinear_arith);
        assert((n - 1) * hi + hi == n * hi) by (nonlinear_arith);
    } else {
        assert(n * lo == 0) by (nonlinear_arith)
            requires
                n == 0,
        ;
        assert(n * hi == 0) by (nonlinear_arith)
            requires
                n == 0,
        ;
    }
}

/// The smallest `i` in `n <= i < 90` satisfying `p`, or 90 if there is none.
pub open spec fn first_from(p: spec_fn(int) -> bool, n: int) -> int
    decreases 90 - n,
{
    if n < 0 || n >= 90 {
        90
    } else if p(n) {
        n
    } else {
        first_from(p, n + 1)
    }
}

pub proof fn lemma_first_from_props(p: spec_fn(int) -> bool, n: int)
    requires
        0 <= n <= 90,
    ensures
        n <= first_from(p, n) <= 90,
        first_from(p, n) < 90 ==> p(first_from(p, n)),
        forall|i: int| n <= i < first_from(p, n) ==> !#[trigger] p(i),
        first_from(p, n) == 90 ==> forall|i: int| n <= i < 90 ==> !#[trigger] p(i),
    decreases 90 - n,
{
    if n < 90 && !p(n) {
        lemma_first_from_props(p, n + 1);
    }
}

/// If `k` satisfies `p` and nothing below it does, `k` is the first match.
pub proof fn lemma_first_from_is(p: spec_fn(int) -> bool, k: int)
    requires
        0 <= k < 90,
        p(k),
        forall|i: int| 0 <= i < k ==> !#[trigger] p(i),
    ensures
        first_from(p, 0) == k,
{
    lemma_first_from_props(p, 0);
    let r = first_from(p, 0);
    if r < k {
        assert(!p(r));
    }
    if r > k {
        assert(!p(k));
    }
}

// ---------------------------------------------------------------------------
// Positions and occupancy.
// ---------------------------------------------------------------------------

/// A square of the position is occupied.
pub open spec fn occ_at(sqs: Seq<Piece>, s: int) -> bool {
    0 <= s < 90 && sqs[s] != Piece::Empty
}

/// No square strictly between `s` and `t` is occupied.
pub open spec fn clear_between(sqs: Seq<Piece>, s: int, t: int) -> bool {
    forall|u: int| #[trigger] on_segment(s, t, u) ==> !occ_at(sqs, u)
}

/// The number of occupied squares strictly between `s` and `t`.
pub open spec fn occ_between(sqs: Seq<Piece>, s: int, t: int) -> int {
    count_if(|u: int| on_segment(s, t, u) && occ_at(sqs, u), 90)
}

// Occupancy-bit-set forms of the same notions, used by the sliding-attack
// functions, which work on a `u128` occupancy set rather than a position.

/// No square strictly between `s` and `t` is in the occupancy set.
pub open spec fn bb_clear_between(occ: u128, s: int, t: int) -> bool {
    forall|u: int| #[trigger] on_segment(s, t, u) ==> !bb_has(occ, u)
}

/// The number of occupancy-set squares strictly between `s` and `t`.
pub open spec fn bb_occ_between(occ: u128, s: int, t: int) -> int {
    count_if(|u: int| on_segment(s, t, u) && bb_has(occ, u), 90)
}

/// A rook move or attack from `s` to `t` over the occupancy set `occ`:
/// one line, nothing strictly between.  `t` itself may be occupied; the
/// caller decides what landing there means.
pub open spec fn rook_ray_ok(occ: u128, s: int, t: int) -> bool {
    on_board(t) && on_line(s, t) && bb_clear_between(occ, s, t)
}

/// A cannon move to an empty square, or an attack over exactly one screen.
pub open spec fn cannon_move_ok(occ: u128, s: int, t: int) -> bool {
    on_board(t) && on_line(s, t) && if bb_has(occ, t) {
        bb_occ_between(occ, s, t) == 1
    } else {
        bb_clear_between(occ, s, t)
    }
}

// ---------------------------------------------------------------------------
// Per-piece geometry.
// ---------------------------------------------------------------------------

/// One orthogonal step into a palace: the king's move.
pub open spec fn king_step(s: int, t: int) -> bool {
    on_board(s) && on_board(t) && in_palace(t) && ((rank_of(s) == rank_of(t) && (file_of(t)
        == file_of(s) + 1 || file_of(t) == file_of(s) - 1)) || (file_of(s) == file_of(t) && (
    rank_of(t) == rank_of(s) + 1 || rank_of(t) == rank_of(s) - 1)))
}

/// One diagonal step into a palace: the guard's move.
pub open spec fn guard_step(s: int, t: int) -> bool {
    on_board(s) && on_board(t) && in_palace(t) && (file_of(t) == file_of(s) + 1 || file_of(t)
        == file_of(s) - 1) && (rank_of(t) == rank_of(s) + 1 || rank_of(t) == rank_of(s) - 1)
}

/// A two-square diagonal jump: the bishop's move shape.
pub open spec fn bishop_step(s: int, t: int) -> bool {
    on_board(s) && on_board(t) && (file_of(t) == file_of(s) + 2 || file_of(t) == file_of(s) - 2)
        && (rank_of(t) == rank_of(s) + 2 || rank_of(t) == rank_of(s) - 2)
}

/// The "eye" square whose occupation blocks a bishop jump.
pub open spec fn bishop_eye(s: int, t: int) -> int {
    sq_of((rank_of(s) + rank_of(t)) / 2, (file_of(s) + file_of(t)) / 2)
}

/// The knight-shape jump: the horse's move shape.
pub open spec fn horse_step(s: int, t: int) -> bool {
    on_board(s) && on_board(t) && {
        let dr = rank_of(t) - rank_of(s);
        let dc = file_of(t) - file_of(s);
        (dr == 2 || dr == -2) && (dc == 1 || dc == -1) || (dr == 1 || dr == -1) && (dc == 2 || dc
            == -2)
    }
}

/// The "leg" square whose occupation blocks a horse jump.
pub open spec fn horse_leg(s: int, t: int) -> int {
    let dr = rank_of(t) - rank_of(s);
    let dc = file_of(t) - file_of(s);
    if dr == 2 {
        sq_of(rank_of(s) + 1, file_of(s))
    } else if dr == -2 {
        sq_of(rank_of(s) - 1, file_of(s))
    } else if dc == 2 {
        sq_of(rank_of(s), file_of(s) + 1)
    } else {
        sq_of(rank_of(s), file_of(s) - 1)
    }
}

/// A pawn step of the given side: forward, or sideways once across the
/// river.  Red pawns move toward rank 0 and cross at rank 4.
pub open spec fn pawn_step(side: Player, s: int, t: int) -> bool {
    on_board(s) && on_board(t) && match side {
        Player::Red => t == s - 9 || (rank_of(s) <= 4 && rank_of(t) == rank_of(s) && (file_of(t)
            == file_of(s) + 1 || file_of(t) == file_of(s) - 1)),
        Player::Black => t == s + 9 || (rank_of(s) >= 5 && rank_of(t) == rank_of(s) && (file_of(t)
            == file_of(s) + 1 || file_of(t) == file_of(s) - 1)),
    }
}

// ---------------------------------------------------------------------------
// Attacks, pseudo-legal moves, check.
// ---------------------------------------------------------------------------

/// The occupancy set implied by a position is not needed here: these
/// predicates read the position directly.  The piece standing on `a` can
/// capture on square `t` under the movement rules.
pub open spec fn attack_geom(sqs: Seq<Piece>, a: int, t: int) -> bool {
    occ_at(sqs, a) && {
        let p = sqs[a];
        let abs = abs_of(p);
        if abs == 1 {
            king_step(a, t)
        } else if abs == 2 {
            guard_step(a, t)
        } else if abs == 3 {
            bishop_step(a, t) && on_own_half(side_of(p), t) && !occ_at(sqs, bishop_eye(a, t))
        } else if abs == 4 {
            horse_step(a, t) && !occ_at(sqs, horse_leg(a, t))
        } else if abs == 5 {
            on_board(t) && on_line(a, t) && clear_between(sqs, a, t)
        } else if abs == 6 {
            on_board(t) && on_line(a, t) && occ_between(sqs, a, t) == 1
        } else {
            pawn_step(side_of(p), a, t)
        }
    }
}

/// The piece standing on `a` can move to the empty square `t`.  This
/// differs from `attack_geom` only for the cannon, which moves like a
/// rook but captures over a screen.
pub open spec fn quiet_geom(sqs: Seq<Piece>, a: int, t: int) -> bool {
    occ_at(sqs, a) && {
        let p = sqs[a];
        if abs_of(p) == 6 {
            on_board(t) && on_line(a, t) && clear_between(sqs, a, t)
        } else {
            attack_geom(sqs, a, t)
        }
    }
}

/// A pseudo-legal move of `side` from `f` to `t`: a piece of that side
/// stands on `f`, and `t` is either empty and reachable quietly, or holds
/// an enemy piece and is attacked.  Legality (not leaving one's own king
/// in check) is layered on top of this.
pub open spec fn pseudo_move_ok(sqs: Seq<Piece>, side: Player, f: int, t: int) -> bool {
    &&& occ_at(sqs, f)
    &&& side_of(sqs[f]) == side
    &&& on_board(t)
    &&& if occ_at(sqs, t) {
        side_of(sqs[t]) != side && attack_geom(sqs, f, t)
    } else {
        quiet_geom(sqs, f, t)
    }
}

/// Some piece of `by_side` attacks square `t`.
pub open spec fn attacked(sqs: Seq<Piece>, t: int, by_side: Player) -> bool {
    exists|a: int|
        occ_at(sqs, a) && side_of(sqs[a]) == by_side && #[trigger] attack_geom(sqs, a, t)
}

/// The number of kings of the given side on the board.
pub open spec fn king_count(sqs: Seq<Piece>, side: Player) -> int {
    count_if(|s: int| 0 <= s < sqs.len() && sqs[s] == piece_of(side, 1), 90)
}

/// The lowest square holding the given side's king, or 90 if there is none.
pub open spec fn king_sq_of(sqs: Seq<Piece>, side: Player) -> int {
    first_from(|s: int| 0 <= s < sqs.len() && sqs[s] == piece_of(side, 1), 0)
}

/// The two kings face each other along an open file.
pub open spec fn flying_general(sqs: Seq<Piece>) -> bool {
    let rk = king_sq_of(sqs, Player::Red);
    let bk = king_sq_of(sqs, Player::Black);
    rk < 90 && bk < 90 && file_of(rk) == file_of(bk) && clear_between(sqs, rk, bk)
}

/// The given side's king is in check: it is attacked, or the flying-general
/// rule applies.  A side with no king at all counts as in check, so that
/// positions where the king has been captured are never chosen.
pub open spec fn in_check(sqs: Seq<Piece>, side: Player) -> bool {
    let ks = king_sq_of(sqs, side);
    if ks == 90 {
        true
    } else {
        attacked(sqs, ks, opponent_of(side)) || flying_general(sqs)
    }
}

/// A legal move: pseudo-legal, and the mover's king is not left in check.
pub open spec fn legal_move_ok(sqs: Seq<Piece>, side: Player, f: int, t: int) -> bool {
    pseudo_move_ok(sqs, side, f, t) && !in_check(sqs.update(f, Piece::Empty).update(t, sqs[f]), side)
}

/// The rank and file of a composed square index.
pub proof fn lemma_sq_coords(r: int, c: int)
    requires
        0 <= r < 10,
        0 <= c < 9,
    ensures
        rank_of(sq_of(r, c)) == r,
        file_of(sq_of(r, c)) == c,
        on_board(sq_of(r, c)),
{
    assert((9 * r + c) / 9 == r && (9 * r + c) % 9 == c) by (nonlinear_arith)
        requires
            0 <= r < 10,
            0 <= c < 9,
    ;
}

/// Every board square is the composition of its rank and file.
pub proof fn lemma_sq_decompose(u: int)
    ensures
        u == 9 * (u / 9) + u % 9,
{
    vstd::arithmetic::div_mod::lemma_fundamental_div_mod(u, 9);
}

// ---------------------------------------------------------------------------
// Rays by direction.
// ---------------------------------------------------------------------------

/// `t` lies strictly on the ray from `s` in direction `d`:
/// 0 toward rank 0, 1 toward file 8, 2 toward rank 9, 3 toward file 0.
pub open spec fn in_dir(d: int, s: int, t: int) -> bool {
    on_board(s) && on_board(t) && if d == 0 {
        file_of(t) == file_of(s) && rank_of(t) < rank_of(s)
    } else if d == 1 {
        rank_of(t) == rank_of(s) && file_of(t) > file_of(s)
    } else if d == 2 {
        file_of(t) == file_of(s) && rank_of(t) > rank_of(s)
    } else {
        rank_of(t) == rank_of(s) && file_of(t) < file_of(s)
    }
}

/// Squares of one line lie on one of the four rays of each other.
pub proof fn lemma_line_to_dir(s: int, t: int)
    requires
        on_board(s),
        on_board(t),
        on_line(s, t),
    ensures
        in_dir(0, s, t) || in_dir(1, s, t) || in_dir(2, s, t) || in_dir(3, s, t),
{
    lemma_sq_decompose(s);
    lemma_sq_decompose(t);
}

/// Two distinct squares of one ray: one lies strictly between the origin
/// and the other.
pub proof fn lemma_dir_trichotomy(d: int, s: int, u: int, v: int)
    requires
        in_dir(d, s, u),
        in_dir(d, s, v),
        u != v,
    ensures
        on_segment(s, u, v) || on_segment(s, v, u),
{
    lemma_sq_decompose(u);
    lemma_sq_decompose(v);
}

/// Continuing along a ray stays on the ray, and the midpoint lies on the
/// segment.
pub proof fn lemma_dir_chain(d: int, s: int, m: int, u: int)
    requires
        in_dir(d, s, m),
        in_dir(d, m, u),
    ensures
        in_dir(d, s, u),
        on_segment(s, u, m),
{
}

/// A square of a segment lies on the same ray, before the far end.
pub proof fn lemma_dir_segment(d: int, s: int, u: int, v: int)
    requires
        in_dir(d, s, u),
        on_segment(s, u, v),
    ensures
        in_dir(d, s, v),
        in_dir(d, v, u),
{
}

/// A segment square other than a chosen interior point lies in one of the
/// two sub-segments around it.
pub proof fn lemma_segment_split(s: int, u: int, m: int, v: int)
    requires
        on_segment(s, u, m),
        on_segment(s, u, v),
        v != m,
    ensures
        on_segment(s, m, v) || on_segment(m, u, v),
{
    lemma_sq_decompose(v);
    lemma_sq_decompose(m);
}

// ---------------------------------------------------------------------------
// Move classes.
// ---------------------------------------------------------------------------

/// A pseudo-legal capture.
pub open spec fn capture_move_ok(sqs: Seq<Piece>, side: Player, f: int, t: int) -> bool {
    pseudo_move_ok(sqs, side, f, t) && occ_at(sqs, t)
}

/// A pseudo-legal quiet move.
pub open spec fn quiet_move_ok(sqs: Seq<Piece>, side: Player, f: int, t: int) -> bool {
    pseudo_move_ok(sqs, side, f, t) && !occ_at(sqs, t)
}

/// A pseudo-legal move is always playable by `make`.
pub proof fn lemma_pseudo_is_move(m: crate::model::BoardModel, f: int, t: int)
    requires
        m.squares.len() == 90,
        pseudo_move_ok(m.squares, m.to_move, f, t),
    ensures
        crate::model::move_ok(m, f, t),
{
}

/// Some piece of `by_side` with piece-type number `abs` attacks `t`.
pub open spec fn attacked_by(sqs: Seq<Piece>, t: int, by_side: Player, abs: int) -> bool {
    exists|a: int|
        occ_at(sqs, a) && side_of(sqs[a]) == by_side && abs_of(sqs[a]) == abs
            && #[trigger] attack_geom(sqs, a, t)
}

/// An attack comes from a piece of one of the seven kinds.
pub proof fn lemma_attacked_cases(sqs: Seq<Piece>, t: int, by_side: Player)
    ensures
        attacked(sqs, t, by_side) <==> (attacked_by(sqs, t, by_side, 1) || attacked_by(
            sqs,
            t,
            by_side,
            2,
        ) || attacked_by(sqs, t, by_side, 3) || attacked_by(sqs, t, by_side, 4) || attacked_by(
            sqs,
            t,
            by_side,
            5,
        ) || attacked_by(sqs, t, by_side, 6) || attacked_by(sqs, t, by_side, 7)),
{
    if attacked(sqs, t, by_side) {
        let a = choose|a: int|
            occ_at(sqs, a) && side_of(sqs[a]) == by_side && #[trigger] attack_geom(sqs, a, t);
        assert(1 <= abs_of(sqs[a]) <= 7);
    }
}

/// A square between an interior point and the far end also lies between
/// the origin and the far end.
pub proof fn lemma_segment_extend(s: int, u: int, m: int, v: int)
    requires
        on_segment(s, u, m),
        on_segment(m, u, v),
    ensures
        on_segment(s, u, v),
{
}

} // verus!
