//! Move generation: executable forms of the movement rules, sliding
//! attacks, the attack predicate and the check test.

use vstd::prelude::*;
use crate::bits::{Bitboard, bb_has, lemma_bb_zero};
use crate::constants::{Piece, Player, abs_of, side_of, piece_of, opponent_of};
use crate::model::{lemma_bb_set_bit, sq_bb};
use crate::rules::{rank_of, file_of, sq_of, on_board, in_palace, on_own_half, on_line, on_segment,
    king_step, guard_step, bishop_step, bishop_eye, horse_step, horse_leg, pawn_step,
    bb_clear_between, bb_occ_between, rook_ray_ok, cannon_move_ok, count_if, lemma_count_zero,
    lemma_count_one, lemma_count_ge_two, in_dir, occ_at, clear_between, occ_between, attacked,
    attacked_by, in_check, attack_geom, quiet_geom, pseudo_move_ok, capture_move_ok, quiet_move_ok,
    king_count, king_sq_of, flying_general};

verus! {

/// The square of rank `r` and file `c`.
pub fn sq_to_idx(r: usize, c: usize) -> (s: usize)
    requires
        r < 10,
        c < 9,
    ensures
        s == sq_of(r as int, c as int),
        s < 90,
{
    r * 9 + c
}

/// Whether `t` lies in a palace region.
fn in_palace_exec(t: usize) -> (r: bool)
    requires
        t < 90,
    ensures
        r == in_palace(t as int),
{
    let c = t % 9;
    let rk = t / 9;
    3 <= c && c <= 5 && (rk <= 2 || rk >= 7)
}

/// Executable form of `king_step`.
fn king_step_exec(s: usize, t: usize) -> (r: bool)
    requires
        s < 90,
        t < 90,
    ensures
        r == king_step(s as int, t as int),
{
    let rs = s / 9;
    let cs = s % 9;
    let rt = t / 9;
    let ct = t % 9;
    in_palace_exec(t) && ((rs == rt && (ct == cs + 1 || cs == ct + 1)) || (cs == ct && (rt == rs + 1
        || rs == rt + 1)))
}

/// Executable form of `guard_step`.
fn guard_step_exec(s: usize, t: usize) -> (r: bool)
    requires
        s < 90,
        t < 90,
    ensures
        r == guard_step(s as int, t as int),
{
    let rs = s / 9;
    let cs = s % 9;
    let rt = t / 9;
    let ct = t % 9;
    in_palace_exec(t) && (ct == cs + 1 || cs == ct + 1) && (rt == rs + 1 || rs == rt + 1)
}

/// Executable form of `bishop_step`.
fn bishop_step_exec(s: usize, t: usize) -> (r: bool)
    requires
        s < 90,
        t < 90,
    ensures
        r == bishop_step(s as int, t as int),
{
    let rs = s / 9;
    let cs = s % 9;
    let rt = t / 9;
    let ct = t % 9;
    (ct == cs + 2 || cs == ct + 2) && (rt == rs + 2 || rs == rt + 2)
}

/// The eye square of a bishop jump.
fn bishop_eye_exec(s: usize, t: usize) -> (e: usize)
    requires
        s < 90,
        t < 90,
        bishop_step(s as int, t as int),
    ensures
        e == bishop_eye(s as int, t as int),
        e < 90,
{
    let rs = s / 9;
    let cs = s % 9;
    let rt = t / 9;
    let ct = t % 9;
    ((rs + rt) / 2) * 9 + (cs + ct) / 2
}

/// Executable form of `horse_step`.
fn horse_step_exec(s: usize, t: usize) -> (r: bool)
    requires
        s < 90,
        t < 90,
    ensures
        r == horse_step(s as int, t as int),
{
    let rs = s / 9;
    let cs = s % 9;
    let rt = t / 9;
    let ct = t % 9;
    ((rt == rs + 2 || rs == rt + 2) && (ct == cs + 1 || cs == ct + 1)) || ((rt == rs + 1 || rs == rt
        + 1) && (ct == cs + 2 || cs == ct + 2))
}

/// The leg square of a horse jump.
fn horse_leg_exec(s: usize, t: usize) -> (e: usize)
    requires
        s < 90,
        t < 90,
        horse_step(s as int, t as int),
    ensures
        e == horse_leg(s as int, t as int),
        e < 90,
{
    let rs = s / 9;
    let cs = s % 9;
    let rt = t / 9;
    let ct = t % 9;
    if rt == rs + 2 {
        (rs + 1) * 9 + cs
    } else if rs == rt + 2 {
        (rs - 1) * 9 + cs
    } else if ct == cs + 2 {
        rs * 9 + cs + 1
    } else {
        rs * 9 + cs - 1
    }
}

/// Executable form of `pawn_step`.
fn pawn_step_exec(side: Player, s: usize, t: usize) -> (r: bool)
    requires
        s < 90,
        t < 90,
    ensures
        r == pawn_step(side, s as int, t as int),
{
    let rs = s / 9;
    let rt = t / 9;
    let cs = s % 9;
    let ct = t % 9;
    match side {
        Player::Red => (t + 9 == s) || (rs <= 4 && rt == rs && (ct == cs + 1 || cs == ct + 1)),
        Player::Black => (t == s + 9) || (rs >= 5 && rt == rs && (ct == cs + 1 || cs == ct + 1)),
    }
}

/// Whether no square strictly between `s` and `t` is occupied.
fn seg_clear_exec(occ: Bitboard, s: usize, t: usize) -> (r: bool)
    requires
        s < 90,
        t < 90,
    ensures
        r == bb_clear_between(occ, s as int, t as int),
{
    let cs = s % 9;
    let ct = t % 9;
    let rs = s / 9;
    let rt = t / 9;
    if cs == ct && rs != rt {
        let lo = if rs < rt {
            rs
        } else {
            rt
        };
        let hi = if rs < rt {
            rt
        } else {
            rs
        };
        let mut k = lo + 1;
        while k < hi
            invariant
                lo < k <= hi,
                hi < 10,
                cs < 9,
                s < 90,
                t < 90,
                file_of(s as int) == cs && file_of(t as int) == ct && cs == ct,
                rank_of(s as int) == rs && rank_of(t as int) == rt && rs != rt,
                lo == if rs < rt { rs as int } else { rt as int },
                hi == if rs < rt { rt as int } else { rs as int },
                forall|v: int|
                    file_of(v) == cs && lo < rank_of(v) < k && on_board(v) ==> !bb_has(occ, v),
            decreases hi - k,
        {
            if (occ >> ((k * 9 + cs) as u128)) & 1 == 1 {
                proof {
                    crate::rules::lemma_sq_coords(k as int, cs as int);
                    assert(on_segment(s as int, t as int, (k * 9 + cs) as int));
                    assert(bb_has(occ, (k * 9 + cs) as int));
                }
                return false;
            }
            proof {
                assert forall|v: int|
                    file_of(v) == cs && lo < rank_of(v) < k + 1 && on_board(v) implies !bb_has(
                    occ,
                    v,
                ) by {
                    if rank_of(v) == k {
                        crate::rules::lemma_sq_decompose(v);
                        assert(v == (k * 9 + cs));
                    }
                }
            }
            k = k + 1;
        }
        proof {
            assert forall|u: int| #[trigger] on_segment(s as int, t as int, u) implies !bb_has(
                occ,
                u,
            ) by {
                crate::rules::lemma_sq_decompose(u);
            }
        }
        true
    } else if rs == rt && cs != ct {
        let lo = if cs < ct {
            cs
        } else {
            ct
        };
        let hi = if cs < ct {
            ct
        } else {
            cs
        };
        let mut k = lo + 1;
        while k < hi
            invariant
                lo < k <= hi,
                hi < 9,
                rs < 10,
                s < 90,
                t < 90,
                rank_of(s as int) == rs && rank_of(t as int) == rt && rs == rt,
                file_of(s as int) == cs && file_of(t as int) == ct && cs != ct,
                lo == if cs < ct { cs as int } else { ct as int },
                hi == if cs < ct { ct as int } else { cs as int },
                forall|v: int|
                    rank_of(v) == rs && lo < file_of(v) < k && on_board(v) ==> !bb_has(occ, v),
            decreases hi - k,
        {
            if (occ >> ((rs * 9 + k) as u128)) & 1 == 1 {
                proof {
                    crate::rules::lemma_sq_coords(rs as int, k as int);
                    assert(on_segment(s as int, t as int, (rs * 9 + k) as int));
                    assert(bb_has(occ, (rs * 9 + k) as int));
                }
                return false;
            }
            proof {
                assert forall|v: int|
                    rank_of(v) == rs && lo < file_of(v) < k + 1 && on_board(v) implies !bb_has(
                    occ,
                    v,
                ) by {
                    if file_of(v) == k {
                        crate::rules::lemma_sq_decompose(v);
                        assert(v == (rs * 9 + k));
                    }
                }
            }
            k = k + 1;
        }
        proof {
            assert forall|u: int| #[trigger] on_segment(s as int, t as int, u) implies !bb_has(
                occ,
                u,
            ) by {
                crate::rules::lemma_sq_decompose(u);
            }
        }
        true
    } else {
        proof {
            assert forall|u: int| #[trigger] on_segment(s as int, t as int, u) implies !bb_has(
                occ,
                u,
            ) by {}
        }
        true
    }
}

/// Whether a rook standing on `sq` reaches `t` over the occupancy `occ`.
fn rook_ray_ok_exec(occ: Bitboard, s: usize, t: usize) -> (r: bool)
    requires
        s < 90,
        t < 90,
    ensures
        r == rook_ray_ok(occ, s as int, t as int),
{
    if s == t {
        return false;
    }
    if s % 9 != t % 9 && s / 9 != t / 9 {
        return false;
    }
    seg_clear_exec(occ, s, t)
}

/// The attack set of a rook on `sq`: every square on its rank or file
/// with nothing strictly between.  The first occupied square along each
/// ray is included; the caller masks out its own pieces.
pub fn get_rook_moves_bb(sq: usize, occupied: Bitboard) -> (r: Bitboard)
    requires
        sq < 90,
    ensures
        forall|t: int| #[trigger] bb_has(r, t) <==> rook_ray_ok(occupied, sq as int, t),
{
    let mut mask: Bitboard = 0;
    let mut t: usize = 0;
    proof {
        assert forall|u: int| !bb_has(0u128, u) by {
            lemma_bb_zero(u);
        }
    }
    while t < 90
        invariant
            t <= 90,
            sq < 90,
            forall|u: int| #[trigger] bb_has(mask, u) <==> (0 <= u < t && rook_ray_ok(
                occupied,
                sq as int,
                u,
            )),
        decreases 90 - t,
    {
        if rook_ray_ok_exec(occupied, sq, t) {
            let ghost old_mask = mask;
            mask = mask | (1u128 << (t as u128));
            proof {
                assert forall|u: int| #[trigger] bb_has(mask, u) <==> (0 <= u < t + 1
                    && rook_ray_ok(occupied, sq as int, u)) by {
                    lemma_bb_set_bit(old_mask, t as int, u);
                }
            }
        }
        t = t + 1;
    }
    proof {
        assert forall|u: int| #[trigger] bb_has(mask, u) <==> rook_ray_ok(
            occupied,
            sq as int,
            u,
        ) by {
            if !(0 <= u < 90) {
                assert(!on_board(u));
            }
        }
    }
    mask
}

/// Whether a cannon standing on `s` may move or capture to `t`: an empty
/// `t` is reached like a rook, an occupied `t` over exactly one screen.
fn cannon_move_ok_exec(occ: Bitboard, s: usize, t: usize) -> (r: bool)
    requires
        s < 90,
        t < 90,
    ensures
        r == cannon_move_ok(occ, s as int, t as int),
{
    if s == t {
        return false;
    }
    if s % 9 != t % 9 && s / 9 != t / 9 {
        return false;
    }
    if (occ >> (t as u128)) & 1 != 1 {
        proof {
            assert(!bb_has(occ, t as int));
        }
        return seg_clear_exec(occ, s, t);
    }
    // Occupied destination: count the screens between.
    let cnt = seg_occ_count(occ, s, t);
    cnt == 1
}

/// The number of occupied squares strictly between `s` and `t`, which
/// must share a rank or a file.
fn seg_occ_count(occ: Bitboard, s: usize, t: usize) -> (r: u32)
    requires
        s < 90,
        t < 90,
        on_line(s as int, t as int),
    ensures
        r == bb_occ_between(occ, s as int, t as int),
{
    let ghost p = |u: int| on_segment(s as int, t as int, u) && bb_has(occ, u);
    let cs = s % 9;
    let ct = t % 9;
    let rs = s / 9;
    let rt = t / 9;
    let mut cnt: u32 = 0;
    if cs == ct {
        let lo = if rs < rt {
            rs
        } else {
            rt
        };
        let hi = if rs < rt {
            rt
        } else {
            rs
        };
        let mut k = lo + 1;
        proof {
            lemma_count_zero(|u: int| p(u) && u < sq_of((lo + 1) as int, cs as int), 90);
        }
        let ghost pk0 = |u: int| p(u) && u < sq_of((lo + 1) as int, cs as int);
        assert(cnt == count_if(pk0, 90));
        while k < hi
            invariant
                lo < k <= hi,
                hi < 10,
                cs < 9,
                p == (|u: int| on_segment(s as int, t as int, u) && bb_has(occ, u)),
                s < 90,
                t < 90,
                file_of(s as int) == cs && file_of(t as int) == ct && cs == ct,
                rank_of(s as int) == rs && rank_of(t as int) == rt,
                lo == if rs < rt { rs as int } else { rt as int },
                hi == if rs < rt { rt as int } else { rs as int },
                cnt == count_if(|u: int| p(u) && u < sq_of(k as int, cs as int), 90),
                cnt <= 90,
            decreases hi - k,
        {
            let ghost pk = |u: int| p(u) && u < sq_of(k as int, cs as int);
            let ghost pk1 = |u: int| p(u) && u < sq_of((k + 1) as int, cs as int);
            let v = k * 9 + cs;
            if (occ >> (v as u128)) & 1 == 1 {
                cnt = cnt + 1;
            }
            proof {
                crate::rules::lemma_sq_coords(k as int, cs as int);
                assert forall|u: int| 0 <= u < 90 && u != v implies (#[trigger] pk(u) <==> pk1(
                    u,
                )) by {
                    crate::rules::lemma_sq_decompose(u);
                }
                crate::rules::lemma_count_update(pk, pk1, 90, v as int);
                crate::rules::lemma_count_nonneg(pk1, 90);
                assert(on_segment(s as int, t as int, v as int));
                if (occ >> (v as u128)) & 1 == 1 {
                    assert(bb_has(occ, v as int));
                    assert(pk1(v as int));
                    assert(!pk(v as int));
                } else {
                    assert(!bb_has(occ, v as int));
                    assert(!pk1(v as int));
                    assert(!pk(v as int));
                }
            }
            k = k + 1;
        }
        proof {
            let pk = |u: int| p(u) && u < sq_of(hi as int, cs as int);
            assert forall|u: int| 0 <= u < 90 implies (#[trigger] pk(u) <==> p(u)) by {
                crate::rules::lemma_sq_decompose(u);
            }
            crate::rules::lemma_count_congruent(pk, p, 90);
        }
    } else {
        let lo = if cs < ct {
            cs
        } else {
            ct
        };
        let hi = if cs < ct {
            ct
        } else {
            cs
        };
        let mut k = lo + 1;
        proof {
            lemma_count_zero(|u: int| p(u) && file_of(u) < (lo + 1) as int, 90);
        }
        while k < hi
            invariant
                lo < k <= hi,
                hi < 9,
                rs < 10,
                p == (|u: int| on_segment(s as int, t as int, u) && bb_has(occ, u)),
                s < 90,
                t < 90,
                rank_of(s as int) == rs && rank_of(t as int) == rt && rs == rt,
                file_of(s as int) == cs && file_of(t as int) == ct,
                lo == if cs < ct { cs as int } else { ct as int },
                hi == if cs < ct { ct as int } else { cs as int },
                cnt == count_if(|u: int| p(u) && file_of(u) < k as int, 90),
                cnt <= 90,
            decreases hi - k,
        {
            let ghost pk = |u: int| p(u) && file_of(u) < k as int;
            let ghost pk1 = |u: int| p(u) && file_of(u) < (k + 1) as int;
            let v = rs * 9 + k;
            if (occ >> (v as u128)) & 1 == 1 {
                cnt = cnt + 1;
            }
            proof {
                crate::rules::lemma_sq_coords(rs as int, k as int);
                assert forall|u: int| 0 <= u < 90 && u != v implies (#[trigger] pk(u) <==> pk1(
                    u,
                )) by {
                    crate::rules::lemma_sq_decompose(u);
                }
                crate::rules::lemma_count_update(pk, pk1, 90, v as int);
                crate::rules::lemma_count_nonneg(pk1, 90);
                assert(on_segment(s as int, t as int, v as int));
                if (occ >> (v as u128)) & 1 == 1 {
                    assert(bb_has(occ, v as int));
                    assert(pk1(v as int));
                    assert(!pk(v as int));
                } else {
                    assert(!bb_has(occ, v as int));
                    assert(!pk1(v as int));
                    assert(!pk(v as int));
                }
            }
            k = k + 1;
        }
        proof {
            let pk = |u: int| p(u) && file_of(u) < hi as int;
            assert forall|u: int| 0 <= u < 90 implies (#[trigger] pk(u) <==> p(u)) by {
                crate::rules::lemma_sq_decompose(u);
            }
            crate::rules::lemma_count_congruent(pk, p, 90);
        }
    }
    cnt
}

/// The move-or-capture set of a cannon on `sq`.
pub fn get_cannon_moves_bb(sq: usize, occupied: Bitboard) -> (r: Bitboard)
    requires
        sq < 90,
    ensures
        forall|t: int| #[trigger] bb_has(r, t) <==> cannon_move_ok(occupied, sq as int, t),
{
    let mut mask: Bitboard = 0;
    let mut t: usize = 0;
    proof {
        assert forall|u: int| !bb_has(0u128, u) by {
            lemma_bb_zero(u);
        }
    }
    while t < 90
        invariant
            t <= 90,
            sq < 90,
            forall|u: int| #[trigger] bb_has(mask, u) <==> (0 <= u < t && cannon_move_ok(
                occupied,
                sq as int,
                u,
            )),
        decreases 90 - t,
    {
        if cannon_move_ok_exec(occupied, sq, t) {
            let ghost old_mask = mask;
            mask = mask | (1u128 << (t as u128));
            proof {
                assert forall|u: int| #[trigger] bb_has(mask, u) <==> (0 <= u < t + 1
                    && cannon_move_ok(occupied, sq as int, u)) by {
                    lemma_bb_set_bit(old_mask, t as int, u);
                }
            }
        }
        t = t + 1;
    }
    proof {
        assert forall|u: int| #[trigger] bb_has(mask, u) <==> cannon_move_ok(
            occupied,
            sq as int,
            u,
        ) by {
            if !(0 <= u < 90) {
                assert(!on_board(u));
            }
        }
    }
    mask
}

// ---------------------------------------------------------------------------
// The attack predicate.
// ---------------------------------------------------------------------------

/// The first occupied square on the ray from `sq` in direction `d`, if
/// any; every square between `sq` and it is empty.
fn first_occ_in_dir(bv: &Vec<Piece>, sq: usize, d: usize) -> (r: Option<usize>)
    requires
        bv@.len() == 90,
        sq < 90,
        d < 4,
    ensures
        (match r {
            Some(u) => u < 90 && in_dir(d as int, sq as int, u as int) && occ_at(bv@, u as int)
                && (forall|v: int| #[trigger]
                on_segment(sq as int, u as int, v) ==> !occ_at(bv@, v)),
            None => forall|v: int| #[trigger] in_dir(d as int, sq as int, v) ==> !occ_at(bv@, v),
        }),
{
    let rs = sq / 9;
    let cs = sq % 9;
    proof {
        crate::rules::lemma_sq_decompose(sq as int);
    }
    if d == 0 {
        let mut k = rs;
        while k > 0
            invariant
                k <= rs,
                rs < 10,
                cs < 9,
                sq < 90,
                bv@.len() == 90,
                d == 0,
                rank_of(sq as int) == rs && file_of(sq as int) == cs,
                forall|v: int|
                    in_dir(0, sq as int, v) && rank_of(v) >= k ==> !occ_at(bv@, v),
            decreases k,
        {
            let u = (k - 1) * 9 + cs;
            proof {
                crate::rules::lemma_sq_coords(k - 1, cs as int);
            }
            if bv[u] != Piece::Empty {
                proof {
                    assert forall|v: int| #[trigger] on_segment(sq as int, u as int, v) implies
                        !occ_at(bv@, v) by {
                        crate::rules::lemma_sq_decompose(v);
                    }
                }
                return Some(u);
            }
            proof {
                assert forall|v: int| in_dir(0, sq as int, v) && rank_of(v) >= k - 1 implies
                    !occ_at(bv@, v) by {
                    crate::rules::lemma_sq_decompose(v);
                }
            }
            k = k - 1;
        }
        None
    } else if d == 1 {
        let mut k = cs + 1;
        while k < 9
            invariant
                cs < k <= 9,
                rs < 10,
                cs < 9,
                sq < 90,
                bv@.len() == 90,
                d == 1,
                rank_of(sq as int) == rs && file_of(sq as int) == cs,
                forall|v: int|
                    in_dir(1, sq as int, v) && file_of(v) < k ==> !occ_at(bv@, v),
            decreases 9 - k,
        {
            let u = rs * 9 + k;
            proof {
                crate::rules::lemma_sq_coords(rs as int, k as int);
            }
            if bv[u] != Piece::Empty {
                proof {
                    assert forall|v: int| #[trigger] on_segment(sq as int, u as int, v) implies
                        !occ_at(bv@, v) by {
                        crate::rules::lemma_sq_decompose(v);
                    }
                }
                return Some(u);
            }
            proof {
                assert forall|v: int| in_dir(1, sq as int, v) && file_of(v) < k + 1 implies
                    !occ_at(bv@, v) by {
                    crate::rules::lemma_sq_decompose(v);
                }
            }
            k = k + 1;
        }
        None
    } else if d == 2 {
        let mut k = rs + 1;
        while k < 10
            invariant
                rs < k <= 10,
                rs < 10,
                cs < 9,
                sq < 90,
                bv@.len() == 90,
                d == 2,
                rank_of(sq as int) == rs && file_of(sq as int) == cs,
                forall|v: int|
                    in_dir(2, sq as int, v) && rank_of(v) < k ==> !occ_at(bv@, v),
            decreases 10 - k,
        {
            let u = k * 9 + cs;
            proof {
                crate::rules::lemma_sq_coords(k as int, cs as int);
            }
            if bv[u] != Piece::Empty {
                proof {
                    assert forall|v: int| #[trigger] on_segment(sq as int, u as int, v) implies
                        !occ_at(bv@, v) by {
                        crate::rules::lemma_sq_decompose(v);
                    }
                }
                return Some(u);
            }
            proof {
                assert forall|v: int| in_dir(2, sq as int, v) && rank_of(v) < k + 1 implies
                    !occ_at(bv@, v) by {
                    crate::rules::lemma_sq_decompose(v);
                }
            }
            k = k + 1;
        }
        None
    } else {
        let mut k = cs;
        while k > 0
            invariant
                k <= cs,
                rs < 10,
                cs < 9,
                sq < 90,
                bv@.len() == 90,
                d == 3,
                rank_of(sq as int) == rs && file_of(sq as int) == cs,
                forall|v: int|
                    in_dir(3, sq as int, v) && file_of(v) >= k ==> !occ_at(bv@, v),
            decreases k,
        {
            let u = rs * 9 + (k - 1);
            proof {
                crate::rules::lemma_sq_coords(rs as int, k - 1);
            }
            if bv[u] != Piece::Empty {
                proof {
                    assert forall|v: int| #[trigger] on_segment(sq as int, u as int, v) implies
                        !occ_at(bv@, v) by {
                        crate::rules::lemma_sq_decompose(v);
                    }
                }
                return Some(u);
            }
            proof {
                assert forall|v: int| in_dir(3, sq as int, v) && file_of(v) >= k - 1 implies
                    !occ_at(bv@, v) by {
                    crate::rules::lemma_sq_decompose(v);
                }
            }
            k = k - 1;
        }
        None
    }
}

/// A rook-like attacker of `rp`'s identity on the ray `d` from `t`.
pub open spec fn rook_attacker_in_dir(sqs: Seq<Piece>, t: int, d: int, rp: Piece) -> bool {
    exists|a: int| #![auto]
        in_dir(d, t, a) && sqs[a] == rp && crate::rules::clear_between(sqs, a, t)
}

/// A cannon-like attacker of `cp`'s identity on the ray `d` from `t`,
/// over exactly one screen.
pub open spec fn cannon_attacker_in_dir(sqs: Seq<Piece>, t: int, d: int, cp: Piece) -> bool {
    exists|a: int| #![auto]
        in_dir(d, t, a) && sqs[a] == cp && crate::rules::occ_between(sqs, a, t) == 1
}

/// Looks for a piece equal to `rp` that attacks `sq` like a rook along
/// the ray `d`.
fn rook_dir_check(bv: &Vec<Piece>, sq: usize, d: usize, rp: Piece) -> (r: bool)
    requires
        bv@.len() == 90,
        sq < 90,
        d < 4,
        rp != Piece::Empty,
    ensures
        r == rook_attacker_in_dir(bv@, sq as int, d as int, rp),
{
    let o = first_occ_in_dir(bv, sq, d);
    match o {
        None => {
            proof {
                assert forall|a: int| !(in_dir(d as int, sq as int, a) && bv@[a] == rp
                    && crate::rules::clear_between(bv@, a, sq as int)) by {
                    if in_dir(d as int, sq as int, a) {
                        assert(!occ_at(bv@, a));
                    }
                }
            }
            false
        },
        Some(u) => {
            if bv[u] == rp {
                proof {
                    assert forall|v: int| #[trigger] on_segment(u as int, sq as int, v) implies
                        !occ_at(bv@, v) by {
                        assert(on_segment(sq as int, u as int, v));
                    }
                    assert(in_dir(d as int, sq as int, u as int) && bv@[u as int] == rp
                        && crate::rules::clear_between(bv@, u as int, sq as int));
                }
                true
            } else {
                proof {
                    assert forall|a: int| !(in_dir(d as int, sq as int, a) && bv@[a] == rp
                        && crate::rules::clear_between(bv@, a, sq as int)) by {
                        if in_dir(d as int, sq as int, a) && bv@[a] == rp
                            && crate::rules::clear_between(bv@, a, sq as int) {
                            if a != u {
                                crate::rules::lemma_dir_trichotomy(
                                    d as int,
                                    sq as int,
                                    u as int,
                                    a,
                                );
                                if on_segment(sq as int, u as int, a) {
                                    assert(!occ_at(bv@, a));
                                } else {
                                    assert(on_segment(sq as int, a, u as int));
                                    assert(on_segment(a, sq as int, u as int));
                                    assert(!occ_at(bv@, u as int));
                                }
                            }
                        }
                    }
                }
                false
            }
        },
    }
}

/// Looks for a piece equal to `cp` that attacks `sq` like a cannon along
/// the ray `d`.
fn cannon_dir_check(bv: &Vec<Piece>, sq: usize, d: usize, cp: Piece) -> (r: bool)
    requires
        bv@.len() == 90,
        sq < 90,
        d < 4,
        cp != Piece::Empty,
    ensures
        r == cannon_attacker_in_dir(bv@, sq as int, d as int, cp),
{
    let ghost sqs = bv@;
    let ghost di = d as int;
    let ghost t = sq as int;
    let o = first_occ_in_dir(bv, sq, d);
    match o {
        None => {
            proof {
                assert forall|a: int| !(in_dir(di, t, a) && sqs[a] == cp
                    && crate::rules::occ_between(sqs, a, t) == 1) by {
                    if in_dir(di, t, a) && sqs[a] == cp {
                        let p = |v: int| on_segment(a, t, v) && occ_at(sqs, v);
                        assert forall|v: int| 0 <= v < 90 implies !#[trigger] p(v) by {
                            if on_segment(a, t, v) {
                                crate::rules::lemma_dir_segment(di, t, a, v);
                            }
                        }
                        crate::rules::lemma_count_zero(p, 90);
                    }
                }
            }
            false
        },
        Some(b1) => {
            let o2 = first_occ_in_dir(bv, b1, d);
            proof {
                assert(in_dir(di, t, b1 as int));
            }
            match o2 {
                None => {
                    proof {
                        assert forall|a: int| !(in_dir(di, t, a) && sqs[a] == cp
                            && crate::rules::occ_between(sqs, a, t) == 1) by {
                            if in_dir(di, t, a) && sqs[a] == cp {
                                if a != b1 {
                                    crate::rules::lemma_dir_trichotomy(di, t, b1 as int, a);
                                    if on_segment(t, b1 as int, a) {
                                        assert(!occ_at(sqs, a));
                                    } else {
                                        assert(on_segment(t, a, b1 as int));
                                        crate::rules::lemma_dir_segment(di, t, a, b1 as int);
                                        assert(in_dir(di, b1 as int, a));
                                        assert(!occ_at(sqs, a));
                                    }
                                } else {
                                    // The attacker would itself be the first
                                    // blocker: no screen lies between.
                                    let p = |v: int| on_segment(a, t, v) && occ_at(sqs, v);
                                    assert forall|v: int| 0 <= v < 90 implies !#[trigger] p(
                                        v,
                                    ) by {
                                        if on_segment(a, t, v) {
                                            assert(on_segment(t, a, v));
                                        }
                                    }
                                    crate::rules::lemma_count_zero(p, 90);
                                }
                            }
                        }
                    }
                    false
                },
                Some(u2) => {
                    if bv[u2] == cp {
                        proof {
                            crate::rules::lemma_dir_chain(di, t, b1 as int, u2 as int);
                            let p = |v: int| on_segment(u2 as int, t, v) && occ_at(sqs, v);
                            assert(on_segment(t, u2 as int, b1 as int));
                            assert(p(b1 as int));
                            assert forall|v: int| 0 <= v < 90 && v != b1 implies !#[trigger] p(
                                v,
                            ) by {
                                if on_segment(u2 as int, t, v) && occ_at(sqs, v) {
                                    assert(on_segment(t, u2 as int, v));
                                    crate::rules::lemma_segment_split(
                                        t,
                                        u2 as int,
                                        b1 as int,
                                        v,
                                    );
                                    if on_segment(t, b1 as int, v) {
                                        assert(!occ_at(sqs, v));
                                    } else {
                                        assert(on_segment(b1 as int, u2 as int, v));
                                        assert(on_segment(b1 as int, u2 as int, v) ==> !occ_at(
                                            sqs,
                                            v,
                                        ));
                                    }
                                }
                            }
                            crate::rules::lemma_count_one(p, 90, b1 as int);
                            assert(crate::rules::occ_between(sqs, u2 as int, t) == 1);
                            assert(in_dir(di, t, u2 as int) && sqs[u2 as int] == cp
                                && crate::rules::occ_between(sqs, u2 as int, t) == 1);
                        }
                        true
                    } else {
                        proof {
                            crate::rules::lemma_dir_chain(di, t, b1 as int, u2 as int);
                            assert forall|a: int| !(in_dir(di, t, a) && sqs[a] == cp
                                && crate::rules::occ_between(sqs, a, t) == 1) by {
                                if in_dir(di, t, a) && sqs[a] == cp && crate::rules::occ_between(
                                    sqs,
                                    a,
                                    t,
                                ) == 1 {
                                    let p = |v: int| on_segment(a, t, v) && occ_at(sqs, v);
                                    if a == b1 {
                                        assert forall|v: int| 0 <= v < 90 implies !#[trigger] p(
                                            v,
                                        ) by {
                                            if on_segment(a, t, v) {
                                                assert(on_segment(t, a, v));
                                            }
                                        }
                                        crate::rules::lemma_count_zero(p, 90);
                                    } else {
                                        crate::rules::lemma_dir_trichotomy(di, t, b1 as int, a);
                                        if on_segment(t, b1 as int, a) {
                                            assert(!occ_at(sqs, a));
                                        } else {
                                            assert(on_segment(t, a, b1 as int));
                                            assert(on_segment(a, t, b1 as int));
                                            assert(p(b1 as int));
                                            crate::rules::lemma_dir_segment(di, t, a, b1 as int);
                                            assert(in_dir(di, b1 as int, a));
                                            if a != u2 {
                                                crate::rules::lemma_dir_trichotomy(
                                                    di,
                                                    b1 as int,
                                                    u2 as int,
                                                    a,
                                                );
                                                if on_segment(b1 as int, u2 as int, a) {
                                                    assert(!occ_at(sqs, a));
                                                } else {
                                                    assert(on_segment(b1 as int, a, u2 as int));
                                                    // Both the screen and the
                                                    // second blocker lie between:
                                                    // the count is at least two.
                                                    assert(on_segment(t, a, u2 as int)) by {
                                                        crate::rules::lemma_segment_extend(
                                                            t,
                                                            a,
                                                            b1 as int,
                                                            u2 as int,
                                                        );
                                                    }
                                                    assert(p(u2 as int));
                                                    crate::rules::lemma_count_ge_two(
                                                        p,
                                                        90,
                                                        b1 as int,
                                                        u2 as int,
                                                    );
                                                }
                                            } else {
                                                assert(sqs[a] != cp);
                                            }
                                        }
                                    }
                                }
                            }
                        }
                        false
                    }
                },
            }
        },
    }
}

/// The king of a side.
fn king_piece(side: Player) -> (r: Piece)
    ensures
        r == piece_of(side, 1),
{
    if side == Player::Red {
        Piece::RKing
    } else {
        Piece::BKing
    }
}

/// The piece of a side with the given piece-type number 1..7.
fn piece_of_exec(side: Player, abs: u8) -> (r: Piece)
    requires
        1 <= abs <= 7,
    ensures
        r == piece_of(side, abs as int),
{
    match side {
        Player::Red => match abs {
            1 => Piece::RKing,
            2 => Piece::RGuard,
            3 => Piece::RBishop,
            4 => Piece::RHorse,
            5 => Piece::RRook,
            6 => Piece::RCannon,
            _ => Piece::RPawn,
        },
        Player::Black => match abs {
            1 => Piece::BKing,
            2 => Piece::BGuard,
            3 => Piece::BBishop,
            4 => Piece::BHorse,
            5 => Piece::BRook,
            6 => Piece::BCannon,
            _ => Piece::BPawn,
        },
    }
}

/// A non-empty piece is determined by its side and piece-type number.
proof fn lemma_piece_identity(p: Piece, side: Player, abs: int)
    requires
        p != Piece::Empty,
        side_of(p) == side,
        abs_of(p) == abs,
    ensures
        p == piece_of(side, abs),
{
}

/// Whether a pawn of `att` attacks `sq`.
fn is_attacked_by_pawn(bv: &Vec<Piece>, sq: usize, att: Player) -> (r: bool)
    requires
        bv@.len() == 90,
        sq < 90,
    ensures
        r == attacked_by(bv@, sq as int, att, 7),
{
    let pp = piece_of_exec(att, 7);
    let mut a: usize = 0;
    while a < 90
        invariant
            a <= 90,
            sq < 90,
            bv@.len() == 90,
            pp == piece_of(att, 7),
            forall|b: int| 0 <= b < a ==> !(bv@[b] == pp && pawn_step(att, b, sq as int)),
        decreases 90 - a,
    {
        if bv[a] == pp && pawn_step_exec(att, a, sq) {
            proof {
                assert(attack_geom(bv@, a as int, sq as int));
            }
            return true;
        }
        a = a + 1;
    }
    proof {
        assert forall|w: int|
            !(occ_at(bv@, w) && side_of(bv@[w]) == att && abs_of(bv@[w]) == 7
                && #[trigger] attack_geom(bv@, w, sq as int)) by {
            if occ_at(bv@, w) && side_of(bv@[w]) == att && abs_of(bv@[w]) == 7 {
                lemma_piece_identity(bv@[w], att, 7);
            }
        }
    }
    false
}

/// Whether the king of `att` attacks `sq`.
fn is_attacked_by_king(bv: &Vec<Piece>, sq: usize, att: Player) -> (r: bool)
    requires
        bv@.len() == 90,
        sq < 90,
    ensures
        r == attacked_by(bv@, sq as int, att, 1),
{
    let kp = king_piece(att);
    let mut a: usize = 0;
    while a < 90
        invariant
            a <= 90,
            sq < 90,
            bv@.len() == 90,
            kp == piece_of(att, 1),
            forall|b: int| 0 <= b < a ==> !(bv@[b] == kp && king_step(b, sq as int)),
        decreases 90 - a,
    {
        if bv[a] == kp && king_step_exec(a, sq) {
            proof {
                assert(attack_geom(bv@, a as int, sq as int));
            }
            return true;
        }
        a = a + 1;
    }
    proof {
        assert forall|w: int|
            !(occ_at(bv@, w) && side_of(bv@[w]) == att && abs_of(bv@[w]) == 1
                && #[trigger] attack_geom(bv@, w, sq as int)) by {
            if occ_at(bv@, w) && side_of(bv@[w]) == att && abs_of(bv@[w]) == 1 {
                lemma_piece_identity(bv@[w], att, 1);
            }
        }
    }
    false
}

/// Whether a horse of `att` attacks `sq` over an empty leg.
fn is_attacked_by_horse(bv: &Vec<Piece>, sq: usize, att: Player) -> (r: bool)
    requires
        bv@.len() == 90,
        sq < 90,
    ensures
        r == attacked_by(bv@, sq as int, att, 4),
{
    let hp = piece_of_exec(att, 4);
    let mut a: usize = 0;
    while a < 90
        invariant
            a <= 90,
            sq < 90,
            bv@.len() == 90,
            hp == piece_of(att, 4),
            forall|b: int|
                0 <= b < a ==> !(bv@[b] == hp && horse_step(b, sq as int) && !occ_at(
                    bv@,
                    horse_leg(b, sq as int),
                )),
        decreases 90 - a,
    {
        if bv[a] == hp && horse_step_exec(a, sq) {
            let leg = horse_leg_exec(a, sq);
            if bv[leg] == Piece::Empty {
                proof {
                    assert(attack_geom(bv@, a as int, sq as int));
                }
                return true;
            }
        }
        a = a + 1;
    }
    proof {
        assert forall|w: int|
            !(occ_at(bv@, w) && side_of(bv@[w]) == att && abs_of(bv@[w]) == 4
                && #[trigger] attack_geom(bv@, w, sq as int)) by {
            if occ_at(bv@, w) && side_of(bv@[w]) == att && abs_of(bv@[w]) == 4 {
                lemma_piece_identity(bv@[w], att, 4);
            }
        }
    }
    false
}

/// Whether a bishop of `att` attacks `sq` over an empty eye.
fn is_attacked_by_bishop(bv: &Vec<Piece>, sq: usize, att: Player) -> (r: bool)
    requires
        bv@.len() == 90,
        sq < 90,
    ensures
        r == attacked_by(bv@, sq as int, att, 3),
{
    let bp = piece_of_exec(att, 3);
    let on_half = match att {
        Player::Red => sq / 9 >= 5,
        Player::Black => sq / 9 <= 4,
    };
    if !on_half {
        proof {
            assert forall|w: int|
                !(occ_at(bv@, w) && side_of(bv@[w]) == att && abs_of(bv@[w]) == 3
                    && #[trigger] attack_geom(bv@, w, sq as int)) by {}
        }
        return false;
    }
    let mut a: usize = 0;
    while a < 90
        invariant
            a <= 90,
            sq < 90,
            bv@.len() == 90,
            bp == piece_of(att, 3),
            on_own_half(att, sq as int),
            forall|b: int|
                0 <= b < a ==> !(bv@[b] == bp && bishop_step(b, sq as int) && !occ_at(
                    bv@,
                    bishop_eye(b, sq as int),
                )),
        decreases 90 - a,
    {
        if bv[a] == bp && bishop_step_exec(a, sq) {
            let eye = bishop_eye_exec(a, sq);
            if bv[eye] == Piece::Empty {
                proof {
                    assert(attack_geom(bv@, a as int, sq as int));
                }
                return true;
            }
        }
        a = a + 1;
    }
    proof {
        assert forall|w: int|
            !(occ_at(bv@, w) && side_of(bv@[w]) == att && abs_of(bv@[w]) == 3
                && #[trigger] attack_geom(bv@, w, sq as int)) by {
            if occ_at(bv@, w) && side_of(bv@[w]) == att && abs_of(bv@[w]) == 3 {
                lemma_piece_identity(bv@[w], att, 3);
            }
        }
    }
    false
}

/// Whether a guard of `att` attacks `sq`.
fn is_attacked_by_guard(bv: &Vec<Piece>, sq: usize, att: Player) -> (r: bool)
    requires
        bv@.len() == 90,
        sq < 90,
    ensures
        r == attacked_by(bv@, sq as int, att, 2),
{
    let gp = piece_of_exec(att, 2);
    let mut a: usize = 0;
    while a < 90
        invariant
            a <= 90,
            sq < 90,
            bv@.len() == 90,
            gp == piece_of(att, 2),
            forall|b: int| 0 <= b < a ==> !(bv@[b] == gp && guard_step(b, sq as int)),
        decreases 90 - a,
    {
        if bv[a] == gp && guard_step_exec(a, sq) {
            proof {
                assert(attack_geom(bv@, a as int, sq as int));
            }
            return true;
        }
        a = a + 1;
    }
    proof {
        assert forall|w: int|
            !(occ_at(bv@, w) && side_of(bv@[w]) == att && abs_of(bv@[w]) == 2
                && #[trigger] attack_geom(bv@, w, sq as int)) by {
            if occ_at(bv@, w) && side_of(bv@[w]) == att && abs_of(bv@[w]) == 2 {
                lemma_piece_identity(bv@[w], att, 2);
            }
        }
    }
    false
}

/// Whether a rook of `att` attacks `sq`.
fn is_attacked_by_rook(bv: &Vec<Piece>, sq: usize, att: Player) -> (r: bool)
    requires
        bv@.len() == 90,
        sq < 90,
    ensures
        r == attacked_by(bv@, sq as int, att, 5),
{
    let rp = piece_of_exec(att, 5);
    let r0 = rook_dir_check(bv, sq, 0, rp);
    let r1 = rook_dir_check(bv, sq, 1, rp);
    let r2 = rook_dir_check(bv, sq, 2, rp);
    let r3 = rook_dir_check(bv, sq, 3, rp);
    let found = r0 || r1 || r2 || r3;
    proof {
        if found {
            let d = if r0 {
                0int
            } else if r1 {
                1int
            } else if r2 {
                2int
            } else {
                3int
            };
            let a = choose|a: int| #![auto]
                in_dir(d, sq as int, a) && bv@[a] == rp && clear_between(bv@, a, sq as int);
            assert(attack_geom(bv@, a, sq as int));
            assert(attacked_by(bv@, sq as int, att, 5));
        } else {
            assert forall|w: int|
                !(occ_at(bv@, w) && side_of(bv@[w]) == att && abs_of(bv@[w]) == 5
                    && #[trigger] attack_geom(bv@, w, sq as int)) by {
                if occ_at(bv@, w) && side_of(bv@[w]) == att && abs_of(bv@[w]) == 5
                    && attack_geom(bv@, w, sq as int) {
                    lemma_piece_identity(bv@[w], att, 5);
                    crate::rules::lemma_line_to_dir(sq as int, w);
                    assert(false);
                }
            }
        }
    }
    found
}

/// Whether a cannon of `att` attacks `sq`.
fn is_attacked_by_cannon(bv: &Vec<Piece>, sq: usize, att: Player) -> (r: bool)
    requires
        bv@.len() == 90,
        sq < 90,
    ensures
        r == attacked_by(bv@, sq as int, att, 6),
{
    let cp = piece_of_exec(att, 6);
    let r0 = cannon_dir_check(bv, sq, 0, cp);
    let r1 = cannon_dir_check(bv, sq, 1, cp);
    let r2 = cannon_dir_check(bv, sq, 2, cp);
    let r3 = cannon_dir_check(bv, sq, 3, cp);
    let found = r0 || r1 || r2 || r3;
    proof {
        if found {
            let d = if r0 {
                0int
            } else if r1 {
                1int
            } else if r2 {
                2int
            } else {
                3int
            };
            let a = choose|a: int| #![auto]
                in_dir(d, sq as int, a) && bv@[a] == cp && occ_between(bv@, a, sq as int) == 1;
            assert(attack_geom(bv@, a, sq as int));
            assert(attacked_by(bv@, sq as int, att, 6));
        } else {
            assert forall|w: int|
                !(occ_at(bv@, w) && side_of(bv@[w]) == att && abs_of(bv@[w]) == 6
                    && #[trigger] attack_geom(bv@, w, sq as int)) by {
                if occ_at(bv@, w) && side_of(bv@[w]) == att && abs_of(bv@[w]) == 6
                    && attack_geom(bv@, w, sq as int) {
                    lemma_piece_identity(bv@[w], att, 6);
                    crate::rules::lemma_line_to_dir(sq as int, w);
                    assert(false);
                }
            }
        }
    }
    found
}

/// Whether any piece of `attacker_player` can capture on `sq` under the
/// movement rules.
pub fn is_square_attacked_by(board: &crate::board::Board, sq: usize, attacker_player: Player) -> (r:
    bool)
    requires
        board@.squares.len() == 90,
        sq < 90,
    ensures
        r == attacked(board@.squares, sq as int, attacker_player),
{
    let bv = &board.board;
    let r = is_attacked_by_pawn(bv, sq, attacker_player) || is_attacked_by_king(
        bv,
        sq,
        attacker_player,
    ) || is_attacked_by_guard(bv, sq, attacker_player) || is_attacked_by_horse(
        bv,
        sq,
        attacker_player,
    ) || is_attacked_by_bishop(bv, sq, attacker_player) || is_attacked_by_rook(
        bv,
        sq,
        attacker_player,
    ) || is_attacked_by_cannon(bv, sq, attacker_player);
    proof {
        crate::rules::lemma_attacked_cases(board@.squares, sq as int, attacker_player);
    }
    r
}

/// Whether the given side's king stands in check: attacked, or facing
/// the enemy king along an open file, or missing altogether.
pub fn is_king_in_check(board: &crate::board::Board, player: Player) -> (r: bool)
    requires
        board@.wf_bits(),
    ensures
        r == in_check(board@.squares, player),
{
    let ghost sqs = board@.squares;
    let kp = king_piece(player);
    let kidx = kp.get_bb_index().unwrap();
    let king_bb = board.piece_bitboards[kidx];
    let ghost pk = |s: int| 0 <= s < sqs.len() && sqs[s] == piece_of(player, 1);
    proof {
        assert forall|i: int| #[trigger] crate::bits::bb_has(king_bb, i) <==> pk(i) by {
            if crate::bits::bb_has(king_bb, i) {
                lemma_piece_identity(sqs[i], player, 1);
            }
        }
    }
    let ls = crate::bits::get_lsb_index(king_bb);
    if ls < 0 {
        proof {
            assert forall|i: int| !#[trigger] pk(i) by {
                crate::bits::lemma_bb_zero(i);
            }
            crate::rules::lemma_first_from_props(pk, 0);
            if king_sq_of(sqs, player) < 90 {
                assert(pk(king_sq_of(sqs, player)));
            }
        }
        return true;
    }
    let ks = ls as usize;
    proof {
        assert forall|i: int| 0 <= i < ks implies !#[trigger] pk(i) by {
            assert(!crate::bits::bb_has(king_bb, i));
        }
        crate::rules::lemma_first_from_is(pk, ks as int);
        assert(king_sq_of(sqs, player) == ks as int);
        assert(ks < 90);
    }
    if is_square_attacked_by(board, ks, player.opponent()) {
        return true;
    }

    // Flying general.
    let op = king_piece(player.opponent());
    let oidx = op.get_bb_index().unwrap();
    let opp_bb = board.piece_bitboards[oidx];
    let ghost po = |s: int| 0 <= s < sqs.len() && sqs[s] == piece_of(opponent_of(player), 1);
    proof {
        assert forall|i: int| #[trigger] crate::bits::bb_has(opp_bb, i) <==> po(i) by {
            if crate::bits::bb_has(opp_bb, i) {
                lemma_piece_identity(sqs[i], opponent_of(player), 1);
            }
        }
    }
    let ols = crate::bits::get_lsb_index(opp_bb);
    if ols < 0 {
        proof {
            assert forall|i: int| !#[trigger] po(i) by {
                crate::bits::lemma_bb_zero(i);
            }
            crate::rules::lemma_first_from_props(po, 0);
            if king_sq_of(sqs, opponent_of(player)) < 90 {
                assert(po(king_sq_of(sqs, opponent_of(player))));
            }
        }
        return false;
    }
    let os = ols as usize;
    proof {
        assert forall|i: int| 0 <= i < os implies !#[trigger] po(i) by {
            assert(!crate::bits::bb_has(opp_bb, i));
        }
        crate::rules::lemma_first_from_is(po, os as int);
        assert(king_sq_of(sqs, opponent_of(player)) == os as int);
    }
    if ks % 9 != os % 9 {
        return false;
    }
    let occ = board.occupied_bitboard();
    let clear = seg_clear_exec(occ, ks, os);
    proof {
        assert forall|u: int| #[trigger] on_segment(ks as int, os as int, u) implies (occ_at(
            sqs,
            u,
        ) <==> crate::bits::bb_has(occ, u)) by {}
        assert(clear == clear_between(sqs, ks as int, os as int));
        assert forall|u: int| #[trigger] on_segment(os as int, ks as int, u) implies on_segment(
            ks as int,
            os as int,
            u,
        ) by {}
        assert forall|u: int| #[trigger] on_segment(ks as int, os as int, u) implies on_segment(
            os as int,
            ks as int,
            u,
        ) by {}
        assert(clear_between(sqs, os as int, ks as int) == clear_between(
            sqs,
            ks as int,
            os as int,
        ));
    }
    clear
}

// ---------------------------------------------------------------------------
// Move generation.
// ---------------------------------------------------------------------------

/// The list holds, at or after position `lo`, a move from `f` to `t`.
pub open spec fn contains_move(ms: Seq<crate::moves::Move>, lo: int, f: int, t: int) -> bool {
    exists|i: int|
        lo <= i < ms.len() && crate::moves::from_of(#[trigger] ms[i]) == f && crate::moves::to_of(
            ms[i],
        ) == t
}

/// No two entries at or after position `lo` share a from/to pair: each
/// move appears at most once, so the list's length is the size of the
/// set it stands for.
pub open spec fn distinct_moves(ms: Seq<crate::moves::Move>, lo: int) -> bool {
    forall|i: int, j: int|
        lo <= i < j < ms.len() ==> !(crate::moves::from_of(#[trigger] ms[i])
            == crate::moves::from_of(#[trigger] ms[j]) && crate::moves::to_of(ms[i])
            == crate::moves::to_of(ms[j]))
}

/// Whether `side`'s half contains `t`.
fn on_own_half_exec(side: Player, t: usize) -> (r: bool)
    requires
        t < 90,
    ensures
        r == on_own_half(side, t as int),
{
    match side {
        Player::Red => t / 9 >= 5,
        Player::Black => t / 9 <= 4,
    }
}

/// Executable form of `attack_geom`: the piece on `f` can capture on `t`.
fn attack_geom_exec(bv: &Vec<Piece>, occ: Bitboard, f: usize, t: usize) -> (r: bool)
    requires
        bv@.len() == 90,
        f < 90,
        t < 90,
        forall|i: int| #[trigger] crate::bits::bb_has(occ, i) <==> occ_at(bv@, i),
    ensures
        r == attack_geom(bv@, f as int, t as int),
{
    let p = bv[f];
    if p == Piece::Empty {
        return false;
    }
    let abs = p.abs_val();
    if abs == 1 {
        king_step_exec(f, t)
    } else if abs == 2 {
        guard_step_exec(f, t)
    } else if abs == 3 {
        if bishop_step_exec(f, t) && on_own_half_exec(p.player().unwrap(), t) {
            let eye = bishop_eye_exec(f, t);
            bv[eye] == Piece::Empty
        } else {
            false
        }
    } else if abs == 4 {
        if horse_step_exec(f, t) {
            let leg = horse_leg_exec(f, t);
            bv[leg] == Piece::Empty
        } else {
            false
        }
    } else if abs == 5 {
        if f != t && (f % 9 == t % 9 || f / 9 == t / 9) {
            let c = seg_clear_exec(occ, f, t);
            proof {
                assert forall|u: int| #[trigger] on_segment(f as int, t as int, u) implies (
                occ_at(bv@, u) <==> crate::bits::bb_has(occ, u)) by {}
                assert(c == clear_between(bv@, f as int, t as int));
            }
            c
        } else {
            false
        }
    } else if abs == 6 {
        if f != t && (f % 9 == t % 9 || f / 9 == t / 9) {
            let cnt = seg_occ_count(occ, f, t);
            proof {
                let pb = |u: int| on_segment(f as int, t as int, u) && crate::bits::bb_has(occ, u);
                let ps = |u: int| on_segment(f as int, t as int, u) && occ_at(bv@, u);
                assert forall|u: int| 0 <= u < 90 implies (#[trigger] pb(u) <==> ps(u)) by {}
                crate::rules::lemma_count_congruent(pb, ps, 90);
                assert(cnt == occ_between(bv@, f as int, t as int));
            }
            cnt == 1
        } else {
            false
        }
    } else {
        pawn_step_exec(p.player().unwrap(), f, t)
    }
}

/// Executable form of `quiet_geom`: the piece on `f` can step to the
/// empty square `t`.
fn quiet_geom_exec(bv: &Vec<Piece>, occ: Bitboard, f: usize, t: usize) -> (r: bool)
    requires
        bv@.len() == 90,
        f < 90,
        t < 90,
        forall|i: int| #[trigger] crate::bits::bb_has(occ, i) <==> occ_at(bv@, i),
    ensures
        r == quiet_geom(bv@, f as int, t as int),
{
    let p = bv[f];
    if p == Piece::Empty {
        return false;
    }
    if p.abs_val() == 6 {
        if f != t && (f % 9 == t % 9 || f / 9 == t / 9) {
            let c = seg_clear_exec(occ, f, t);
            proof {
                assert forall|u: int| #[trigger] on_segment(f as int, t as int, u) implies (
                occ_at(bv@, u) <==> crate::bits::bb_has(occ, u)) by {}
                assert(c == clear_between(bv@, f as int, t as int));
            }
            c
        } else {
            false
        }
    } else {
        attack_geom_exec(bv, occ, f, t)
    }
}

impl crate::board::Board {
    /// Appends every pseudo-legal capture of the side to move.
    pub fn generate_capture_moves(&self, moves: &mut crate::moves::MoveList)
        requires
            self@.wf_bits(),
        ensures
            final(moves)@.len() >= old(moves)@.len(),
            final(moves)@.subrange(0, old(moves)@.len() as int) == old(moves)@,
            forall|i: int|
                old(moves)@.len() <= i < final(moves)@.len() ==> capture_move_ok(
                    self@.squares,
                    self@.to_move,
                    crate::moves::from_of(#[trigger] final(moves)@[i]),
                    crate::moves::to_of(final(moves)@[i]),
                ) && crate::moves::cap_of(final(moves)@[i]),
            forall|f: int, t: int|
                #[trigger] capture_move_ok(self@.squares, self@.to_move, f, t) ==> contains_move(
                    final(moves)@,
                    old(moves)@.len() as int,
                    f,
                    t,
                ),
            distinct_moves(final(moves)@, old(moves)@.len() as int),
    {
        let ghost sqs = self@.squares;
        let ghost side = self@.to_move;
        let ghost n0 = old(moves)@.len() as int;
        let occ = self.occupied_bitboard();
        let bv = &self.board;
        let side_exec = self.player_to_move;
        let mut f: usize = 0;
        while f < 90
            invariant
                f <= 90,
                bv@.len() == 90,
                bv@ == sqs,
                side == side_exec,
                forall|i: int| #[trigger] crate::bits::bb_has(occ, i) <==> occ_at(sqs, i),
                moves@.len() >= n0,
                moves@.subrange(0, n0) == old(moves)@,
                n0 == old(moves)@.len(),
                forall|i: int|
                    n0 <= i < moves@.len() ==> capture_move_ok(
                        sqs,
                        side,
                        crate::moves::from_of(#[trigger] moves@[i]),
                        crate::moves::to_of(moves@[i]),
                    ) && crate::moves::cap_of(moves@[i]),
                forall|ff: int, tt: int|
                    0 <= ff < f && #[trigger] capture_move_ok(sqs, side, ff, tt) ==> contains_move(
                        moves@,
                        n0,
                        ff,
                        tt,
                    ),
                distinct_moves(moves@, n0),
                forall|idx: int|
                    n0 <= idx < moves@.len() ==> crate::moves::from_of(#[trigger] moves@[idx])
                        < f,
            decreases 90 - f,
        {
            let p = bv[f];
            let from_ok = p != Piece::Empty && side_matches_pub(p, side_exec);
            if from_ok {
                let mut t: usize = 0;
                while t < 90
                    invariant
                        t <= 90,
                        f < 90,
                        bv@.len() == 90,
                        bv@ == sqs,
                        side == side_exec,
                        p == sqs[f as int],
                        p != Piece::Empty,
                        side_of(p) == side,
                        forall|i: int| #[trigger] crate::bits::bb_has(occ, i) <==> occ_at(sqs, i),
                        moves@.len() >= n0,
                        moves@.subrange(0, n0) == old(moves)@,
                        n0 == old(moves)@.len(),
                        forall|i: int|
                            n0 <= i < moves@.len() ==> capture_move_ok(
                                sqs,
                                side,
                                crate::moves::from_of(#[trigger] moves@[i]),
                                crate::moves::to_of(moves@[i]),
                            ) && crate::moves::cap_of(moves@[i]),
                        forall|ff: int, tt: int|
                            0 <= ff < f && #[trigger] capture_move_ok(sqs, side, ff, tt)
                                ==> contains_move(moves@, n0, ff, tt),
                        forall|tt: int|
                            0 <= tt < t && #[trigger] capture_move_ok(sqs, side, f as int, tt)
                                ==> contains_move(moves@, n0, f as int, tt),
                        distinct_moves(moves@, n0),
                        forall|idx: int|
                            n0 <= idx < moves@.len() ==> crate::moves::from_of(
                                #[trigger] moves@[idx],
                            ) < f || (crate::moves::from_of(moves@[idx]) == f
                                && crate::moves::to_of(moves@[idx]) < t),
                    decreases 90 - t,
                {
                    let q = bv[t];
                    if q != Piece::Empty && !side_matches_pub(q, side_exec) && attack_geom_exec(
                        bv,
                        occ,
                        f,
                        t,
                    ) {
                        let ghost ms0 = moves@;
                        moves.add(crate::moves::Move::new(f, t, Some(q)));
                        proof {
                            assert(moves@.subrange(0, n0) =~= ms0.subrange(0, n0));
                            assert(capture_move_ok(sqs, side, f as int, t as int));
                            assert(crate::moves::from_of(moves@[moves@.len() - 1]) == f as int);
                            assert forall|ff: int, tt: int|
                                0 <= ff < f && #[trigger] capture_move_ok(sqs, side, ff, tt)
                                    implies contains_move(moves@, n0, ff, tt) by {
                                let i = choose|i: int|
                                    n0 <= i < ms0.len() && crate::moves::from_of(
                                        #[trigger] ms0[i],
                                    ) == ff && crate::moves::to_of(ms0[i]) == tt;
                                assert(moves@[i] == ms0[i]);
                            }
                            assert forall|tt: int|
                                0 <= tt < t + 1 && #[trigger] capture_move_ok(
                                    sqs,
                                    side,
                                    f as int,
                                    tt,
                                ) implies contains_move(moves@, n0, f as int, tt) by {
                                if tt < t {
                                    let i = choose|i: int|
                                        n0 <= i < ms0.len() && crate::moves::from_of(
                                            #[trigger] ms0[i],
                                        ) == f as int && crate::moves::to_of(ms0[i]) == tt;
                                    assert(moves@[i] == ms0[i]);
                                } else {
                                    assert(crate::moves::from_of(moves@[moves@.len() - 1])
                                        == f as int);
                                }
                            }
                        }
                    } else {
                        proof {
                            if capture_move_ok(sqs, side, f as int, t as int) {
                                assert(occ_at(sqs, t as int));
                                assert(side_of(sqs[t as int]) != side);
                                assert(attack_geom(sqs, f as int, t as int));
                            }
                        }
                    }
                    t = t + 1;
                }
            } else {
                proof {
                    assert forall|tt: int|
                        !(#[trigger] capture_move_ok(sqs, side, f as int, tt)) by {}
                }
            }
            f = f + 1;
        }
    }

    /// Appends every pseudo-legal quiet move of the side to move.
    pub fn generate_quiet_moves(&self, moves: &mut crate::moves::MoveList)
        requires
            self@.wf_bits(),
        ensures
            final(moves)@.len() >= old(moves)@.len(),
            final(moves)@.subrange(0, old(moves)@.len() as int) == old(moves)@,
            forall|i: int|
                old(moves)@.len() <= i < final(moves)@.len() ==> quiet_move_ok(
                    self@.squares,
                    self@.to_move,
                    crate::moves::from_of(#[trigger] final(moves)@[i]),
                    crate::moves::to_of(final(moves)@[i]),
                ) && !crate::moves::cap_of(final(moves)@[i]),
            forall|f: int, t: int|
                #[trigger] quiet_move_ok(self@.squares, self@.to_move, f, t) ==> contains_move(
                    final(moves)@,
                    old(moves)@.len() as int,
                    f,
                    t,
                ),
            distinct_moves(final(moves)@, old(moves)@.len() as int),
    {
        let ghost sqs = self@.squares;
        let ghost side = self@.to_move;
        let ghost n0 = old(moves)@.len() as int;
        let occ = self.occupied_bitboard();
        let bv = &self.board;
        let side_exec = self.player_to_move;
        let mut f: usize = 0;
        while f < 90
            invariant
                f <= 90,
                bv@.len() == 90,
                bv@ == sqs,
                side == side_exec,
                forall|i: int| #[trigger] crate::bits::bb_has(occ, i) <==> occ_at(sqs, i),
                moves@.len() >= n0,
                moves@.subrange(0, n0) == old(moves)@,
                n0 == old(moves)@.len(),
                forall|i: int|
                    n0 <= i < moves@.len() ==> quiet_move_ok(
                        sqs,
                        side,
                        crate::moves::from_of(#[trigger] moves@[i]),
                        crate::moves::to_of(moves@[i]),
                    ) && !crate::moves::cap_of(moves@[i]),
                forall|ff: int, tt: int|
                    0 <= ff < f && #[trigger] quiet_move_ok(sqs, side, ff, tt) ==> contains_move(
                        moves@,
                        n0,
                        ff,
                        tt,
                    ),
                distinct_moves(moves@, n0),
                forall|idx: int|
                    n0 <= idx < moves@.len() ==> crate::moves::from_of(#[trigger] moves@[idx])
                        < f,
            decreases 90 - f,
        {
            let p = bv[f];
            let from_ok = p != Piece::Empty && side_matches_pub(p, side_exec);
            if from_ok {
                let mut t: usize = 0;
                while t < 90
                    invariant
                        t <= 90,
                        f < 90,
                        bv@.len() == 90,
                        bv@ == sqs,
                        side == side_exec,
                        p == sqs[f as int],
                        p != Piece::Empty,
                        side_of(p) == side,
                        forall|i: int| #[trigger] crate::bits::bb_has(occ, i) <==> occ_at(sqs, i),
                        moves@.len() >= n0,
                        moves@.subrange(0, n0) == old(moves)@,
                        n0 == old(moves)@.len(),
                        forall|i: int|
                            n0 <= i < moves@.len() ==> quiet_move_ok(
                                sqs,
                                side,
                                crate::moves::from_of(#[trigger] moves@[i]),
                                crate::moves::to_of(moves@[i]),
                            ) && !crate::moves::cap_of(moves@[i]),
                        forall|ff: int, tt: int|
                            0 <= ff < f && #[trigger] quiet_move_ok(sqs, side, ff, tt)
                                ==> contains_move(moves@, n0, ff, tt),
                        forall|tt: int|
                            0 <= tt < t && #[trigger] quiet_move_ok(sqs, side, f as int, tt)
                                ==> contains_move(moves@, n0, f as int, tt),
                        distinct_moves(moves@, n0),
                        forall|idx: int|
                            n0 <= idx < moves@.len() ==> crate::moves::from_of(
                                #[trigger] moves@[idx],
                            ) < f || (crate::moves::from_of(moves@[idx]) == f
                                && crate::moves::to_of(moves@[idx]) < t),
                    decreases 90 - t,
                {
                    let q = bv[t];
                    if q == Piece::Empty && quiet_geom_exec(bv, occ, f, t) {
                        let ghost ms0 = moves@;
                        moves.add(crate::moves::Move::new(f, t, None));
                        proof {
                            assert(moves@.subrange(0, n0) =~= ms0.subrange(0, n0));
                            assert(quiet_move_ok(sqs, side, f as int, t as int));
                            assert(crate::moves::from_of(moves@[moves@.len() - 1]) == f as int);
                            assert forall|ff: int, tt: int|
                                0 <= ff < f && #[trigger] quiet_move_ok(sqs, side, ff, tt)
                                    implies contains_move(moves@, n0, ff, tt) by {
                                let i = choose|i: int|
                                    n0 <= i < ms0.len() && crate::moves::from_of(
                                        #[trigger] ms0[i],
                                    ) == ff && crate::moves::to_of(ms0[i]) == tt;
                                assert(moves@[i] == ms0[i]);
                            }
                            assert forall|tt: int|
                                0 <= tt < t + 1 && #[trigger] quiet_move_ok(
                                    sqs,
                                    side,
                                    f as int,
                                    tt,
                                ) implies contains_move(moves@, n0, f as int, tt) by {
                                if tt < t {
                                    let i = choose|i: int|
                                        n0 <= i < ms0.len() && crate::moves::from_of(
                                            #[trigger] ms0[i],
                                        ) == f as int && crate::moves::to_of(ms0[i]) == tt;
                                    assert(moves@[i] == ms0[i]);
                                } else {
                                    assert(crate::moves::from_of(moves@[moves@.len() - 1])
                                        == f as int);
                                }
                            }
                        }
                    } else {
                        proof {
                            if quiet_move_ok(sqs, side, f as int, t as int) {
                                assert(!occ_at(sqs, t as int));
                                assert(quiet_geom(sqs, f as int, t as int));
                            }
                        }
                    }
                    t = t + 1;
                }
            } else {
                proof {
                    assert forall|tt: int| !(#[trigger] quiet_move_ok(sqs, side, f as int, tt)) by {}
                }
            }
            f = f + 1;
        }
    }
}

/// Whether a piece belongs to the given side.
pub fn side_matches_pub(p: Piece, side: Player) -> (r: bool)
    requires
        p != Piece::Empty,
    ensures
        r == (side_of(p) == side),
{
    p.player().unwrap() == side
}

impl crate::board::Board {
    /// Plays a pseudo-legal move, tests whether it leaves the mover's own
    /// king in check, and retracts it, leaving the board exactly as it
    /// was.
    fn probe_legality(&mut self, mv: crate::moves::Move) -> (r: bool)
        requires
            old(self).wf(),
            crate::rules::pseudo_move_ok(
                old(self)@.squares,
                old(self)@.to_move,
                crate::moves::from_of(mv),
                crate::moves::to_of(mv),
            ),
        ensures
            final(self)@ == old(self)@,
            final(self).wf(),
            r == crate::rules::legal_move_ok(
                old(self)@.squares,
                old(self)@.to_move,
                crate::moves::from_of(mv),
                crate::moves::to_of(mv),
            ),
    {
        let ghost m0 = old(self)@;
        let ghost side = m0.to_move;
        proof {
            crate::rules::lemma_pseudo_is_move(m0, crate::moves::from_of(mv), crate::moves::to_of(
                mv,
            ));
            crate::model::lemma_make_wf(m0, crate::moves::from_of(mv), crate::moves::to_of(mv));
        }
        let captured = self.move_piece(mv);
        let ghost m1 = crate::model::make_model(m0, crate::moves::from_of(mv), crate::moves::to_of(
            mv,
        ));
        let in_check_now = is_king_in_check(self, self.player_to_move.opponent());
        proof {
            assert(opponent_of(opponent_of(side)) == side);
            assert(in_check_now == in_check(m1.squares, side));
        }
        self.unmove_piece(mv, captured);
        proof {
            crate::model::lemma_make_unmake_roundtrip(m0, crate::moves::from_of(mv),
                crate::moves::to_of(mv));
        }
        !in_check_now
    }

    /// Every legal move of the side to move: pseudo-legal moves filtered
    /// by playing each one and rejecting those that leave the mover's own
    /// king in check.  The board is restored exactly before returning.
    #[verifier::rlimit(100)]
    pub fn generate_legal_moves(&mut self) -> (r: crate::moves::MoveList)
        requires
            old(self).wf(),
        ensures
            final(self)@ == old(self)@,
            final(self).wf(),
            forall|i: int|
                0 <= i < r@.len() ==> crate::rules::legal_move_ok(
                    old(self)@.squares,
                    old(self)@.to_move,
                    crate::moves::from_of(#[trigger] r@[i]),
                    crate::moves::to_of(r@[i]),
                ) && (crate::moves::cap_of(r@[i]) == occ_at(
                    old(self)@.squares,
                    crate::moves::to_of(r@[i]),
                )),
            forall|f: int, t: int|
                #[trigger] crate::rules::legal_move_ok(old(self)@.squares, old(self)@.to_move, f, t)
                    ==> contains_move(r@, 0, f, t),
            distinct_moves(r@, 0),
    {
        let ghost m0 = old(self)@;
        let ghost sqs = m0.squares;
        let ghost side = m0.to_move;
        let mut pseudo = crate::moves::MoveList::new();
        self.generate_capture_moves(&mut pseudo);
        let ghost p1 = pseudo@;
        self.generate_quiet_moves(&mut pseudo);
        proof {
            assert forall|i: int|
                0 <= i < pseudo@.len() implies crate::rules::pseudo_move_ok(
                sqs,
                side,
                crate::moves::from_of(#[trigger] pseudo@[i]),
                crate::moves::to_of(pseudo@[i]),
            ) && (crate::moves::cap_of(pseudo@[i]) == occ_at(
                sqs,
                crate::moves::to_of(pseudo@[i]),
            )) by {
                if i < p1.len() {
                    assert(pseudo@.subrange(0, p1.len() as int)[i] == pseudo@[i]);
                    assert(pseudo@[i] == p1[i]);
                }
            }
            // The two passes are individually duplicate-free, and a pair
            // cannot be both a capture and a quiet move.
            assert forall|i: int, j: int|
                0 <= i < j < pseudo@.len() implies !(crate::moves::from_of(#[trigger] pseudo@[i])
                == crate::moves::from_of(#[trigger] pseudo@[j]) && crate::moves::to_of(pseudo@[i])
                == crate::moves::to_of(pseudo@[j])) by {
                if j < p1.len() {
                    assert(pseudo@.subrange(0, p1.len() as int)[i] == pseudo@[i]);
                    assert(pseudo@.subrange(0, p1.len() as int)[j] == pseudo@[j]);
                    assert(pseudo@[i] == p1[i] && pseudo@[j] == p1[j]);
                } else if i < p1.len() {
                    assert(pseudo@.subrange(0, p1.len() as int)[i] == pseudo@[i]);
                    assert(pseudo@[i] == p1[i]);
                    assert(crate::rules::capture_move_ok(
                        sqs,
                        side,
                        crate::moves::from_of(pseudo@[i]),
                        crate::moves::to_of(pseudo@[i]),
                    ));
                    assert(crate::rules::quiet_move_ok(
                        sqs,
                        side,
                        crate::moves::from_of(pseudo@[j]),
                        crate::moves::to_of(pseudo@[j]),
                    ));
                }
            }
            assert(distinct_moves(pseudo@, 0));
        }
        let mut legal = crate::moves::MoveList::new();
        let n = pseudo.len();
        let mut i: usize = 0;
        while i < n
            invariant
                i <= n,
                n == pseudo@.len(),
                self@ == m0,
                self.wf(),
                m0.squares == sqs,
                m0.to_move == side,
                forall|j: int|
                    0 <= j < pseudo@.len() ==> crate::rules::pseudo_move_ok(
                        sqs,
                        side,
                        crate::moves::from_of(#[trigger] pseudo@[j]),
                        crate::moves::to_of(pseudo@[j]),
                    ) && (crate::moves::cap_of(pseudo@[j]) == occ_at(
                        sqs,
                        crate::moves::to_of(pseudo@[j]),
                    )),
                forall|k: int|
                    0 <= k < legal@.len() ==> crate::rules::legal_move_ok(
                        sqs,
                        side,
                        crate::moves::from_of(#[trigger] legal@[k]),
                        crate::moves::to_of(legal@[k]),
                    ) && (crate::moves::cap_of(legal@[k]) == occ_at(
                        sqs,
                        crate::moves::to_of(legal@[k]),
                    )),
                forall|j: int|
                    0 <= j < i && crate::rules::legal_move_ok(
                        sqs,
                        side,
                        crate::moves::from_of(#[trigger] pseudo@[j]),
                        crate::moves::to_of(pseudo@[j]),
                    ) ==> contains_move(
                        legal@,
                        0,
                        crate::moves::from_of(pseudo@[j]),
                        crate::moves::to_of(pseudo@[j]),
                    ),
                distinct_moves(pseudo@, 0),
                distinct_moves(legal@, 0),
                forall|a: int|
                    0 <= a < legal@.len() ==> exists|j: int|
                        0 <= j < i && crate::moves::from_of(#[trigger] pseudo@[j])
                            == crate::moves::from_of(#[trigger] legal@[a]) && crate::moves::to_of(
                            pseudo@[j],
                        ) == crate::moves::to_of(legal@[a]),
            decreases n - i,
        {
            let mv = pseudo.get(i);
            let ok = self.probe_legality(mv);
            if ok {
                let ghost l0 = legal@;
                legal.add(mv);
                proof {
                    // The new entry's pair is fresh: every earlier entry
                    // came from an earlier, distinct pseudo move.
                    assert forall|a: int| 0 <= a < l0.len() implies !(crate::moves::from_of(
                        #[trigger] l0[a],
                    ) == crate::moves::from_of(mv) && crate::moves::to_of(l0[a])
                        == crate::moves::to_of(mv)) by {
                        let j = choose|j: int|
                            0 <= j < i && crate::moves::from_of(#[trigger] pseudo@[j])
                                == crate::moves::from_of(l0[a]) && crate::moves::to_of(pseudo@[j])
                                == crate::moves::to_of(l0[a]);
                        assert(!(crate::moves::from_of(pseudo@[j]) == crate::moves::from_of(
                            pseudo@[i as int],
                        ) && crate::moves::to_of(pseudo@[j]) == crate::moves::to_of(
                            pseudo@[i as int],
                        )));
                    }
                    assert forall|a: int| 0 <= a < legal@.len() implies exists|j: int|
                        0 <= j < i + 1 && crate::moves::from_of(#[trigger] pseudo@[j])
                            == crate::moves::from_of(#[trigger] legal@[a]) && crate::moves::to_of(
                            pseudo@[j],
                        ) == crate::moves::to_of(legal@[a]) by {
                        if a < l0.len() {
                            assert(legal@[a] == l0[a]);
                            let j = choose|j: int|
                                0 <= j < i && crate::moves::from_of(#[trigger] pseudo@[j])
                                    == crate::moves::from_of(l0[a]) && crate::moves::to_of(
                                    pseudo@[j],
                                ) == crate::moves::to_of(l0[a]);
                            assert(0 <= j < i + 1 && crate::moves::from_of(pseudo@[j])
                                == crate::moves::from_of(legal@[a]) && crate::moves::to_of(
                                pseudo@[j],
                            ) == crate::moves::to_of(legal@[a]));
                        } else {
                            assert(legal@[a] == mv);
                            assert(crate::moves::from_of(pseudo@[i as int])
                                == crate::moves::from_of(legal@[a]) && crate::moves::to_of(
                                pseudo@[i as int],
                            ) == crate::moves::to_of(legal@[a]));
                        }
                    }
                    assert(crate::rules::legal_move_ok(
                        sqs,
                        side,
                        crate::moves::from_of(mv),
                        crate::moves::to_of(mv),
                    ));
                    assert forall|j: int|
                        0 <= j < i + 1 && crate::rules::legal_move_ok(
                            sqs,
                            side,
                            crate::moves::from_of(#[trigger] pseudo@[j]),
                            crate::moves::to_of(pseudo@[j]),
                        ) implies contains_move(
                        legal@,
                        0,
                        crate::moves::from_of(pseudo@[j]),
                        crate::moves::to_of(pseudo@[j]),
                    ) by {
                        if j < i {
                            let k = choose|k: int|
                                0 <= k < l0.len() && crate::moves::from_of(#[trigger] l0[k])
                                    == crate::moves::from_of(pseudo@[j]) && crate::moves::to_of(
                                    l0[k],
                                ) == crate::moves::to_of(pseudo@[j]);
                            assert(legal@[k] == l0[k]);
                        } else {
                            assert(legal@[legal@.len() - 1] == mv);
                        }
                    }
                }
            } else {
                proof {
                    assert(!crate::rules::legal_move_ok(
                        sqs,
                        side,
                        crate::moves::from_of(mv),
                        crate::moves::to_of(mv),
                    ));
                    assert forall|j: int|
                        0 <= j < i + 1 && crate::rules::legal_move_ok(
                            sqs,
                            side,
                            crate::moves::from_of(#[trigger] pseudo@[j]),
                            crate::moves::to_of(pseudo@[j]),
                        ) implies contains_move(
                        legal@,
                        0,
                        crate::moves::from_of(pseudo@[j]),
                        crate::moves::to_of(pseudo@[j]),
                    ) by {}
                }
            }
            i = i + 1;
        }
        proof {
            assert forall|f: int, t: int|
                #[trigger] crate::rules::legal_move_ok(sqs, side, f, t) implies contains_move(
                legal@,
                0,
                f,
                t,
            ) by {
                if occ_at(sqs, t) {
                    assert(crate::rules::capture_move_ok(sqs, side, f, t));
                } else {
                    assert(crate::rules::quiet_move_ok(sqs, side, f, t));
                }
                let j = choose|j: int|
                    0 <= j < pseudo@.len() && crate::moves::from_of(#[trigger] pseudo@[j]) == f
                        && crate::moves::to_of(pseudo@[j]) == t;
                assert(crate::rules::legal_move_ok(
                    sqs,
                    side,
                    crate::moves::from_of(pseudo@[j]),
                    crate::moves::to_of(pseudo@[j]),
                ));
            }
        }
        legal
    }
}

// ---------------------------------------------------------------------------
// Precomputed attack tables.
// ---------------------------------------------------------------------------

/// Builds the mask of all `t` with `king_step(s, t)`.
fn king_mask(s: usize) -> (r: Bitboard)
    requires
        s < 90,
    ensures
        forall|t: int| #[trigger] bb_has(r, t) <==> king_step(s as int, t),
{
    let mut mask: Bitboard = 0;
    let mut t: usize = 0;
    proof {
        assert forall|u: int| !bb_has(0u128, u) by {
            lemma_bb_zero(u);
        }
    }
    while t < 90
        invariant
            t <= 90,
            s < 90,
            forall|u: int| #[trigger] bb_has(mask, u) <==> (0 <= u < t && king_step(s as int, u)),
        decreases 90 - t,
    {
        if king_step_exec(s, t) {
            let ghost old_mask = mask;
            mask = mask | (1u128 << (t as u128));
            proof {
                assert forall|u: int| #[trigger] bb_has(mask, u) <==> (0 <= u < t + 1 && king_step(
                    s as int,
                    u,
                )) by {
                    lemma_bb_set_bit(old_mask, t as int, u);
                }
            }
        }
        t = t + 1;
    }
    proof {
        assert forall|u: int| #[trigger] bb_has(mask, u) <==> king_step(s as int, u) by {
            if !(0 <= u < 90) {
                assert(!on_board(u));
            }
        }
    }
    mask
}

/// Builds the mask of all `t` with `guard_step(s, t)`.
fn guard_mask(s: usize) -> (r: Bitboard)
    requires
        s < 90,
    ensures
        forall|t: int| #[trigger] bb_has(r, t) <==> guard_step(s as int, t),
{
    let mut mask: Bitboard = 0;
    let mut t: usize = 0;
    proof {
        assert forall|u: int| !bb_has(0u128, u) by {
            lemma_bb_zero(u);
        }
    }
    while t < 90
        invariant
            t <= 90,
            s < 90,
            forall|u: int| #[trigger] bb_has(mask, u) <==> (0 <= u < t && guard_step(s as int, u)),
        decreases 90 - t,
    {
        if guard_step_exec(s, t) {
            let ghost old_mask = mask;
            mask = mask | (1u128 << (t as u128));
            proof {
                assert forall|u: int| #[trigger] bb_has(mask, u) <==> (0 <= u < t + 1 && guard_step(
                    s as int,
                    u,
                )) by {
                    lemma_bb_set_bit(old_mask, t as int, u);
                }
            }
        }
        t = t + 1;
    }
    proof {
        assert forall|u: int| #[trigger] bb_has(mask, u) <==> guard_step(s as int, u) by {
            if !(0 <= u < 90) {
                assert(!on_board(u));
            }
        }
    }
    mask
}

/// Builds the mask of all `t` with `bishop_step(s, t)`, before the eye
/// and river restrictions.
fn bishop_mask(s: usize) -> (r: Bitboard)
    requires
        s < 90,
    ensures
        forall|t: int| #[trigger] bb_has(r, t) <==> bishop_step(s as int, t),
{
    let mut mask: Bitboard = 0;
    let mut t: usize = 0;
    proof {
        assert forall|u: int| !bb_has(0u128, u) by {
            lemma_bb_zero(u);
        }
    }
    while t < 90
        invariant
            t <= 90,
            s < 90,
            forall|u: int| #[trigger] bb_has(mask, u) <==> (0 <= u < t && bishop_step(s as int, u)),
        decreases 90 - t,
    {
        if bishop_step_exec(s, t) {
            let ghost old_mask = mask;
            mask = mask | (1u128 << (t as u128));
            proof {
                assert forall|u: int| #[trigger] bb_has(mask, u) <==> (0 <= u < t + 1
                    && bishop_step(s as int, u)) by {
                    lemma_bb_set_bit(old_mask, t as int, u);
                }
            }
        }
        t = t + 1;
    }
    proof {
        assert forall|u: int| #[trigger] bb_has(mask, u) <==> bishop_step(s as int, u) by {
            if !(0 <= u < 90) {
                assert(!on_board(u));
            }
        }
    }
    mask
}

/// Builds the mask of all `t` with `horse_step(s, t)`, before the leg
/// restriction.
fn horse_mask(s: usize) -> (r: Bitboard)
    requires
        s < 90,
    ensures
        forall|t: int| #[trigger] bb_has(r, t) <==> horse_step(s as int, t),
{
    let mut mask: Bitboard = 0;
    let mut t: usize = 0;
    proof {
        assert forall|u: int| !bb_has(0u128, u) by {
            lemma_bb_zero(u);
        }
    }
    while t < 90
        invariant
            t <= 90,
            s < 90,
            forall|u: int| #[trigger] bb_has(mask, u) <==> (0 <= u < t && horse_step(s as int, u)),
        decreases 90 - t,
    {
        if horse_step_exec(s, t) {
            let ghost old_mask = mask;
            mask = mask | (1u128 << (t as u128));
            proof {
                assert forall|u: int| #[trigger] bb_has(mask, u) <==> (0 <= u < t + 1 && horse_step(
                    s as int,
                    u,
                )) by {
                    lemma_bb_set_bit(old_mask, t as int, u);
                }
            }
        }
        t = t + 1;
    }
    proof {
        assert forall|u: int| #[trigger] bb_has(mask, u) <==> horse_step(s as int, u) by {
            if !(0 <= u < 90) {
                assert(!on_board(u));
            }
        }
    }
    mask
}

/// Builds the mask of all `t` with `pawn_step(side, s, t)`.
fn pawn_mask(side: Player, s: usize) -> (r: Bitboard)
    requires
        s < 90,
    ensures
        forall|t: int| #[trigger] bb_has(r, t) <==> pawn_step(side, s as int, t),
{
    let mut mask: Bitboard = 0;
    let mut t: usize = 0;
    proof {
        assert forall|u: int| !bb_has(0u128, u) by {
            lemma_bb_zero(u);
        }
    }
    while t < 90
        invariant
            t <= 90,
            s < 90,
            forall|u: int| #[trigger] bb_has(mask, u) <==> (0 <= u < t && pawn_step(
                side,
                s as int,
                u,
            )),
        decreases 90 - t,
    {
        if pawn_step_exec(side, s, t) {
            let ghost old_mask = mask;
            mask = mask | (1u128 << (t as u128));
            proof {
                assert forall|u: int| #[trigger] bb_has(mask, u) <==> (0 <= u < t + 1 && pawn_step(
                    side,
                    s as int,
                    u,
                )) by {
                    lemma_bb_set_bit(old_mask, t as int, u);
                }
            }
        }
        t = t + 1;
    }
    proof {
        assert forall|u: int| #[trigger] bb_has(mask, u) <==> pawn_step(side, s as int, u) by {
            if !(0 <= u < 90) {
                assert(!on_board(u));
            }
        }
    }
    mask
}

/// Precomputed pseudo-attack sets: one occupancy-independent target mask
/// per square for the short-range pieces, the pawn masks per side, and
/// the two river-half masks.
pub struct AttackTables {
    pub king: Vec<Bitboard>,
    pub guard: Vec<Bitboard>,
    pub bishop: Vec<Bitboard>,
    pub horse: Vec<Bitboard>,
    pub pawn: Vec<Vec<Bitboard>>,
    pub red_half_mask: Bitboard,
    pub black_half_mask: Bitboard,
}

impl AttackTables {
    /// Every table entry agrees with the movement rules.
    pub open spec fn wf(&self) -> bool {
        &&& self.king@.len() == 90
        &&& self.guard@.len() == 90
        &&& self.bishop@.len() == 90
        &&& self.horse@.len() == 90
        &&& self.pawn@.len() == 2
        &&& self.pawn@[0]@.len() == 90
        &&& self.pawn@[1]@.len() == 90
        &&& forall|s: int, t: int|
            0 <= s < 90 ==> (#[trigger] bb_has(self.king@[s], t) <==> king_step(s, t))
        &&& forall|s: int, t: int|
            0 <= s < 90 ==> (#[trigger] bb_has(self.guard@[s], t) <==> guard_step(s, t))
        &&& forall|s: int, t: int|
            0 <= s < 90 ==> (#[trigger] bb_has(self.bishop@[s], t) <==> bishop_step(s, t))
        &&& forall|s: int, t: int|
            0 <= s < 90 ==> (#[trigger] bb_has(self.horse@[s], t) <==> horse_step(s, t))
        &&& forall|s: int, t: int|
            0 <= s < 90 ==> (#[trigger] bb_has(self.pawn@[0]@[s], t) <==> pawn_step(
                Player::Red,
                s,
                t,
            ))
        &&& forall|s: int, t: int|
            0 <= s < 90 ==> (#[trigger] bb_has(self.pawn@[1]@[s], t) <==> pawn_step(
                Player::Black,
                s,
                t,
            ))
        &&& forall|t: int| #[trigger] bb_has(self.red_half_mask, t) <==> (on_board(t)
            && on_own_half(Player::Red, t))
        &&& forall|t: int| #[trigger] bb_has(self.black_half_mask, t) <==> (on_board(t)
            && on_own_half(Player::Black, t))
    }

    /// Precomputes every table.
    pub fn new() -> (r: AttackTables)
        ensures
            r.wf(),
    {
        let mut king: Vec<Bitboard> = Vec::new();
        let mut guard: Vec<Bitboard> = Vec::new();
        let mut bishop: Vec<Bitboard> = Vec::new();
        let mut horse: Vec<Bitboard> = Vec::new();
        let mut red_pawn: Vec<Bitboard> = Vec::new();
        let mut black_pawn: Vec<Bitboard> = Vec::new();
        let mut s: usize = 0;
        while s < 90
            invariant
                s <= 90,
                king@.len() == s,
                guard@.len() == s,
                bishop@.len() == s,
                horse@.len() == s,
                red_pawn@.len() == s,
                black_pawn@.len() == s,
                forall|i: int, t: int|
                    0 <= i < s ==> (#[trigger] bb_has(king@[i], t) <==> king_step(i, t)),
                forall|i: int, t: int|
                    0 <= i < s ==> (#[trigger] bb_has(guard@[i], t) <==> guard_step(i, t)),
                forall|i: int, t: int|
                    0 <= i < s ==> (#[trigger] bb_has(bishop@[i], t) <==> bishop_step(i, t)),
                forall|i: int, t: int|
                    0 <= i < s ==> (#[trigger] bb_has(horse@[i], t) <==> horse_step(i, t)),
                forall|i: int, t: int|
                    0 <= i < s ==> (#[trigger] bb_has(red_pawn@[i], t) <==> pawn_step(
                        Player::Red,
                        i,
                        t,
                    )),
                forall|i: int, t: int|
                    0 <= i < s ==> (#[trigger] bb_has(black_pawn@[i], t) <==> pawn_step(
                        Player::Black,
                        i,
                        t,
                    )),
            decreases 90 - s,
        {
            king.push(king_mask(s));
            guard.push(guard_mask(s));
            bishop.push(bishop_mask(s));
            horse.push(horse_mask(s));
            red_pawn.push(pawn_mask(Player::Red, s));
            black_pawn.push(pawn_mask(Player::Black, s));
            s = s + 1;
        }
        let red_half_mask = half_mask(Player::Red);
        let black_half_mask = half_mask(Player::Black);
        let mut pawn: Vec<Vec<Bitboard>> = Vec::new();
        pawn.push(red_pawn);
        pawn.push(black_pawn);
        AttackTables { king, guard, bishop, horse, pawn, red_half_mask, black_half_mask }
    }
}

/// Builds the mask of one side's half of the board.
fn half_mask(side: Player) -> (r: Bitboard)
    ensures
        forall|t: int| #[trigger] bb_has(r, t) <==> (on_board(t) && on_own_half(side, t)),
{
    let mut mask: Bitboard = 0;
    let mut t: usize = 0;
    proof {
        assert forall|u: int| !bb_has(0u128, u) by {
            lemma_bb_zero(u);
        }
    }
    while t < 90
        invariant
            t <= 90,
            forall|u: int| #[trigger] bb_has(mask, u) <==> (0 <= u < t && on_own_half(side, u)),
        decreases 90 - t,
    {
        let on_half = match side {
            Player::Red => t / 9 >= 5,
            Player::Black => t / 9 <= 4,
        };
        if on_half {
            let ghost old_mask = mask;
            mask = mask | (1u128 << (t as u128));
            proof {
                assert forall|u: int| #[trigger] bb_has(mask, u) <==> (0 <= u < t + 1
                    && on_own_half(side, u)) by {
                    lemma_bb_set_bit(old_mask, t as int, u);
                }
            }
        }
        t = t + 1;
    }
    mask
}

impl crate::board::Board {
    /// Appends the pseudo-legal moves of the requested class.
    pub fn generate_moves(
        &self,
        moves: &mut crate::moves::MoveList,
        move_gen_type: crate::board::MoveGenType,
    )
        requires
            self@.wf_bits(),
        ensures
            final(moves)@.len() >= old(moves)@.len(),
            final(moves)@.subrange(0, old(moves)@.len() as int) == old(moves)@,
            forall|i: int|
                old(moves)@.len() <= i < final(moves)@.len() ==> pseudo_move_ok(
                    self@.squares,
                    self@.to_move,
                    crate::moves::from_of(#[trigger] final(moves)@[i]),
                    crate::moves::to_of(final(moves)@[i]),
                ),
            (match move_gen_type {
                crate::board::MoveGenType::All => forall|f: int, t: int|
                    #[trigger] pseudo_move_ok(self@.squares, self@.to_move, f, t)
                        ==> contains_move(final(moves)@, old(moves)@.len() as int, f, t),
                crate::board::MoveGenType::Captures => forall|f: int, t: int|
                    #[trigger] capture_move_ok(self@.squares, self@.to_move, f, t)
                        ==> contains_move(final(moves)@, old(moves)@.len() as int, f, t),
                crate::board::MoveGenType::Quiets => forall|f: int, t: int|
                    #[trigger] quiet_move_ok(self@.squares, self@.to_move, f, t)
                        ==> contains_move(final(moves)@, old(moves)@.len() as int, f, t),
            }),
            distinct_moves(final(moves)@, old(moves)@.len() as int),
    {
        let ghost n0 = moves@.len();
        match move_gen_type {
            crate::board::MoveGenType::All => {
                self.generate_capture_moves(moves);
                let ghost n1 = moves@.len();
                self.generate_quiet_moves(moves);
                proof {
                    assert(moves@.subrange(0, n0 as int) =~= old(moves)@);
                    assert forall|i: int|
                        n0 <= i < moves@.len() implies pseudo_move_ok(
                        self@.squares,
                        self@.to_move,
                        crate::moves::from_of(#[trigger] moves@[i]),
                        crate::moves::to_of(moves@[i]),
                    ) by {
                        if i < n1 {
                            assert(moves@.subrange(0, n1 as int)[i] == moves@[i]);
                        }
                    }
                    assert forall|f: int, t: int|
                        #[trigger] pseudo_move_ok(self@.squares, self@.to_move, f, t)
                            implies contains_move(moves@, n0 as int, f, t) by {
                        if occ_at(self@.squares, t) {
                            assert(capture_move_ok(self@.squares, self@.to_move, f, t));
                            let j = choose|j: int|
                                n0 <= j < n1 && crate::moves::from_of(
                                    #[trigger] moves@.subrange(0, n1 as int)[j],
                                ) == f && crate::moves::to_of(
                                    moves@.subrange(0, n1 as int)[j],
                                ) == t;
                            assert(moves@.subrange(0, n1 as int)[j] == moves@[j]);
                        } else {
                            assert(quiet_move_ok(self@.squares, self@.to_move, f, t));
                        }
                    }
                    assert forall|i: int, j: int|
                        n0 <= i < j < moves@.len() implies !(crate::moves::from_of(
                        #[trigger] moves@[i],
                    ) == crate::moves::from_of(#[trigger] moves@[j]) && crate::moves::to_of(
                        moves@[i],
                    ) == crate::moves::to_of(moves@[j])) by {
                        if j < n1 {
                            assert(moves@.subrange(0, n1 as int)[i] == moves@[i]);
                            assert(moves@.subrange(0, n1 as int)[j] == moves@[j]);
                        } else if i < n1 {
                            assert(moves@.subrange(0, n1 as int)[i] == moves@[i]);
                            assert(capture_move_ok(
                                self@.squares,
                                self@.to_move,
                                crate::moves::from_of(moves@[i]),
                                crate::moves::to_of(moves@[i]),
                            ));
                            assert(quiet_move_ok(
                                self@.squares,
                                self@.to_move,
                                crate::moves::from_of(moves@[j]),
                                crate::moves::to_of(moves@[j]),
                            ));
                        }
                    }
                }
            },
            crate::board::MoveGenType::Captures => {
                self.generate_capture_moves(moves);
            },
            crate::board::MoveGenType::Quiets => {
                self.generate_quiet_moves(moves);
            },
        }
    }
}

/// How a finished position ended, if it is finished.
#[derive(Debug, Clone, Copy, PartialEq, Eq, Structural)]
pub enum GameOutcome {
    Ongoing,
    CheckmateBy(Player),
    Stalemate,
}

impl crate::board::Board {
    /// Whether the game is over for the side to move: checkmate when no
    /// legal move remains and the king stands in check, stalemate when
    /// no legal move remains otherwise.  The board comes back exactly as
    /// it was.
    pub fn check_game_over_state(&mut self) -> (r: GameOutcome)
        requires
            old(self).wf(),
        ensures
            final(self)@ == old(self)@,
            final(self).wf(),
            (r == GameOutcome::Ongoing) <==> exists|f: int, t: int|
                crate::rules::legal_move_ok(old(self)@.squares, old(self)@.to_move, f, t),
            r != GameOutcome::Ongoing ==> r == (if in_check(old(self)@.squares, old(self)@.to_move) {
                GameOutcome::CheckmateBy(opponent_of(old(self)@.to_move))
            } else {
                GameOutcome::Stalemate
            }),
    {
        let ghost m0 = self@;
        let legal = self.generate_legal_moves();
        if legal.len() > 0 {
            proof {
                let mv = legal@[0];
                assert(crate::rules::legal_move_ok(
                    m0.squares,
                    m0.to_move,
                    crate::moves::from_of(mv),
                    crate::moves::to_of(mv),
                ));
            }
            return GameOutcome::Ongoing;
        }
        proof {
            assert forall|f: int, t: int|
                !#[trigger] crate::rules::legal_move_ok(m0.squares, m0.to_move, f, t) by {
                if crate::rules::legal_move_ok(m0.squares, m0.to_move, f, t) {
                    assert(contains_move(legal@, 0, f, t));
                }
            }
        }
        if is_king_in_check(self, self.player_to_move) {
            GameOutcome::CheckmateBy(self.player_to_move.opponent())
        } else {
            GameOutcome::Stalemate
        }
    }
}

} // verus!
