//! Position evaluation: piece-square access, from-scratch accumulator
//! recomputation, and the tapered evaluator with its dynamic terms.

use vstd::prelude::*;
use crate::board::Board;
use crate::config::{Config, config_wf};
use crate::constants::{Piece, Player, abs_of, is_red, side_of, piece_of};
use crate::psts::{pst_mg, pst_eg, pst_mg_entry, pst_eg_entry, pst_mg_piece, pst_eg_piece,
    material_piece, material_value, pst_mg_at, pst_eg_at, material_at, lemma_pst_bounds};
use crate::model::{material_of, mg_of, eg_of};
use crate::rules::{sum_of, count_if, occ_at, on_board, on_line, clear_between, occ_between,
    horse_step, horse_leg, rank_of, file_of, attacked, lemma_sum_update, lemma_sum_bound,
    lemma_count_nonneg, lemma_sq_decompose, lemma_sq_coords};

verus! {

/// The midgame piece-square entry of a piece type at pst coordinates.
pub fn get_pst_mg(p: Piece, pr: usize, pc: usize) -> (r: i32)
    requires
        pr <= 9,
        pc <= 8,
    ensures
        r == pst_mg(abs_of(p), pr as int, pc as int),
{
    pst_mg_entry(p.abs_val(), pr, pc)
}

/// The endgame piece-square entry of a piece type at pst coordinates.
pub fn get_pst_eg(p: Piece, pr: usize, pc: usize) -> (r: i32)
    requires
        pr <= 9,
        pc <= 8,
    ensures
        r == pst_eg(abs_of(p), pr as int, pc as int),
{
    pst_eg_entry(p.abs_val(), pr, pc)
}

/// The signed midgame and endgame contributions of a piece standing on
/// square `sq`, positive for Red and negative for Black.
pub fn get_pst_scores(piece: Piece, sq: usize) -> (r: (i32, i32))
    requires
        piece != Piece::Empty,
        sq < 90,
    ensures
        r.0 == pst_mg_piece(piece, sq as int),
        r.1 == pst_eg_piece(piece, sq as int),
        -220 <= r.0 <= 220,
        -220 <= r.1 <= 220,
{
    let rk = sq / 9;
    let c = sq % 9;
    proof {
        lemma_pst_bounds(abs_of(piece), 9 - rk, 8 - c);
        lemma_pst_bounds(abs_of(piece), rk as int, c as int);
    }
    if piece.player().unwrap() == crate::constants::Player::Red {
        (get_pst_mg(piece, 9 - rk, 8 - c), get_pst_eg(piece, 9 - rk, 8 - c))
    } else {
        (-get_pst_mg(piece, rk, c), -get_pst_eg(piece, rk, c))
    }
}

/// Recomputes the three evaluation accumulators from scratch over the
/// square array: material balance, midgame piece-square sum, endgame
/// piece-square sum, each from Red's point of view.
pub fn calculate_full_scores(board: &Board) -> (r: (i32, i32, i32))
    requires
        board@.squares.len() == 90,
    ensures
        r.0 == material_of(board@.squares),
        r.1 == mg_of(board@.squares),
        r.2 == eg_of(board@.squares),
{
    let ghost sqs = board@.squares;
    let ghost fm = |s: int| material_at(sqs, s);
    let ghost g = |s: int| pst_mg_at(sqs, s);
    let ghost e = |s: int| pst_eg_at(sqs, s);
    let mut material: i32 = 0;
    let mut mg: i32 = 0;
    let mut eg: i32 = 0;
    let mut s: usize = 0;
    while s < 90
        invariant
            s <= 90,
            board@.squares == sqs,
            board@.squares.len() == 90,
            fm == (|s: int| material_at(sqs, s)),
            g == (|s: int| pst_mg_at(sqs, s)),
            e == (|s: int| pst_eg_at(sqs, s)),
            material == sum_of(fm, s as int),
            mg == sum_of(g, s as int),
            eg == sum_of(e, s as int),
            -10_000 * s <= material <= 10_000 * s,
            -220 * s <= mg <= 220 * s,
            -220 * s <= eg <= 220 * s,
        decreases 90 - s,
    {
        let p = board.board[s];
        if p != Piece::Empty {
            let val = crate::psts::material_value_exec(p.abs_val());
            proof {
                assert(fm(s as int) == material_piece(p));
            }
            if is_red_exec(p) {
                material = material + val;
            } else {
                material = material - val;
            }
            let (pm, pe) = get_pst_scores(p, s);
            mg = mg + pm;
            eg = eg + pe;
        }
        proof {
            assert((s + 1) * 10_000 == s * 10_000 + 10_000) by (nonlinear_arith);
            assert((s + 1) * 220 == s * 220 + 220) by (nonlinear_arith);
            assert((s + 1) * (-10_000) == s * (-10_000) - 10_000) by (nonlinear_arith);
            assert((s + 1) * (-220) == s * (-220) - 220) by (nonlinear_arith);
        }
        s = s + 1;
    }
    (material, mg, eg)
}

/// Whether a piece belongs to Red.
pub fn is_red_exec(p: Piece) -> (r: bool)
    ensures
        r == is_red(p),
{
    match p {
        Piece::RKing | Piece::RGuard | Piece::RBishop | Piece::RHorse | Piece::RRook
        | Piece::RCannon | Piece::RPawn => true,
        _ => false,
    }
}

// ---------------------------------------------------------------------------
// The tapered evaluator.
// ---------------------------------------------------------------------------

pub open spec fn b2i(b: bool) -> int {
    if b {
        1int
    } else {
        0int
    }
}

/// The phase contribution of a square: the material value of a guard,
/// bishop, horse, rook or cannon standing there.
pub open spec fn phase_at(sqs: Seq<Piece>, s: int) -> int {
    if occ_at(sqs, s) && 2 <= abs_of(sqs[s]) <= 6 {
        material_value(abs_of(sqs[s]))
    } else {
        0
    }
}

/// The total phase material on the board.
pub open spec fn phase_material(sqs: Seq<Piece>) -> int {
    sum_of(|s: int| phase_at(sqs, s), 90)
}

/// The phase material of the starting position, summed over both
/// sides' guards, bishops, horses, rooks and cannons.
pub open spec fn opening_phase_material() -> int {
    9000
}

/// The tapered blend of the midgame and endgame piece-square sums, as a
/// floor division after shifting both sums nonnegative.
pub open spec fn pst_tapered(mg: int, eg: int, pm: int) -> int {
    ((mg + 20000) * pm + (eg + 20000) * (9000 - pm)) / 9000 - 20000
}

/// A rook on `s` can stop on `t`: along its line over empties, not onto
/// a friend.
pub open spec fn rook_mob_target(sqs: Seq<Piece>, s: int, t: int) -> bool {
    on_board(t) && on_line(s, t) && clear_between(sqs, s, t) && !(occ_at(sqs, t) && side_of(
        sqs[t],
    ) == side_of(sqs[s]))
}

/// A horse on `s` can stop on `t`.
pub open spec fn horse_mob_target(sqs: Seq<Piece>, s: int, t: int) -> bool {
    horse_step(s, t) && !occ_at(sqs, horse_leg(s, t)) && !(occ_at(sqs, t) && side_of(sqs[t])
        == side_of(sqs[s]))
}

/// A cannon on `s` can stop on `t`: quietly on an empty square, or over
/// one screen onto an enemy.
pub open spec fn cannon_mob_target(sqs: Seq<Piece>, s: int, t: int) -> bool {
    on_board(t) && on_line(s, t) && (if occ_at(sqs, t) {
        occ_between(sqs, s, t) == 1 && side_of(sqs[t]) != side_of(sqs[s])
    } else {
        clear_between(sqs, s, t)
    })
}

/// The signed mobility contribution of the piece on square `s`.
pub open spec fn mob_at(sqs: Seq<Piece>, s: int, c: Config) -> int {
    if occ_at(sqs, s) {
        let p = sqs[s];
        let sign: int = if is_red(p) {
            1
        } else {
            -1
        };
        if abs_of(p) == 5 {
            sign * c.mobility_bonus_rook * count_if(|t: int| rook_mob_target(sqs, s, t), 90)
        } else if abs_of(p) == 4 {
            sign * c.mobility_bonus_horse * count_if(|t: int| horse_mob_target(sqs, s, t), 90)
        } else if abs_of(p) == 6 {
            sign * c.mobility_bonus_cannon * count_if(|t: int| cannon_mob_target(sqs, s, t), 90)
        } else {
            0
        }
    } else {
        0
    }
}

/// The total signed mobility score.
pub open spec fn mobility_of(sqs: Seq<Piece>, c: Config) -> int {
    sum_of(|s: int| mob_at(sqs, s, c), 90)
}

/// Some square of the given rank holds the given piece.
pub open spec fn has_piece_in_rank(sqs: Seq<Piece>, p: Piece, r: int) -> bool {
    exists|s: int| 0 <= s < 90 && #[trigger] rank_of(s) == r && sqs[s] == p
}

/// Pattern bonuses: a cannon on the opponent's back rank, a horse on the
/// opponent's palace heart.
pub open spec fn pattern_of(sqs: Seq<Piece>, c: Config) -> int {
    (if has_piece_in_rank(sqs, Piece::RCannon, 0) {
        c.bonus_bottom_cannon as int
    } else {
        0
    }) - (if has_piece_in_rank(sqs, Piece::BCannon, 9) {
        c.bonus_bottom_cannon as int
    } else {
        0
    }) + (if sqs[4] == Piece::RHorse {
        c.bonus_palace_heart_horse as int
    } else {
        0
    }) - (if sqs[85] == Piece::BHorse {
        c.bonus_palace_heart_horse as int
    } else {
        0
    })
}

/// The number of guards the given side still has.
pub open spec fn guard_count(sqs: Seq<Piece>, side: Player) -> int {
    count_if(|s: int| 0 <= s < 90 && sqs[s] == piece_of(side, 2), 90)
}

/// A penalty for each missing guard on each side.
pub open spec fn king_safety_of(sqs: Seq<Piece>, c: Config) -> int {
    (if guard_count(sqs, Player::Red) < 2 {
        -(2 - guard_count(sqs, Player::Red)) * c.king_safety_penalty_per_guard
    } else {
        0
    }) + (if guard_count(sqs, Player::Black) < 2 {
        (2 - guard_count(sqs, Player::Black)) * c.king_safety_penalty_per_guard
    } else {
        0
    })
}

/// How many squares of Black's palace are attacked by Red.
pub open spec fn black_palace_attacks(sqs: Seq<Piece>) -> int {
    b2i(attacked(sqs, 3, Player::Red)) + b2i(attacked(sqs, 4, Player::Red)) + b2i(
        attacked(sqs, 5, Player::Red),
    ) + b2i(attacked(sqs, 12, Player::Red)) + b2i(attacked(sqs, 13, Player::Red)) + b2i(
        attacked(sqs, 14, Player::Red),
    ) + b2i(attacked(sqs, 21, Player::Red)) + b2i(attacked(sqs, 22, Player::Red)) + b2i(
        attacked(sqs, 23, Player::Red),
    )
}

/// How many squares of Red's palace are attacked by Black.
pub open spec fn red_palace_attacks(sqs: Seq<Piece>) -> int {
    b2i(attacked(sqs, 66, Player::Black)) + b2i(attacked(sqs, 67, Player::Black)) + b2i(
        attacked(sqs, 68, Player::Black),
    ) + b2i(attacked(sqs, 75, Player::Black)) + b2i(attacked(sqs, 76, Player::Black)) + b2i(
        attacked(sqs, 77, Player::Black),
    ) + b2i(attacked(sqs, 84, Player::Black)) + b2i(attacked(sqs, 85, Player::Black)) + b2i(
        attacked(sqs, 86, Player::Black),
    )
}

/// A bonus for attacking a palace whose guards are gone.
pub open spec fn dynamic_of(sqs: Seq<Piece>, c: Config) -> int {
    (if guard_count(sqs, Player::Black) < 2 {
        black_palace_attacks(sqs) * (2 - guard_count(sqs, Player::Black))
            * c.dynamic_bonus_attack_per_missing_defender
    } else {
        0
    }) - (if guard_count(sqs, Player::Red) < 2 {
        red_palace_attacks(sqs) * (2 - guard_count(sqs, Player::Red))
            * c.dynamic_bonus_attack_per_missing_defender
    } else {
        0
    })
}

/// The full static evaluation, from the side to move's point of view.
pub open spec fn eval_spec(sqs: Seq<Piece>, side: Player, c: Config) -> int {
    let pm = if phase_material(sqs) > 9000 {
        9000int
    } else {
        phase_material(sqs)
    };
    let total = material_of(sqs) + pst_tapered(mg_of(sqs), eg_of(sqs), pm) + mobility_of(sqs, c)
        + pattern_of(sqs, c) + king_safety_of(sqs, c) + dynamic_of(sqs, c);
    if side == Player::Red {
        total
    } else {
        -total
    }
}

/// Counts the rook-mobility targets of the piece on `s`.
fn count_rook_targets(bv: &Vec<Piece>, s: usize) -> (r: u32)
    requires
        bv@.len() == 90,
        s < 90,
        occ_at(bv@, s as int),
    ensures
        r == count_if(|t: int| rook_mob_target(bv@, s as int, t), 90),
        r <= 90,
{
    let ghost pr = |t: int| rook_mob_target(bv@, s as int, t);
    let mut cnt: u32 = 0;
    let mut t: usize = 0;
    proof {
        crate::rules::lemma_count_zero(|t: int| pr(t) && t < 0, 90);
    }
    while t < 90
        invariant
            t <= 90,
            s < 90,
            bv@.len() == 90,
            occ_at(bv@, s as int),
            pr == (|t: int| rook_mob_target(bv@, s as int, t)),
            cnt == count_if(|u: int| pr(u) && u < t, 90),
            cnt <= t,
        decreases 90 - t,
    {
        let ghost pk = |u: int| pr(u) && u < t;
        let ghost pk1 = |u: int| pr(u) && u < t + 1;
        let hit = rook_mob_target_exec(bv, s, t);
        if hit {
            cnt = cnt + 1;
        }
        proof {
            assert forall|u: int| 0 <= u < 90 && u != t implies (#[trigger] pk(u) <==> pk1(u)) by {}
            crate::rules::lemma_count_update(pk, pk1, 90, t as int);
            crate::rules::lemma_count_nonneg(pk, 90);
            if hit {
                assert(pk1(t as int));
                assert(!pk(t as int));
            } else {
                assert(!pk1(t as int));
                assert(!pk(t as int));
            }
        }
        t = t + 1;
    }
    proof {
        let pk = |u: int| pr(u) && u < 90;
        assert forall|u: int| 0 <= u < 90 implies (#[trigger] pk(u) <==> pr(u)) by {}
        crate::rules::lemma_count_congruent(pk, pr, 90);
    }
    cnt
}

/// Whether `t` is a rook-mobility target of the piece on `s`.
fn rook_mob_target_exec(bv: &Vec<Piece>, s: usize, t: usize) -> (r: bool)
    requires
        bv@.len() == 90,
        s < 90,
        t < 90,
        occ_at(bv@, s as int),
    ensures
        r == rook_mob_target(bv@, s as int, t as int),
{
    if s == t || (s % 9 != t % 9 && s / 9 != t / 9) {
        return false;
    }
    if !seg_clear_sq(bv, s, t) {
        return false;
    }
    let q = bv[t];
    !(q != Piece::Empty && q.player().unwrap() == bv[s].player().unwrap())
}

/// Whether no square strictly between `s` and `t` is occupied, reading
/// the square array.
fn seg_clear_sq(bv: &Vec<Piece>, s: usize, t: usize) -> (r: bool)
    requires
        bv@.len() == 90,
        s < 90,
        t < 90,
    ensures
        r == clear_between(bv@, s as int, t as int),
{
    let cs = s % 9;
    let ct = t % 9;
    let rs = s / 9;
    let rt = t / 9;
    if cs == ct && rs != rt {
        let lo = if rs < rt {
            rs
        } else {
            rt
        };
        let hi = if rs < rt {
            rt
        } else {
            rs
        };
        let mut k = lo + 1;
        while k < hi
            invariant
                lo < k <= hi,
                hi < 10,
                cs < 9,
                s < 90,
                t < 90,
                bv@.len() == 90,
                file_of(s as int) == cs && file_of(t as int) == ct && cs == ct,
                rank_of(s as int) == rs && rank_of(t as int) == rt && rs != rt,
                lo == if rs < rt { rs as int } else { rt as int },
                hi == if rs < rt { rt as int } else { rs as int },
                forall|v: int|
                    file_of(v) == cs && lo < rank_of(v) < k && on_board(v) ==> !occ_at(bv@, v),
            decreases hi - k,
        {
            let u = k * 9 + cs;
            proof {
                lemma_sq_coords(k as int, cs as int);
            }
            if bv[u] != Piece::Empty {
                proof {
                    assert(crate::rules::on_segment(s as int, t as int, u as int));
                }
                return false;
            }
            proof {
                assert forall|v: int|
                    file_of(v) == cs && lo < rank_of(v) < k + 1 && on_board(v) implies !occ_at(
                    bv@,
                    v,
                ) by {
                    if rank_of(v) == k {
                        lemma_sq_decompose(v);
                    }
                }
            }
            k = k + 1;
        }
        proof {
            assert forall|u: int| #[trigger] crate::rules::on_segment(
                s as int,
                t as int,
                u,
            ) implies !occ_at(bv@, u) by {
                lemma_sq_decompose(u);
            }
        }
        true
    } else if rs == rt && cs != ct {
        let lo = if cs < ct {
            cs
        } else {
            ct
        };
        let hi = if cs < ct {
            ct
        } else {
            cs
        };
        let mut k = lo + 1;
        while k < hi
            invariant
                lo < k <= hi,
                hi < 9,
                rs < 10,
                s < 90,
                t < 90,
                bv@.len() == 90,
                rank_of(s as int) == rs && rank_of(t as int) == rt && rs == rt,
                file_of(s as int) == cs && file_of(t as int) == ct && cs != ct,
                lo == if cs < ct { cs as int } else { ct as int },
                hi == if cs < ct { ct as int } else { cs as int },
                forall|v: int|
                    rank_of(v) == rs && lo < file_of(v) < k && on_board(v) ==> !occ_at(bv@, v),
            decreases hi - k,
        {
            let u = rs * 9 + k;
            proof {
                lemma_sq_coords(rs as int, k as int);
            }
            if bv[u] != Piece::Empty {
                proof {
                    assert(crate::rules::on_segment(s as int, t as int, u as int));
                }
                return false;
            }
            proof {
                assert forall|v: int|
                    rank_of(v) == rs && lo < file_of(v) < k + 1 && on_board(v) implies !occ_at(
                    bv@,
                    v,
                ) by {
                    if file_of(v) == k {
                        lemma_sq_decompose(v);
                    }
                }
            }
            k = k + 1;
        }
        proof {
            assert forall|u: int| #[trigger] crate::rules::on_segment(
                s as int,
                t as int,
                u,
            ) implies !occ_at(bv@, u) by {
                lemma_sq_decompose(u);
            }
        }
        true
    } else {
        proof {
            assert forall|u: int| #[trigger] crate::rules::on_segment(
                s as int,
                t as int,
                u,
            ) implies !occ_at(bv@, u) by {}
        }
        true
    }
}

/// Whether `t` is a horse-mobility target of the piece on `s`.
fn horse_mob_target_exec(bv: &Vec<Piece>, s: usize, t: usize) -> (r: bool)
    requires
        bv@.len() == 90,
        s < 90,
        t < 90,
        occ_at(bv@, s as int),
    ensures
        r == horse_mob_target(bv@, s as int, t as int),
{
    let rs = s / 9;
    let cs = s % 9;
    let rt = t / 9;
    let ct = t % 9;
    let step = ((rt == rs + 2 || rs == rt + 2) && (ct == cs + 1 || cs == ct + 1)) || ((rt == rs + 1
        || rs == rt + 1) && (ct == cs + 2 || cs == ct + 2));
    if !step {
        return false;
    }
    let leg = if rt == rs + 2 {
        (rs + 1) * 9 + cs
    } else if rs == rt + 2 {
        (rs - 1) * 9 + cs
    } else if ct == cs + 2 {
        rs * 9 + cs + 1
    } else {
        rs * 9 + cs - 1
    };
    if bv[leg] != Piece::Empty {
        return false;
    }
    let q = bv[t];
    !(q != Piece::Empty && q.player().unwrap() == bv[s].player().unwrap())
}

/// Whether `t` is a cannon-mobility target of the piece on `s`.
fn cannon_mob_target_exec(bv: &Vec<Piece>, s: usize, t: usize) -> (r: bool)
    requires
        bv@.len() == 90,
        s < 90,
        t < 90,
        occ_at(bv@, s as int),
    ensures
        r == cannon_mob_target(bv@, s as int, t as int),
{
    if s == t || (s % 9 != t % 9 && s / 9 != t / 9) {
        return false;
    }
    let q = bv[t];
    if q == Piece::Empty {
        seg_clear_sq(bv, s, t)
    } else {
        if q.player().unwrap() == bv[s].player().unwrap() {
            return false;
        }
        let cnt = seg_occ_count_sq(bv, s, t);
        cnt == 1
    }
}

/// The number of occupied squares strictly between `s` and `t`, which
/// share a rank or a file, reading the square array.
fn seg_occ_count_sq(bv: &Vec<Piece>, s: usize, t: usize) -> (r: u32)
    requires
        bv@.len() == 90,
        s < 90,
        t < 90,
        on_line(s as int, t as int),
    ensures
        r == occ_between(bv@, s as int, t as int),
{
    let ghost p = |u: int| crate::rules::on_segment(s as int, t as int, u) && occ_at(bv@, u);
    let cs = s % 9;
    let ct = t % 9;
    let rs = s / 9;
    let rt = t / 9;
    let mut cnt: u32 = 0;
    if cs == ct {
        let lo = if rs < rt {
            rs
        } else {
            rt
        };
        let hi = if rs < rt {
            rt
        } else {
            rs
        };
        let mut k = lo + 1;
        proof {
            crate::rules::lemma_count_zero(
                |u: int| p(u) && u < crate::rules::sq_of((lo + 1) as int, cs as int),
                90,
            );
        }
        while k < hi
            invariant
                lo < k <= hi,
                hi < 10,
                cs < 9,
                p == (|u: int|
                    crate::rules::on_segment(s as int, t as int, u) && occ_at(bv@, u)),
                s < 90,
                t < 90,
                bv@.len() == 90,
                file_of(s as int) == cs && file_of(t as int) == ct && cs == ct,
                rank_of(s as int) == rs && rank_of(t as int) == rt,
                lo == if rs < rt { rs as int } else { rt as int },
                hi == if rs < rt { rt as int } else { rs as int },
                cnt == count_if(|u: int| p(u) && u < crate::rules::sq_of(k as int, cs as int), 90),
                cnt <= 90,
            decreases hi - k,
        {
            let ghost pk = |u: int| p(u) && u < crate::rules::sq_of(k as int, cs as int);
            let ghost pk1 = |u: int| p(u) && u < crate::rules::sq_of((k + 1) as int, cs as int);
            let v = k * 9 + cs;
            if bv[v] != Piece::Empty {
                cnt = cnt + 1;
            }
            proof {
                lemma_sq_coords(k as int, cs as int);
                assert forall|u: int| 0 <= u < 90 && u != v implies (#[trigger] pk(u) <==> pk1(
                    u,
                )) by {
                    lemma_sq_decompose(u);
                }
                crate::rules::lemma_count_update(pk, pk1, 90, v as int);
                crate::rules::lemma_count_nonneg(pk1, 90);
                assert(crate::rules::on_segment(s as int, t as int, v as int));
                if bv@[v as int] != Piece::Empty {
                    assert(pk1(v as int));
                    assert(!pk(v as int));
                } else {
                    assert(!pk1(v as int));
                    assert(!pk(v as int));
                }
            }
            k = k + 1;
        }
        proof {
            let pk = |u: int| p(u) && u < crate::rules::sq_of(hi as int, cs as int);
            assert forall|u: int| 0 <= u < 90 implies (#[trigger] pk(u) <==> p(u)) by {
                lemma_sq_decompose(u);
            }
            crate::rules::lemma_count_congruent(pk, p, 90);
        }
    } else {
        let lo = if cs < ct {
            cs
        } else {
            ct
        };
        let hi = if cs < ct {
            ct
        } else {
            cs
        };
        let mut k = lo + 1;
        proof {
            crate::rules::lemma_count_zero(|u: int| p(u) && file_of(u) < (lo + 1) as int, 90);
        }
        while k < hi
            invariant
                lo < k <= hi,
                hi < 9,
                rs < 10,
                p == (|u: int|
                    crate::rules::on_segment(s as int, t as int, u) && occ_at(bv@, u)),
                s < 90,
                t < 90,
                bv@.len() == 90,
                rank_of(s as int) == rs && rank_of(t as int) == rt && rs == rt,
                file_of(s as int) == cs && file_of(t as int) == ct,
                lo == if cs < ct { cs as int } else { ct as int },
                hi == if cs < ct { ct as int } else { cs as int },
                cnt == count_if(|u: int| p(u) && file_of(u) < k as int, 90),
                cnt <= 90,
            decreases hi - k,
        {
            let ghost pk = |u: int| p(u) && file_of(u) < k as int;
            let ghost pk1 = |u: int| p(u) && file_of(u) < (k + 1) as int;
            let v = rs * 9 + k;
            if bv[v] != Piece::Empty {
                cnt = cnt + 1;
            }
            proof {
                lemma_sq_coords(rs as int, k as int);
                assert forall|u: int| 0 <= u < 90 && u != v implies (#[trigger] pk(u) <==> pk1(
                    u,
                )) by {
                    lemma_sq_decompose(u);
                }
                crate::rules::lemma_count_update(pk, pk1, 90, v as int);
                crate::rules::lemma_count_nonneg(pk1, 90);
                assert(crate::rules::on_segment(s as int, t as int, v as int));
                if bv@[v as int] != Piece::Empty {
                    assert(pk1(v as int));
                    assert(!pk(v as int));
                } else {
                    assert(!pk1(v as int));
                    assert(!pk(v as int));
                }
            }
            k = k + 1;
        }
        proof {
            let pk = |u: int| p(u) && file_of(u) < hi as int;
            assert forall|u: int| 0 <= u < 90 implies (#[trigger] pk(u) <==> p(u)) by {
                lemma_sq_decompose(u);
            }
            crate::rules::lemma_count_congruent(pk, p, 90);
        }
    }
    cnt
}

/// Counts the horse-mobility targets of the piece on `s`.
fn count_horse_targets(bv: &Vec<Piece>, s: usize) -> (r: u32)
    requires
        bv@.len() == 90,
        s < 90,
        occ_at(bv@, s as int),
    ensures
        r == count_if(|t: int| horse_mob_target(bv@, s as int, t), 90),
        r <= 90,
{
    let ghost pr = |t: int| horse_mob_target(bv@, s as int, t);
    let mut cnt: u32 = 0;
    let mut t: usize = 0;
    proof {
        crate::rules::lemma_count_zero(|u: int| pr(u) && u < 0, 90);
    }
    while t < 90
        invariant
            t <= 90,
            s < 90,
            bv@.len() == 90,
            occ_at(bv@, s as int),
            pr == (|t: int| horse_mob_target(bv@, s as int, t)),
            cnt == count_if(|u: int| pr(u) && u < t, 90),
            cnt <= t,
        decreases 90 - t,
    {
        let ghost pk = |u: int| pr(u) && u < t;
        let ghost pk1 = |u: int| pr(u) && u < t + 1;
        let hit = horse_mob_target_exec(bv, s, t);
        if hit {
            cnt = cnt + 1;
        }
        proof {
            assert forall|u: int| 0 <= u < 90 && u != t implies (#[trigger] pk(u) <==> pk1(u)) by {}
            crate::rules::lemma_count_update(pk, pk1, 90, t as int);
            crate::rules::lemma_count_nonneg(pk, 90);
            if hit {
                assert(pk1(t as int));
                assert(!pk(t as int));
            } else {
                assert(!pk1(t as int));
                assert(!pk(t as int));
            }
        }
        t = t + 1;
    }
    proof {
        let pk = |u: int| pr(u) && u < 90;
        assert forall|u: int| 0 <= u < 90 implies (#[trigger] pk(u) <==> pr(u)) by {}
        crate::rules::lemma_count_congruent(pk, pr, 90);
    }
    cnt
}

/// Counts the cannon-mobility targets of the piece on `s`.
fn count_cannon_targets(bv: &Vec<Piece>, s: usize) -> (r: u32)
    requires
        bv@.len() == 90,
        s < 90,
        occ_at(bv@, s as int),
    ensures
        r == count_if(|t: int| cannon_mob_target(bv@, s as int, t), 90),
        r <= 90,
{
    let ghost pr = |t: int| cannon_mob_target(bv@, s as int, t);
    let mut cnt: u32 = 0;
    let mut t: usize = 0;
    proof {
        crate::rules::lemma_count_zero(|u: int| pr(u) && u < 0, 90);
    }
    while t < 90
        invariant
            t <= 90,
            s < 90,
            bv@.len() == 90,
            occ_at(bv@, s as int),
            pr == (|t: int| cannon_mob_target(bv@, s as int, t)),
            cnt == count_if(|u: int| pr(u) && u < t, 90),
            cnt <= t,
        decreases 90 - t,
    {
        let ghost pk = |u: int| pr(u) && u < t;
        let ghost pk1 = |u: int| pr(u) && u < t + 1;
        let hit = cannon_mob_target_exec(bv, s, t);
        if hit {
            cnt = cnt + 1;
        }
        proof {
            assert forall|u: int| 0 <= u < 90 && u != t implies (#[trigger] pk(u) <==> pk1(u)) by {}
            crate::rules::lemma_count_update(pk, pk1, 90, t as int);
            crate::rules::lemma_count_nonneg(pk, 90);
            if hit {
                assert(pk1(t as int));
                assert(!pk(t as int));
            } else {
                assert(!pk1(t as int));
                assert(!pk(t as int));
            }
        }
        t = t + 1;
    }
    proof {
        let pk = |u: int| pr(u) && u < 90;
        assert forall|u: int| 0 <= u < 90 implies (#[trigger] pk(u) <==> pr(u)) by {}
        crate::rules::lemma_count_congruent(pk, pr, 90);
    }
    cnt
}

/// The total signed mobility score of the position.
fn calculate_mobility_score(board: &Board, config: &Config) -> (r: i32)
    requires
        board@.squares.len() == 90,
        config_wf(*config),
    ensures
        r == mobility_of(board@.squares, *config),
        -810_000 <= r <= 810_000,
{
    let ghost sqs = board@.squares;
    let ghost c = *config;
    let ghost fm = |s: int| mob_at(sqs, s, c);
    let bv = &board.board;
    let mut score: i32 = 0;
    let mut s: usize = 0;
    while s < 90
        invariant
            s <= 90,
            bv@.len() == 90,
            bv@ == sqs,
            c == *config,
            config_wf(c),
            fm == (|s: int| mob_at(sqs, s, c)),
            score == sum_of(fm, s as int),
            -9000 * s <= score <= 9000 * s,
        decreases 90 - s,
    {
        let p = bv[s];
        if p != Piece::Empty {
            let abs = p.abs_val();
            let red = is_red_exec(p);
            if abs == 5 {
                let cnt = count_rook_targets(bv, s) as i32;
                proof {
                    assert(0 <= cnt * config.mobility_bonus_rook <= 9000) by (nonlinear_arith)
                        requires
                            0 <= cnt <= 90,
                            0 <= config.mobility_bonus_rook <= 100,
                    ;
                }
                let d = cnt * config.mobility_bonus_rook;
                proof {
                    let b = c.mobility_bonus_rook as int;
                    let k = count_if(|t: int| rook_mob_target(sqs, s as int, t), 90);
                    assert(b * k == k * b && (-1int) * b * k == -(k * b)) by (nonlinear_arith);
                }
                if red {
                    score = score + d;
                } else {
                    score = score - d;
                }
            } else if abs == 4 {
                let cnt = count_horse_targets(bv, s) as i32;
                proof {
                    assert(0 <= cnt * config.mobility_bonus_horse <= 9000) by (nonlinear_arith)
                        requires
                            0 <= cnt <= 90,
                            0 <= config.mobility_bonus_horse <= 100,
                    ;
                }
                let d = cnt * config.mobility_bonus_horse;
                proof {
                    let b = c.mobility_bonus_horse as int;
                    let k = count_if(|t: int| horse_mob_target(sqs, s as int, t), 90);
                    assert(b * k == k * b && (-1int) * b * k == -(k * b)) by (nonlinear_arith);
                }
                if red {
                    score = score + d;
                } else {
                    score = score - d;
                }
            } else if abs == 6 {
                let cnt = count_cannon_targets(bv, s) as i32;
                proof {
                    assert(0 <= cnt * config.mobility_bonus_cannon <= 9000) by (nonlinear_arith)
                        requires
                            0 <= cnt <= 90,
                            0 <= config.mobility_bonus_cannon <= 100,
                    ;
                }
                let d = cnt * config.mobility_bonus_cannon;
                proof {
                    let b = c.mobility_bonus_cannon as int;
                    let k = count_if(|t: int| cannon_mob_target(sqs, s as int, t), 90);
                    assert(b * k == k * b && (-1int) * b * k == -(k * b)) by (nonlinear_arith);
                }
                if red {
                    score = score + d;
                } else {
                    score = score - d;
                }
            }
        }
        proof {
            assert(-9000 <= fm(s as int) <= 9000) by {
                if occ_at(sqs, s as int) {
                    crate::rules::lemma_count_nonneg(
                        |t: int| rook_mob_target(sqs, s as int, t),
                        90,
                    );
                    crate::rules::lemma_count_nonneg(
                        |t: int| horse_mob_target(sqs, s as int, t),
                        90,
                    );
                    crate::rules::lemma_count_nonneg(
                        |t: int| cannon_mob_target(sqs, s as int, t),
                        90,
                    );
                    assert(mob_at(sqs, s as int, c) <= 9000 && mob_at(sqs, s as int, c) >= -9000)
                        by (nonlinear_arith)
                        requires
                            config_wf(c),
                            mob_at(sqs, s as int, c) == mob_at(sqs, s as int, c),
                            occ_at(sqs, s as int),
                            0 <= count_if(|t: int| rook_mob_target(sqs, s as int, t), 90) <= 90,
                            0 <= count_if(|t: int| horse_mob_target(sqs, s as int, t), 90) <= 90,
                            0 <= count_if(|t: int| cannon_mob_target(sqs, s as int, t), 90) <= 90,
                    ;
                }
            }
            assert((s + 1) * 9000 == s * 9000 + 9000) by (nonlinear_arith);
            assert((s + 1) * (-9000) == s * (-9000) - 9000) by (nonlinear_arith);
        }
        s = s + 1;
    }
    score
}

/// Whether some square of rank `r` holds piece `p`.
fn rank_holds(bv: &Vec<Piece>, p: Piece, r: usize) -> (res: bool)
    requires
        bv@.len() == 90,
        r < 10,
    ensures
        res == has_piece_in_rank(bv@, p, r as int),
{
    let mut c: usize = 0;
    while c < 9
        invariant
            c <= 9,
            r < 10,
            bv@.len() == 90,
            forall|cc: int| 0 <= cc < c ==> bv@[crate::rules::sq_of(r as int, cc)] != p,
            forall|cc: int| 0 <= cc < c ==> crate::rules::sq_of(r as int, cc) < 90,
        decreases 9 - c,
    {
        let u = r * 9 + c;
        proof {
            lemma_sq_coords(r as int, c as int);
        }
        if bv[u] == p {
            proof {
                assert(rank_of(u as int) == r);
            }
            return true;
        }
        c = c + 1;
    }
    proof {
        if has_piece_in_rank(bv@, p, r as int) {
            let w = choose|w: int| 0 <= w < 90 && #[trigger] rank_of(w) == r && bv@[w] == p;
            lemma_sq_decompose(w);
            assert(bv@[crate::rules::sq_of(r as int, file_of(w))] != p);
        }
    }
    false
}

/// The pattern score: back-rank cannons and palace-heart horses.
fn calculate_pattern_score(board: &Board, config: &Config) -> (r: i32)
    requires
        board@.squares.len() == 90,
        config_wf(*config),
    ensures
        r == pattern_of(board@.squares, *config),
        -200 <= r <= 200,
{
    let bv = &board.board;
    let mut score: i32 = 0;
    if rank_holds(bv, Piece::RCannon, 0) {
        score = score + config.bonus_bottom_cannon;
    }
    if rank_holds(bv, Piece::BCannon, 9) {
        score = score - config.bonus_bottom_cannon;
    }
    if bv[4] == Piece::RHorse {
        score = score + config.bonus_palace_heart_horse;
    }
    if bv[85] == Piece::BHorse {
        score = score - config.bonus_palace_heart_horse;
    }
    score
}

/// Counts the guards of a side.
fn count_guards(bv: &Vec<Piece>, side: Player) -> (r: u32)
    requires
        bv@.len() == 90,
    ensures
        r == guard_count(bv@, side),
        r <= 90,
{
    let gp = if side == Player::Red {
        Piece::RGuard
    } else {
        Piece::BGuard
    };
    let ghost pr = |s: int| 0 <= s < 90 && bv@[s] == piece_of(side, 2);
    let mut cnt: u32 = 0;
    let mut s: usize = 0;
    proof {
        crate::rules::lemma_count_zero(|u: int| pr(u) && u < 0, 90);
    }
    while s < 90
        invariant
            s <= 90,
            bv@.len() == 90,
            gp == piece_of(side, 2),
            pr == (|s: int| 0 <= s < 90 && bv@[s] == piece_of(side, 2)),
            cnt == count_if(|u: int| pr(u) && u < s, 90),
            cnt <= s,
        decreases 90 - s,
    {
        let ghost pk = |u: int| pr(u) && u < s;
        let ghost pk1 = |u: int| pr(u) && u < s + 1;
        let hit = bv[s] == gp;
        if hit {
            cnt = cnt + 1;
        }
        proof {
            assert forall|u: int| 0 <= u < 90 && u != s implies (#[trigger] pk(u) <==> pk1(u)) by {}
            crate::rules::lemma_count_update(pk, pk1, 90, s as int);
            crate::rules::lemma_count_nonneg(pk, 90);
            if hit {
                assert(pk1(s as int));
                assert(!pk(s as int));
            } else {
                assert(!pk1(s as int));
                assert(!pk(s as int));
            }
        }
        s = s + 1;
    }
    proof {
        let pk = |u: int| pr(u) && u < 90;
        assert forall|u: int| 0 <= u < 90 implies (#[trigger] pk(u) <==> pr(u)) by {}
        crate::rules::lemma_count_congruent(pk, pr, 90);
    }
    cnt
}

/// The king-safety penalty for missing guards.
fn calculate_king_safety_score(board: &Board, config: &Config) -> (r: i32)
    requires
        board@.squares.len() == 90,
        config_wf(*config),
    ensures
        r == king_safety_of(board@.squares, *config),
        -200 <= r <= 200,
{
    let bv = &board.board;
    let rg = count_guards(bv, Player::Red) as i32;
    let bg = count_guards(bv, Player::Black) as i32;
    let mut score: i32 = 0;
    if rg < 2 {
        proof {
            assert(0 <= (2 - rg) * config.king_safety_penalty_per_guard <= 200 && (-(2 - (
            rg as int))) * (config.king_safety_penalty_per_guard as int) == -((2 - rg)
                * config.king_safety_penalty_per_guard)) by (nonlinear_arith)
                requires
                    0 <= rg < 2,
                    0 <= config.king_safety_penalty_per_guard <= 100,
            ;
        }
        score = score - (2 - rg) * config.king_safety_penalty_per_guard;
    }
    if bg < 2 {
        proof {
            assert(0 <= (2 - bg) * config.king_safety_penalty_per_guard <= 200)
                by (nonlinear_arith)
                requires
                    0 <= bg < 2,
                    0 <= config.king_safety_penalty_per_guard <= 100,
            ;
        }
        score = score + (2 - bg) * config.king_safety_penalty_per_guard;
    }
    score
}

/// The bonus for attacking a weakened palace.
#[verifier::rlimit(100)]
fn calculate_dynamic_bonus_score(board: &Board, config: &Config) -> (r: i32)
    requires
        board@.squares.len() == 90,
        config_wf(*config),
    ensures
        r == dynamic_of(board@.squares, *config),
        -1800 <= r <= 1800,
{
    let bv = &board.board;
    let mut score: i32 = 0;
    let bg = count_guards(bv, Player::Black) as i32;
    if bg < 2 {
        let mut atk: i32 = 0;
        if crate::move_gen::is_square_attacked_by(board, 3, Player::Red) {
            atk = atk + 1;
        }
        if crate::move_gen::is_square_attacked_by(board, 4, Player::Red) {
            atk = atk + 1;
        }
        if crate::move_gen::is_square_attacked_by(board, 5, Player::Red) {
            atk = atk + 1;
        }
        if crate::move_gen::is_square_attacked_by(board, 12, Player::Red) {
            atk = atk + 1;
        }
        if crate::move_gen::is_square_attacked_by(board, 13, Player::Red) {
            atk = atk + 1;
        }
        if crate::move_gen::is_square_attacked_by(board, 14, Player::Red) {
            atk = atk + 1;
        }
        if crate::move_gen::is_square_attacked_by(board, 21, Player::Red) {
            atk = atk + 1;
        }
        if crate::move_gen::is_square_attacked_by(board, 22, Player::Red) {
            atk = atk + 1;
        }
        if crate::move_gen::is_square_attacked_by(board, 23, Player::Red) {
            atk = atk + 1;
        }
        proof {
            assert(atk == black_palace_attacks(board@.squares));
        }
        proof {
            assert(0 <= atk * (2 - bg) <= 18 && 0 <= atk * (2 - bg)
                * config.dynamic_bonus_attack_per_missing_defender <= 1800) by (nonlinear_arith)
                requires
                    0 <= atk <= 9,
                    0 <= bg < 2,
                    0 <= config.dynamic_bonus_attack_per_missing_defender <= 100,
            ;
        }
        score = score + atk * (2 - bg) * config.dynamic_bonus_attack_per_missing_defender;
    }
    let rg = count_guards(bv, Player::Red) as i32;
    if rg < 2 {
        let mut atk: i32 = 0;
        if crate::move_gen::is_square_attacked_by(board, 66, Player::Black) {
            atk = atk + 1;
        }
        if crate::move_gen::is_square_attacked_by(board, 67, Player::Black) {
            atk = atk + 1;
        }
        if crate::move_gen::is_square_attacked_by(board, 68, Player::Black) {
            atk = atk + 1;
        }
        if crate::move_gen::is_square_attacked_by(board, 75, Player::Black) {
            atk = atk + 1;
        }
        if crate::move_gen::is_square_attacked_by(board, 76, Player::Black) {
            atk = atk + 1;
        }
        if crate::move_gen::is_square_attacked_by(board, 77, Player::Black) {
            atk = atk + 1;
        }
        if crate::move_gen::is_square_attacked_by(board, 84, Player::Black) {
            atk = atk + 1;
        }
        if crate::move_gen::is_square_attacked_by(board, 85, Player::Black) {
            atk = atk + 1;
        }
        if crate::move_gen::is_square_attacked_by(board, 86, Player::Black) {
            atk = atk + 1;
        }
        proof {
            assert(atk == red_palace_attacks(board@.squares));
        }
        proof {
            assert(0 <= atk * (2 - rg) <= 18 && 0 <= atk * (2 - rg)
                * config.dynamic_bonus_attack_per_missing_defender <= 1800) by (nonlinear_arith)
                requires
                    0 <= atk <= 9,
                    0 <= rg < 2,
                    0 <= config.dynamic_bonus_attack_per_missing_defender <= 100,
            ;
        }
        score = score - atk * (2 - rg) * config.dynamic_bonus_attack_per_missing_defender;
    }
    score
}

/// The total phase material on the board, as executable code.
fn calculate_phase_material(board: &Board) -> (r: i32)
    requires
        board@.squares.len() == 90,
    ensures
        r == phase_material(board@.squares),
        0 <= r <= 81_000,
{
    let ghost sqs = board@.squares;
    let ghost fm = |s: int| phase_at(sqs, s);
    let bv = &board.board;
    let mut total: i32 = 0;
    let mut s: usize = 0;
    while s < 90
        invariant
            s <= 90,
            bv@.len() == 90,
            bv@ == sqs,
            fm == (|s: int| phase_at(sqs, s)),
            total == sum_of(fm, s as int),
            0 <= total <= 900 * s,
        decreases 90 - s,
    {
        let p = bv[s];
        if p != Piece::Empty {
            let abs = p.abs_val();
            if 2 <= abs && abs <= 6 {
                total = total + crate::psts::material_value_exec(abs);
            }
        }
        proof {
            assert((s + 1) * 900 == s * 900 + 900) by (nonlinear_arith);
        }
        s = s + 1;
    }
    total
}

/// The full static evaluation: material, tapered piece-square sums,
/// mobility, patterns, king safety and palace pressure, negated when
/// Black is to move so the score is always from the mover's view.
pub fn evaluate(board: &Board, config: &Config) -> (r: i32)
    requires
        board.wf(),
        config_wf(*config),
    ensures
        r == eval_spec(board@.squares, board@.to_move, *config),
        -2_000_000 <= r <= 2_000_000,
{
    let ghost sqs = board@.squares;
    proof {
        crate::model::lemma_score_bounds(board@);
    }
    let pm_raw = calculate_phase_material(board);
    let pm: i64 = if pm_raw > 9000 {
        9000
    } else {
        pm_raw as i64
    };
    let mg = board.mg_pst_score as i64;
    let eg = board.eg_pst_score as i64;
    proof {
        assert((mg + 20000) * pm + (eg + 20000) * (9000 - pm) <= 39800 * 9000)
            by (nonlinear_arith)
            requires
                -19800 <= mg <= 19800,
                -19800 <= eg <= 19800,
                0 <= pm <= 9000,
        ;
        assert((mg + 20000) * pm + (eg + 20000) * (9000 - pm) >= 0) by (nonlinear_arith)
            requires
                -19800 <= mg <= 19800,
                -19800 <= eg <= 19800,
                0 <= pm <= 9000,
        ;
    }
    let num: u64 = (((mg + 20000) * pm) + ((eg + 20000) * (9000 - pm))) as u64;
    let quot = num / 9000;
    proof {
        assert(quot <= 39800);
    }
    let pst_score = (quot as i32) - 20000;
    proof {
        assert(pst_score == pst_tapered(mg_of(sqs), eg_of(sqs), pm as int));
    }
    let material_score = board.material_score;
    let mobility_score = calculate_mobility_score(board, config);
    let pattern_score = calculate_pattern_score(board, config);
    let king_safety_score = calculate_king_safety_score(board, config);
    let dynamic_bonus_score = calculate_dynamic_bonus_score(board, config);
    let final_score = material_score + pst_score + mobility_score + pattern_score
        + king_safety_score + dynamic_bonus_score;
    if board.player_to_move == Player::Red {
        final_score
    } else {
        -final_score
    }
}

} // verus!
