//! Piece-square tables and material values.
//!
//! Each piece type has a midgame table; pawns also have a distinct endgame
//! table.  Tables are written from Red's perspective over (pst-rank,
//! pst-file) coordinates; a Red piece on square `s` reads entry
//! `(9 - rank, 8 - file)` and a Black piece reads entry `(rank, file)`
//! negated, so the tables mirror between the sides.

use vstd::prelude::*;
use crate::constants::{Piece, abs_of, is_red};
use crate::rules::{rank_of, file_of};

verus! {

/// The material value of a piece type; the king's value is a sentinel
/// that never enters a capture exchange.
pub open spec fn material_value(abs: int) -> int {
    if abs == 1 {
        10000
    } else if abs == 2 || abs == 3 {
        200
    } else if abs == 4 {
        450
    } else if abs == 5 {
        900
    } else if abs == 6 {
        500
    } else if abs == 7 {
        100
    } else {
        0
    }
}

/// A small bonus for central files: 0 at the edges rising to 4 in the centre.
pub open spec fn centre_bonus(pc: int) -> int {
    if pc <= 4 {
        pc
    } else {
        8 - pc
    }
}

/// The midgame table entry for piece type `abs` at pst coordinates
/// `(pr, pc)`.
pub open spec fn pst_mg(abs: int, pr: int, pc: int) -> int {
    if abs == 1 {
        if 3 <= pc <= 5 {
            if pr <= 1 || pr >= 8 {
                8
            } else if pr == 2 || pr == 7 {
                6
            } else {
                0
            }
        } else {
            0
        }
    } else if abs == 2 {
        if 3 <= pc <= 5 && (pr <= 2 || pr >= 7) {
            if pc == 4 && (pr == 1 || pr == 8) {
                23
            } else if pc != 4 && pr != 1 && pr != 8 {
                20
            } else {
                0
            }
        } else {
            0
        }
    } else if abs == 3 {
        if (pc == 2 || pc == 6) && (pr == 0 || pr == 4 || pr == 5 || pr == 9) {
            20
        } else if pc == 4 && (pr == 2 || pr == 7) {
            23
        } else {
            0
        }
    } else if abs == 4 {
        90 + 2 * centre_bonus(pc) + if pr == 3 {
            6int
        } else if pr == 2 || pr == 4 {
            4int
        } else if pr == 1 || pr == 5 {
            3int
        } else if pr == 6 {
            2int
        } else {
            0int
        }
    } else if abs == 5 {
        206 + centre_bonus(pc) + if pr <= 3 {
            4int
        } else if pr <= 5 {
            2int
        } else {
            0int
        }
    } else if abs == 6 {
        96 + (if pr >= 7 {
            2int
        } else {
            0int
        }) + if pc == 4 && 3 <= pr <= 5 {
            4int
        } else {
            0int
        }
    } else if abs == 7 {
        (if pr == 0 {
            10int
        } else if pr == 1 {
            34
        } else if pr == 2 {
            29
        } else if pr == 3 {
            24
        } else if pr == 4 {
            19
        } else if pr == 5 || pr == 6 {
            8
        } else {
            0
        }) + if pr <= 4 {
            centre_bonus(pc)
        } else {
            0
        }
    } else {
        0
    }
}

/// The endgame table entry: pawns have their own table, every other piece
/// keeps its midgame table.
pub open spec fn pst_eg(abs: int, pr: int, pc: int) -> int {
    if abs == 7 {
        (if pr == 0 {
            20int
        } else if pr == 1 {
            70
        } else if pr == 2 {
            65
        } else if pr == 3 {
            55
        } else if pr == 4 {
            45
        } else if pr == 5 {
            25
        } else if pr == 6 {
            18
        } else if pr == 7 {
            5
        } else {
            0
        }) + centre_bonus(pc)
    } else {
        pst_mg(abs, pr, pc)
    }
}

/// Every table entry lies in 0..=220.
pub proof fn lemma_pst_bounds(abs: int, pr: int, pc: int)
    requires
        0 <= pr <= 9,
        0 <= pc <= 8,
    ensures
        0 <= pst_mg(abs, pr, pc) <= 220,
        0 <= pst_eg(abs, pr, pc) <= 220,
{
}

/// The signed midgame value of a non-empty piece standing on square `s`:
/// positive for Red, negative for Black.  A Red piece reads the table at
/// the mirrored coordinates, a Black piece at the plain ones.
pub open spec fn pst_mg_piece(p: Piece, s: int) -> int {
    if is_red(p) {
        pst_mg(abs_of(p), 9 - rank_of(s), 8 - file_of(s))
    } else {
        -pst_mg(abs_of(p), rank_of(s), file_of(s))
    }
}

/// The signed endgame value of a non-empty piece standing on square `s`.
pub open spec fn pst_eg_piece(p: Piece, s: int) -> int {
    if is_red(p) {
        pst_eg(abs_of(p), 9 - rank_of(s), 8 - file_of(s))
    } else {
        -pst_eg(abs_of(p), rank_of(s), file_of(s))
    }
}

/// The signed material value of a non-empty piece.
pub open spec fn material_piece(p: Piece) -> int {
    if is_red(p) {
        material_value(abs_of(p))
    } else {
        -material_value(abs_of(p))
    }
}

/// The signed midgame contribution of square `s`: zero when empty.
pub open spec fn pst_mg_at(sqs: Seq<Piece>, s: int) -> int {
    if 0 <= s < 90 && sqs[s] != Piece::Empty {
        pst_mg_piece(sqs[s], s)
    } else {
        0
    }
}

/// The signed endgame contribution of square `s`.
pub open spec fn pst_eg_at(sqs: Seq<Piece>, s: int) -> int {
    if 0 <= s < 90 && sqs[s] != Piece::Empty {
        pst_eg_piece(sqs[s], s)
    } else {
        0
    }
}

/// The signed material contribution of square `s`.
pub open spec fn material_at(sqs: Seq<Piece>, s: int) -> int {
    if 0 <= s < 90 && sqs[s] != Piece::Empty {
        material_piece(sqs[s])
    } else {
        0
    }
}

/// The midgame table entry for a piece type, as executable code.
pub fn pst_mg_entry(abs: u8, pr: usize, pc: usize) -> (r: i32)
    requires
        pr <= 9,
        pc <= 8,
    ensures
        r == pst_mg(abs as int, pr as int, pc as int),
{
    let cb: i32 = if pc <= 4 {
        pc as i32
    } else {
        8 - pc as i32
    };
    if abs == 1 {
        if 3 <= pc && pc <= 5 {
            if pr <= 1 || pr >= 8 {
                8
            } else if pr == 2 || pr == 7 {
                6
            } else {
                0
            }
        } else {
            0
        }
    } else if abs == 2 {
        if 3 <= pc && pc <= 5 && (pr <= 2 || pr >= 7) {
            if pc == 4 && (pr == 1 || pr == 8) {
                23
            } else if pc != 4 && pr != 1 && pr != 8 {
                20
            } else {
                0
            }
        } else {
            0
        }
    } else if abs == 3 {
        if (pc == 2 || pc == 6) && (pr == 0 || pr == 4 || pr == 5 || pr == 9) {
            20
        } else if pc == 4 && (pr == 2 || pr == 7) {
            23
        } else {
            0
        }
    } else if abs == 4 {
        90 + 2 * cb + if pr == 3 {
            6
        } else if pr == 2 || pr == 4 {
            4
        } else if pr == 1 || pr == 5 {
            3
        } else if pr == 6 {
            2
        } else {
            0
        }
    } else if abs == 5 {
        206 + cb + if pr <= 3 {
            4
        } else if pr <= 5 {
            2
        } else {
            0
        }
    } else if abs == 6 {
        96 + (if pr >= 7 {
            2i32
        } else {
            0i32
        }) + if pc == 4 && 3 <= pr && pr <= 5 {
            4
        } else {
            0
        }
    } else if abs == 7 {
        (if pr == 0 {
            10i32
        } else if pr == 1 {
            34
        } else if pr == 2 {
            29
        } else if pr == 3 {
            24
        } else if pr == 4 {
            19
        } else if pr == 5 || pr == 6 {
            8
        } else {
            0
        }) + if pr <= 4 {
            cb
        } else {
            0
        }
    } else {
        0
    }
}

/// The endgame table entry for a piece type, as executable code.
pub fn pst_eg_entry(abs: u8, pr: usize, pc: usize) -> (r: i32)
    requires
        pr <= 9,
        pc <= 8,
    ensures
        r == pst_eg(abs as int, pr as int, pc as int),
{
    if abs == 7 {
        let cb: i32 = if pc <= 4 {
            pc as i32
        } else {
            8 - pc as i32
        };
        (if pr == 0 {
            20i32
        } else if pr == 1 {
            70
        } else if pr == 2 {
            65
        } else if pr == 3 {
            55
        } else if pr == 4 {
            45
        } else if pr == 5 {
            25
        } else if pr == 6 {
            18
        } else if pr == 7 {
            5
        } else {
            0
        }) + cb
    } else {
        pst_mg_entry(abs, pr, pc)
    }
}

/// The material value of a piece type, as executable code.
pub fn material_value_exec(abs: u8) -> (r: i32)
    ensures
        r == material_value(abs as int),
{
    if abs == 1 {
        10000
    } else if abs == 2 || abs == 3 {
        200
    } else if abs == 4 {
        450
    } else if abs == 5 {
        900
    } else if abs == 6 {
        500
    } else if abs == 7 {
        100
    } else {
        0
    }
}

} // verus!
