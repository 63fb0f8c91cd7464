//! The piece and side model, with the index maps used by the board.

use vstd::prelude::*;

verus! {

/// A board square holds one of these: empty, or a piece of one of the two
/// sides.  The `R` prefix is Red, the `B` prefix is Black.
#[derive(Debug, Clone, Copy, PartialEq, Eq, Structural)]
pub enum Piece {
    BKing,
    BGuard,
    BBishop,
    BHorse,
    BRook,
    BCannon,
    BPawn,
    Empty,
    RKing,
    RGuard,
    RBishop,
    RHorse,
    RRook,
    RCannon,
    RPawn,
}

/// One of the two sides.
#[derive(Debug, Clone, Copy, PartialEq, Eq, Structural)]
pub enum Player {
    Red,
    Black,
}

/// The mate sentinel score.
pub const MATE_VALUE: i32 = 10000;

/// The score of a drawn position.
pub const DRAW_VALUE: i32 = 0;

/// The piece-type number shared by both sides: King 1, Guard 2, Bishop 3,
/// Horse 4, Rook 5, Cannon 6, Pawn 7; 0 for the empty square.
pub open spec fn abs_of(p: Piece) -> int {
    match p {
        Piece::Empty => 0,
        Piece::RKing | Piece::BKing => 1,
        Piece::RGuard | Piece::BGuard => 2,
        Piece::RBishop | Piece::BBishop => 3,
        Piece::RHorse | Piece::BHorse => 4,
        Piece::RRook | Piece::BRook => 5,
        Piece::RCannon | Piece::BCannon => 6,
        Piece::RPawn | Piece::BPawn => 7,
    }
}

pub open spec fn is_red(p: Piece) -> bool {
    match p {
        Piece::RKing | Piece::RGuard | Piece::RBishop | Piece::RHorse | Piece::RRook
        | Piece::RCannon | Piece::RPawn => true,
        _ => false,
    }
}

pub open spec fn is_black(p: Piece) -> bool {
    match p {
        Piece::BKing | Piece::BGuard | Piece::BBishop | Piece::BHorse | Piece::BRook
        | Piece::BCannon | Piece::BPawn => true,
        _ => false,
    }
}

/// The side that owns a non-empty piece.
pub open spec fn side_of(p: Piece) -> Player {
    if is_red(p) {
        Player::Red
    } else {
        Player::Black
    }
}

/// The piece of the given side with the given piece-type number 1..7.
pub open spec fn piece_of(side: Player, abs: int) -> Piece {
    match side {
        Player::Red => if abs == 1 {
            Piece::RKing
        } else if abs == 2 {
            Piece::RGuard
        } else if abs == 3 {
            Piece::RBishop
        } else if abs == 4 {
            Piece::RHorse
        } else if abs == 5 {
            Piece::RRook
        } else if abs == 6 {
            Piece::RCannon
        } else if abs == 7 {
            Piece::RPawn
        } else {
            Piece::Empty
        },
        Player::Black => if abs == 1 {
            Piece::BKing
        } else if abs == 2 {
            Piece::BGuard
        } else if abs == 3 {
            Piece::BBishop
        } else if abs == 4 {
            Piece::BHorse
        } else if abs == 5 {
            Piece::BRook
        } else if abs == 6 {
            Piece::BCannon
        } else if abs == 7 {
            Piece::BPawn
        } else {
            Piece::Empty
        },
    }
}

/// The index of a non-empty piece in the 14 per-piece bit sets:
/// Red pieces 0..6, Black pieces 7..13, King first.  -1 for the empty square.
pub open spec fn bb_idx_of(p: Piece) -> int {
    if p == Piece::Empty {
        -1
    } else if is_red(p) {
        abs_of(p) - 1
    } else {
        abs_of(p) + 6
    }
}

/// The index of a non-empty piece in the Zobrist key table: Black pieces
/// 0..6, Red pieces 7..13.  -1 for the empty square.
pub open spec fn zob_idx_of(p: Piece) -> int {
    if p == Piece::Empty {
        -1
    } else if is_black(p) {
        abs_of(p) - 1
    } else {
        abs_of(p) + 6
    }
}

/// The side index used for the two side-occupancy bit sets: Red 0, Black 1.
pub open spec fn side_idx_of(side: Player) -> int {
    match side {
        Player::Red => 0,
        Player::Black => 1,
    }
}

pub open spec fn opponent_of(side: Player) -> Player {
    match side {
        Player::Red => Player::Black,
        Player::Black => Player::Red,
    }
}

/// The base value of a piece type, used by the capture-ordering heuristic.
pub open spec fn piece_value_of(abs: int) -> int {
    if abs == 4 {
        450
    } else if abs == 5 {
        900
    } else if abs == 6 {
        500
    } else if abs == 2 || abs == 3 || abs == 7 {
        100
    } else {
        0
    }
}

/// A major piece for null-move purposes: rook, horse or cannon.
pub open spec fn is_major_spec(p: Piece) -> bool {
    abs_of(p) == 4 || abs_of(p) == 5 || abs_of(p) == 6
}

impl Piece {
    /// The base value of this piece for move ordering.
    pub fn value(self) -> (r: i32)
        ensures
            r == piece_value_of(abs_of(self)),
    {
        match self {
            Piece::RHorse | Piece::BHorse => 450,
            Piece::RRook | Piece::BRook => 900,
            Piece::RCannon | Piece::BCannon => 500,
            Piece::RGuard | Piece::BGuard => 100,
            Piece::RBishop | Piece::BBishop => 100,
            Piece::RPawn | Piece::BPawn => 100,
            _ => 0,
        }
    }

    /// Whether this is a rook, horse or cannon.
    pub fn is_major(self) -> (r: bool)
        ensures
            r == is_major_spec(self),
    {
        match self {
            Piece::RRook | Piece::BRook | Piece::RHorse | Piece::BHorse | Piece::RCannon
            | Piece::BCannon => true,
            _ => false,
        }
    }

    /// The side that owns this piece, or `None` for the empty square.
    pub fn player(self) -> (r: Option<Player>)
        ensures
            self == Piece::Empty <==> r is None,
            self != Piece::Empty ==> r == Some(side_of(self)),
    {
        match self {
            Piece::Empty => None,
            Piece::RKing | Piece::RGuard | Piece::RBishop | Piece::RHorse | Piece::RRook
            | Piece::RCannon | Piece::RPawn => Some(Player::Red),
            _ => Some(Player::Black),
        }
    }

    /// The character used for this piece in the position string.
    pub fn to_fen_char(self) -> (r: char)
        ensures
            r == fen_char_of(self),
    {
        match self {
            Piece::BKing => 'k',
            Piece::BGuard => 'a',
            Piece::BBishop => 'b',
            Piece::BHorse => 'n',
            Piece::BRook => 'r',
            Piece::BCannon => 'c',
            Piece::BPawn => 'p',
            Piece::Empty => '.',
            Piece::RKing => 'K',
            Piece::RGuard => 'A',
            Piece::RBishop => 'B',
            Piece::RHorse => 'N',
            Piece::RRook => 'R',
            Piece::RCannon => 'C',
            Piece::RPawn => 'P',
        }
    }

    /// The piece denoted by a position-string character, if any.
    pub fn from_fen_char(c: char) -> (r: Option<Piece>)
        ensures
            r == piece_from_char(c),
    {
        match c {
            'k' => Some(Piece::BKing),
            'a' => Some(Piece::BGuard),
            'b' => Some(Piece::BBishop),
            'n' => Some(Piece::BHorse),
            'r' => Some(Piece::BRook),
            'c' => Some(Piece::BCannon),
            'p' => Some(Piece::BPawn),
            'K' => Some(Piece::RKing),
            'A' => Some(Piece::RGuard),
            'B' => Some(Piece::RBishop),
            'N' => Some(Piece::RHorse),
            'R' => Some(Piece::RRook),
            'C' => Some(Piece::RCannon),
            'P' => Some(Piece::RPawn),
            _ => None,
        }
    }

    /// The piece-type number 1..7, or 0 for the empty square.
    pub fn abs_val(self) -> (r: u8)
        ensures
            r == abs_of(self),
    {
        match self {
            Piece::Empty => 0,
            Piece::RKing | Piece::BKing => 1,
            Piece::RGuard | Piece::BGuard => 2,
            Piece::RBishop | Piece::BBishop => 3,
            Piece::RHorse | Piece::BHorse => 4,
            Piece::RRook | Piece::BRook => 5,
            Piece::RCannon | Piece::BCannon => 6,
            Piece::RPawn | Piece::BPawn => 7,
        }
    }

    /// The piece with the given signed piece-type number: positive Red,
    /// negative Black, anything else the empty square.
    pub fn from_abs(val: i8) -> (r: Piece)
        ensures
            1 <= val <= 7 ==> r == piece_of(Player::Red, val as int),
            -7 <= val <= -1 ==> r == piece_of(Player::Black, -val as int),
            (val == 0 || val > 7 || val < -7) ==> r == Piece::Empty,
    {
        match val {
            -1 => Piece::BKing,
            -2 => Piece::BGuard,
            -3 => Piece::BBishop,
            -4 => Piece::BHorse,
            -5 => Piece::BRook,
            -6 => Piece::BCannon,
            -7 => Piece::BPawn,
            1 => Piece::RKing,
            2 => Piece::RGuard,
            3 => Piece::RBishop,
            4 => Piece::RHorse,
            5 => Piece::RRook,
            6 => Piece::RCannon,
            7 => Piece::RPawn,
            _ => Piece::Empty,
        }
    }

    /// The index of this piece in the 14 per-piece bit sets.
    pub fn get_bb_index(self) -> (r: Option<usize>)
        ensures
            self == Piece::Empty <==> r is None,
            self != Piece::Empty ==> r == Some(bb_idx_of(self) as usize) && 0 <= bb_idx_of(self)
                < 14,
    {
        match self {
            Piece::Empty => None,
            Piece::RKing => Some(0),
            Piece::RGuard => Some(1),
            Piece::RBishop => Some(2),
            Piece::RHorse => Some(3),
            Piece::RRook => Some(4),
            Piece::RCannon => Some(5),
            Piece::RPawn => Some(6),
            Piece::BKing => Some(7),
            Piece::BGuard => Some(8),
            Piece::BBishop => Some(9),
            Piece::BHorse => Some(10),
            Piece::BRook => Some(11),
            Piece::BCannon => Some(12),
            Piece::BPawn => Some(13),
        }
    }

    /// The index of this piece in the Zobrist key table.
    pub fn get_zobrist_idx(self) -> (r: Option<usize>)
        ensures
            self == Piece::Empty <==> r is None,
            self != Piece::Empty ==> r == Some(zob_idx_of(self) as usize) && 0 <= zob_idx_of(self)
                < 14,
    {
        match self {
            Piece::Empty => None,
            Piece::BKing => Some(0),
            Piece::BGuard => Some(1),
            Piece::BBishop => Some(2),
            Piece::BHorse => Some(3),
            Piece::BRook => Some(4),
            Piece::BCannon => Some(5),
            Piece::BPawn => Some(6),
            Piece::RKing => Some(7),
            Piece::RGuard => Some(8),
            Piece::RBishop => Some(9),
            Piece::RHorse => Some(10),
            Piece::RRook => Some(11),
            Piece::RCannon => Some(12),
            Piece::RPawn => Some(13),
        }
    }
}

/// The position-string character of a piece; the empty square prints as '.'.
pub open spec fn fen_char_of(p: Piece) -> char {
    match p {
        Piece::BKing => 'k',
        Piece::BGuard => 'a',
        Piece::BBishop => 'b',
        Piece::BHorse => 'n',
        Piece::BRook => 'r',
        Piece::BCannon => 'c',
        Piece::BPawn => 'p',
        Piece::Empty => '.',
        Piece::RKing => 'K',
        Piece::RGuard => 'A',
        Piece::RBishop => 'B',
        Piece::RHorse => 'N',
        Piece::RRook => 'R',
        Piece::RCannon => 'C',
        Piece::RPawn => 'P',
    }
}

/// The piece denoted by a position-string character, if any.
pub open spec fn piece_from_char(c: char) -> Option<Piece> {
    if c == 'k' {
        Some(Piece::BKing)
    } else if c == 'a' {
        Some(Piece::BGuard)
    } else if c == 'b' {
        Some(Piece::BBishop)
    } else if c == 'n' {
        Some(Piece::BHorse)
    } else if c == 'r' {
        Some(Piece::BRook)
    } else if c == 'c' {
        Some(Piece::BCannon)
    } else if c == 'p' {
        Some(Piece::BPawn)
    } else if c == 'K' {
        Some(Piece::RKing)
    } else if c == 'A' {
        Some(Piece::RGuard)
    } else if c == 'B' {
        Some(Piece::RBishop)
    } else if c == 'N' {
        Some(Piece::RHorse)
    } else if c == 'R' {
        Some(Piece::RRook)
    } else if c == 'C' {
        Some(Piece::RCannon)
    } else if c == 'P' {
        Some(Piece::RPawn)
    } else {
        None
    }
}

impl Player {
    /// The other side.
    pub fn opponent(self) -> (r: Player)
        ensures
            r == opponent_of(self),
    {
        match self {
            Player::Red => Player::Black,
            Player::Black => Player::Red,
        }
    }

    /// The index of this side in the two side-occupancy bit sets.
    pub fn get_bb_idx(self) -> (r: usize)
        ensures
            r == side_idx_of(self),
    {
        if self == Player::Red {
            0
        } else {
            1
        }
    }
}

} // verus!
