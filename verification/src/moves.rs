//! The packed move representation and the move list.

use vstd::prelude::*;
use crate::constants::Piece;

verus! {

/// A move packed into 16 bits: bits 0..6 the from-square, bits 7..13 the
/// to-square, bit 14 the capture flag.
#[derive(Debug, Clone, Copy, PartialEq, Eq, Structural)]
pub struct Move(u16);

/// The from-square encoded in a move.
pub closed spec fn from_of(m: Move) -> int {
    (m.0 & 0x7F) as int
}

/// The to-square encoded in a move.
pub closed spec fn to_of(m: Move) -> int {
    ((m.0 >> 7u16) & 0x7F) as int
}

/// The capture flag encoded in a move.
pub closed spec fn cap_of(m: Move) -> bool {
    (m.0 >> 14u16) & 1 == 1
}

/// The null move: from-square and to-square both zero.
pub open spec fn is_null_move(m: Move) -> bool {
    from_of(m) == 0 && to_of(m) == 0
}

impl Move {
    /// Packs a move.  The capture flag records whether a captured piece was
    /// supplied; the piece itself is not stored.
    pub fn new(from_sq: usize, to_sq: usize, captured_piece: Option<Piece>) -> (r: Move)
        requires
            from_sq < 90,
            to_sq < 90,
        ensures
            from_of(r) == from_sq,
            to_of(r) == to_sq,
            cap_of(r) == captured_piece is Some,
    {
        let f = from_sq as u16;
        let t = to_sq as u16;
        let cap: u16 = if captured_piece.is_some() {
            1
        } else {
            0
        };
        let v: u16 = f | (t << 7u16) | (cap << 14u16);
        proof {
            assert(f < 90 && t < 90 && cap <= 1 ==> {
                let v2 = f | (t << 7u16) | (cap << 14u16);
                &&& (v2 & 0x7F) == f
                &&& ((v2 >> 7u16) & 0x7F) == t
                &&& ((v2 >> 14u16) & 1) == cap
            }) by (bit_vector);
        }
        Move(v)
    }

    /// The source square.
    pub fn from_sq(&self) -> (r: usize)
        ensures
            r == from_of(*self),
            r < 128,
    {
        proof {
            let v = self.0;
            assert((v & 0x7F) < 128) by (bit_vector);
        }
        (self.0 & 0x7F) as usize
    }

    /// The destination square.
    pub fn to_sq(&self) -> (r: usize)
        ensures
            r == to_of(*self),
            r < 128,
    {
        proof {
            let v = self.0;
            assert(((v >> 7u16) & 0x7F) < 128) by (bit_vector);
        }
        ((self.0 >> 7u16) & 0x7F) as usize
    }

    /// Whether the move was recorded as a capture.
    pub fn is_capture(&self) -> (r: bool)
        ensures
            r == cap_of(*self),
    {
        proof {
            let v = self.0;
            assert(((v >> 14u16) & 1 != 0) == ((v >> 14u16) & 1 == 1)) by (bit_vector);
        }
        (self.0 >> 14u16) & 1 != 0
    }

    /// The same move reflected left-to-right.
    pub fn mirrored(&self) -> (r: Move)
        requires
            from_of(*self) < 90,
            to_of(*self) < 90,
        ensures
            from_of(r) == mirror_sq(from_of(*self)),
            to_of(r) == mirror_sq(to_of(*self)),
            cap_of(r) == cap_of(*self),
    {
        let from = self.from_sq();
        let to = self.to_sq();
        let mirrored_from = (from / 9) * 9 + (8 - (from % 9));
        let mirrored_to = (to / 9) * 9 + (8 - (to % 9));
        // Only the presence of a captured piece matters to the flag;
        // the piece itself is never stored.
        let cap: Option<Piece> = if self.is_capture() {
            Some(Piece::Empty)
        } else {
            None
        };
        Move::new(mirrored_from, mirrored_to, cap)
    }

    /// The four-character coordinate form of this move.
    pub fn to_uci_string(&self) -> (r: String)
        requires
            from_of(*self) < 90,
            to_of(*self) < 90,
        ensures
            r@ == uci_chars(from_of(*self), to_of(*self)),
    {
        let from_sq = self.from_sq();
        let to_sq = self.to_sq();
        let mut s = String::new();
        s.append(file_str(from_sq % 9));
        s.append(digit_str(9 - from_sq / 9));
        s.append(file_str(to_sq % 9));
        s.append(digit_str(9 - to_sq / 9));
        proof {
            assert(s@ =~= uci_chars(from_of(*self), to_of(*self)));
        }
        s
    }
}

/// The square in the same rank with the file reflected.
pub open spec fn mirror_sq(s: int) -> int {
    (s / 9) * 9 + (8 - (s % 9))
}

/// The letter of a file index 0..8.
pub open spec fn file_letter(f: int) -> char {
    if f == 0 {
        'a'
    } else if f == 1 {
        'b'
    } else if f == 2 {
        'c'
    } else if f == 3 {
        'd'
    } else if f == 4 {
        'e'
    } else if f == 5 {
        'f'
    } else if f == 6 {
        'g'
    } else if f == 7 {
        'h'
    } else {
        'i'
    }
}

/// The digit character of a value 0..9.
pub open spec fn digit_letter(d: int) -> char {
    if d == 0 {
        '0'
    } else if d == 1 {
        '1'
    } else if d == 2 {
        '2'
    } else if d == 3 {
        '3'
    } else if d == 4 {
        '4'
    } else if d == 5 {
        '5'
    } else if d == 6 {
        '6'
    } else if d == 7 {
        '7'
    } else if d == 8 {
        '8'
    } else {
        '9'
    }
}

/// The coordinate form of a move: file letter and displayed rank of each
/// square, the from-square first.
pub open spec fn uci_chars(from: int, to: int) -> Seq<char> {
    seq![
        file_letter(from % 9),
        digit_letter(9 - from / 9),
        file_letter(to % 9),
        digit_letter(9 - to / 9),
    ]
}

/// The letter a..i of a file index 0..8.
pub fn file_str(f: usize) -> (r: &'static str)
    requires
        f < 9,
    ensures
        r@ == seq![file_letter(f as int)],
{
    proof {
        reveal_strlit("a");
        reveal_strlit("b");
        reveal_strlit("c");
        reveal_strlit("d");
        reveal_strlit("e");
        reveal_strlit("f");
        reveal_strlit("g");
        reveal_strlit("h");
        reveal_strlit("i");
        assert(("a")@ =~= seq!['a']);
        assert(("b")@ =~= seq!['b']);
        assert(("c")@ =~= seq!['c']);
        assert(("d")@ =~= seq!['d']);
        assert(("e")@ =~= seq!['e']);
        assert(("f")@ =~= seq!['f']);
        assert(("g")@ =~= seq!['g']);
        assert(("h")@ =~= seq!['h']);
        assert(("i")@ =~= seq!['i']);
    }
    match f {
        0 => "a",
        1 => "b",
        2 => "c",
        3 => "d",
        4 => "e",
        5 => "f",
        6 => "g",
        7 => "h",
        _ => "i",
    }
}

/// The decimal digit of a value 0..9.
pub fn digit_str(d: usize) -> (r: &'static str)
    requires
        d <= 9,
    ensures
        r@ == seq![digit_letter(d as int)],
{
    proof {
        reveal_strlit("0");
        reveal_strlit("1");
        reveal_strlit("2");
        reveal_strlit("3");
        reveal_strlit("4");
        reveal_strlit("5");
        reveal_strlit("6");
        reveal_strlit("7");
        reveal_strlit("8");
        reveal_strlit("9");
        assert(("0")@ =~= seq!['0']);
        assert(("1")@ =~= seq!['1']);
        assert(("2")@ =~= seq!['2']);
        assert(("3")@ =~= seq!['3']);
        assert(("4")@ =~= seq!['4']);
        assert(("5")@ =~= seq!['5']);
        assert(("6")@ =~= seq!['6']);
        assert(("7")@ =~= seq!['7']);
        assert(("8")@ =~= seq!['8']);
        assert(("9")@ =~= seq!['9']);
    }
    match d {
        0 => "0",
        1 => "1",
        2 => "2",
        3 => "3",
        4 => "4",
        5 => "5",
        6 => "6",
        7 => "7",
        8 => "8",
        _ => "9",
    }
}

/// A growable list of moves.
#[derive(Debug, Clone)]
pub struct MoveList {
    moves: Vec<Move>,
}

impl View for MoveList {
    type V = Seq<Move>;

    closed spec fn view(&self) -> Seq<Move> {
        self.moves@
    }
}

impl MoveList {
    /// An empty list.
    pub fn new() -> (r: MoveList)
        ensures
            r@ == Seq::<Move>::empty(),
    {
        MoveList { moves: Vec::new() }
    }

    /// Appends a move.
    pub fn add(&mut self, mv: Move)
        ensures
            final(self)@ == old(self)@.push(mv),
    {
        self.moves.push(mv);
    }

    /// The number of moves held.
    pub fn len(&self) -> (r: usize)
        ensures
            r == self@.len(),
    {
        self.moves.len()
    }

    /// Whether the list holds no moves.
    pub fn is_empty(&self) -> (r: bool)
        ensures
            r == (self@.len() == 0),
    {
        self.moves.len() == 0
    }

    /// The move at the given position.
    pub fn get(&self, i: usize) -> (r: Move)
        requires
            i < self@.len(),
        ensures
            r == self@[i as int],
    {
        self.moves[i]
    }

    /// The moves as a slice.
    pub fn as_slice(&self) -> (r: &[Move])
        ensures
            r@ == self@,
    {
        self.moves.as_slice()
    }

    /// Replaces the move at the given position.
    pub fn set(&mut self, i: usize, mv: Move)
        requires
            i < old(self)@.len(),
        ensures
            final(self)@ == old(self)@.update(i as int, mv),
    {
        self.moves.set(i, mv);
    }
}

} // verus!
