//! The opening book: a flat sequence of 16-byte records, each a 64-bit
//! little-endian hash followed by 32-bit little-endian from- and
//! to-squares.  The loader validates the records; the query draws one of
//! the matching moves at random.

use vstd::prelude::*;
use rand::Rng;
use crate::board::Board;
use crate::moves::{Move, from_of, to_of};

verus! {

/// One book record: a position hash and the move to play there.
#[derive(Debug, Clone, Copy)]
pub struct BookEntry {
    pub hash: u64,
    pub mv: Move,
}

/// Every book move fits on the board.
pub open spec fn book_wf(entries: Seq<BookEntry>) -> bool {
    forall|i: int|
        0 <= i < entries.len() ==> from_of(#[trigger] entries[i].mv) < 90 && to_of(entries[i].mv)
            < 90
}

/// The little-endian value of `n` bytes starting at `off`.
pub open spec fn le_bytes(d: Seq<u8>, off: int, n: int) -> int
    decreases n,
{
    if n <= 0 {
        0
    } else {
        d[off] + 256 * le_bytes(d, off + 1, n - 1)
    }
}

/// The hash of record `k`.
pub open spec fn rec_hash(d: Seq<u8>, k: int) -> int {
    le_bytes(d, 16 * k, 8)
}

/// The from-square of record `k`.
pub open spec fn rec_from(d: Seq<u8>, k: int) -> int {
    le_bytes(d, 16 * k + 8, 4)
}

/// The to-square of record `k`.
pub open spec fn rec_to(d: Seq<u8>, k: int) -> int {
    le_bytes(d, 16 * k + 12, 4)
}

/// A byte string is a well-formed book: whole records only, and every
/// square on the board.
pub open spec fn book_bytes_ok(d: Seq<u8>) -> bool {
    &&& d.len() % 16 == 0
    &&& forall|k: int|
        0 <= k < d.len() / 16 ==> #[trigger] rec_from(d, k) < 90 && rec_to(d, k) < 90
}

proof fn lemma_le_bytes_bound(d: Seq<u8>, off: int, n: int)
    requires
        0 <= off,
        off + n <= d.len(),
        n >= 0,
    ensures
        0 <= le_bytes(d, off, n) < pow256(n),
    decreases n,
{
    if n > 0 {
        lemma_le_bytes_bound(d, off + 1, n - 1);
        assert(d[off] < 256);
        assert(le_bytes(d, off, n) < 256 * pow256(n - 1)) by (nonlinear_arith)
            requires
                le_bytes(d, off, n) == d[off] + 256 * le_bytes(d, off + 1, n - 1),
                0 <= d[off] < 256,
                0 <= le_bytes(d, off + 1, n - 1) < pow256(n - 1),
        ;
        assert(le_bytes(d, off, n) >= 0) by (nonlinear_arith)
            requires
                le_bytes(d, off, n) == d[off] + 256 * le_bytes(d, off + 1, n - 1),
                0 <= d[off],
                0 <= le_bytes(d, off + 1, n - 1),
        ;
    }
}

pub open spec fn pow256(n: int) -> int
    decreases n,
{
    if n <= 0 {
        1
    } else {
        256 * pow256(n - 1)
    }
}

/// Reads the little-endian value of `nbytes` bytes at `off`.
fn read_le(d: &Vec<u8>, off: usize, nbytes: usize) -> (r: u64)
    requires
        nbytes <= 8,
        off + nbytes <= d@.len(),
    ensures
        r == le_bytes(d@, off as int, nbytes as int),
{
    let n = d.len();
    let mut j: usize = nbytes;
    let mut r: u64 = 0;
    proof {
        lemma_pow256_values();
    }
    while j > 0
        invariant
            j <= nbytes,
            nbytes <= 8,
            off + nbytes <= d@.len(),
            d@.len() <= usize::MAX,
            r == le_bytes(d@, off + j, nbytes - j),
            r < pow256(nbytes - j),
            pow256(8) == 0x1_0000_0000_0000_0000,
            pow256(7) == 0x100_0000_0000_0000,
        decreases j,
    {
        proof {
            lemma_pow256_values();
            lemma_pow256_mono(nbytes - j, 7);
        }
        let b = d[off + j - 1] as u64;
        r = b + 256 * r;
        proof {
            assert(le_bytes(d@, off + j - 1, nbytes - (j - 1)) == d@[off + j - 1] + 256
                * le_bytes(d@, off + j, nbytes - j));
        }
        j = j - 1;
    }
    r
}

proof fn lemma_pow256_values()
    ensures
        pow256(0) == 1,
        pow256(1) == 0x100,
        pow256(2) == 0x1_0000,
        pow256(3) == 0x100_0000,
        pow256(4) == 0x1_0000_0000,
        pow256(5) == 0x100_0000_0000,
        pow256(6) == 0x1_0000_0000_0000,
        pow256(7) == 0x100_0000_0000_0000,
        pow256(8) == 0x1_0000_0000_0000_0000,
{
    assert(pow256(0) == 1);
    assert(pow256(1) == 0x100);
    assert(pow256(2) == 0x1_0000);
    assert(pow256(3) == 0x100_0000);
    assert(pow256(4) == 0x1_0000_0000);
    assert(pow256(5) == 0x100_0000_0000);
    assert(pow256(6) == 0x1_0000_0000_0000);
    assert(pow256(7) == 0x100_0000_0000_0000);
    assert(pow256(8) == 0x1_0000_0000_0000_0000);
}

proof fn lemma_pow256_mono(a: int, b: int)
    requires
        0 <= a <= b,
    ensures
        pow256(a) <= pow256(b),
    decreases b,
{
    if a < b {
        lemma_pow256_mono(a, b - 1);
        lemma_pow256_nonneg(b - 1);
        assert(pow256(b) == 256 * pow256(b - 1));
        assert(pow256(b - 1) <= 256 * pow256(b - 1)) by (nonlinear_arith)
            requires
                pow256(b - 1) >= 0,
        ;
    }
}

proof fn lemma_pow256_nonneg(n: int)
    ensures
        pow256(n) >= 1,
    decreases n,
{
    if n > 0 {
        lemma_pow256_nonneg(n - 1);
        assert(256 * pow256(n - 1) >= pow256(n - 1)) by (nonlinear_arith)
            requires
                pow256(n - 1) >= 1,
        ;
    }
}

/// Parses a book blob into its records.  A blob with a ragged tail or a
/// square off the board is rejected whole, so the engine never holds a
/// half-read book.
#[verifier::rlimit(100)]
pub fn load_opening_book(data: &Vec<u8>) -> (r: Option<Vec<BookEntry>>)
    ensures
        r is Some <==> book_bytes_ok(data@),
        r is Some ==> {
            let es = r.unwrap()@;
            &&& es.len() == data@.len() / 16
            &&& book_wf(es)
            &&& forall|k: int|
                0 <= k < es.len() ==> (#[trigger] es[k]).hash == rec_hash(data@, k) && from_of(
                    es[k].mv,
                ) == rec_from(data@, k) && to_of(es[k].mv) == rec_to(data@, k)
        },
{
    let n = data.len();
    if n % 16 != 0 {
        return None;
    }
    let count = n / 16;
    let mut entries: Vec<BookEntry> = Vec::new();
    let mut k: usize = 0;
    while k < count
        invariant
            k <= count,
            count == data@.len() / 16,
            data@.len() % 16 == 0,
            entries@.len() == k,
            forall|j: int|
                0 <= j < k ==> (#[trigger] entries@[j]).hash == rec_hash(data@, j) && from_of(
                    entries@[j].mv,
                ) == rec_from(data@, j) && to_of(entries@[j].mv) == rec_to(data@, j) && from_of(
                    entries@[j].mv,
                ) < 90 && to_of(entries@[j].mv) < 90,
            forall|j: int| 0 <= j < k ==> #[trigger] rec_from(data@, j) < 90 && rec_to(data@, j)
                < 90,
            data@.len() <= usize::MAX,
        decreases count - k,
    {
        proof {
            assert(16 * (k as int) + 16 <= data@.len()) by (nonlinear_arith)
                requires
                    k < count,
                    count == data@.len() / 16,
                    data@.len() % 16 == 0,
            ;
        }
        let off = 16 * k;
        let hash = read_le(data, off, 8);
        let from_sq = read_le(data, off + 8, 4);
        let to_sq = read_le(data, off + 12, 4);
        if from_sq >= 90 || to_sq >= 90 {
            proof {
                assert(rec_from(data@, k as int) >= 90 || rec_to(data@, k as int) >= 90);
                assert(!book_bytes_ok(data@));
            }
            return None;
        }
        let mv = Move::new(from_sq as usize, to_sq as usize, None);
        entries.push(BookEntry { hash, mv });
        k = k + 1;
    }
    Some(entries)
}

/// The move is recorded in the book for the position with hash `key`.
pub open spec fn is_book_move(book: Seq<BookEntry>, key: u64, mv: Move) -> bool {
    exists|e: int| 0 <= e < book.len() && (#[trigger] book[e]).hash == key && book[e].mv == mv
}

/// Picks one of the book moves recorded for the current position,
/// uniformly at random; `None` when the position is not in the book.
pub fn query_opening_book(book: &Vec<BookEntry>, board: &Board) -> (r: Option<Move>)
    requires
        book_wf(book@),
    ensures
        r is Some ==> is_book_move(book@, board@.hash, r.unwrap()),
        r is Some ==> from_of(r.unwrap()) < 90 && to_of(r.unwrap()) < 90,
        r is None ==> forall|i: int|
            0 <= i < book@.len() ==> (#[trigger] book@[i]).hash != board@.hash,
{
    let key = board.hash_key;
    let mut matches: Vec<Move> = Vec::new();
    let n = book.len();
    let mut i: usize = 0;
    while i < n
        invariant
            i <= n,
            n == book@.len(),
            book_wf(book@),
            key == board@.hash,
            forall|j: int| #![trigger matches@[j]]
                0 <= j < matches@.len() ==> is_book_move(book@, key, matches@[j]),
            matches@.len() == 0 ==> forall|e: int| 0 <= e < i ==> (#[trigger] book@[e]).hash
                != key,
        decreases n - i,
    {
        let entry = book[i];
        let ghost m0 = matches@;
        if entry.hash == key {
            matches.push(entry.mv);
        }
        proof {
            assert forall|j: int| #![trigger matches@[j]]
                0 <= j < matches@.len() implies is_book_move(book@, key, matches@[j]) by {
                if j < m0.len() {
                    assert(matches@[j] == m0[j]);
                } else {
                    assert((#[trigger] book@[i as int]).hash == key && book@[i as int].mv
                        == matches@[j]);
                }
            }
            if matches@.len() == 0 {
                assert((#[trigger] book@[i as int]).hash != key);
            }
        }
        i = i + 1;
    }
    if matches.len() == 0 {
        return None;
    }
    let idx = random_below(matches.len());
    let mv = matches[idx];
    proof {
        assert(is_book_move(book@, key, mv));
        let e = choose|e: int|
            0 <= e < book@.len() && (#[trigger] book@[e]).hash == key && book@[e].mv == mv;
        assert(from_of(book@[e].mv) < 90);
    }
    Some(mv)
}

/// Relies on `rand::Rng::gen_range` over `0..n`, which returns a value
/// of the nonempty range.
#[verifier::external_body]
fn random_below(n: usize) -> (r: usize)
    requires
        n >= 1,
    ensures
        r < n,
{
    rand::thread_rng().gen_range(0..n)
}

} // verus!
