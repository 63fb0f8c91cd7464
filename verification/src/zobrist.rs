//! Zobrist hashing keys.
//!
//! The keys form a fixed pseudo-random table indexed by (piece Zobrist
//! index, rank, file).  Each key is produced by the splitmix64 output
//! mixer applied to the table index, so every run of the engine uses the
//! same keys and hashes are reproducible.

use vstd::prelude::*;

verus! {

/// The key xored into the hash exactly when the side to move is Black.
pub const ZOBRIST_PLAYER: u64 = 0x9E3779B97F4A7C15;

pub const MIX_MUL_1: u64 = 0xBF58476D1CE4E5B9;

pub const MIX_MUL_2: u64 = 0x94D049BB133111EB;

pub const MIX_STEP: u64 = 0x9E3779B97F4A7C15;

/// The low 64 bits of a product of two 64-bit values.
pub open spec fn mul_lo64(a: u64, b: u64) -> u64 {
    ((a * b) % 0x1_0000_0000_0000_0000) as u64
}

/// The splitmix64 output mixer.
pub open spec fn mix64(x: u64) -> u64 {
    let a = mul_lo64(x ^ (x >> 30u64), MIX_MUL_1);
    let b = mul_lo64(a ^ (a >> 27u64), MIX_MUL_2);
    b ^ (b >> 31u64)
}

/// The Zobrist key for piece Zobrist index `z`, rank `r`, file `c`.
pub open spec fn zobrist_key(z: int, r: int, c: int) -> u64 {
    mix64(mul_lo64((z * 90 + r * 9 + c + 1) as u64, MIX_STEP))
}

/// The low 64 bits of a 64-by-64-bit product.
fn mul_lo64_exec(a: u64, b: u64) -> (r: u64)
    ensures
        r == mul_lo64(a, b),
{
    let au = a as u128;
    let bu = b as u128;
    proof {
        assert(au * bu <= 0xFFFF_FFFF_FFFF_FFFFu128 * 0xFFFF_FFFF_FFFF_FFFFu128)
            by (nonlinear_arith)
            requires
                au <= 0xFFFF_FFFF_FFFF_FFFFu128,
                bu <= 0xFFFF_FFFF_FFFF_FFFFu128,
        ;
    }
    let p: u128 = au * bu;
    proof {
        assert(p % 0x1_0000_0000_0000_0000u128 == (p & 0xFFFF_FFFF_FFFF_FFFFu128)) by (bit_vector);
        assert((p & 0xFFFF_FFFF_FFFF_FFFFu128) <= 0xFFFF_FFFF_FFFF_FFFFu128) by (bit_vector);
    }
    (p & 0xFFFF_FFFF_FFFF_FFFF) as u64
}

/// The splitmix64 output mixer.
fn mix64_exec(x: u64) -> (r: u64)
    ensures
        r == mix64(x),
{
    let a = mul_lo64_exec(x ^ (x >> 30), MIX_MUL_1);
    let b = mul_lo64_exec(a ^ (a >> 27), MIX_MUL_2);
    b ^ (b >> 31)
}

/// The Zobrist key for piece Zobrist index `z`, rank `r`, file `c`.
pub fn zobrist_key_at(z: usize, r: usize, c: usize) -> (k: u64)
    requires
        z < 14,
        r < 10,
        c < 9,
    ensures
        k == zobrist_key(z as int, r as int, c as int),
{
    let idx: u64 = (z as u64) * 90 + (r as u64) * 9 + (c as u64) + 1;
    mix64_exec(mul_lo64_exec(idx, MIX_STEP))
}

} // verus!
