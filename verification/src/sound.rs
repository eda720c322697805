//! The sound cues that the game raises, and the integer hash on which its
//! noise voice is built.

use vstd::prelude::*;

verus! {

/// A sound effect that game logic can start or stop.
pub enum SoundTypes {
    FootstepSound,
    JumpSound,
    DeathSound,
}

/// Wang's 32-bit integer hash: two rounds of fold-and-multiply, each
/// multiplication wrapping at 32 bits.
pub open spec fn wang_hash_spec(seed: u32) -> u32 {
    let folded: u32 = (seed ^ 61) ^ (seed >> 16);
    let scaled: u32 = folded.wrapping_mul(9);
    let mixed: u32 = scaled ^ (scaled >> 4);
    let spread: u32 = mixed.wrapping_mul(0x27d4eb2d);
    spread ^ (spread >> 15)
}

/// Hashes `seed` to a well-mixed 32-bit value.
pub fn wang_hash(seed: u32) -> (hash: u32)
    ensures
        hash == wang_hash_spec(seed),
{
    let seed: u32 = (seed ^ 61) ^ (seed >> 16);
    let seed: u32 = seed.wrapping_mul(9);
    let seed: u32 = seed ^ (seed >> 4);
    let seed: u32 = seed.wrapping_mul(0x27d4eb2d);
    seed ^ (seed >> 15)
}

} // verus!
