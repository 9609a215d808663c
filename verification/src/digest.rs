//! Digests: the seed of a shuffle from a secret, and names for a round by
//! its game and for a turn by its round.

use std::collections::hash_map::DefaultHasher;
use std::hash::Hasher;
use vstd::bytes::{spec_u32_to_le_bytes, spec_u64_to_le_bytes, u32_to_le_bytes, u64_to_le_bytes};
use vstd::prelude::*;
use vstd::std_specs::hash::DefaultHasherAdditionalSpecFns;

verus! {

/// The digest of two 64-bit numbers: what the default hasher makes of their
/// bytes, the low byte of each first.
pub open spec fn seed_digest(secret: u64, salt: u64) -> u64 {
    DefaultHasher::spec_finish(seq![spec_u64_to_le_bytes(secret), spec_u64_to_le_bytes(salt)])
}

/// Derives the seed of a shuffle from a secret and a salt: their digest.
/// The same secret and salt give the same seed. The seed is as hard to
/// foresee as the secret is to guess and the digest to invert; this function
/// states neither.
pub fn derive_seed(secret: u64, salt: u64) -> (seed: u64)
    ensures
        seed == seed_digest(secret, salt),
{
    let mut hasher = DefaultHasher::new();
    let a = u64_to_le_bytes(secret);
    hasher.write(a.as_slice());
    let b = u64_to_le_bytes(salt);
    hasher.write(b.as_slice());
    assert(hasher@ =~= seq![spec_u64_to_le_bytes(secret), spec_u64_to_le_bytes(salt)]);
    hasher.finish()
}

/// The digest of a 64-bit number followed by a 32-bit number: what the
/// default hasher makes of their bytes, the low byte of each first.
pub open spec fn pair_digest(first: u64, second: u32) -> u64 {
    DefaultHasher::spec_finish(seq![spec_u64_to_le_bytes(first), spec_u32_to_le_bytes(second)])
}

fn digest_pair(first: u64, second: u32) -> (digest: u64)
    ensures
        digest == pair_digest(first, second),
{
    let mut hasher = DefaultHasher::new();
    let a = u64_to_le_bytes(first);
    hasher.write(a.as_slice());
    let b = u32_to_le_bytes(second);
    hasher.write(b.as_slice());
    assert(hasher@ =~= seq![spec_u64_to_le_bytes(first), spec_u32_to_le_bytes(second)]);
    hasher.finish()
}

/// A digest of a game and the number of one of its rounds. The same game
/// and number give the same digest. Two rounds may share a digest, which is
/// why the tables number their rows from a counter instead.
pub fn generate_round_id(game_id: u64, round_number: u32) -> (id: u64)
    ensures
        id == pair_digest(game_id, round_number),
{
    digest_pair(game_id, round_number)
}

/// A digest of a round and the number of one of its turns. The same round
/// and number give the same digest. Two turns may share a digest, which is
/// why the tables number their rows from a counter instead.
pub fn generate_turn_id(round_id: u64, turn_number: u32) -> (id: u64)
    ensures
        id == pair_digest(round_id, turn_number),
{
    digest_pair(round_id, turn_number)
}

} // verus!
