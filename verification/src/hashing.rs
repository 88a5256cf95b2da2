//! Hashing of game strings, used to recognise a turn that was seen before.

use std::collections::hash_map::DefaultHasher;
use std::hash::Hasher;
use vstd::prelude::*;
use vstd::std_specs::hash::DefaultHasherAdditionalSpecFns;
use vstd::utf8::encode_utf8;

verus! {

/// The writes that hashing a string makes on a hasher: its UTF-8 bytes,
/// then the separator byte `0xff` (what `Hash for str` feeds a `Hasher`).
pub open spec fn str_hash_writes(s: Seq<char>) -> Seq<Seq<u8>> {
    seq![encode_utf8(s), seq![0xffu8]]
}

/// The hash that `calculate_hash` gives for a string with these characters.
pub open spec fn spec_calculate_hash(s: Seq<char>) -> u64 {
    DefaultHasher::spec_finish(str_hash_writes(s))
}

/// Hashes a game state with a fresh `DefaultHasher`, as `Hash for str`
/// does: the string's bytes, then `0xff`.
pub fn calculate_hash(game_state: &str) -> (hash: u64)
    ensures
        hash == spec_calculate_hash(game_state@),
{
    let mut hasher = DefaultHasher::new();
    let bytes = game_state.as_bytes();
    hasher.write(bytes);
    assert(hasher@ =~= seq![encode_utf8(game_state@)]);
    let separator: Vec<u8> = vec![0xffu8];
    assert(separator@ =~= seq![0xffu8]);
    hasher.write(separator.as_slice());
    assert(hasher@ =~= str_hash_writes(game_state@));
    hasher.finish()
}

} // verus!
