//! Stable hashes of texts.

use std::collections::hash_map::DefaultHasher;
use std::hash::Hasher;

use vstd::prelude::*;
use vstd::std_specs::hash::DefaultHasherAdditionalSpecFns;

verus! {

/// The hash of a text as the default hasher sees it: its bytes and a byte that
/// no text holds. The hasher has fixed keys, so the hash of a text is the same
/// in every process.
pub open spec fn hash_of(s: Seq<char>) -> u64 {
    DefaultHasher::spec_finish(seq![vstd::utf8::encode_utf8(s), seq![0xffu8]])
}

/// The hash of a text.
pub fn hash_text(s: &str) -> (hash: u64)
    ensures
        hash == hash_of(s@),
{
    let mut h = DefaultHasher::new();
    h.write(s.as_bytes());
    let end: [u8; 1] = [0xff];
    h.write(end.as_slice());
    assert(end@ =~= seq![0xffu8]);
    assert(h@ =~= seq![vstd::utf8::encode_utf8(s@), seq![0xffu8]]);
    h.finish()
}

} // verus!
