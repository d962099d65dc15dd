//! What the engine asks of the three functions it is built from.
//!
//! The engine treats the key hash, the keystream generator and the
//! segment-key derivation as pure functions.  The first two are called once,
//! when an engine is built; the derivation is kept and called by every
//! transform, so the engine asks at construction that it be a function: it may
//! be called on every input, and the same input always gives the same output.

use vstd::prelude::*;

verus! {

/// All results of `key_hash` on `key` agree.
pub open spec fn hash_is_deterministic<H, K: FnOnce(&[u8]) -> H>(key_hash: K, key: &[u8]) -> bool {
    forall|a: H, b: H| key_hash.ensures((key,), a) && key_hash.ensures((key,), b) ==> a == b
}

/// All results of `keystream_generate` on `key` and `len` hold the same bytes.
pub open spec fn keystream_is_deterministic<G: FnOnce(&[u8], usize) -> Vec<u8>>(
    keystream_generate: G,
    key: &[u8],
    len: usize,
) -> bool {
    forall|a: Vec<u8>, b: Vec<u8>|
        keystream_generate.ensures((key, len), a) && keystream_generate.ensures((key, len), b)
            ==> a@ == b@
}

/// `derive` may be called on every input, and all its results on one input
/// agree.
pub open spec fn derive_is_function<H, D: Fn(u64, u8, H) -> u64>(derive: D) -> bool {
    &&& forall|index: u64, seed: u8, hash: H| derive.requires((index, seed, hash))
    &&& forall|index: u64, seed: u8, hash: H, a: u64, b: u64|
        derive.ensures((index, seed, hash), a) && derive.ensures((index, seed, hash), b) ==> a
            == b
}

/// The mathematical function that `derive` computes: on each input, the value
/// that `derive` returns on it.
pub open spec fn derive_of<H, D: Fn(u64, u8, H) -> u64>(derive: D) -> spec_fn(u64, u8, H) -> u64 {
    |index: u64, seed: u8, hash: H| choose|r: u64| derive.ensures((index, seed, hash), r)
}

/// Whatever `derive` returns on an input is `f` of that input.
pub open spec fn computes<H, D: Fn(u64, u8, H) -> u64>(
    derive: D,
    f: spec_fn(u64, u8, H) -> u64,
) -> bool {
    forall|index: u64, seed: u8, hash: H, r: u64|
        derive.ensures((index, seed, hash), r) ==> r == f(index, seed, hash)
}

} // verus!
