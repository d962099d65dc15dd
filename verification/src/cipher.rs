//! The engine: immutable tables built once from a key, and the in-place
//! transform of any byte range of the stream.

use crate::collaborators::computes;
use crate::collaborators::derive_is_function;
use crate::collaborators::derive_of;
use crate::model::Tables;
use crate::model::FIRST_SEGMENT_SIZE;
use crate::model::OTHER_SEGMENT_SIZE;
use crate::model::RC4_STREAM_CACHE_SIZE;
use crate::model::SKIP_MASK;
use vstd::prelude::*;
use vstd::slice::slice_to_vec;

verus! {

/// Why an engine could not be built.
#[derive(Debug, Clone, Copy, PartialEq, Eq, Structural)]
pub enum Error {
    /// The key is empty, so no index could be reduced modulo its length.
    EmptyKey,
    /// The keystream does not have the length of the cache.
    KeyStreamSize,
}

/// A QMC2 cipher over an RC4-style keystream.
///
/// `H` is the scalar that the key hash returns; the engine only hands it on
/// to the derivation `D`.
#[derive(Debug, PartialEq)]
pub struct QMC2RC4<H: Copy, D: Fn(u64, u8, H) -> u64> {
    hash: H,
    key: Vec<u8>,
    key_stream: Vec<u8>,
    derive: D,
}

impl<H: Copy, D: Fn(u64, u8, H) -> u64> View for QMC2RC4<H, D> {
    type V = Tables<H>;

    closed spec fn view(&self) -> Tables<H> {
        Tables {
            key: self.key@,
            hash: self.hash,
            key_stream: self.key_stream@,
            derive: derive_of(self.derive),
        }
    }
}

impl<H: Copy, D: Fn(u64, u8, H) -> u64 + Copy> Clone for QMC2RC4<H, D> {
    /// A second engine with the same tables.
    fn clone(&self) -> (r: Self)
        ensures
            r@ == self@,
            r.derivation() == self.derivation(),
    {
        proof {
            use_type_invariant(self);
        }
        let key = self.key.clone();
        let key_stream = self.key_stream.clone();
        assert(key@ =~= self.key@);
        assert(key_stream@ =~= self.key_stream@);
        QMC2RC4 { hash: self.hash, key, key_stream, derive: self.derive }
    }
}

impl<H: Copy, D: Fn(u64, u8, H) -> u64> QMC2RC4<H, D> {
    #[verifier::type_invariant]
    spec fn inv(&self) -> bool {
        &&& self@.wf()
        &&& derive_is_function(self.derive)
    }

    /// The derivation that the engine calls.
    pub closed spec fn derivation(&self) -> D {
        self.derive
    }

    /// The segment key that the tables hold for `index` is a value that the
    /// derivation has returned for it.
    spec fn derived(&self, index: nat) -> bool {
        self.derive.ensures(
            (index as u64, self@.seed(index), self.hash),
            self@.segment_key(index),
        )
    }

    /// The index whose segment key governs position `pos`: the position
    /// itself in the first segment, the block id after it.
    spec fn segment_index(pos: nat) -> nat {
        if pos < FIRST_SEGMENT_SIZE {
            pos
        } else {
            pos / (OTHER_SEGMENT_SIZE as nat)
        }
    }

    /// What construction returns for a key, a hash, a keystream and a
    /// derivation: an engine with these tables if the key is not empty and the
    /// keystream has the length of the cache, else the error that names the
    /// first of the two that fails.
    pub open spec fn built(
        r: Result<Self, Error>,
        key: Seq<u8>,
        hash: H,
        key_stream: Seq<u8>,
        derive: D,
    ) -> bool {
        match r {
            Ok(cipher) => {
                &&& key.len() > 0
                &&& key_stream.len() == RC4_STREAM_CACHE_SIZE
                &&& cipher@ == (Tables { key, hash, key_stream, derive: derive_of(derive) })
                &&& cipher.derivation() == derive
            },
            Err(Error::EmptyKey) => key.len() == 0,
            Err(Error::KeyStreamSize) => key.len() > 0 && key_stream.len()
                != RC4_STREAM_CACHE_SIZE,
        }
    }

    /// Builds the engine from tables that were computed elsewhere.
    pub fn from_parts(key: &[u8], hash: H, key_stream: Vec<u8>, derive: D) -> (r: Result<
        Self,
        Error,
    >)
        requires
            derive_is_function(derive),
        ensures
            Self::built(r, key@, hash, key_stream@, derive),
    {
        if key.len() == 0 {
            return Err(Error::EmptyKey);
        }
        if key_stream.len() != RC4_STREAM_CACHE_SIZE {
            return Err(Error::KeyStreamSize);
        }
        Ok(QMC2RC4 { hash, key: slice_to_vec(key), key_stream, derive })
    }

    /// Builds the engine for `key`: fills the keystream cache from
    /// `keystream_generate`, takes the hash from `key_hash`, and keeps
    /// `derive` for the transform.
    ///
    /// An empty key is rejected before any of them is called.  Otherwise the
    /// result is that of `from_parts` on what the two calls returned.
    pub fn new<K, G>(key: &[u8], key_hash: K, keystream_generate: G, derive: D) -> (r: Result<
        Self,
        Error,
    >) where K: FnOnce(&[u8]) -> H, G: FnOnce(&[u8], usize) -> Vec<u8>
        requires
            key@.len() > 0 ==> key_hash.requires((key,)),
            key@.len() > 0 ==> keystream_generate.requires((key, RC4_STREAM_CACHE_SIZE)),
            derive_is_function(derive),
        ensures
            key@.len() == 0 ==> r matches Err(Error::EmptyKey),
            key@.len() > 0 ==> exists|hash: H, key_stream: Vec<u8>|
                {
                    &&& key_hash.ensures((key,), hash)
                    &&& keystream_generate.ensures((key, RC4_STREAM_CACHE_SIZE), key_stream)
                    &&& Self::built(r, key@, hash, key_stream@, derive)
                },
    {
        if key.len() == 0 {
            return Err(Error::EmptyKey);
        }
        let key_stream = keystream_generate(key, RC4_STREAM_CACHE_SIZE);
        let hash = key_hash(key);
        let ghost stream = key_stream;
        let r = Self::from_parts(key, hash, key_stream, derive);
        assert(Self::built(r, key@, hash, stream@, derive));
        r
    }

    fn process_first_segment(&self, data: &mut [u8], offset: usize)
        requires
            offset + old(data)@.len() <= FIRST_SEGMENT_SIZE,
        ensures
            final(data)@ == self@.decrypted(old(data)@, offset as nat),
            forall|pos: nat| offset <= pos < offset + old(data)@.len() ==> self.derived(pos),
    {
        proof {
            use_type_invariant(self);
        }
        let n = self.key.len();
        let len = data.len();
        let mut i: usize = 0;
        while i < len
            invariant
                self.inv(),
                n == self.key@.len(),
                len == old(data)@.len(),
                data@.len() == len,
                offset + len <= FIRST_SEGMENT_SIZE,
                0 <= i <= len,
                forall|j: int|
                    0 <= j < i ==> data@[j] == self@.decrypted(old(data)@, offset as nat)[j],
                forall|j: int| i <= j < len ==> data@[j] == old(data)@[j],
                forall|pos: nat| offset <= pos < offset + i ==> self.derived(pos),
            decreases len - i,
        {
            let pos = offset + i;
            let idx = (self.derive)(pos as u64, self.key[pos % n], self.hash);
            let idx = idx % (n as u64);
            data[i] = data[i] ^ self.key[idx as usize];
            i += 1;
        }
        assert(data@ =~= self@.decrypted(old(data)@, offset as nat));
    }

    fn process_other_segment(&self, data: &mut [u8], id: usize, block_offset: usize)
        requires
            block_offset + old(data)@.len() <= OTHER_SEGMENT_SIZE,
        ensures
            final(data)@.len() == old(data)@.len(),
            forall|j: int|
                0 <= j < old(data)@.len() ==> #[trigger] final(data)@[j] == old(data)@[j]
                    ^ self@.key_stream[self@.skip(id as nat) + block_offset + j],
            self.derived(id as nat),
    {
        proof {
            use_type_invariant(self);
        }
        let n = self.key.len();

        let seed = self.key[id % n];
        let skip = (self.derive)(id as u64, seed, self.hash);
        assert(skip & SKIP_MASK <= 0x1FF) by (bit_vector)
            requires
                SKIP_MASK == 0x1FF,
        ;
        let skip = (skip & SKIP_MASK) as usize;

        let len = data.len();
        let mut i: usize = 0;
        while i < len
            invariant
                self.inv(),
                len == old(data)@.len(),
                data@.len() == len,
                block_offset + len <= OTHER_SEGMENT_SIZE,
                skip == self@.skip(id as nat),
                skip <= 0x1FF,
                0 <= i <= len,
                forall|j: int|
                    0 <= j < i ==> #[trigger] data@[j] == old(data)@[j] ^ self@.key_stream[skip
                        + block_offset + j],
                forall|j: int| i <= j < len ==> data@[j] == old(data)@[j],
            decreases len - i,
        {
            data[i] = data[i] ^ self.key_stream[skip + block_offset + i];
            i += 1;
        }
    }

    /// The transform looks the same under every function that the derivation
    /// computes, wherever the segment keys it uses are values that the
    /// derivation has returned.
    proof fn known_derivation(
        &self,
        f: spec_fn(u64, u8, H) -> u64,
        data: Seq<u8>,
        offset: nat,
    )
        requires
            computes(self.derive, f),
            forall|pos: nat|
                offset <= pos < offset + data.len() ==> #[trigger] self.derived(
                    Self::segment_index(pos),
                ),
        ensures
            self@.decrypted(data, offset) == self@.with_derive(f).decrypted(data, offset),
    {
        let t = self@;
        let u = self@.with_derive(f);
        assert forall|pos: nat| offset <= pos < offset + data.len() implies #[trigger] t.mask(pos)
            == u.mask(pos) by {
            let index = Self::segment_index(pos);
            assert(self.derived(index));
            assert(t.segment_key(index) == u.segment_key(index));
        }
        assert(t.decrypted(data, offset) =~= u.decrypted(data, offset));
    }

    /// Transforms `data` in place, taking it to start at stream position
    /// `offset`: every byte is XORed with the mask of its position.
    ///
    /// The range may begin and end anywhere; it is cut at the end of the
    /// first segment and at every block boundary.  A caller that knows a
    /// function the derivation computes may read the result off the tables
    /// with that function in them.
    pub fn decrypt(&self, data: &mut [u8], offset: usize)
        ensures
            final(data)@ == self@.decrypted(old(data)@, offset as nat),
            forall|f: spec_fn(u64, u8, H) -> u64| #[trigger]
                computes(self.derivation(), f) ==> final(data)@ == self@.with_derive(f).decrypted(
                    old(data)@,
                    offset as nat,
                ),
    {
        let ghost start = offset as nat;
        let ghost input = data@;
        let ghost output = self@.decrypted(input, start);
        assert(input.len() == data.len());
        let ghost mut done: Seq<u8> = Seq::empty();
        let mut offset = offset;
        let mut buffer = data;
        if offset < FIRST_SEGMENT_SIZE {
            let n = (FIRST_SEGMENT_SIZE - offset).min(buffer.len());
            let (block, rest) = buffer.split_at_mut(n);
            buffer = rest;
            self.process_first_segment(block, offset);
            proof {
                done = done + block@;
            }
            offset += n;
        }

        // From here on the position is kept as a block id, so that a range may
        // run past the largest offset.
        let mut id = offset / OTHER_SEGMENT_SIZE;
        match offset % OTHER_SEGMENT_SIZE {
            0 => {},  // already on a block boundary
            excess => {
                let n = (OTHER_SEGMENT_SIZE - excess).min(buffer.len());
                let (block, rest) = buffer.split_at_mut(n);
                buffer = rest;
                self.process_other_segment(block, id, excess);
                proof {
                    done = done + block@;
                }
                id += 1;
            },
        };

        while !buffer.is_empty()
            invariant
                start + input.len() <= 2 * usize::MAX,
                buffer@.len() > 0 ==> id * OTHER_SEGMENT_SIZE == start + done.len() && start
                    + done.len() >= FIRST_SEGMENT_SIZE,
                output == self@.decrypted(input, start),
                done.len() + buffer@.len() == input.len(),
                done == output.subrange(0, done.len() as int),
                buffer@ == input.subrange(done.len() as int, input.len() as int),
                final(data)@ == done + final(buffer)@,
                forall|pos: nat|
                    start <= pos < start + done.len() ==> #[trigger] self.derived(
                        Self::segment_index(pos),
                    ),
            decreases buffer@.len(),
        {
            let ghost base = start + done.len();
            assert(base == id * OTHER_SEGMENT_SIZE);
            let n = OTHER_SEGMENT_SIZE.min(buffer.len());
            let (block, rest) = buffer.split_at_mut(n);
            buffer = rest;
            self.process_other_segment(block, id, 0);
            proof {
                assert forall|j: int| 0 <= j < n implies block@[j] == output[done.len() + j] by {
                    let pos = (base + j) as nat;
                    assert(pos / (OTHER_SEGMENT_SIZE as nat) == id);
                    assert(pos % (OTHER_SEGMENT_SIZE as nat) == j);
                }
                assert forall|pos: nat| base <= pos < base + n implies Self::segment_index(pos)
                    == id by {
                    assert(pos / (OTHER_SEGMENT_SIZE as nat) == id);
                }
                done = done + block@;
            }
            id += 1;
        }
        proof {
            assert forall|f: spec_fn(u64, u8, H) -> u64| #[trigger]
                computes(self.derivation(), f) implies output == self@.with_derive(f).decrypted(
                input,
                start,
            ) by {
                self.known_derivation(f, input, start);
            }
        }
    }
}

} // verus!
