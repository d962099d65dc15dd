//! The cipher as mathematics: tables, the mask of a position, and the
//! transform of a byte range.

use vstd::prelude::*;

verus! {

/// Number of leading stream positions that are masked from the key itself.
pub const FIRST_SEGMENT_SIZE: usize = 0x0080;

/// Size of the blocks into which the stream is cut for keystream reuse.
pub const OTHER_SEGMENT_SIZE: usize = 0x1400;

/// The largest window shift of a block, and the mask that bounds it.
pub const SKIP_MASK: u64 = 0x1FF;

/// Length of the cached keystream: one block plus room for the largest shift.
pub const RC4_STREAM_CACHE_SIZE: usize = OTHER_SEGMENT_SIZE + 512;

/// The immutable tables of one engine.
///
/// `derive` is the segment-key derivation as a mathematical function of
/// `(index, seed byte, hash)`.
#[verifier::reject_recursive_types(H)]
pub struct Tables<H> {
    pub key: Seq<u8>,
    pub hash: H,
    pub key_stream: Seq<u8>,
    pub derive: spec_fn(u64, u8, H) -> u64,
}

impl<H> Tables<H> {
    /// The key is not empty and the keystream cache has its fixed length.
    pub open spec fn wf(self) -> bool {
        &&& self.key.len() > 0
        &&& self.key_stream.len() == RC4_STREAM_CACHE_SIZE
    }

    /// The same tables with `derive` in place of the derivation.
    pub open spec fn with_derive(self, derive: spec_fn(u64, u8, H) -> u64) -> Self {
        Tables { derive, ..self }
    }

    /// The key byte that seeds the derivation for `index`.
    pub open spec fn seed(self, index: nat) -> u8 {
        self.key[(index % self.key.len()) as int]
    }

    /// The segment key of `index`: the derivation applied to the index, its
    /// seed byte and the hash.
    pub open spec fn segment_key(self, index: nat) -> u64 {
        (self.derive)(index as u64, self.seed(index), self.hash)
    }

    /// Index into the key of the mask for position `pos` of the first segment.
    pub open spec fn first_segment_index(self, pos: nat) -> nat {
        self.segment_key(pos) as nat % self.key.len()
    }

    /// Mask of a position below `FIRST_SEGMENT_SIZE`.
    pub open spec fn first_segment_mask(self, pos: nat) -> u8 {
        self.key[self.first_segment_index(pos) as int]
    }

    /// How far the keystream window of block `id` is shifted: the low nine
    /// bits of the block's segment key.
    pub open spec fn skip(self, id: nat) -> nat {
        (self.segment_key(id) & SKIP_MASK) as nat
    }

    /// Index into the keystream cache of the mask for position `pos`.
    pub open spec fn other_segment_index(self, pos: nat) -> nat {
        self.skip(pos / (OTHER_SEGMENT_SIZE as nat)) + pos % (OTHER_SEGMENT_SIZE as nat)
    }

    /// Mask of a position outside the first segment.
    pub open spec fn other_segment_mask(self, pos: nat) -> u8 {
        self.key_stream[self.other_segment_index(pos) as int]
    }

    /// The byte that is XORed onto stream position `pos`.
    pub open spec fn mask(self, pos: nat) -> u8 {
        if pos < FIRST_SEGMENT_SIZE {
            self.first_segment_mask(pos)
        } else {
            self.other_segment_mask(pos)
        }
    }

    /// The bytes `data`, taken to start at stream position `offset`, after the
    /// transform: each one XORed with the mask of its own position.
    pub open spec fn decrypted(self, data: Seq<u8>, offset: nat) -> Seq<u8> {
        Seq::new(data.len(), |i: int| data[i] ^ self.mask((offset + i) as nat))
    }
}

} // verus!
