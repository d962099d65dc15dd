//! Theorems about construction and about the transform.

use crate::cipher::Error;
use crate::cipher::QMC2RC4;
use crate::collaborators::hash_is_deterministic;
use crate::collaborators::keystream_is_deterministic;
use crate::model::Tables;
use crate::model::FIRST_SEGMENT_SIZE;
use crate::model::OTHER_SEGMENT_SIZE;
use crate::model::RC4_STREAM_CACHE_SIZE;
use crate::model::SKIP_MASK;
use vstd::prelude::*;

verus! {

/// Construction is a function of the key bytes: where the key hash and the
/// keystream generator are deterministic, two runs of `new` on keys that hold
/// the same bytes fail alike or give engines with the same key, hash and
/// keystream cache.  On an empty key both fail with `EmptyKey`.
///
/// `first_hash` and `first_stream` are what the collaborators returned in the
/// first run, `second_hash` and `second_stream` what they returned in the
/// second.
pub proof fn construction_is_deterministic<H: Copy, D, K, G>(
    first: Result<QMC2RC4<H, D>, Error>,
    second: Result<QMC2RC4<H, D>, Error>,
    first_key: &[u8],
    second_key: &[u8],
    key_hash: K,
    keystream_generate: G,
    derive: D,
    first_hash: H,
    first_stream: Vec<u8>,
    second_hash: H,
    second_stream: Vec<u8>,
) where D: Fn(u64, u8, H) -> u64, K: FnOnce(&[u8]) -> H, G: FnOnce(&[u8], usize) -> Vec<u8>
    requires
        first_key@ == second_key@,
        hash_is_deterministic(key_hash, first_key),
        keystream_is_deterministic(keystream_generate, first_key, RC4_STREAM_CACHE_SIZE),
        first_key@.len() > 0 ==> {
            &&& key_hash.ensures((first_key,), first_hash)
            &&& key_hash.ensures((second_key,), second_hash)
            &&& keystream_generate.ensures((first_key, RC4_STREAM_CACHE_SIZE), first_stream)
            &&& keystream_generate.ensures((second_key, RC4_STREAM_CACHE_SIZE), second_stream)
        },
        QMC2RC4::built(first, first_key@, first_hash, first_stream@, derive),
        QMC2RC4::built(second, second_key@, second_hash, second_stream@, derive),
    ensures
        first_key@.len() == 0 ==> first matches Err(Error::EmptyKey),
        first_key@.len() == 0 ==> second matches Err(Error::EmptyKey),
        first_key@.len() > 0 ==> first_hash == second_hash && first_stream@ == second_stream@,
        first matches Ok(a) ==> (second matches Ok(b) && a@ == b@),
        first matches Err(e) ==> (second matches Err(d) && d == e),
{
    assert(first_key =~= second_key);
}

/// The transform is its own inverse: applied twice at the same offset it
/// gives the bytes back.
pub proof fn decrypt_is_involution<H>(t: Tables<H>, data: Seq<u8>, offset: nat)
    ensures
        t.decrypted(t.decrypted(data, offset), offset) == data,
{
    let once = t.decrypted(data, offset);
    let twice = t.decrypted(once, offset);
    assert forall|i: int| 0 <= i < data.len() implies twice[i] == data[i] by {
        let b = data[i];
        let m = t.mask((offset + i) as nat);
        assert((b ^ m) ^ m == b) by (bit_vector);
    }
    assert(twice =~= data);
}

/// A range may be cut anywhere: transforming the part before the cut at
/// `offset` and the part after it at `offset + mid` gives the two parts of
/// the transform of the whole.
pub proof fn decrypt_splits<H>(t: Tables<H>, data: Seq<u8>, offset: nat, mid: int)
    requires
        0 <= mid <= data.len(),
    ensures
        t.decrypted(data, offset) == t.decrypted(data.subrange(0, mid), offset) + t.decrypted(
            data.subrange(mid, data.len() as int),
            (offset + mid) as nat,
        ),
{
    let whole = t.decrypted(data, offset);
    let head = t.decrypted(data.subrange(0, mid), offset);
    let tail = t.decrypted(data.subrange(mid, data.len() as int), (offset + mid) as nat);
    assert forall|i: int| 0 <= i < data.len() implies whole[i] == (head + tail)[i] by {
        if i >= mid {
            assert((offset + mid + (i - mid)) as nat == (offset + i) as nat);
        }
    }
    assert(whole =~= head + tail);
}

/// The result of transforming `data` piece by piece: the first piece has
/// `lengths[0]` bytes (or all that are left, if fewer) and starts at `offset`,
/// each later piece starts where the one before it ended, and what is left
/// after the last length is one final piece.
pub open spec fn decrypted_in_pieces<H>(
    t: Tables<H>,
    data: Seq<u8>,
    offset: nat,
    lengths: Seq<nat>,
) -> Seq<u8>
    decreases lengths.len(),
{
    if lengths.len() == 0 {
        t.decrypted(data, offset)
    } else {
        let n = if lengths[0] <= data.len() {
            lengths[0]
        } else {
            data.len()
        };
        t.decrypted(data.subrange(0, n as int), offset) + decrypted_in_pieces(
            t,
            data.subrange(n as int, data.len() as int),
            offset + n,
            lengths.drop_first(),
        )
    }
}

/// Decomposition invariance: however a range is cut into contiguous pieces,
/// transforming each piece at its own offset gives the transform of the whole.
pub proof fn decrypt_in_pieces_is_decrypt<H>(
    t: Tables<H>,
    data: Seq<u8>,
    offset: nat,
    lengths: Seq<nat>,
)
    ensures
        decrypted_in_pieces(t, data, offset, lengths) == t.decrypted(data, offset),
    decreases lengths.len(),
{
    if lengths.len() > 0 {
        let n = if lengths[0] <= data.len() {
            lengths[0]
        } else {
            data.len()
        };
        decrypt_in_pieces_is_decrypt(
            t,
            data.subrange(n as int, data.len() as int),
            offset + n,
            lengths.drop_first(),
        );
        decrypt_splits(t, data, offset, n as int);
    }
}

/// The byte that comes out at a stream position depends on the byte that went
/// in at that position and on nothing else of the range: two ranges that hold
/// the same byte at the same position give the same byte there, wherever each
/// begins and whatever its other bytes are.
pub proof fn output_byte_is_local<H>(
    t: Tables<H>,
    a: Seq<u8>,
    a_offset: nat,
    i: int,
    b: Seq<u8>,
    b_offset: nat,
    j: int,
)
    requires
        0 <= i < a.len(),
        0 <= j < b.len(),
        a_offset + i == b_offset + j,
        a[i] == b[j],
    ensures
        t.decrypted(a, a_offset)[i] == t.decrypted(b, b_offset)[j],
{
}

/// Below `FIRST_SEGMENT_SIZE` a byte is XORed with a byte of the key.  Its
/// index is the derivation of the position, the key byte at the position
/// modulo the key length, and the hash, reduced modulo the key length.
pub proof fn first_segment_byte<H>(t: Tables<H>, data: Seq<u8>, offset: nat, i: int)
    requires
        t.wf(),
        0 <= i < data.len(),
        offset + i < FIRST_SEGMENT_SIZE,
    ensures
        ({
            let pos = (offset + i) as nat;
            let n = t.key.len();
            let derived = (t.derive)(pos as u64, t.key[(pos % n) as int], t.hash);
            &&& 0 <= derived as nat % n < n
            &&& t.decrypted(data, offset)[i] == data[i] ^ t.key[(derived as nat % n) as int]
        }),
{
}

/// From `FIRST_SEGMENT_SIZE` on a byte is XORed with a byte of the keystream
/// cache.  Its index is the position inside its block, shifted by the block's
/// skip: the derivation of the block id, the key byte at the block id modulo
/// the key length, and the hash, cut to its low nine bits.  The skip is at
/// most 511 and the index lies inside the cache.
pub proof fn other_segment_byte<H>(t: Tables<H>, data: Seq<u8>, offset: nat, i: int)
    requires
        t.wf(),
        0 <= i < data.len(),
        offset + i >= FIRST_SEGMENT_SIZE,
    ensures
        ({
            let pos = (offset + i) as nat;
            let n = t.key.len();
            let id = pos / (OTHER_SEGMENT_SIZE as nat);
            let skip = (t.derive)(id as u64, t.key[(id % n) as int], t.hash) & 0x1FF;
            &&& 0 <= skip <= 511
            &&& 0 <= skip + pos % (OTHER_SEGMENT_SIZE as nat) < RC4_STREAM_CACHE_SIZE
            &&& t.decrypted(data, offset)[i] == data[i] ^ t.key_stream[skip + pos
                % (OTHER_SEGMENT_SIZE as nat)]
        }),
{
    let pos = (offset + i) as nat;
    let id = pos / (OTHER_SEGMENT_SIZE as nat);
    let derived = t.segment_key(id);
    assert(derived & SKIP_MASK <= 0x1FF && derived & SKIP_MASK == derived & 0x1FF) by (bit_vector)
        requires
            SKIP_MASK == 0x1FF,
    ;
}

} // verus!
