use vstd::prelude::*;
use byteorder::{ByteOrder, LittleEndian};

verus! {

/// Multiplier of the MurmurHash2 mixing steps.
pub const M: u32 = 0x5bd1_e995;

/// Seed that this library hashes with.
pub const SEED: u32 = 0x9ea5fa36;

/// The `u32` whose little-endian encoding starts `bytes` (its first four bytes).
pub open spec fn le_u32(bytes: Seq<u8>) -> u32 {
    (bytes[0] + 0x100 * bytes[1] + 0x1_0000 * bytes[2] + 0x100_0000 * bytes[3]) as u32
}

/// One block step: scramble the block `k` and fold it into the state `h`.
pub open spec fn mix_block(h: u32, k: u32) -> u32 {
    let k1 = k.wrapping_mul(M);
    let k2 = k1 ^ (k1 >> 24u32);
    let k3 = k2.wrapping_mul(M);
    h.wrapping_mul(M) ^ k3
}

/// Folds the first `n` four-byte blocks of `key` into the state `h`, in order.
pub open spec fn hash_blocks(h: u32, key: Seq<u8>, n: nat) -> u32
    decreases n,
{
    if n == 0 {
        h
    } else {
        hash_blocks(mix_block(h, le_u32(key)), key.skip(4), (n - 1) as nat)
    }
}

/// Folds the one to three bytes left after the blocks into the state `h`
/// (nothing is folded when `rest` is empty or longer).
pub open spec fn hash_tail(h: u32, rest: Seq<u8>) -> u32 {
    if rest.len() == 3 {
        (h ^ ((rest[2] as u32) << 16u32) ^ ((rest[1] as u32) << 8u32) ^ (rest[0] as u32)).wrapping_mul(M)
    } else if rest.len() == 2 {
        (h ^ ((rest[1] as u32) << 8u32) ^ (rest[0] as u32)).wrapping_mul(M)
    } else if rest.len() == 1 {
        (h ^ (rest[0] as u32)).wrapping_mul(M)
    } else {
        h
    }
}

/// The final avalanche of the state.
pub open spec fn finalize(h: u32) -> u32 {
    let h1 = h ^ (h >> 13u32);
    let h2 = h1.wrapping_mul(M);
    h2 ^ (h2 >> 15u32)
}

/// MurmurHash2 (32 bit) of `key` under `SEED`. The length enters the hash as
/// a `u32`, as does the number of whole blocks taken from it.
pub open spec fn murmurhash2_spec(key: Seq<u8>) -> u32 {
    let len = key.len() as u32;
    let n = (len / 4) as nat;
    finalize(hash_tail(hash_blocks(SEED ^ len, key, n), key.skip(4 * n as int)))
}

/// `LittleEndian::read_u32` of byteorder: the `u32` encoded little-endian by
/// the first four bytes of `buf`. It panics on a shorter buffer.
#[verifier::external_body]
fn read_u32_le(buf: &[u8]) -> (r: u32)
    requires
        buf@.len() >= 4,
    ensures
        r == le_u32(buf@),
{
    LittleEndian::read_u32(buf)
}

/// MurmurHash2 (32 bit) of `key`.
pub fn murmurhash2(key: &[u8]) -> (hash: u32)
    ensures
        hash == murmurhash2_spec(key@),
{
    let ghost whole_key = key@;
    let mut key = key;
    let total: usize = key.len();
    let len = total as u32;
    assert(len as int <= total as int) by (bit_vector)
        requires len == total as u32;
    let mut h: u32 = SEED ^ len;

    let num_blocks = len / 4;
    for i in 0..num_blocks
        invariant
            num_blocks == len / 4,
            4 * num_blocks <= total,
            total == whole_key.len(),
            key@ == whole_key.skip(4 * i as int),
            hash_blocks(SEED ^ len, whole_key, num_blocks as nat)
                == hash_blocks(h, key@, (num_blocks - i) as nat),
    {
        let k0 = read_u32_le(key);
        let mut k: u32 = k0;
        k = k.wrapping_mul(M);
        k ^= k >> 24;
        k = k.wrapping_mul(M);
        h = h.wrapping_mul(M);
        h ^= k;
        let ghost before = key@;
        key = &key[4..key.len()];
        assert(key@ =~= before.skip(4));
        assert(whole_key.skip(4 * i as int).skip(4) =~= whole_key.skip(4 * (i + 1) as int));
    }

    // Handle the last few bytes of the input array
    match key.len() {
        3 => {
            h ^= (key[2] as u32) << 16;
            h ^= (key[1] as u32) << 8;
            h ^= key[0] as u32;
            h = h.wrapping_mul(M);
        },
        2 => {
            h ^= (key[1] as u32) << 8;
            h ^= key[0] as u32;
            h = h.wrapping_mul(M);
        },
        1 => {
            h ^= key[0] as u32;
            h = h.wrapping_mul(M);
        },
        _ => {},
    }
    h ^= h >> 13;
    h = h.wrapping_mul(M);
    h ^ (h >> 15)
}

} // verus!
