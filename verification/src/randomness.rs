use vstd::prelude::*;

verus! {

/// The `n` little-endian bytes of `x` (the low `n` bytes).
pub open spec fn le_bytes(x: nat, n: nat) -> Seq<u8>
    decreases n,
{
    if n == 0 {
        Seq::empty()
    } else {
        seq![(x % 256) as u8] + le_bytes(x / 256, (n - 1) as nat)
    }
}

/// SCALE encoding of an `Option<u32>`: a `0` byte for `None`, a `1` byte
/// followed by the four little-endian bytes of the value for `Some`.
pub open spec fn scale_option_u32(v: Option<u32>) -> Seq<u8> {
    match v {
        None => seq![0u8],
        Some(x) => seq![1u8] + le_bytes(x as nat, 4),
    }
}

/// SCALE encoding of the tuple `(random_seed, sender, extrinsic_index,
/// block_number)`: the 32 seed bytes, the 8 little-endian bytes of the
/// sender, the encoded extrinsic index, and the 8 little-endian bytes of the
/// block number, one after the other.
pub open spec fn payload_bytes(random_seed: Seq<u8>, sender: u64, extrinsic_index: Option<u32>, block_number: u64) -> Seq<u8> {
    random_seed + le_bytes(sender as nat, 8) + scale_option_u32(extrinsic_index) + le_bytes(block_number as nat, 8)
}

/// The 16-byte BLAKE2b digest of `data` (`sp_io::hashing::blake2_128`).
pub uninterp spec fn blake2_128_digest(data: Seq<u8>) -> Seq<u8>;

/// Calls `parity_scale_codec::Encode::encode` on the tuple
/// `(random_seed, sender, extrinsic_index, block_number)`. Trusted: SCALE
/// writes a fixed-size byte array as its bytes, integers as little-endian
/// bytes, an option as a `0`/`1` tag followed by the value, and a tuple as
/// its fields one after the other; that is `payload_bytes`.
#[verifier::external_body]
fn encode_payload(random_seed: &[u8; 32], sender: u64, extrinsic_index: Option<u32>, block_number: u64) -> (bytes: Vec<u8>)
    ensures
        bytes@ == payload_bytes(random_seed@, sender, extrinsic_index, block_number),
{
    parity_scale_codec::Encode::encode(&(random_seed, sender, extrinsic_index, block_number))
}

/// Calls `sp_io::hashing::blake2_128`. Trusted: its result is the digest
/// named `blake2_128_digest` of the bytes it is given; nothing more is
/// claimed of the hash function.
#[verifier::external_body]
fn blake2_128(data: &[u8]) -> (digest: [u8; 16])
    ensures
        digest@ == blake2_128_digest(data@),
{
    sp_io::hashing::blake2_128(data)
}

/// What the chain offers a call besides its arguments: the random seed of
/// the randomness source, the index of the current extrinsic and the number
/// of the current block.
#[derive(Clone, Copy, Debug)]
pub struct BlockContext {
    pub random_seed: [u8; 32],
    pub extrinsic_index: Option<u32>,
    pub block_number: u64,
}

/// The 128-bit random value of a call by `sender`: the BLAKE2b-128 digest of
/// the SCALE encoding of `(random_seed, sender, extrinsic_index, block_number)`.
pub fn random_value(sender: &u64, context: &BlockContext) -> (value: [u8; 16])
    ensures
        value@ == blake2_128_digest(
            payload_bytes(context.random_seed@, *sender, context.extrinsic_index, context.block_number),
        ),
{
    let payload = encode_payload(&context.random_seed, *sender, context.extrinsic_index, context.block_number);
    blake2_128(payload.as_slice())
}

} // verus!
