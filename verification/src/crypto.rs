//! Stream keys and frame encryption.

use aes::cipher::{KeyIvInit, StreamCipher};
use vstd::prelude::*;

verus! {

/// What identifies and protects one stream.
#[derive(Clone, Copy)]
pub struct StreamKeys {
    pub ssrc: u32,
    pub aes_key: [u8; 16],
    pub aes_iv_mask: [u8; 16],
}

/// How many synchronization source ids a stream picks from.
pub const SSRC_SPREAD: u32 = 1_000;

/// Calls `rand::random` for a `u32`. Nothing is claimed of the number drawn.
#[verifier::external_body]
fn random_u32() -> (drawn: u32)
{
    rand::random()
}

/// Calls `rand::random` for sixteen bytes. Nothing is claimed of the bytes drawn.
#[verifier::external_body]
fn random_block() -> (drawn: [u8; 16])
{
    rand::random()
}

/// The source id that a draw picks from the ids at and after `ssrc_base`,
/// wrapping around at the end of the numbers.
pub open spec fn ssrc_from(ssrc_base: u32, drawn: u32) -> int {
    (ssrc_base + drawn % SSRC_SPREAD) % 0x1_0000_0000
}

/// The keys that the given draws make for a stream.
pub fn keys_from(
    ssrc_base: u32,
    drawn: u32,
    aes_key: [u8; 16],
    aes_iv_mask: [u8; 16],
) -> (keys: StreamKeys)
    ensures
        keys.ssrc == ssrc_from(ssrc_base, drawn),
        keys.aes_key == aes_key,
        keys.aes_iv_mask == aes_iv_mask,
{
    StreamKeys { ssrc: ssrc_base.wrapping_add(drawn % SSRC_SPREAD), aes_key, aes_iv_mask }
}

/// Draws a source id and key material for a stream.
pub fn generate_keys(ssrc_base: u32) -> (keys: StreamKeys)
    ensures
        exists|drawn: u32| keys.ssrc == #[trigger] ssrc_from(ssrc_base, drawn),
{
    let drawn: u32 = random_u32();
    let aes_key = random_block();
    let aes_iv_mask = random_block();
    keys_from(ssrc_base, drawn, aes_key, aes_iv_mask)
}

/// Streams whose base ids lie a whole spread apart never share a source id.
pub proof fn law_separate_bases_give_separate_ids(
    base_a: u32,
    drawn_a: u32,
    base_b: u32,
    drawn_b: u32,
)
    requires
        base_a + SSRC_SPREAD <= base_b,
        base_b + SSRC_SPREAD <= u32::MAX,
    ensures
        ssrc_from(base_a, drawn_a) < ssrc_from(base_b, drawn_b),
{
}

/// Byte `at` of the keystream of AES-128 in counter mode with a 128-bit
/// big-endian counter, for a key and a first counter block.
pub uninterp spec fn aes_ctr_keystream(key: Seq<u8>, counter: Seq<u8>, at: int) -> u8;

/// Calls `aes::cipher::StreamCipher::apply_keystream` on a fresh
/// `ctr::Ctr128BE<aes::Aes128>`: every byte is XORed with the keystream byte of
/// its position, and the keystream depends on the key and the first counter
/// block alone.
#[verifier::external_body]
fn apply_keystream(key: &[u8; 16], counter: &[u8; 16], data: &mut Vec<u8>)
    ensures
        final(data)@.len() == old(data)@.len(),
        forall|i: int|
            0 <= i < old(data)@.len() ==> final(data)@[i] == old(data)@[i] ^ aes_ctr_keystream(
                key@,
                counter@,
                i,
            ),
{
    let mut cipher = ctr::Ctr128BE::<aes::Aes128>::new(key.into(), counter.into());
    cipher.apply_keystream(data);
}

/// `data` with one pass of the keystream over it.
pub open spec fn encrypted(key: Seq<u8>, counter: Seq<u8>, data: Seq<u8>) -> Seq<u8> {
    Seq::new(data.len(), |i: int| data[i] ^ aes_ctr_keystream(key, counter, i))
}

/// Encrypts a whole frame in place, in one keystream pass.
pub fn encrypt_frame(key: &[u8; 16], counter: &[u8; 16], data: &mut Vec<u8>)
    ensures
        final(data)@ == encrypted(key@, counter@, old(data)@),
{
    apply_keystream(key, counter, data);
    assert(data@ =~= encrypted(key@, counter@, old(data)@));
}

/// A second pass with the same key and counter block gives the data back.
pub proof fn law_decrypting_restores_the_frame(key: Seq<u8>, counter: Seq<u8>, data: Seq<u8>)
    ensures
        encrypted(key, counter, encrypted(key, counter, data)) == data,
{
    let twice = encrypted(key, counter, encrypted(key, counter, data));
    assert forall|i: int| 0 <= i < data.len() implies twice[i] == data[i] by {
        let byte = data[i];
        let mask = aes_ctr_keystream(key, counter, i);
        assert((byte ^ mask) ^ mask == byte) by (bit_vector);
    }
    assert(twice =~= data);
}

/// Encrypting changes every byte by the keystream byte of its place, and only
/// that: the length stays, and so does the order.
pub proof fn law_encrypting_goes_byte_by_byte(
    key: &[u8; 16],
    counter: &[u8; 16],
    data: &mut Vec<u8>,
    at: int,
)
    requires
        call_ensures(encrypt_frame, (key, counter, data), ()),
        0 <= at < old(data)@.len(),
    ensures
        final(data)@.len() == old(data)@.len(),
        final(data)@[at] == old(data)@[at] ^ aes_ctr_keystream(key@, counter@, at),
{
}

/// Source ids lie in the thousand from their base on, around the end of the
/// 32-bit numbers, and every one of them can be drawn. The key and the mask are the ones drawn.
pub proof fn law_keys_are_what_was_drawn(
    ssrc_base: u32,
    drawn: u32,
    aes_key: [u8; 16],
    aes_iv_mask: [u8; 16],
    keys: StreamKeys,
)
    requires
        call_ensures(keys_from, (ssrc_base, drawn, aes_key, aes_iv_mask), keys),
    ensures
        ssrc_base + 1_000 <= u32::MAX ==> ssrc_base <= keys.ssrc < ssrc_base + 1_000,
        ssrc_base + 1_000 <= u32::MAX ==> (keys.ssrc - ssrc_base - drawn) % 1_000 == 0,
        (keys.ssrc - ssrc_base - drawn as int % 1_000) % 0x1_0000_0000 == 0,
        keys.aes_key == aes_key,
        keys.aes_iv_mask == aes_iv_mask,
{
}

/// A drawn source id lies in the thousand from its base on.
pub proof fn law_drawn_ids_lie_in_their_thousand(ssrc_base: u32, keys: StreamKeys)
    requires
        call_ensures(generate_keys, (ssrc_base,), keys),
        ssrc_base + 1_000 <= u32::MAX,
    ensures
        ssrc_base <= keys.ssrc < ssrc_base + 1_000,
{
    let drawn = choose|drawn: u32| keys.ssrc == #[trigger] ssrc_from(ssrc_base, drawn);
}

} // verus!
