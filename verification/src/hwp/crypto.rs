//! The cipher of distribution documents.
//!
//! A section stream of a distribution document starts with a record header
//! of four bytes and a header of 256 bytes that is obfuscated with the
//! stream of a linear congruential generator. The header holds the key
//! under which the rest of the stream is encrypted with AES-128 in ECB mode,
//! without padding.

use aes::cipher::block_padding::{NoPadding, UnpadError};
use aes::cipher::{BlockDecryptMut, KeyInit};
use vstd::prelude::*;
use vstd::slice::{slice_subrange, slice_to_vec};
use crate::bytes::{le_u32, u32_at};
use crate::error::{Fault, HwpError};

verus! {

/// The multiplier of the generator.
pub const LCG_MULTIPLIER: i32 = 214013;

/// The increment of the generator.
pub const LCG_INCREMENT: i32 = 2531011;

/// The integer `x` reduced to a signed 32-bit word, as wrapping arithmetic
/// does it.
pub open spec fn wrap_i32(x: int) -> i32 {
    if x % 0x1_0000_0000 >= 0x8000_0000 {
        (x % 0x1_0000_0000 - 0x1_0000_0000) as i32
    } else {
        (x % 0x1_0000_0000) as i32
    }
}

/// The seed that follows `seed`: `seed * 214013 + 2531011` in wrapping
/// signed 32-bit arithmetic.
pub open spec fn lcg_next(seed: i32) -> i32 {
    wrap_i32(seed as int * LCG_MULTIPLIER + LCG_INCREMENT)
}

/// The number that the generator gives at the seed `seed`: the fifteen bits
/// above the low sixteen.
pub open spec fn lcg_output(seed: i32) -> i32 {
    (seed >> 16) & 0x7FFF
}

/// The state of the key stream: the seed, the byte that is mixed in at
/// present, and for how many more bytes it is used.
pub struct KeyStream {
    pub seed: i32,
    pub value: u8,
    pub number: int,
}

/// The state `s` with a fresh byte where the present one is used up: the
/// generator is advanced twice, the first number gives the byte and the
/// second one the count, from 1 to 16.
pub open spec fn refilled(s: KeyStream) -> KeyStream {
    if s.number == 0 {
        KeyStream {
            seed: lcg_next(lcg_next(s.seed)),
            value: (lcg_output(lcg_next(s.seed)) & 0xFF) as u8,
            number: (lcg_output(lcg_next(lcg_next(s.seed))) & 0xF) + 1,
        }
    } else {
        s
    }
}

/// The state of the key stream before the byte at index `i`, where the
/// stream starts from the seed `seed`. Every index uses up one count of the
/// present byte, the first four as well.
pub open spec fn key_stream_at(seed: i32, i: nat) -> KeyStream
    decreases i,
{
    if i == 0 {
        KeyStream { seed, value: 0, number: 0 }
    } else {
        KeyStream {
            number: refilled(key_stream_at(seed, (i - 1) as nat)).number - 1,
            ..refilled(key_stream_at(seed, (i - 1) as nat))
        }
    }
}

/// The byte of the key stream for index `i`.
pub open spec fn key_stream_byte(seed: i32, i: nat) -> u8 {
    refilled(key_stream_at(seed, i)).value
}

/// The seed of a header: its first four bytes as a signed 32-bit
/// little-endian integer.
pub open spec fn header_seed(header: Seq<u8>) -> i32 {
    wrap_i32(le_u32(header, 0))
}

/// The byte at index `i` of the header `header` in the clear, where the key
/// stream starts from `seed`: the byte itself for the first four indices,
/// and the byte mixed with the byte of the key stream for any other index.
pub open spec fn deobfuscated_byte(header: Seq<u8>, seed: i32, i: int) -> u8 {
    if i < 4 {
        header[i]
    } else {
        header[i] ^ key_stream_byte(seed, i as nat)
    }
}

/// The header `header` in the clear: its first four bytes as they are, and
/// every other byte mixed with the byte of the key stream for its index.
pub open spec fn deobfuscated(header: Seq<u8>) -> Seq<u8> {
    Seq::new(header.len(), |i: int| deobfuscated_byte(header, header_seed(header), i))
}

/// The next seed.
fn next_seed(seed: i32) -> (r: i32)
    ensures
        r == lcg_next(seed),
{
    seed.wrapping_mul(LCG_MULTIPLIER).wrapping_add(LCG_INCREMENT)
}

/// The number that the generator gives at `seed`, which lies below 0x8000.
fn output_of(seed: i32) -> (r: i32)
    ensures
        r == lcg_output(seed),
        0 <= r < 0x8000,
{
    let r = (seed >> 16) & 0x7FFF;
    assert(0 <= ((seed >> 16) & 0x7FFF) < 0x8000) by (bit_vector);
    r
}

/// The state of the key stream with a fresh byte where the present one is
/// used up.
fn refill(seed: i32, value: u8, number: i32) -> (r: (i32, u8, i32))
    requires
        0 <= number <= 16,
    ensures
        (KeyStream { seed: r.0, value: r.1, number: r.2 as int }) == refilled(
            KeyStream { seed, value, number: number as int },
        ),
        1 <= r.2 <= 16,
{
    if number == 0 {
        let first = next_seed(seed);
        let first_output = output_of(first);
        let second = next_seed(first);
        let second_output = output_of(second);
        assert(0 <= (second_output & 0xF) <= 15) by (bit_vector);
        assert(0 <= (first_output & 0xFF) <= 255) by (bit_vector);
        (second, (first_output & 0xFF) as u8, (second_output & 0xF) + 1)
    } else {
        (seed, value, number)
    }
}

/// The seed in the first four bytes of a header.
fn read_seed(data: &[u8]) -> (seed: i32)
    requires
        data@.len() >= 4,
    ensures
        seed == header_seed(data@),
{
    let word = u32_at(data, 0);
    if word >= 0x8000_0000 {
        ((word - 0x8000_0000) as i32) - 0x4000_0000 - 0x4000_0000
    } else {
        word as i32
    }
}

/// Takes the obfuscation off a header, in place.
///
/// The first four bytes are the seed and stay as they are, but, like every
/// other byte, each of them uses up one count of the key stream.
pub fn deobfuscate(data: &mut [u8; 256])
    ensures
        final(data)@ == deobfuscated(old(data)@),
{
    let mut seed: i32 = read_seed(data.as_slice());
    let ghost first = seed;
    let ghost header = data@;
    let mut value: u8 = 0;
    let mut number: i32 = 0;
    let mut i: usize = 0;
    while i < 256
        invariant
            i <= 256,
            data@.len() == 256,
            header.len() == 256,
            0 <= number <= 16,
            key_stream_at(first, i as nat) == (KeyStream { seed, value, number: number as int }),
            forall|j: int|
                0 <= j < i ==> data@[j] == #[trigger] deobfuscated_byte(header, first, j),
            forall|j: int| i <= j < 256 ==> data@[j] == header[j],
        decreases 256 - i,
    {
        let (next, mask, count) = refill(seed, value, number);
        seed = next;
        value = mask;
        number = count;
        assert(key_stream_byte(first, i as nat) == value);
        if i >= 4 {
            let mixed = data[i] ^ value;
            data[i] = mixed;
        }
        number = number - 1;
        i = i + 1;
    }
    assert(first == header_seed(header));
    assert(data@ =~= deobfuscated(header));
}

/// `block_padding::UnpadError`, the error of a decryption that does not come
/// out in whole blocks.
#[verifier::external_type_specification]
#[verifier::external_body]
pub struct ExUnpadError(UnpadError);

/// What AES-128 in ECB mode gives for the key `key` of 16 bytes and the
/// ciphertext `data`, a whole number of blocks of 16 bytes.
pub uninterp spec fn aes128_ecb_decrypted(key: Seq<u8>, data: Seq<u8>) -> Seq<u8>;

/// `BlockDecryptMut::decrypt_padded_mut` with `NoPadding`, on an
/// `ecb::Decryptor<aes::Aes128>` that `KeyInit::new_from_slice` makes from
/// `key`. The key has 16 bytes, so that making the cipher cannot fail. The
/// call fails exactly where `data` is no whole number of blocks of 16 bytes.
/// Else it gives the plaintext, which is as long as `data` and depends on
/// `key` and `data` alone.
#[verifier::external_body]
fn aes128_ecb_decrypt(key: &[u8], data: &[u8]) -> (r: Result<Vec<u8>, UnpadError>)
    requires
        key@.len() == 16,
    ensures
        r is Ok <==> data@.len() % 16 == 0,
        r matches Ok(plain) ==> plain@ == aes128_ecb_decrypted(key@, data@) && plain@.len()
            == data@.len(),
{
    let mut buf = data.to_vec();
    let cipher = ecb::Decryptor::<aes::Aes128>::new_from_slice(key).expect("a key of 16 bytes");
    match cipher.decrypt_padded_mut::<NoPadding>(&mut buf) {
        Ok(plain) => Ok(plain.to_vec()),
        Err(e) => Err(e),
    }
}

/// `Display` of `block_padding::UnpadError`, which writes the fixed text
/// `Unpad Error`.
#[verifier::external_body]
fn unpad_error_text(e: &UnpadError) -> (r: String)
    ensures
        r@ == "Unpad Error"@,
{
    e.to_string()
}

/// Where the key starts in a header in the clear: at 4 plus the low four
/// bits of the first byte.
pub open spec fn key_offset(header: Seq<u8>) -> int {
    4 + (header[0] & 0xF) as int
}

/// The key of the distribution stream `data`, which holds at least 260
/// bytes: the 16 bytes at the key offset of the header in the clear, where
/// the header is the 256 bytes behind the first four of the stream.
pub open spec fn distribution_key_of(data: Seq<u8>) -> Seq<u8> {
    deobfuscated(data.subrange(4, 260)).subrange(
        key_offset(deobfuscated(data.subrange(4, 260))),
        key_offset(deobfuscated(data.subrange(4, 260))) + 16,
    )
}

/// Reads the key of a distribution stream. The key offset is 19 at most, so
/// that the key always lies inside the header.
pub fn distribution_key(data: &[u8]) -> (key: Vec<u8>)
    requires
        data@.len() >= 260,
    ensures
        key@ == distribution_key_of(data@),
        key@.len() == 16,
{
    let mut meta = [0u8; 256];
    let mut i: usize = 0;
    while i < 256
        invariant
            i <= 256,
            data@.len() >= 260,
            meta@.len() == 256,
            forall|j: int| 0 <= j < i ==> meta@[j] == data@[4 + j],
        decreases 256 - i,
    {
        meta[i] = data[4 + i];
        i = i + 1;
    }
    assert(meta@ == data@.subrange(4, 260));
    deobfuscate(&mut meta);
    let first = meta[0];
    let low = first & 0xF;
    assert(low <= 15) by (bit_vector)
        requires
            low == first & 0xF,
    ;
    let key_offset: usize = 4 + low as usize;
    slice_to_vec(slice_subrange(meta.as_slice(), key_offset, key_offset + 16))
}

/// The plaintext of the distribution stream `data`, or why there is none.
///
/// A stream of fewer than 260 bytes is too short. What follows the first 260
/// bytes is the ciphertext: nothing gives nothing, a whole number of blocks
/// of 16 bytes gives what AES gives for it under the stream's key, and
/// anything else is an error.
pub open spec fn distribution_plaintext(data: Seq<u8>) -> Result<Seq<u8>, Fault> {
    if data.len() < 260 {
        Err(Fault::DecryptFailed("Distribution stream too short"@))
    } else if data.len() == 260 {
        Ok(Seq::empty())
    } else if (data.len() - 260) % 16 != 0 {
        Err(Fault::DecryptFailed("AES decrypt failed: "@ + "Unpad Error"@))
    } else {
        Ok(
            aes128_ecb_decrypted(
                distribution_key_of(data),
                data.subrange(260, data.len() as int),
            ),
        )
    }
}

/// Decrypts a section stream of a distribution document.
pub fn decrypt_distribution_stream(data: &[u8]) -> (r: Result<Vec<u8>, HwpError>)
    ensures
        match distribution_plaintext(data@) {
            Ok(plain) => r matches Ok(v) && v@ == plain,
            Err(fault) => r matches Err(e) && e@ == fault,
        },
        data@.len() == 260 ==> (r matches Ok(v) && v@.len() == 0),
        r matches Ok(v) ==> v@.len() == data@.len() - 260,
{
    if data.len() < 260 {
        return Err(HwpError::DecryptFailed("Distribution stream too short".to_string()));
    }
    let key = distribution_key(data);
    let encrypted = slice_subrange(data, 260, data.len());
    if encrypted.len() == 0 {
        return Ok(Vec::new());
    }
    match aes128_ecb_decrypt(key.as_slice(), encrypted) {
        Ok(plain) => Ok(plain),
        Err(e) => {
            let mut detail = "AES decrypt failed: ".to_string();
            let text = unpad_error_text(&e);
            detail.push_str(text.as_str());
            Err(HwpError::DecryptFailed(detail))
        },
    }
}

/// Taking the obfuscation off is a function of the header: equal headers
/// come out equal.
pub proof fn lemma_deobfuscate_is_a_function(first: Seq<u8>, second: Seq<u8>)
    requires
        first == second,
    ensures
        deobfuscated(first) == deobfuscated(second),
        deobfuscated(first).len() == first.len(),
        forall|i: int| 0 <= i < 4 && i < first.len() ==> deobfuscated(first)[i] == first[i],
{
}

} // verus!
