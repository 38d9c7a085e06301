//! The frozen 32-bit FNV-1a hash over the UTF-8 bytes of a key.

use vstd::prelude::*;
use vstd::string::StringSliceAdditionalSpecFns;

verus! {

/// The FNV-1a 32-bit offset basis.
pub const FNV_OFFSET_BASIS: u32 = 0x811c_9dc5;

/// The FNV-1a 32-bit prime.
pub const FNV_PRIME: u32 = 0x0100_0193;

/// One FNV-1a round: mix in one byte, then multiply by the prime modulo 2^32.
pub open spec fn fnv1a_step(hash: u32, byte: u8) -> u32 {
    vstd::wrapping::u32_specs::wrapping_mul(hash ^ (byte as u32), FNV_PRIME)
}

/// FNV-1a (32-bit) of a byte sequence, folded from the left.
pub open spec fn fnv1a_bytes(bytes: Seq<u8>) -> u32
    decreases bytes.len(),
{
    if bytes.len() == 0 {
        FNV_OFFSET_BASIS
    } else {
        fnv1a_step(fnv1a_bytes(bytes.drop_last()), bytes.last())
    }
}

/// The hash of a text: FNV-1a over its exact UTF-8 encoding (no
/// normalization of any kind).
pub open spec fn text_hash(text: Seq<char>) -> u32 {
    fnv1a_bytes(vstd::utf8::encode_utf8(text))
}

/// The hash of a key: FNV-1a over the key's exact UTF-8 encoding.
pub open spec fn key_hash(key: &str) -> u32 {
    text_hash(key@)
}

/// FNV-1a (32-bit) over the UTF-8 bytes of `s`, with the standard offset
/// basis and prime. The constants and byte order are frozen: changing either
/// remaps every key.
pub fn fnv1a(s: &str) -> (hash: u32)
    ensures
        hash == key_hash(s),
{
    let bytes = s.as_bytes();
    let mut hash: u32 = FNV_OFFSET_BASIS;
    let mut i: usize = 0;
    while i < bytes.len()
        invariant
            i <= bytes@.len(),
            bytes@ == s.spec_bytes(),
            hash == fnv1a_bytes(bytes@.take(i as int)),
        decreases bytes@.len() - i,
    {
        let b = bytes[i];
        assert(bytes@.take(i + 1).drop_last() =~= bytes@.take(i as int));
        hash = (hash ^ (b as u32)).wrapping_mul(FNV_PRIME);
        i = i + 1;
    }
    assert(bytes@.take(i as int) =~= bytes@);
    hash
}


/// FNV-1a is the standard left fold: the empty input hashes to the offset
/// basis 0x811c9dc5, and appending a byte XORs the raw byte (no case folding
/// or other rewriting) into the running hash and multiplies by the prime
/// 0x01000193 modulo 2^32.
pub proof fn lemma_fnv1a_is_the_standard_fold(bytes: Seq<u8>, byte: u8)
    ensures
        fnv1a_bytes(Seq::<u8>::empty()) == 0x811c_9dc5u32,
        fnv1a_bytes(bytes.push(byte)) as int == (((fnv1a_bytes(bytes) ^ (byte as u32)) as int)
            * 0x0100_0193) % 0x1_0000_0000,
{
    assert(bytes.push(byte).drop_last() =~= bytes);
    assert(bytes.push(byte).last() == byte);
    let x = fnv1a_bytes(bytes) ^ (byte as u32);
    assert(0 <= (x as int) * 0x0100_0193);
    assert(((x as nat) * 0x0100_0193) % 0x1_0000_0000 < 0x1_0000_0000);
}

/// The hash of a key is FNV-1a over exactly the key's UTF-8 bytes, so keys
/// that differ in any byte (case included) are hashed as different inputs.
pub proof fn lemma_key_hash_reads_the_utf8_bytes(key: &str)
    ensures
        key_hash(key) == fnv1a_bytes(key.spec_bytes()),
{
}

} // verus!
