//! The FNV-1a checksum with 128 bits, in which stored requests are digested.
use vstd::prelude::*;
use vstd::utf8::encode_utf8;

use crate::id::{big_endian, bytes_of};

verus! {

/// The offset basis of FNV-1a with 128 bits.
pub const FNV_OFFSET: u128 = 0x6c62272e07bb014262b821756295c58d;

/// The prime of FNV-1a with 128 bits.
pub const FNV_PRIME: u128 = 0x0000000001000000000000000000013b;

/// The FNV-1a hash of a series of bytes: each byte in turn is mixed into the
/// hash with exclusive or, and the hash is multiplied by the prime.
pub open spec fn fnv1a(bytes: Seq<u8>) -> u128
    decreases bytes.len(),
{
    if bytes.len() == 0 {
        FNV_OFFSET
    } else {
        (fnv1a(bytes.drop_last()) ^ (bytes.last() as u128)).wrapping_mul(FNV_PRIME)
    }
}

/// The digest of a series of bytes: the sixteen bytes of its hash, most
/// significant first.
pub open spec fn digest_of(bytes: Seq<u8>) -> Seq<u8> {
    big_endian(fnv1a(bytes) as nat, 16)
}

/// The checksum of a text: the digest of its UTF-8 bytes.
pub open spec fn checksum_of(text: Seq<char>) -> Seq<u8> {
    digest_of(encode_utf8(text))
}

/// The digest of a series of bytes.
pub fn digest(bytes: &[u8]) -> (digest: Vec<u8>)
    ensures
        digest@ == digest_of(bytes@),
{
    let ghost all = bytes@;
    let mut hash: u128 = FNV_OFFSET;
    let mut i: usize = 0;
    while i < bytes.len()
        invariant
            i <= bytes@.len(),
            bytes@ == all,
            hash == fnv1a(all.take(i as int)),
        decreases bytes@.len() - i,
    {
        assert(all.take(i + 1).drop_last() =~= all.take(i as int));
        hash = (hash ^ (bytes[i] as u128)).wrapping_mul(FNV_PRIME);
        i += 1;
    }
    assert(all.take(i as int) =~= all);
    bytes_of(hash, 16)
}

/// The checksum of a text.
pub fn checksum(text: &str) -> (digest_bytes: Vec<u8>)
    ensures
        digest_bytes@ == checksum_of(text@),
{
    digest(text.as_bytes())
}

} // verus!
