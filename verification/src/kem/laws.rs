//! The numbers of the mechanisms, and what the fingerprint of a key is.

use crate::kem::{self, KemAlg};
use vstd::prelude::*;

verus! {

/// The numbers of the mechanisms.
pub proof fn numbers_of_mechanisms(v: u8)
    ensures
        KemAlg::X25519HkdfSha256.number() == 1 && KemAlg::P256HkdfSha256.number() == 2
            && KemAlg::RsaOaepSha256.number() == 3 && KemAlg::XWing.number() == 4
            && KemAlg::MlKemP256.number() == 5,
        match KemAlg::numbered(v) {
            Some(k) => k.number() == v,
            None => v == 0 || v > 5,
        },
{
}

/// A key of the first mechanism is its own fingerprint where it has 32 bytes, and has none
/// else; of every other mechanism the fingerprint is the hash, whatever the key.
pub proof fn fingerprints_of_keys(k: KemAlg, public: Seq<u8>, hashed: Option<Seq<u8>>)
    ensures
        k == KemAlg::X25519HkdfSha256 && public.len() == 32 ==> kem::key_print(k, public, hashed)
            == Some(public),
        k == KemAlg::X25519HkdfSha256 && public.len() != 32 ==> kem::key_print(k, public, hashed)
            is None,
        k != KemAlg::X25519HkdfSha256 ==> kem::key_print(k, public, hashed) == hashed,
{
}

} // verus!
