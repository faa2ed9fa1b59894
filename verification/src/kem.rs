//! The mechanisms by which a device key receives a secret.

use crate::bytes::array;
use vstd::prelude::*;

pub mod laws;

verus! {

/// A key encapsulation mechanism.
#[derive(Debug, Clone, Copy, PartialEq, Eq, Structural)]
pub enum KemAlg {
    X25519HkdfSha256,
    P256HkdfSha256,
    RsaOaepSha256,
    XWing,
    MlKemP256,
}

impl KemAlg {
    /// The number of the mechanism.
    pub open spec fn number(self) -> u8 {
        match self {
            KemAlg::X25519HkdfSha256 => 1,
            KemAlg::P256HkdfSha256 => 2,
            KemAlg::RsaOaepSha256 => 3,
            KemAlg::XWing => 4,
            KemAlg::MlKemP256 => 5,
        }
    }

    /// The mechanism with a number.
    pub open spec fn numbered(v: u8) -> Option<KemAlg> {
        if v == 1 {
            Some(KemAlg::X25519HkdfSha256)
        } else if v == 2 {
            Some(KemAlg::P256HkdfSha256)
        } else if v == 3 {
            Some(KemAlg::RsaOaepSha256)
        } else if v == 4 {
            Some(KemAlg::XWing)
        } else if v == 5 {
            Some(KemAlg::MlKemP256)
        } else {
            None
        }
    }

    /// The number of the mechanism.
    pub fn as_u8(self) -> (r: u8)
        ensures
            r == self.number(),
    {
        match self {
            KemAlg::X25519HkdfSha256 => 1,
            KemAlg::P256HkdfSha256 => 2,
            KemAlg::RsaOaepSha256 => 3,
            KemAlg::XWing => 4,
            KemAlg::MlKemP256 => 5,
        }
    }

    /// The mechanism with a number; an unknown number has none.
    pub fn from_u8(v: u8) -> (r: Option<KemAlg>)
        ensures
            r == KemAlg::numbered(v),
    {
        match v {
            1 => Some(KemAlg::X25519HkdfSha256),
            2 => Some(KemAlg::P256HkdfSha256),
            3 => Some(KemAlg::RsaOaepSha256),
            4 => Some(KemAlg::XWing),
            5 => Some(KemAlg::MlKemP256),
            _ => None,
        }
    }
}

/// The public length of the hybrid mechanism over X25519.
pub const XWING_PUBLIC_LEN: usize = 1216;

/// The public length of the hybrid mechanism over P-256.
pub const MLKEM_P256_PUBLIC_LEN: usize = 1249;

/// The fingerprint of a device key. An X25519 key is its own fingerprint; of
/// other keys the fingerprint is a hash, which the caller computes, and `None`
/// stands for a key that has no fingerprint.
pub open spec fn key_print(
    kem: KemAlg,
    public: Seq<u8>,
    hashed: Option<Seq<u8>>,
) -> Option<Seq<u8>> {
    match kem {
        KemAlg::X25519HkdfSha256 => if public.len() == 32 {
            Some(public)
        } else {
            None
        },
        _ => hashed,
    }
}

/// The fingerprint of a device key.
pub fn device_fpr(kem: KemAlg, public: &[u8], hashed: Option<[u8; 32]>) -> (r: Option<[u8; 32]>)
    ensures
        crate::bytes::opt_array(r) == key_print(kem, public@, crate::bytes::opt_array(hashed)),
{
    match kem {
        KemAlg::X25519HkdfSha256 => if public.len() == 32 {
            Some(array(public))
        } else {
            None
        },
        _ => hashed,
    }
}

} // verus!
