//! The checksum of delta files.
use vstd::prelude::*;

verus! {

/// The CRC-64 of `bytes`, continued from `crc`.
pub uninterp spec fn crc64_of(crc: u64, bytes: Seq<u8>) -> u64;

/// Calls `crc64::crc64`: the Jones CRC-64 over `bytes`, starting from `crc`. The
/// checksum is a function of the two. It runs over the bytes one after the other
/// with no other state than the checksum itself, so an empty input leaves `crc` as
/// it is, and continuing from the checksum of some bytes gives the checksum of
/// those bytes followed by `bytes`.
#[verifier::external_body]
pub(crate) fn crc64(crc: u64, bytes: &[u8]) -> (r: u64)
    ensures
        r == crc64_of(crc, bytes@),
        bytes@.len() == 0 ==> r == crc,
        forall|seed: u64, before: Seq<u8>|
            crc == #[trigger] crc64_of(seed, before) ==> r == crc64_of(seed, before + bytes@),
{
    ::crc64::crc64(crc, bytes)
}

} // verus!
