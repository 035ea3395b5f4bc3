use vstd::prelude::*;

use crc::{Crc, CRC_16_IBM_SDLC};

verus! {

/// The CRC-16/X-25 (IBM-SDLC) checksum of a byte sequence.
pub uninterp spec fn x25_of(data: Seq<u8>) -> u16;

/// Relies on `crc::Crc::<u16>::checksum` with the `CRC_16_IBM_SDLC`
/// algorithm: a table-driven CRC whose value depends on the bytes alone.
#[verifier::external_body]
pub(crate) fn crc_x25(data: &[u8]) -> (r: u16)
    ensures
        r == x25_of(data@),
{
    Crc::<u16>::new(&CRC_16_IBM_SDLC).checksum(data)
}

} // verus!
