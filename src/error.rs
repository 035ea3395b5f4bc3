use vstd::prelude::*;

verus! {

/// Every way in which an operation of the protocol can fail.
#[derive(Debug, Clone, Copy, PartialEq, Eq, Structural)]
pub enum LiaisonError {
    /// A datagram shorter than a header, or whose header length disagrees
    /// with the bytes that follow it.
    MalformedHeader,
    /// A PONG payload whose size disagrees with the number of endpoints
    /// it announces.
    MalformedPayload,
    /// A DATA payload that is corrupted or truncated: its length field
    /// disagrees with its size, or its stored checksum with its data's.
    ChecksumMismatch,
    /// An opcode that this protocol does not know.
    UnknownOpcode(u8),
    /// A packet whose payload would not fit the 16-bit length field.
    PayloadTooLarge,
    /// The transport could not send a datagram to a peer.
    SendFailure,
    /// The transport could not bind its local socket.
    BindFailure,
}

} // verus!
