//! Error kinds surfaced by a transfer session.
//!
//! Each variant carries a stable code string that front-ends embed in
//! their error events.

use vstd::prelude::*;

verus! {

/// Everything that can go wrong inside a session, with a stable code
/// per kind.  Network-setup failures are raised by the I/O layer but
/// share this type so every failure surfaces uniformly.
#[derive(Clone, Copy, Debug, PartialEq, Eq, Structural)]
pub enum TransferError {
    /// Ticket prefix, base64, JSON, or invariant failure.
    BadTicket,
    /// The endpoint could not be bound.
    EndpointBindFailed,
    /// Dialing the peer failed.
    DialFailed,
    /// Accepting the peer's connection failed.
    AcceptFailed,
    /// The Noise handshake refused a message.
    HandshakeFailed,
    /// A length prefix or plaintext exceeded the frame maximum.
    FrameTooLarge,
    /// Clean close before a required message.
    PeerClosed,
    /// The acknowledgement plaintext was not `OK`.
    ReceiverRejected,
    /// Fewer bytes arrived than the header declared.
    IncompleteTransfer,
    /// The BLAKE3 digest of the received bytes disagreed with the header.
    ChecksumMismatch,
    /// The final plaintext was not `DONE`.
    TailAckMismatch,
    /// The sender's local file changed size mid-stream.
    LocalFileChanged,
    /// A file-system operation failed.
    IoError,
    /// Any other failure; the catch-all code that front-ends emit.
    TransferFailed,
}

impl TransferError {
    /// The stable code string for this error kind.
    pub fn code(&self) -> (r: &'static str)
        ensures
            r@ == self.code_spec(),
    {
        match self {
            TransferError::BadTicket => "bad_ticket",
            TransferError::EndpointBindFailed => "endpoint_bind_failed",
            TransferError::DialFailed => "dial_failed",
            TransferError::AcceptFailed => "accept_failed",
            TransferError::HandshakeFailed => "handshake_failed",
            TransferError::FrameTooLarge => "frame_too_large",
            TransferError::PeerClosed => "peer_closed",
            TransferError::ReceiverRejected => "receiver_rejected",
            TransferError::IncompleteTransfer => "incomplete_transfer",
            TransferError::ChecksumMismatch => "checksum_mismatch",
            TransferError::TailAckMismatch => "tail_ack_mismatch",
            TransferError::LocalFileChanged => "local_file_changed",
            TransferError::IoError => "io_error",
            TransferError::TransferFailed => "transfer_error",
        }
    }

    /// The user-facing text for this error kind; ticket failures note
    /// the possibility of copy-paste truncation.
    pub fn message(&self) -> (r: &'static str)
        ensures
            r@ == self.message_spec(),
    {
        match self {
            TransferError::BadTicket => "invalid ticket (was the ticket truncated during copy-paste?)",
            TransferError::EndpointBindFailed => "failed to create the endpoint",
            TransferError::DialFailed => "failed to connect to the peer",
            TransferError::AcceptFailed => "failed to accept the connection",
            TransferError::HandshakeFailed => "the encryption handshake failed",
            TransferError::FrameTooLarge => "a frame exceeded the 65535-byte maximum",
            TransferError::PeerClosed => "the connection closed before a required message",
            TransferError::ReceiverRejected => "the receiver rejected the transfer",
            TransferError::IncompleteTransfer => "fewer bytes arrived than the header declared",
            TransferError::ChecksumMismatch => "checksum mismatch between the received data and the declared digest",
            TransferError::TailAckMismatch => "unexpected final message from the receiver",
            TransferError::LocalFileChanged => "the local file changed during the transfer",
            TransferError::IoError => "a file-system operation failed",
            TransferError::TransferFailed => "the transfer failed",
        }
    }

    /// The message text, as a sequence of characters.
    pub open spec fn message_spec(&self) -> Seq<char> {
        match self {
            TransferError::BadTicket => "invalid ticket (was the ticket truncated during copy-paste?)"@,
            TransferError::EndpointBindFailed => "failed to create the endpoint"@,
            TransferError::DialFailed => "failed to connect to the peer"@,
            TransferError::AcceptFailed => "failed to accept the connection"@,
            TransferError::HandshakeFailed => "the encryption handshake failed"@,
            TransferError::FrameTooLarge => "a frame exceeded the 65535-byte maximum"@,
            TransferError::PeerClosed => "the connection closed before a required message"@,
            TransferError::ReceiverRejected => "the receiver rejected the transfer"@,
            TransferError::IncompleteTransfer => "fewer bytes arrived than the header declared"@,
            TransferError::ChecksumMismatch => "checksum mismatch between the received data and the declared digest"@,
            TransferError::TailAckMismatch => "unexpected final message from the receiver"@,
            TransferError::LocalFileChanged => "the local file changed during the transfer"@,
            TransferError::IoError => "a file-system operation failed"@,
            TransferError::TransferFailed => "the transfer failed"@,
        }
    }

    /// The code string, as a sequence of characters.
    pub open spec fn code_spec(&self) -> Seq<char> {
        match self {
            TransferError::BadTicket => "bad_ticket"@,
            TransferError::EndpointBindFailed => "endpoint_bind_failed"@,
            TransferError::DialFailed => "dial_failed"@,
            TransferError::AcceptFailed => "accept_failed"@,
            TransferError::HandshakeFailed => "handshake_failed"@,
            TransferError::FrameTooLarge => "frame_too_large"@,
            TransferError::PeerClosed => "peer_closed"@,
            TransferError::ReceiverRejected => "receiver_rejected"@,
            TransferError::IncompleteTransfer => "incomplete_transfer"@,
            TransferError::ChecksumMismatch => "checksum_mismatch"@,
            TransferError::TailAckMismatch => "tail_ack_mismatch"@,
            TransferError::LocalFileChanged => "local_file_changed"@,
            TransferError::IoError => "io_error"@,
            TransferError::TransferFailed => "transfer_error"@,
        }
    }
}

} // verus!
