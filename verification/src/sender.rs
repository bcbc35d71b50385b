//! The send half of the transfer state machine.
//!
//! The I/O layer asks a [`SendSession`] for the header line, shows it
//! the receiver's acknowledgement, records each streamed chunk, and
//! at end of file asks whether the byte count still matches the
//! declared size.  The final `DONE` acknowledgement is checked
//! strictly in both normal and reverse mode.

use vstd::prelude::*;

use crate::errors::TransferError;
use crate::protocol::{FileHeader, check_token, token_match};

verus! {

/// A send in progress: the declared header and the bytes streamed so
/// far.
pub struct SendSession {
    /// The header this side declared (name, size, BLAKE3 hex).
    pub header: FileHeader,
    /// File bytes streamed so far.
    pub sent: u64,
}

impl SendSession {
    /// A session about to announce `name`, `size` bytes, digest
    /// `blake3`.
    pub fn new(name: String, size: u64, blake3: String) -> (r: SendSession)
        ensures
            r.header.name == name,
            r.header.size == size,
            r.header.blake3 == blake3,
            r.sent == 0,
    {
        SendSession { header: FileHeader { name, size, blake3 }, sent: 0 }
    }

    /// The header line to encrypt and send first.
    pub fn header_wire(&self) -> (r: Result<Vec<u8>, TransferError>)
        ensures
            r matches Ok(b) && b@ == vstd::utf8::encode_utf8(self.header.wire_text() + "\n"@),
    {
        self.header.to_wire()
    }

    /// Checks the receiver's acknowledgement: its trimmed text must
    /// be `OK`, else the receiver rejected the transfer.
    pub fn on_ack(plaintext: &Vec<u8>) -> (r: Result<(), TransferError>)
        ensures
            r is Ok <==> token_match(plaintext@, "OK"@),
            r matches Err(e) ==> e == TransferError::ReceiverRejected,
    {
        if check_token(plaintext, "OK") {
            Ok(())
        } else {
            Err(TransferError::ReceiverRejected)
        }
    }

    /// Records one streamed chunk of `len` bytes.
    pub fn record_chunk(&mut self, len: usize) -> (r: Result<(), TransferError>)
        ensures
            final(self).header == old(self).header,
            match r {
                Ok(u) => u == () && final(self).sent == old(self).sent + len,
                Err(e) => {
                    &&& e == TransferError::LocalFileChanged
                    &&& old(self).sent + len > u64::MAX
                    &&& final(self).sent == old(self).sent
                },
            },
    {
        let n = len as u64;
        if n > u64::MAX - self.sent {
            return Err(TransferError::LocalFileChanged);
        }
        self.sent = self.sent + n;
        Ok(())
    }

    /// After end of file: the bytes streamed must equal the declared
    /// size — if and only if — else the local file changed
    /// mid-stream.
    pub fn finish_data(&self) -> (r: Result<(), TransferError>)
        ensures
            r is Ok <==> self.sent == self.header.size,
            r matches Err(e) ==> e == TransferError::LocalFileChanged,
    {
        if self.sent != self.header.size {
            return Err(TransferError::LocalFileChanged);
        }
        Ok(())
    }

    /// Checks the receiver's final message: its trimmed text must be
    /// `DONE`, else the transfer cannot be taken as confirmed.
    pub fn on_done(plaintext: &Vec<u8>) -> (r: Result<(), TransferError>)
        ensures
            r is Ok <==> token_match(plaintext@, "DONE"@),
            r matches Err(e) ==> e == TransferError::TailAckMismatch,
    {
        if check_token(plaintext, "DONE") {
            Ok(())
        } else {
            Err(TransferError::TailAckMismatch)
        }
    }
}

} // verus!
