//! The receive half of the transfer state machine.
//!
//! The I/O layer hands each decrypted plaintext to a
//! [`ReceiveSession`]: the first one carries the header, the
//! following ones the file bytes, an empty one ends the data.  The
//! session counts bytes, feeds the incremental hash, and at the end
//! says — exactly — whether the byte count and the BLAKE3 digest
//! match what the header declared.

use vstd::prelude::*;

use crate::errors::TransferError;
use crate::hashing::{FileHasher, blake3_hex_of};
use crate::json::trim_spec;
use crate::protocol::{FileHeader, header_text, parse_header_text, lemma_header_round_trip,
    lemma_header_line_trims};
use crate::strings::{string_from_utf8, lemma_encode_utf8_len};

verus! {

/// A receive in progress: the declared header, the bytes received so
/// far, and the running hash.
pub struct ReceiveSession {
    /// The header the sender declared.
    pub header: FileHeader,
    /// File bytes received so far.
    pub received: u64,
    /// The running hash over the bytes received so far.
    pub hasher: FileHasher,
}

impl ReceiveSession {
    /// All file bytes received so far, in order.
    pub open spec fn fed(&self) -> Seq<u8> {
        self.hasher.fed()
    }

    /// Starts a receive from the first decrypted plaintext, which
    /// must carry the header line.  An empty plaintext means the peer
    /// closed before sending one; anything but a canonical header
    /// line is refused; the sender's own header line always parses.
    pub fn begin(header_plaintext: &Vec<u8>) -> (r: Result<ReceiveSession, TransferError>)
        ensures
            match r {
                Ok(sess) => {
                    &&& header_plaintext@.len() > 0
                    &&& sess.received == 0
                    &&& sess.fed() == Seq::<u8>::empty()
                    &&& exists|s: Seq<char>|
                        header_plaintext@ == vstd::utf8::encode_utf8(s) && parse_header_text(
                            trim_spec(s),
                        ) == Some((sess.header.name@, sess.header.size, sess.header.blake3@))
                },
                Err(e) => if header_plaintext@.len() == 0 {
                    e == TransferError::PeerClosed
                } else {
                    e == TransferError::TransferFailed
                },
            },
            forall|n: Seq<char>, sz: u64, hx: Seq<char>|
                header_plaintext@ == vstd::utf8::encode_utf8(
                    #[trigger] header_text(n, sz, hx) + "\n"@,
                ) ==> (r matches Ok(sess) && sess.header.name@ == n && sess.header.size == sz
                    && sess.header.blake3@ == hx),
    {
        broadcast use vstd::utf8::encode_utf8_valid_utf8, vstd::utf8::encode_utf8_decode_utf8;

        proof {
            reveal_strlit("\n");
            assert forall|n: Seq<char>, sz: u64, hx: Seq<char>| true implies (#[trigger] header_text(
                n,
                sz,
                hx,
            ) + "\n"@).len() > 0 by {
                lemma_header_line_trims(n, sz, hx);
            }
        }
        if header_plaintext.len() == 0 {
            proof {
                assert forall|n: Seq<char>, sz: u64, hx: Seq<char>|
                    header_plaintext@ != vstd::utf8::encode_utf8(
                        #[trigger] header_text(n, sz, hx) + "\n"@,
                    ) by {
                    lemma_header_line_trims(n, sz, hx);
                    lemma_encode_utf8_len(header_text(n, sz, hx) + "\n"@);
                }
            }
            return Err(TransferError::PeerClosed);
        }
        let line = match string_from_utf8(header_plaintext.clone()) {
            Ok(s) => s,
            Err(e) => {
                return Err(e);
            },
        };
        let header = match FileHeader::from_wire(line.as_str()) {
            Ok(h) => h,
            Err(e) => {
                proof {
                    assert forall|n: Seq<char>, sz: u64, hx: Seq<char>|
                        header_plaintext@ != vstd::utf8::encode_utf8(
                            #[trigger] header_text(n, sz, hx) + "\n"@,
                        ) by {
                        if header_plaintext@ == vstd::utf8::encode_utf8(
                            header_text(n, sz, hx) + "\n"@,
                        ) {
                            assert(vstd::utf8::decode_utf8(vstd::utf8::encode_utf8(line@))
                                == line@);
                            assert(vstd::utf8::decode_utf8(
                                vstd::utf8::encode_utf8(header_text(n, sz, hx) + "\n"@),
                            ) == header_text(n, sz, hx) + "\n"@);
                            assert(line@ == header_text(n, sz, hx) + "\n"@);
                            lemma_header_line_trims(n, sz, hx);
                            lemma_header_round_trip(n, sz, hx);
                        }
                    }
                }
                return Err(e);
            },
        };
        proof {
            assert forall|n: Seq<char>, sz: u64, hx: Seq<char>|
                header_plaintext@ == vstd::utf8::encode_utf8(
                    #[trigger] header_text(n, sz, hx) + "\n"@,
                ) implies header.name@ == n && header.size == sz && header.blake3@ == hx by {
                assert(vstd::utf8::decode_utf8(vstd::utf8::encode_utf8(line@)) == line@);
                assert(vstd::utf8::decode_utf8(
                    vstd::utf8::encode_utf8(header_text(n, sz, hx) + "\n"@),
                ) == header_text(n, sz, hx) + "\n"@);
                assert(line@ == header_text(n, sz, hx) + "\n"@);
                lemma_header_line_trims(n, sz, hx);
                lemma_header_round_trip(n, sz, hx);
            }
        }
        Ok(ReceiveSession { header, received: 0, hasher: FileHasher::new() })
    }

    /// Takes one decrypted data plaintext.  An empty one ends the
    /// data and changes nothing; otherwise the bytes are counted and
    /// hashed, and the result says whether more data is still owed
    /// (`received < size`).
    pub fn on_chunk(&mut self, chunk: &Vec<u8>) -> (r: Result<bool, TransferError>)
        ensures
            final(self).header == old(self).header,
            match r {
                Ok(more) => if chunk@.len() == 0 {
                    &&& more == false
                    &&& final(self).received == old(self).received
                    &&& final(self).fed() == old(self).fed()
                } else {
                    &&& final(self).received == old(self).received + chunk@.len()
                    &&& final(self).fed() == old(self).fed() + chunk@
                    &&& more == (final(self).received < final(self).header.size)
                },
                Err(e) => {
                    &&& e == TransferError::IncompleteTransfer
                    &&& old(self).received + chunk@.len() > u64::MAX
                    &&& final(self).received == old(self).received
                    &&& final(self).fed() == old(self).fed()
                },
            },
    {
        if chunk.len() == 0 {
            return Ok(false);
        }
        let n = chunk.len() as u64;
        if n > u64::MAX - self.received {
            return Err(TransferError::IncompleteTransfer);
        }
        self.received = self.received + n;
        self.hasher.update(chunk);
        Ok(self.received < self.header.size)
    }

    /// Verifies the finished receive: the byte count must equal the
    /// declared size and the BLAKE3 digest must equal the declared
    /// one — if and only if.
    pub fn finish(&self) -> (r: Result<(), TransferError>)
        ensures
            r is Ok <==> (self.received == self.header.size && blake3_hex_of(self.fed())
                == self.header.blake3@),
            r matches Err(e) ==> if self.received != self.header.size {
                e == TransferError::IncompleteTransfer
            } else {
                e == TransferError::ChecksumMismatch
            },
    {
        if self.received != self.header.size {
            return Err(TransferError::IncompleteTransfer);
        }
        let computed = self.hasher.finalize_hex();
        if !computed.eq(&self.header.blake3) {
            return Err(TransferError::ChecksumMismatch);
        }
        Ok(())
    }
}

} // verus!
