//! Streamed BLAKE3 hashing, as the receiver (and the sender's
//! pre-transfer pass) consume a file chunk by chunk.

use vstd::prelude::*;

verus! {

/// The lowercase hex BLAKE3 digest of a byte string: a function of
/// the bytes alone.
pub uninterp spec fn blake3_hex_of(bytes: Seq<u8>) -> Seq<char>;

#[verifier::external_type_specification]
#[verifier::external_body]
pub struct ExBlake3Hasher(blake3::Hasher);

/// Relies on `blake3::Hasher::new`: a hasher that has seen no input.
#[verifier::external_body]
fn hasher_new_raw() -> blake3::Hasher {
    blake3::Hasher::new()
}

/// An incremental BLAKE3 hasher together with the bytes it has been
/// fed.
pub struct FileHasher {
    inner: blake3::Hasher,
    fed: Ghost<Seq<u8>>,
}

impl FileHasher {
    /// All bytes fed so far, in order.
    pub closed spec fn fed(&self) -> Seq<u8> {
        self.fed@
    }

    /// A hasher over the empty input.
    pub fn new() -> (r: FileHasher)
        ensures
            r.fed() == Seq::<u8>::empty(),
    {
        FileHasher { inner: hasher_new_raw(), fed: Ghost(Seq::empty()) }
    }

    /// Feeds one chunk.
    /// Relies on `blake3::Hasher::update`: appending input bytes.
    #[verifier::external_body]
    pub fn update(&mut self, chunk: &Vec<u8>)
        ensures
            final(self).fed() == old(self).fed() + chunk@,
    {
        self.inner.update(chunk);
    }

    /// The digest of everything fed, as 64 lowercase hex characters.
    /// Relies on `blake3::Hasher::finalize` and `blake3::Hash::to_hex`:
    /// the digest is a function of the input bytes alone.
    #[verifier::external_body]
    pub fn finalize_hex(&self) -> (r: String)
        ensures
            r@ == blake3_hex_of(self.fed()),
            r@.len() == 64,
    {
        let hex = self.inner.finalize().to_hex();
        hex.as_str().to_string()
    }
}

} // verus!
