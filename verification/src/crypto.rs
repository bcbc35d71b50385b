//! The in-stream secure channel: a Noise-NN handshake, the AEAD
//! transport that follows it, and the short verification code both
//! peers display.
//!
//! The pattern is `Noise_NN_25519_ChaChaPoly_BLAKE2s`, carried out by
//! the snow crate behind the trusted items below.  A session is
//! modeled by the transcript of the two handshake messages: the
//! session keys are a mathematical function of the two ephemeral
//! public keys those messages carry, so the ciphertext of message
//! `idx` in one direction is a function of the transcript, the
//! direction, the index, and the plaintext — the name [`noise_seal`].
//! The handshake hash is likewise a function of the transcript —
//! [`handshake_hash_of`] — which is what makes the verification code
//! agree on both ends.

use vstd::prelude::*;

use crate::errors::TransferError;
use crate::protocol::MAX_FRAME;
use crate::strings::string_of;
use crate::json::{is_hex_digit, hex_val, hex_val_exec, lemma_hex_digit_val};
use crate::text::{hex_digit, hex_digit_exec};

verus! {

// ─── Hex text ───────────────────────────────────────────────────────

/// Lowercase hex text of a byte string, two digits per byte.
pub open spec fn hex_of(b: Seq<u8>) -> Seq<char>
    decreases b.len(),
{
    if b.len() == 0 {
        Seq::empty()
    } else {
        seq![
            hex_digit((b.first() / 16) as nat),
            hex_digit((b.first() % 16) as nat),
        ] + hex_of(b.drop_first())
    }
}

pub proof fn lemma_hex_of_append(a: Seq<u8>, b: Seq<u8>)
    ensures
        hex_of(a + b) == hex_of(a) + hex_of(b),
    decreases a.len(),
{
    if a.len() == 0 {
        assert(a + b =~= b);
        assert(hex_of(a) + hex_of(b) =~= hex_of(b));
    } else {
        lemma_hex_of_append(a.drop_first(), b);
        assert((a + b).drop_first() =~= a.drop_first() + b);
        assert((a + b).first() == a.first());
        assert(hex_of(a + b) =~= hex_of(a) + hex_of(b));
    }
}

/// Hex-encodes a byte string, lowercase, two digits per byte.
pub fn encode(bytes: &[u8]) -> (r: String)
    ensures
        r@ == hex_of(bytes@),
{
    let mut out: Vec<char> = Vec::new();
    let mut i: usize = 0;
    while i < bytes.len()
        invariant
            i <= bytes@.len(),
            out@ == hex_of(bytes@.take(i as int)),
        decreases bytes@.len() - i,
    {
        let x = bytes[i];
        let ghost before = out@;
        out.push(hex_digit_exec(x / 16));
        out.push(hex_digit_exec(x % 16));
        proof {
            assert(bytes@.take(i as int + 1) =~= bytes@.take(i as int) + seq![x]);
            lemma_hex_of_append(bytes@.take(i as int), seq![x]);
            assert(seq![x].drop_first() =~= Seq::<u8>::empty());
            assert(hex_of(seq![x].drop_first()) =~= Seq::<char>::empty());
            assert(out@ =~= before + hex_of(seq![x]));
        }
        i = i + 1;
    }
    proof {
        assert(bytes@.take(bytes@.len() as int) =~= bytes@);
    }
    string_of(&out)
}

/// Parses lowercase hex text back into bytes, two digits a byte;
/// exactly the outputs of [`hex_of`] are accepted.
pub open spec fn parse_hex_bytes(t: Seq<char>) -> Option<Seq<u8>>
    decreases t.len(),
{
    if t.len() == 0 {
        Some(Seq::empty())
    } else if t.len() == 1 {
        None
    } else if is_hex_digit(t[0]) && is_hex_digit(t[1]) {
        match parse_hex_bytes(t.skip(2)) {
            Some(b) => Some(seq![(hex_val(t[0]) * 16 + hex_val(t[1])) as u8] + b),
            None => None,
        }
    } else {
        None
    }
}

/// Hex text always decodes back to the bytes it encoded.
pub proof fn lemma_parse_hex_bytes_of(b: Seq<u8>)
    ensures
        parse_hex_bytes(hex_of(b)) == Some(b),
    decreases b.len(),
{
    if b.len() > 0 {
        lemma_parse_hex_bytes_of(b.drop_first());
        let t = hex_of(b);
        let x = b.first();
        lemma_hex_digit_val((x / 16) as nat);
        lemma_hex_digit_val((x % 16) as nat);
        assert(t[0] == hex_digit((x / 16) as nat) && t[1] == hex_digit((x % 16) as nat));
        assert(t.skip(2) =~= hex_of(b.drop_first()));
        assert((x / 16) * 16 + (x % 16) == x) by (nonlinear_arith);
        assert(((hex_val(t[0]) * 16 + hex_val(t[1])) as u8) == x);
        assert(seq![x] + b.drop_first() =~= b);
    }
}

/// Exec hex decoder; behaves exactly as [`parse_hex_bytes`].
pub fn decode_hex(t: &Vec<char>) -> (r: Option<Vec<u8>>)
    ensures
        match r {
            Some(b) => parse_hex_bytes(t@) == Some(b@),
            None => parse_hex_bytes(t@) is None,
        },
{
    let mut out: Vec<u8> = Vec::new();
    let mut j: usize = 0;
    proof {
        assert(t@.skip(0) =~= t@);
        assert(forall|b: Seq<u8>| Seq::<u8>::empty() + b =~= b);
    }
    loop
        invariant
            j <= t@.len(),
            j % 2 == 0,
            (match parse_hex_bytes(t@.skip(j as int)) {
                Some(b) => parse_hex_bytes(t@) == Some(out@ + b),
                None => parse_hex_bytes(t@) is None,
            }),
        decreases t@.len() - j,
    {
        let ghost tail = t@.skip(j as int);
        if j == t.len() {
            proof {
                assert(tail.len() == 0);
                assert(out@ + Seq::<u8>::empty() =~= out@);
            }
            return Some(out);
        }
        if j + 1 == t.len() {
            assert(tail.len() == 1);
            return None;
        }
        let d1 = match hex_val_exec(t[j]) {
            Some(x) => x,
            None => {
                assert(tail[0] == t@[j as int]);
                return None;
            },
        };
        let d2 = match hex_val_exec(t[j + 1]) {
            Some(x) => x,
            None => {
                assert(tail[1] == t@[j as int + 1]);
                return None;
            },
        };
        let byte: u8 = d1 * 16 + d2;
        let ghost before = out@;
        out.push(byte);
        proof {
            assert(tail[0] == t@[j as int] && tail[1] == t@[j as int + 1]);
            assert(tail.skip(2) =~= t@.skip(j as int + 2));
            assert(out@ =~= before + seq![byte]);
            assert(forall|b: Seq<u8>| (before + seq![byte]) + b =~= before + (seq![byte] + b));
        }
        j = j + 2;
    }
}

// ─── Verification code ──────────────────────────────────────────────

/// The human verification code of a handshake hash: eight hex
/// characters from its first four bytes, hyphenated in the middle.
pub open spec fn code_of(h: Seq<u8>) -> Seq<char> {
    hex_of(h.take(2)) + "-"@ + hex_of(h.subrange(2, 4))
}

/// Derive the short human-readable verification code from the
/// handshake hash.  Format: `xxxx-xxxx`.
pub fn verification_code(handshake_hash: &[u8]) -> (r: String)
    requires
        handshake_hash@.len() >= 4,
    ensures
        r@ == code_of(handshake_hash@),
{
    let mut out: Vec<char> = Vec::new();
    let h = handshake_hash;
    out.push(hex_digit_exec(h[0] / 16));
    out.push(hex_digit_exec(h[0] % 16));
    out.push(hex_digit_exec(h[1] / 16));
    out.push(hex_digit_exec(h[1] % 16));
    out.push('-');
    out.push(hex_digit_exec(h[2] / 16));
    out.push(hex_digit_exec(h[2] % 16));
    out.push(hex_digit_exec(h[3] / 16));
    out.push(hex_digit_exec(h[3] % 16));
    proof {
        reveal_strlit("-");
        let two = h@.take(2);
        assert(two =~= seq![h@[0]] + seq![h@[1]]);
        lemma_hex_of_append(seq![h@[0]], seq![h@[1]]);
        lemma_hex_of_single(h@[0]);
        lemma_hex_of_single(h@[1]);
        let four = h@.subrange(2, 4);
        assert(four =~= seq![h@[2]] + seq![h@[3]]);
        lemma_hex_of_append(seq![h@[2]], seq![h@[3]]);
        lemma_hex_of_single(h@[2]);
        lemma_hex_of_single(h@[3]);
        assert(out@ =~= code_of(h@));
    }
    string_of(&out)
}

pub proof fn lemma_hex_of_single(x: u8)
    ensures
        hex_of(seq![x]) == seq![hex_digit((x / 16) as nat), hex_digit((x % 16) as nat)],
{
    assert(seq![x].drop_first() =~= Seq::<u8>::empty());
    assert(hex_of(seq![x].drop_first()) =~= Seq::<char>::empty());
    assert(hex_of(seq![x]) =~= seq![hex_digit((x / 16) as nat), hex_digit((x % 16) as nat)]);
}

/// Both peers derive the same verification code from the same
/// handshake transcript.
pub proof fn lemma_verification_code_agreement(t1: Seq<u8>, t2: Seq<u8>)
    requires
        t1 == t2,
    ensures
        code_of(handshake_hash_of(t1)) == code_of(handshake_hash_of(t2)),
{
}

// ─── The Noise session model ────────────────────────────────────────

/// The ciphertext that one direction of an established Noise-NN
/// session produces: a function of the handshake transcript (which
/// fixes the session keys), the sender's role, the message index
/// (the AEAD nonce), and the plaintext.
pub uninterp spec fn noise_seal(
    transcript: Seq<u8>,
    from_initiator: bool,
    idx: nat,
    plaintext: Seq<u8>,
) -> Seq<u8>;

/// The Noise handshake hash: a digest of the protocol name and the
/// handshake messages, hence a function of the transcript.
pub uninterp spec fn handshake_hash_of(transcript: Seq<u8>) -> Seq<u8>;

/// The sending direction of the peer of a side with role
/// `from_initiator`.
pub open spec fn peer_role(from_initiator: bool) -> bool {
    !from_initiator
}

#[verifier::external_type_specification]
#[verifier::external_body]
pub struct ExHandshakeState(snow::HandshakeState);

#[verifier::external_type_specification]
#[verifier::external_body]
pub struct ExTransportState(snow::TransportState);

/// An in-progress Noise-NN handshake, with the transcript gathered so
/// far.
pub struct Handshake {
    state: snow::HandshakeState,
    transcript: Ghost<Seq<u8>>,
    initiator: Ghost<bool>,
}

impl Handshake {
    /// The handshake messages sent and received so far, concatenated.
    pub closed spec fn transcript(&self) -> Seq<u8> {
        self.transcript@
    }

    /// Whether this side initiated.
    pub closed spec fn from_initiator(&self) -> bool {
        self.initiator@
    }
}

/// An established Noise transport: one session endpoint.  `sent` and
/// `received` count the transport messages of each direction, which
/// snow uses as AEAD nonces.
pub struct SecureChannel {
    state: snow::TransportState,
    transcript: Ghost<Seq<u8>>,
    initiator: Ghost<bool>,
    sent: Ghost<nat>,
    received: Ghost<nat>,
}

impl SecureChannel {
    /// The handshake transcript that fixed this session's keys.
    pub closed spec fn transcript(&self) -> Seq<u8> {
        self.transcript@
    }

    /// Whether this side initiated the handshake.
    pub closed spec fn from_initiator(&self) -> bool {
        self.initiator@
    }

    /// Transport messages sealed so far.
    pub closed spec fn sent_count(&self) -> nat {
        self.sent@
    }

    /// Transport messages opened so far.
    pub closed spec fn recv_count(&self) -> nat {
        self.received@
    }
}

/// Relies on snow's `Builder::build_initiator` and
/// `HandshakeState::write_message`: the first NN message (`e`)
/// carries one ephemeral key and fits in a frame.
#[verifier::external_body]
fn begin_initiator_raw() -> (r: Result<(snow::HandshakeState, Vec<u8>), TransferError>)
    ensures
        match r {
            Ok((hs, m1)) => m1@.len() <= MAX_FRAME,
            Err(e) => e == TransferError::HandshakeFailed,
        },
{
    let params = "Noise_NN_25519_ChaChaPoly_BLAKE2s".parse().map_err(
        |_| TransferError::HandshakeFailed,
    )?;
    let mut hs = snow::Builder::new(params).build_initiator().map_err(
        |_| TransferError::HandshakeFailed,
    )?;
    let mut buf = vec![0u8; 65535];
    let len = hs.write_message(&[], &mut buf).map_err(|_| TransferError::HandshakeFailed)?;
    buf.truncate(len);
    Ok((hs, buf))
}

/// Relies on snow's `Builder::build_responder`,
/// `HandshakeState::read_message` and `write_message`: the NN reply
/// (`e, ee`) fits in a frame, and a malformed first message is
/// refused.
#[verifier::external_body]
fn respond_raw(m1: &Vec<u8>) -> (r: Result<(snow::HandshakeState, Vec<u8>), TransferError>)
    requires
        m1@.len() <= MAX_FRAME,
    ensures
        match r {
            Ok((hs, m2)) => m2@.len() <= MAX_FRAME,
            Err(e) => e == TransferError::HandshakeFailed,
        },
{
    let params = "Noise_NN_25519_ChaChaPoly_BLAKE2s".parse().map_err(
        |_| TransferError::HandshakeFailed,
    )?;
    let mut hs = snow::Builder::new(params).build_responder().map_err(
        |_| TransferError::HandshakeFailed,
    )?;
    let mut buf = vec![0u8; 65535];
    hs.read_message(m1, &mut buf).map_err(|_| TransferError::HandshakeFailed)?;
    let len = hs.write_message(&[], &mut buf).map_err(|_| TransferError::HandshakeFailed)?;
    buf.truncate(len);
    Ok((hs, buf))
}

/// Relies on snow's `HandshakeState::read_message`: a malformed or
/// tampered handshake message is refused.
#[verifier::external_body]
fn read_handshake_raw(hs: &mut snow::HandshakeState, m: &Vec<u8>) -> (r: Result<
    (),
    TransferError,
>)
    requires
        m@.len() <= MAX_FRAME,
    ensures
        match r {
            Ok(u) => u == (),
            Err(e) => e == TransferError::HandshakeFailed,
        },
{
    let mut buf = vec![0u8; 65535];
    hs.read_message(m, &mut buf).map_err(|_| TransferError::HandshakeFailed)?;
    Ok(())
}

/// Relies on snow's `HandshakeState::get_handshake_hash` — a 32-byte
/// BLAKE2s digest of the protocol name and the handshake messages,
/// hence a function of the transcript — and `into_transport_mode`,
/// which is refused while the handshake is unfinished.
#[verifier::external_body]
fn into_transport_raw(h: Handshake) -> (r: Result<(snow::TransportState, Vec<u8>), TransferError>)
    ensures
        match r {
            Ok((ts, hash)) => hash@ == handshake_hash_of(h.transcript()) && hash@.len() == 32,
            Err(e) => e == TransferError::HandshakeFailed,
        },
{
    let hash = h.state.get_handshake_hash().to_vec();
    let state = h.state.into_transport_mode().map_err(|_| TransferError::HandshakeFailed)?;
    Ok((state, hash))
}

/// Begins a Noise-NN handshake as the initiator, producing the first
/// handshake message (`e`).
pub fn handshake_begin_initiator() -> (r: Result<(Handshake, Vec<u8>), TransferError>)
    ensures
        match r {
            Ok((h, m1)) => h.from_initiator() == true && h.transcript() == m1@ && m1@.len()
                <= MAX_FRAME,
            Err(e) => e == TransferError::HandshakeFailed,
        },
{
    let (hs, m1) = match begin_initiator_raw() {
        Ok(p) => p,
        Err(e) => {
            return Err(e);
        },
    };
    let h = Handshake { state: hs, transcript: Ghost(m1@), initiator: Ghost(true) };
    Ok((h, m1))
}

/// Runs the responder's whole Noise-NN handshake: reads the
/// initiator's `e`, answers with `e, ee`.
pub fn handshake_respond(m1: &Vec<u8>) -> (r: Result<(Handshake, Vec<u8>), TransferError>)
    requires
        m1@.len() <= MAX_FRAME,
    ensures
        match r {
            Ok((h, m2)) => h.from_initiator() == false && h.transcript() == m1@ + m2@
                && m2@.len() <= MAX_FRAME,
            Err(e) => e == TransferError::HandshakeFailed,
        },
{
    let (hs, m2) = match respond_raw(m1) {
        Ok(p) => p,
        Err(e) => {
            return Err(e);
        },
    };
    let h = Handshake { state: hs, transcript: Ghost(m1@ + m2@), initiator: Ghost(false) };
    Ok((h, m2))
}

/// Feeds the responder's reply (`e, ee`) to the initiator,
/// completing its handshake.
pub fn handshake_finish_initiator(h: Handshake, m2: &Vec<u8>) -> (r: Result<
    Handshake,
    TransferError,
>)
    requires
        h.from_initiator() == true,
        m2@.len() <= MAX_FRAME,
    ensures
        match r {
            Ok(h2) => h2.from_initiator() == true && h2.transcript() == h.transcript() + m2@,
            Err(e) => e == TransferError::HandshakeFailed,
        },
{
    let Handshake { state: mut hs, transcript, initiator } = h;
    match read_handshake_raw(&mut hs, m2) {
        Ok(_) => {},
        Err(e) => {
            return Err(e);
        },
    }
    Ok(Handshake { state: hs, transcript: Ghost(transcript@ + m2@), initiator })
}

/// Turns a completed handshake into the transport channel and the
/// handshake hash.
pub fn handshake_channel(h: Handshake) -> (r: Result<(SecureChannel, Vec<u8>), TransferError>)
    ensures
        match r {
            Ok((ch, hash)) => ch.transcript() == h.transcript() && ch.from_initiator()
                == h.from_initiator() && ch.sent_count() == 0 && ch.recv_count() == 0 && hash@
                == handshake_hash_of(h.transcript()) && hash@.len() == 32,
            Err(e) => e == TransferError::HandshakeFailed,
        },
{
    let ghost transcript = h.transcript@;
    let ghost initiator = h.initiator@;
    let (state, hash) = match into_transport_raw(h) {
        Ok(p) => p,
        Err(e) => {
            return Err(e);
        },
    };
    let ch = SecureChannel {
        state,
        transcript: Ghost(transcript),
        initiator: Ghost(initiator),
        sent: Ghost(0),
        received: Ghost(0),
    };
    Ok((ch, hash))
}

impl SecureChannel {
    /// Encrypts one plaintext as the next transport message of this
    /// side's direction.
    /// Relies on snow's `TransportState::write_message`: with a
    /// payload of at most 65,519 bytes and an unexhausted nonce it
    /// appends the 16-byte AEAD tag and succeeds, and the ciphertext
    /// is a function of the session keys (fixed by the transcript),
    /// the direction, the message index, and the plaintext.
    #[verifier::external_body]
    pub fn seal(&mut self, plaintext: &Vec<u8>) -> (r: Result<Vec<u8>, TransferError>)
        requires
            plaintext@.len() + 16 <= MAX_FRAME,
            old(self).sent_count() < 0xffff_ffff_ffff_ffff,
        ensures
            final(self).transcript() == old(self).transcript(),
            final(self).from_initiator() == old(self).from_initiator(),
            final(self).recv_count() == old(self).recv_count(),
            final(self).sent_count() == old(self).sent_count() + 1,
            r is Ok,
            match r {
                Ok(c) => c@ == noise_seal(
                    old(self).transcript(),
                    old(self).from_initiator(),
                    old(self).sent_count(),
                    plaintext@,
                ) && c@.len() == plaintext@.len() + 16,
                Err(e) => e == TransferError::TransferFailed,
            },
    {
        let mut buf = vec![0u8; plaintext.len() + 16];
        let len = self.state.write_message(plaintext, &mut buf).map_err(
            |_| TransferError::TransferFailed,
        )?;
        buf.truncate(len);
        Ok(buf)
    }

    /// Decrypts one transport message of the peer's direction.
    /// Relies on snow's `TransportState::read_message`: it strips the
    /// 16-byte AEAD tag; whenever the ciphertext is exactly what the
    /// peer produced at the matching message index it returns the
    /// peer's plaintext; on success the ciphertext *is* the peer's
    /// sealing of the returned plaintext at that index (the cipher is
    /// deterministic, so re-encrypting the output reproduces the
    /// accepted ciphertext, tag included); and on refusal the nonce
    /// is unchanged.
    #[verifier::external_body]
    pub fn open(&mut self, ciphertext: &Vec<u8>) -> (r: Result<Vec<u8>, TransferError>)
        requires
            ciphertext@.len() <= MAX_FRAME,
            old(self).recv_count() < 0xffff_ffff_ffff_ffff,
        ensures
            final(self).transcript() == old(self).transcript(),
            final(self).from_initiator() == old(self).from_initiator(),
            final(self).sent_count() == old(self).sent_count(),
            match r {
                Ok(p) => final(self).recv_count() == old(self).recv_count() + 1 && p@.len() + 16
                    == ciphertext@.len() && ciphertext@ == noise_seal(
                    old(self).transcript(),
                    peer_role(old(self).from_initiator()),
                    old(self).recv_count(),
                    p@,
                ),
                Err(e) => final(self).recv_count() == old(self).recv_count() && e
                    == TransferError::TransferFailed,
            },
            forall|p: Seq<u8>|
                ciphertext@ == #[trigger] noise_seal(
                    old(self).transcript(),
                    peer_role(old(self).from_initiator()),
                    old(self).recv_count(),
                    p,
                ) ==> (r matches Ok(q) && q@ == p),
    {
        let mut buf = vec![0u8; ciphertext.len()];
        let len = self.state.read_message(ciphertext, &mut buf).map_err(
            |_| TransferError::TransferFailed,
        )?;
        buf.truncate(len);
        Ok(buf)
    }
}

/// Encrypts one plaintext and wraps the ciphertext as one wire
/// frame, ready to send.
pub fn encrypted_write(ch: &mut SecureChannel, plaintext: &Vec<u8>) -> (r: Result<
    Vec<u8>,
    TransferError,
>)
    requires
        plaintext@.len() + 16 <= MAX_FRAME,
        old(ch).sent_count() < 0xffff_ffff_ffff_ffff,
    ensures
        final(ch).transcript() == old(ch).transcript(),
        final(ch).from_initiator() == old(ch).from_initiator(),
        final(ch).recv_count() == old(ch).recv_count(),
        final(ch).sent_count() == old(ch).sent_count() + 1,
        r matches Ok(f) && f@ == crate::protocol::frame_bytes(
            noise_seal(
                old(ch).transcript(),
                old(ch).from_initiator(),
                old(ch).sent_count(),
                plaintext@,
            ),
        ) && f@.len() == plaintext@.len() + 20,
{
    let ciphertext = match ch.seal(plaintext) {
        Ok(c) => c,
        Err(e) => {
            return Err(e);
        },
    };
    match crate::protocol::encode_frame(&ciphertext) {
        Ok(f) => Ok(f),
        Err(e) => Err(e),
    }
}

/// Two channel endpoints of one session, looking at each other.
pub open spec fn paired_channels(a: &SecureChannel, b: &SecureChannel) -> bool {
    a.transcript() == b.transcript() && a.from_initiator() != b.from_initiator()
}

/// Within an established channel, a plaintext sealed on one side and
/// opened at the matching index on the other comes back unchanged:
/// frames arrive in order, one message per frame.
pub fn channel_round_trip(src: &mut SecureChannel, dst: &mut SecureChannel, plaintext: &Vec<u8>)
    -> (r: Result<Vec<u8>, TransferError>)
    requires
        paired_channels(old(src), old(dst)),
        old(dst).recv_count() == old(src).sent_count(),
        plaintext@.len() + 16 <= MAX_FRAME,
        old(src).sent_count() < 0xffff_ffff_ffff_ffff,
    ensures
        r matches Ok(p) && p@ == plaintext@,
        paired_channels(final(src), final(dst)),
        final(dst).recv_count() == final(src).sent_count(),
        final(src).sent_count() == old(src).sent_count() + 1,
        final(src).recv_count() == old(src).recv_count(),
        final(dst).sent_count() == old(dst).sent_count(),
{
    let ciphertext = match src.seal(plaintext) {
        Ok(c) => c,
        Err(e) => {
            return Err(e);
        },
    };
    proof {
        assert(ciphertext@ == noise_seal(
            dst.transcript(),
            peer_role(dst.from_initiator()),
            dst.recv_count(),
            plaintext@,
        ));
    }
    match dst.open(&ciphertext) {
        Ok(p) => Ok(p),
        Err(e) => Err(e),
    }
}

} // verus!
