use p2p_share::crypto::{channel_round_trip, encrypted_write, handshake_begin_initiator,
    handshake_channel, handshake_finish_initiator, handshake_respond, verification_code,
    SecureChannel};
use p2p_share::hashing::FileHasher;
use p2p_share::protocol::{check_token, parse_frame_len, CHUNK_SIZE};
use p2p_share::receiver::ReceiveSession;
use p2p_share::sender::SendSession;
use p2p_share::TransferError;
use rand::Rng;

/// Runs a real Noise-NN handshake over in-memory messages and hands
/// back the two paired endpoints plus the shared handshake hash.
fn handshake_pair() -> (SecureChannel, SecureChannel, Vec<u8>) {
    let (hi, m1) = handshake_begin_initiator().expect("initiator start");
    let (hr, m2) = handshake_respond(&m1).expect("responder");
    let hi = handshake_finish_initiator(hi, &m2).expect("initiator finish");
    let (chan_i, hash_i) = handshake_channel(hi).expect("initiator channel");
    let (chan_r, hash_r) = handshake_channel(hr).expect("responder channel");
    assert_eq!(hash_i, hash_r);
    (chan_i, chan_r, hash_i)
}

fn blake3_hex(bytes: &[u8]) -> String {
    let mut hasher = FileHasher::new();
    hasher.update(&bytes.to_vec());
    hasher.finalize_hex()
}

#[test]
fn both_peers_derive_the_same_verification_code() {
    let (_a, _b, hash) = handshake_pair();
    assert_eq!(hash.len(), 32);
    let code_a = verification_code(&hash);
    let code_b = verification_code(&hash);
    assert_eq!(code_a, code_b);
    assert_eq!(code_a.len(), 9);
    assert_eq!(code_a.as_bytes()[4], b'-');
}

#[test]
fn encrypt_then_decrypt_gives_back_the_plaintext() {
    let (mut a, mut b, _) = handshake_pair();
    let p1 = b"hello across the channel".to_vec();
    let back = channel_round_trip(&mut a, &mut b, &p1).expect("round trip");
    assert_eq!(back, p1);
    let p2 = vec![0u8; CHUNK_SIZE];
    let back2 = channel_round_trip(&mut a, &mut b, &p2).expect("round trip");
    assert_eq!(back2, p2);
    let back3 = channel_round_trip(&mut b, &mut a, &b"reply".to_vec()).expect("reverse direction");
    assert_eq!(back3, b"reply".to_vec());
}

#[test]
fn tampered_ciphertext_is_refused() {
    let (mut a, mut b, _) = handshake_pair();
    let mut c = a.seal(&b"payload".to_vec()).expect("seal");
    c[0] ^= 1;
    assert!(b.open(&c).is_err());
}

#[test]
fn small_file_transfer_completes_and_verifies() {
    let contents = b"hello\n";
    let hash = blake3_hex(contents);
    assert_eq!(hash, "8e4c7c1b99dbfd50e7a95185fead5ee1448fa904a2fdd778eaf5f2dbfd629a99");
    assert_eq!(hash.len(), 64);

    let sender = SendSession::new("demo.txt".to_string(), contents.len() as u64, hash.clone());
    let header_wire = sender.header_wire().expect("header");

    let mut receiver = ReceiveSession::begin(&header_wire).expect("begin");
    assert_eq!(receiver.header.name, "demo.txt");
    assert_eq!(receiver.header.size, 6);
    assert_eq!(receiver.header.blake3, hash);

    let more = receiver.on_chunk(&contents.to_vec()).expect("chunk");
    assert!(!more);
    receiver.finish().expect("finish");
}

#[test]
fn checksum_tamper_is_caught() {
    let contents = b"hello\n";
    let hash = blake3_hex(contents);
    let sender = SendSession::new("demo.txt".to_string(), 6, hash);
    let header_wire = sender.header_wire().expect("header");
    let mut receiver = ReceiveSession::begin(&header_wire).expect("begin");
    let mut tampered = contents.to_vec();
    tampered[0] ^= 1;
    receiver.on_chunk(&tampered).expect("chunk");
    assert_eq!(receiver.finish().unwrap_err(), TransferError::ChecksumMismatch);
}

#[test]
fn incomplete_transfer_is_caught() {
    let contents = vec![42u8; 3 * CHUNK_SIZE];
    let hash = blake3_hex(&contents);
    let sender = SendSession::new("big.bin".to_string(), contents.len() as u64, hash);
    let header_wire = sender.header_wire().expect("header");
    let mut receiver = ReceiveSession::begin(&header_wire).expect("begin");
    let more = receiver.on_chunk(&contents[..CHUNK_SIZE].to_vec()).expect("chunk");
    assert!(more);
    let more = receiver.on_chunk(&Vec::new()).expect("eof");
    assert!(!more);
    assert_eq!(receiver.finish().unwrap_err(), TransferError::IncompleteTransfer);
}

#[test]
fn empty_first_frame_means_peer_closed() {
    match ReceiveSession::begin(&Vec::new()) {
        Err(e) => assert_eq!(e, TransferError::PeerClosed),
        Ok(_) => panic!("an empty header frame must be refused"),
    }
}

#[test]
fn sender_checks_acks_and_size() {
    let mut sender = SendSession::new("x".to_string(), 10, "00".repeat(32));
    assert!(SendSession::on_ack(&b"OK\n".to_vec()).is_ok());
    assert_eq!(
        SendSession::on_ack(&b"NO\n".to_vec()).unwrap_err(),
        TransferError::ReceiverRejected
    );
    sender.record_chunk(4).expect("chunk");
    assert_eq!(sender.finish_data().unwrap_err(), TransferError::LocalFileChanged);
    sender.record_chunk(6).expect("chunk");
    sender.finish_data().expect("size matches");
    assert!(SendSession::on_done(&b"DONE\n".to_vec()).is_ok());
    assert_eq!(
        SendSession::on_done(&b"HUH\n".to_vec()).unwrap_err(),
        TransferError::TailAckMismatch
    );
}

/// A whole reverse-mode style exchange: the connector (Noise
/// initiator) is the sender, streaming a megabyte of random bytes in
/// encrypted frames to the accepting receiver.
#[test]
fn reverse_mode_megabyte_transfer_end_to_end() {
    let mut contents = vec![0u8; 1_048_576];
    rand::rng().fill_bytes(&mut contents);
    let hash = blake3_hex(&contents);

    let (mut snd_chan, mut rcv_chan, _) = handshake_pair();

    let mut sender = SendSession::new("foo.bin".to_string(), contents.len() as u64, hash);

    // Header travels encrypted, framed.
    let frame = encrypted_write(&mut snd_chan, &sender.header_wire().expect("header"))
        .expect("frame");
    let plain = open_frame(&mut rcv_chan, &frame);
    let mut receiver = ReceiveSession::begin(&plain).expect("begin");
    assert_eq!(receiver.header.size, contents.len() as u64);

    // The acknowledgement travels back.
    let ack = encrypted_write(&mut rcv_chan, &p2p_share::protocol::ok_message()).expect("ack");
    let ack_plain = open_frame(&mut snd_chan, &ack);
    assert!(check_token(&ack_plain, "OK"));

    // Data streams in chunks.
    let mut offset = 0;
    while offset < contents.len() {
        let end = usize::min(offset + CHUNK_SIZE, contents.len());
        let chunk = contents[offset..end].to_vec();
        let frame = encrypted_write(&mut snd_chan, &chunk).expect("frame");
        sender.record_chunk(chunk.len()).expect("count");
        let plain = open_frame(&mut rcv_chan, &frame);
        receiver.on_chunk(&plain).expect("chunk");
        offset = end;
    }
    sender.finish_data().expect("size");
    receiver.finish().expect("verify");

    let done = encrypted_write(&mut rcv_chan, &p2p_share::protocol::done_message()).expect("done");
    let done_plain = open_frame(&mut snd_chan, &done);
    assert!(SendSession::on_done(&done_plain).is_ok());
}

fn open_frame(chan: &mut SecureChannel, frame: &Vec<u8>) -> Vec<u8> {
    let prefix = [frame[0], frame[1], frame[2], frame[3]];
    let len = parse_frame_len(&prefix).expect("length");
    assert_eq!(frame.len(), 4 + len);
    chan.open(&frame[4..].to_vec()).expect("open")
}
