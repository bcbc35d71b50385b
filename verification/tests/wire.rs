use p2p_share::crypto::{encode, verification_code};
use p2p_share::protocol::{check_token, done_message, encode_frame, human_bytes, ok_message,
    parse_frame_len, FileHeader};
use p2p_share::TransferError;

#[test]
fn header_round_trip() {
    let header = FileHeader {
        name: "demo.txt".to_string(),
        size: 42,
        blake3: "abc123".to_string(),
    };
    let wire = header.to_wire().expect("serialize");
    let wire_str = String::from_utf8(wire).expect("utf8");
    let parsed = FileHeader::from_wire(&wire_str).expect("parse");
    assert_eq!(parsed.name, "demo.txt");
    assert_eq!(parsed.size, 42);
    assert_eq!(parsed.blake3, "abc123");
}

#[test]
fn header_wire_is_canonical_json_line() {
    let header = FileHeader {
        name: "a \"b\"\\c".to_string(),
        size: 7,
        blake3: "00ff".to_string(),
    };
    let wire = header.to_wire().expect("serialize");
    let text = String::from_utf8(wire).expect("utf8");
    assert_eq!(text, "{\"name\":\"a \\\"b\\\"\\\\c\",\"size\":7,\"blake3\":\"00ff\"}\n");
    let parsed = FileHeader::from_wire(&text).expect("parse");
    assert_eq!(parsed.name, "a \"b\"\\c");
}

#[test]
fn header_rejects_junk() {
    assert!(FileHeader::from_wire("").is_err());
    assert!(FileHeader::from_wire("   ").is_err());
    assert!(FileHeader::from_wire("{\"name\":\"x\"}").is_err());
    assert!(FileHeader::from_wire("nonsense").is_err());
    assert!(
        FileHeader::from_wire("{\"name\":\"a\",\"name\":\"b\",\"size\":1,\"blake3\":\"00\"}")
            .is_err()
    );
}

#[test]
fn header_accepts_reordered_keys_and_whitespace() {
    let parsed = FileHeader::from_wire("{\"size\":42,\"name\":\"x\",\"blake3\":\"00\"}")
        .expect("parse");
    assert_eq!(parsed.name, "x");
    assert_eq!(parsed.size, 42);
    assert_eq!(parsed.blake3, "00");
    let spaced = FileHeader::from_wire(
        "{ \"blake3\" : \"00\" , \"name\" : \"x\" , \"size\" : 42 }\n",
    )
    .expect("parse");
    assert_eq!(spaced.name, "x");
    assert_eq!(spaced.size, 42);
    assert_eq!(spaced.blake3, "00");
}

#[test]
fn human_bytes_formats_expected_units() {
    assert_eq!(human_bytes(999), "999 B");
    assert_eq!(human_bytes(2048), "2.00 KiB");
    assert_eq!(human_bytes(5 * 1024 * 1024), "5.00 MiB");
}

#[test]
fn human_bytes_rounds_and_scales() {
    assert_eq!(human_bytes(0), "0 B");
    assert_eq!(human_bytes(1024), "1.00 KiB");
    assert_eq!(human_bytes(1536), "1.50 KiB");
    assert_eq!(human_bytes(3 * 1024 * 1024 * 1024), "3.00 GiB");
}

#[test]
fn human_bytes_resolves_ties_to_even() {
    assert_eq!(human_bytes(1152), "1.12 KiB");
    assert_eq!(human_bytes(1408), "1.38 KiB");
}

#[test]
fn header_accepts_short_escapes_in_names() {
    let parsed = FileHeader::from_wire(
        "{\"name\":\"a\\nb\\tc\",\"size\":1,\"blake3\":\"00\"}\n",
    )
    .expect("parse");
    assert_eq!(parsed.name, "a\nb\tc");
    let canonical = FileHeader::from_wire(
        "{\"name\":\"a\\u000ab\",\"size\":1,\"blake3\":\"00\"}",
    )
    .expect("parse");
    assert_eq!(canonical.name, "a\nb");
}

#[test]
fn frame_round_trip_and_limit() {
    let payload: Vec<u8> = vec![9, 8, 7, 6, 5];
    let frame = encode_frame(&payload).expect("frame");
    assert_eq!(frame.len(), 4 + payload.len());
    let prefix = [frame[0], frame[1], frame[2], frame[3]];
    let len = parse_frame_len(&prefix).expect("len");
    assert_eq!(len, payload.len());
    assert_eq!(&frame[4..], &payload[..]);

    let big = vec![0u8; 65536];
    assert_eq!(encode_frame(&big).unwrap_err(), TransferError::FrameTooLarge);
    assert_eq!(parse_frame_len(&[0, 1, 0, 0]).unwrap_err(), TransferError::FrameTooLarge);
}

#[test]
fn ack_tokens_round_trip() {
    let ok = ok_message();
    assert_eq!(ok, b"OK\n".to_vec());
    assert!(check_token(&ok, "OK"));
    assert!(!check_token(&ok, "DONE"));
    let done = done_message();
    assert_eq!(done, b"DONE\n".to_vec());
    assert!(check_token(&done, "DONE"));
    assert!(check_token(&b"  OK \n".to_vec(), "OK"));
    assert!(!check_token(&b"NO".to_vec(), "OK"));
    assert!(!check_token(&vec![0xff, 0xfe], "OK"));
}

#[test]
fn hex_and_verification_code() {
    assert_eq!(encode(&[0xab, 0x01, 0xff]), "ab01ff");
    assert_eq!(encode(&[]), "");
    let hash = [0xaa, 0xbb, 0xcc, 0xdd, 0x01, 0x02];
    assert_eq!(verification_code(&hash), "aabb-ccdd");
}

#[test]
fn error_codes_are_stable() {
    assert_eq!(TransferError::BadTicket.code(), "bad_ticket");
    assert_eq!(TransferError::FrameTooLarge.code(), "frame_too_large");
    assert_eq!(TransferError::PeerClosed.code(), "peer_closed");
    assert_eq!(TransferError::ReceiverRejected.code(), "receiver_rejected");
    assert_eq!(TransferError::IncompleteTransfer.code(), "incomplete_transfer");
    assert_eq!(TransferError::ChecksumMismatch.code(), "checksum_mismatch");
    assert_eq!(TransferError::TailAckMismatch.code(), "tail_ack_mismatch");
    assert_eq!(TransferError::LocalFileChanged.code(), "local_file_changed");
    assert_eq!(TransferError::HandshakeFailed.code(), "handshake_failed");
    assert_eq!(TransferError::TransferFailed.code(), "transfer_error");
}

#[test]
fn bad_ticket_message_mentions_copy_paste() {
    let msg = TransferError::BadTicket.message();
    assert!(msg.contains("copy-paste"));
    assert!(TransferError::ChecksumMismatch.message().contains("checksum"));
}
