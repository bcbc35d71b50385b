use base64::Engine;
use p2p_share::code::{generate_code, human_size, normalize_code};
use p2p_share::connect_string::{build_connect_string, parse_connect_string, ConnectMeta};
use p2p_share::events::{map_event, missing_target_error, ConnectionPathKind, EventQueue,
    TransferCompleted, TransferEvent};
use p2p_share::paths::{plan_destination, unique_path};

#[test]
fn map_event_progress_keeps_counts() {
    let record = map_event(TransferEvent::Progress { done: 16, total: 64 });
    assert_eq!(record.kind, "progress");
    assert_eq!(record.schema_version, "1.0.0");
    assert_eq!(record.done, Some(16));
    assert_eq!(record.total, Some(64));
    assert!(record.message.is_none());
}

#[test]
fn map_event_completed_includes_saved_path() {
    let record = map_event(TransferEvent::Completed(TransferCompleted {
        file_name: "demo.txt".to_string(),
        size_bytes: 42,
        saved_path: Some("/tmp/demo.txt".to_string()),
    }));
    assert_eq!(record.kind, "completed");
    assert_eq!(record.file_name.as_deref(), Some("demo.txt"));
    assert_eq!(record.size_bytes, Some(42));
    assert_eq!(record.saved_path.as_deref(), Some("/tmp/demo.txt"));
}

#[test]
fn map_event_connection_path_formats_mixed_message() {
    let record = map_event(TransferEvent::ConnectionPath {
        kind: ConnectionPathKind::Mixed {
            udp_addr: "192.168.1.2:4000".to_string(),
            relay_url: "https://relay.example".to_string(),
        },
        latency_ms: Some(21),
    });
    assert_eq!(record.kind, "connection_path");
    assert_eq!(record.value.as_deref(), Some("mixed"));
    assert_eq!(
        record.message.as_deref(),
        Some("udp: 192.168.1.2:4000, relay: https://relay.example")
    );
    assert_eq!(record.latency_ms, Some(21));
}

#[test]
fn missing_target_error_includes_examples() {
    let msg = missing_target_error();
    assert!(msg.contains("either provide a <TARGET> ticket/address"));
    assert!(msg.contains("p2p-share receive p2psh:XXXXX"));
    assert!(msg.contains("p2p-share receive --qr"));
}

#[test]
fn event_queue_is_fifo() {
    let mut q = EventQueue::new();
    assert!(q.poll_event().is_none());
    q.push_event(TransferEvent::Status("one".to_string()));
    q.push_event(TransferEvent::Status("two".to_string()));
    assert_eq!(q.len(), 2);
    match q.poll_event() {
        Some(TransferEvent::Status(s)) => assert_eq!(s, "one"),
        other => panic!("unexpected event: {:?}", other),
    }
    match q.poll_event() {
        Some(TransferEvent::Status(s)) => assert_eq!(s, "two"),
        other => panic!("unexpected event: {:?}", other),
    }
    assert!(q.poll_event().is_none());
}

#[test]
fn unique_path_avoids_collisions() {
    let empty: Vec<String> = vec![];
    assert_eq!(unique_path(&empty, "demo.txt"), "demo.txt");
    let one = vec!["demo.txt".to_string()];
    assert_eq!(unique_path(&one, "demo.txt"), "demo (1).txt");
    let two = vec!["demo.txt".to_string(), "demo (1).txt".to_string()];
    assert_eq!(unique_path(&two, "demo.txt"), "demo (2).txt");
    let noext = vec!["notes".to_string()];
    assert_eq!(unique_path(&noext, "notes"), "notes (1)");
    let part = vec!["demo.txt.part".to_string()];
    assert_eq!(unique_path(&part, "demo.txt.part"), "demo.txt (1).part");
    let hidden = vec![".bashrc".to_string()];
    assert_eq!(unique_path(&hidden, ".bashrc"), ".bashrc (1)");
}

#[test]
fn plan_destination_keeps_temp_and_final_apart() {
    let existing = vec!["demo.txt".to_string(), "demo.txt.part".to_string()];
    let (final_name, temp_name) = plan_destination(&existing, "demo.txt");
    assert_eq!(final_name, "demo (1).txt");
    assert_eq!(temp_name, "demo.txt (1).part");
    assert_ne!(final_name, temp_name);
    assert!(!existing.contains(&final_name));
    assert!(!existing.contains(&temp_name));
}

#[test]
fn normalize_code_cleans_input() {
    assert_eq!(normalize_code("Brave Sky--Otter!"), "brave-sky-otter");
    assert_eq!(normalize_code("alpha-beta"), "alpha-beta");
    assert_eq!(normalize_code("  --  "), "code-code-code");
    assert_eq!(normalize_code(""), "code-code-code");
    assert_eq!(normalize_code("--a--"), "a");
    assert_eq!(normalize_code("A1 b2"), "a1-b2");
}

#[test]
fn generate_code_is_normalized() {
    let code = generate_code(3);
    assert!(!code.is_empty());
    assert!(code.chars().all(|c| c.is_ascii_lowercase() || c.is_ascii_digit() || c == '-'));
    assert!(!code.starts_with('-'));
    assert!(!code.ends_with('-'));
}

#[test]
fn human_size_formats_expected_units() {
    assert_eq!(human_size(999), "999.00 B");
    assert_eq!(human_size(2048), "2.00 KB");
    assert_eq!(human_size(5 * 1024 * 1024), "5.00 MB");
    assert_eq!(human_size(3 * 1024 * 1024 * 1024), "3.00 GB");
    assert_eq!(human_size(1152), "1.12 KB");
}

#[test]
fn connect_string_round_trip() {
    let salt = [7u8; 16];
    let meta = ConnectMeta { name: "file.bin".to_string(), size: 123 };
    let s = build_connect_string(Some(meta), &salt).expect("build");
    assert!(s.starts_with("p2p-share://v1/"));
    let bundle = parse_connect_string(&s).expect("parse");
    assert_eq!(bundle.ver, 1);
    assert_eq!(
        bundle.salt,
        base64::engine::general_purpose::URL_SAFE_NO_PAD.encode(salt)
    );
    let meta = bundle.meta.expect("meta");
    assert_eq!(meta.name, "file.bin");
    assert_eq!(meta.size, 123);

    let bare = build_connect_string(None, &salt).expect("build");
    let bundle = parse_connect_string(&bare).expect("parse");
    assert!(bundle.meta.is_none());
}

#[test]
fn connect_string_accepts_reordered_keys() {
    let json = "{ \"salt\" : \"AA\" , \"ver\" : 1 }";
    let s = format!(
        "p2p-share://v1/{}",
        base64::engine::general_purpose::URL_SAFE_NO_PAD.encode(json)
    );
    let bundle = parse_connect_string(&s).expect("parse");
    assert_eq!(bundle.ver, 1);
    assert_eq!(bundle.salt, "AA");
    assert!(bundle.meta.is_none());
}

#[test]
fn connect_string_rejects_junk() {
    assert!(parse_connect_string("nope").is_err());
    assert!(parse_connect_string("p2p-share://v1/???").is_err());
    assert!(parse_connect_string("p2p-share://v1/aGVsbG8").is_err());
}
