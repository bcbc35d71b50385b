use p2p_share::ticket::{advertised_address, deserialize, is_ticket, is_useful_address,
    relay_first_plan, relay_only, serialize, IpAddress, NodeAddress, SocketAddress};

fn v4(a: u8, b: u8, c: u8, d: u8, port: u16) -> SocketAddress {
    SocketAddress { ip: IpAddress::V4 { a, b, c, d }, port }
}

#[test]
fn ticket_prefix_detection_is_case_insensitive() {
    assert!(is_ticket("p2psh:abc"));
    assert!(is_ticket("P2PSH:abc"));
    assert!(!is_ticket("127.0.0.1:9000"));
}

#[test]
fn ticket_prefix_mixed_case_is_recognized() {
    assert!(is_ticket("P2psh:abc"));
    assert!(is_ticket("  p2pSH:abc  "));
    assert!(!is_ticket("p2psh"));
    assert!(!is_ticket("q2psh:abc"));
}

fn foreign_ticket(json: &str) -> String {
    format!("p2psh:{}", data_encoding::BASE64URL_NOPAD.encode(json.as_bytes()))
}

#[test]
fn ticket_with_only_useless_raw_addresses_is_refused() {
    let t = foreign_ticket(
        "{\"node_id\":\"ff\",\"relay_url\":null,\"direct_addresses\":[\"127.0.0.1:1\"]}",
    );
    assert!(deserialize(&t).is_err());
}

#[test]
fn ticket_accepts_reordered_keys_and_whitespace() {
    let t = foreign_ticket(
        "{ \"relay_url\" : \"https://r.example\" , \"direct_addresses\" : [] , \"node_id\" : \"ff\" }",
    );
    let back = deserialize(&t).expect("deserialize");
    assert_eq!(back.relay_url.as_deref(), Some("https://r.example"));
    assert_eq!(back.node_id, vec![0xff]);
    assert!(back.direct_addresses.is_empty());
}

#[test]
fn ticket_with_a_useful_raw_address_keeps_the_raw_list() {
    let t = foreign_ticket(
        "{\"node_id\":\"ff\",\"relay_url\":null,\"direct_addresses\":[\"127.0.0.1:1\",\"10.0.0.4:4\"]}",
    );
    let back = deserialize(&t).expect("deserialize");
    assert_eq!(back.direct_addresses, vec![v4(127, 0, 0, 1, 1), v4(10, 0, 0, 4, 4)]);
}

#[test]
fn ticket_round_trip_filters_useless_addresses() {
    let addr = NodeAddress {
        node_id: vec![7u8; 32],
        relay_url: None,
        direct_addresses: vec![
            v4(127, 0, 0, 1, 1),
            v4(169, 254, 1, 1, 2),
            v4(172, 17, 0, 1, 3),
            v4(10, 0, 0, 4, 4),
        ],
    };
    let ticket = serialize(&addr).expect("serialize");
    assert!(ticket.starts_with("p2psh:"));
    let back = deserialize(&ticket).expect("deserialize");
    assert_eq!(back.node_id, vec![7u8; 32]);
    assert!(back.relay_url.is_none());
    assert_eq!(back.direct_addresses, vec![v4(10, 0, 0, 4, 4)]);
}

#[test]
fn ticket_round_trip_keeps_relay_and_v6() {
    let lan_v6 = SocketAddress {
        ip: IpAddress::V6 { s0: 0x2001, s1: 0xdb8, s2: 0, s3: 0, s4: 0, s5: 0, s6: 0, s7: 9 },
        port: 4433,
    };
    let addr = NodeAddress {
        node_id: vec![1, 2, 3],
        relay_url: Some("https://relay.example".to_string()),
        direct_addresses: vec![lan_v6, v4(192, 168, 1, 10, 9000)],
    };
    let ticket = serialize(&addr).expect("serialize");
    let back = deserialize(&ticket).expect("deserialize");
    assert_eq!(back.relay_url.as_deref(), Some("https://relay.example"));
    assert_eq!(back.direct_addresses, vec![lan_v6, v4(192, 168, 1, 10, 9000)]);
}

#[test]
fn useless_addresses_are_rejected_by_policy() {
    assert!(!is_useful_address(&v4(127, 0, 0, 1, 80)));
    assert!(!is_useful_address(&v4(169, 254, 9, 9, 80)));
    assert!(!is_useful_address(&v4(172, 16, 0, 1, 80)));
    assert!(!is_useful_address(&v4(172, 31, 0, 1, 80)));
    assert!(is_useful_address(&v4(172, 16, 0, 2, 80)));
    assert!(is_useful_address(&v4(8, 8, 8, 8, 53)));
    let loopback6 = SocketAddress {
        ip: IpAddress::V6 { s0: 0, s1: 0, s2: 0, s3: 0, s4: 0, s5: 0, s6: 0, s7: 1 },
        port: 80,
    };
    assert!(!is_useful_address(&loopback6));
    let link_local6 = SocketAddress {
        ip: IpAddress::V6 { s0: 0xfe80, s1: 0, s2: 0, s3: 0, s4: 0, s5: 0, s6: 0, s7: 5 },
        port: 80,
    };
    assert!(!is_useful_address(&link_local6));
}

#[test]
fn ticket_with_nothing_useful_is_refused() {
    let addr = NodeAddress {
        node_id: vec![9u8; 32],
        relay_url: None,
        direct_addresses: vec![v4(127, 0, 0, 1, 1)],
    };
    let ticket = serialize(&addr).expect("serialize");
    assert!(deserialize(&ticket).is_err());
}

#[test]
fn malformed_tickets_are_refused() {
    assert!(deserialize("nonsense").is_err());
    assert!(deserialize("p2psh:!!!not-base64!!!").is_err());
    assert!(deserialize("p2psh:").is_err());
    assert!(deserialize("p2psh:aGVsbG8").is_err());
}

#[test]
fn advertised_address_minimizes_only_with_relay() {
    let with_relay = NodeAddress {
        node_id: vec![5u8; 32],
        relay_url: Some("https://relay.example".to_string()),
        direct_addresses: vec![v4(10, 0, 0, 4, 4)],
    };
    let minimized = advertised_address(&with_relay, true);
    assert!(minimized.direct_addresses.is_empty());
    assert_eq!(minimized.relay_url.as_deref(), Some("https://relay.example"));
    let kept = advertised_address(&with_relay, false);
    assert_eq!(kept.direct_addresses, vec![v4(10, 0, 0, 4, 4)]);
    let no_relay = NodeAddress {
        node_id: vec![5u8; 32],
        relay_url: None,
        direct_addresses: vec![v4(10, 0, 0, 4, 4)],
    };
    let unchanged = advertised_address(&no_relay, true);
    assert_eq!(unchanged.direct_addresses, vec![v4(10, 0, 0, 4, 4)]);
}

#[test]
fn relay_first_plan_orders_dialing() {
    let with_relay = NodeAddress {
        node_id: vec![5u8; 32],
        relay_url: Some("https://relay.example".to_string()),
        direct_addresses: vec![v4(10, 0, 0, 4, 4)],
    };
    let (primary, fallback) = relay_first_plan(&with_relay);
    let primary = primary.expect("relay-first candidate");
    assert!(primary.direct_addresses.is_empty());
    assert_eq!(fallback.direct_addresses, vec![v4(10, 0, 0, 4, 4)]);
    let no_relay = NodeAddress {
        node_id: vec![5u8; 32],
        relay_url: None,
        direct_addresses: vec![v4(10, 0, 0, 4, 4)],
    };
    let (primary, _) = relay_first_plan(&no_relay);
    assert!(primary.is_none());
}

#[test]
fn relay_only_strips_direct_addresses() {
    let addr = NodeAddress {
        node_id: vec![5u8; 32],
        relay_url: Some("https://relay.example".to_string()),
        direct_addresses: vec![v4(10, 0, 0, 4, 4)],
    };
    let stripped = relay_only(&addr);
    assert_eq!(stripped.node_id, addr.node_id);
    assert_eq!(stripped.relay_url, addr.relay_url);
    assert!(stripped.direct_addresses.is_empty());
}
