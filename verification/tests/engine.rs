use lanlink::codec::{decode, encode};
use lanlink::engine::{Node, DEFAULT_PORT};
use lanlink::message::{Message, Status};

fn node(name: &str, address: &str) -> Node {
    Node::new(String::from(name), String::from(address), DEFAULT_PORT, DEFAULT_PORT)
}

#[test]
fn announcement_carries_name_and_port() {
    let n = node("laptop", "10.0.0.1");
    let bytes = n.announcement();
    let m = decode(&bytes).unwrap();
    assert_eq!(m, Message::Discovery { name: String::from("laptop"), port: DEFAULT_PORT });
}

#[test]
fn datagram_from_peer_enters_registry() {
    let mut n = node("laptop", "10.0.0.1");
    let announce = encode(&Message::Discovery { name: String::from("phone"), port: 1716 });
    let changed = n.handle_datagram(&announce, &String::from("10.0.0.2"));
    assert!(changed);
    let devices = n.registry.snapshot();
    assert_eq!(devices.len(), 1);
    assert_eq!(devices[0].name, "phone");
    assert_eq!(devices[0].address, "10.0.0.2");
    assert_eq!(devices[0].port, 1716);
    assert_eq!(devices[0].status, Status::Discovered);
}

#[test]
fn datagram_from_own_address_is_filtered() {
    let mut n = node("laptop", "10.0.0.1");
    let announce = n.announcement();
    let changed = n.handle_datagram(&announce, &String::from("10.0.0.1"));
    assert!(!changed);
    assert_eq!(n.registry.snapshot().len(), 0);
}

#[test]
fn undecodable_datagram_is_ignored() {
    let mut n = node("laptop", "10.0.0.1");
    let changed = n.handle_datagram(&[0xFF, 0x00, 0x13], &String::from("10.0.0.2"));
    assert!(!changed);
    assert_eq!(n.registry.snapshot().len(), 0);
}

#[test]
fn non_discovery_datagram_is_ignored() {
    let mut n = node("laptop", "10.0.0.1");
    let bytes = encode(&Message::PairRequest { pin: 4242 });
    let changed = n.handle_datagram(&bytes, &String::from("10.0.0.2"));
    assert!(!changed);
    assert_eq!(n.registry.snapshot().len(), 0);
}

#[test]
fn rediscovery_does_not_reset_a_disconnected_device() {
    let mut n = node("laptop", "10.0.0.1");
    let announce = encode(&Message::Discovery { name: String::from("phone"), port: 1716 });
    n.handle_datagram(&announce, &String::from("10.0.0.2"));
    n.handle_connection(&encode(&Message::Disconnect), &String::from("10.0.0.2"));
    let changed = n.handle_datagram(&announce, &String::from("10.0.0.2"));
    assert!(!changed);
    let devices = n.registry.snapshot();
    assert_eq!(devices.len(), 1);
    assert_eq!(devices[0].status, Status::Disconnected);
}

#[test]
fn pairing_happy_path() {
    // Two nodes that have discovered each other.
    let mut initiator = node("laptop", "10.0.0.1");
    let mut responder = node("phone", "10.0.0.2");
    let seen_responder = encode(&Message::Discovery { name: String::from("phone"), port: 1716 });
    initiator.handle_datagram(&seen_responder, &String::from("10.0.0.2"));
    let seen_initiator = encode(&Message::Discovery { name: String::from("laptop"), port: 1716 });
    responder.handle_datagram(&seen_initiator, &String::from("10.0.0.1"));

    // The initiator sends PairRequest{4242}; the responder answers on
    // the same connection with PairConfirm{4242} and marks the peer.
    let request = encode(&Message::PairRequest { pin: 4242 });
    let out = responder.handle_connection(&request, &String::from("10.0.0.1"));
    let reply = out.reply.expect("responder must reply to a pair request");
    assert_eq!(decode(&reply).unwrap(), Message::PairConfirm { pin: 4242 });
    assert!(out.devices_changed);
    let responder_view = responder.registry.snapshot();
    assert_eq!(responder_view[0].status, Status::Paired);
    assert!(responder_view[0].paired);

    // The matching confirm pairs the device on the initiator's side too.
    let paired = initiator.handle_pair_reply(&reply, &String::from("10.0.0.2"), 4242);
    assert!(paired);
    let initiator_view = initiator.registry.snapshot();
    assert_eq!(initiator_view[0].status, Status::Paired);
    assert!(initiator_view[0].paired);
    assert!(initiator.registry.has_paired_record(&String::from("10.0.0.2")));
}

#[test]
fn pairing_mismatched_pin_does_not_pair() {
    let mut initiator = node("laptop", "10.0.0.1");
    let seen = encode(&Message::Discovery { name: String::from("phone"), port: 1716 });
    initiator.handle_datagram(&seen, &String::from("10.0.0.2"));

    let wrong_reply = encode(&Message::PairConfirm { pin: 1234 });
    let paired = initiator.handle_pair_reply(&wrong_reply, &String::from("10.0.0.2"), 4242);
    assert!(!paired);
    let devices = initiator.registry.snapshot();
    assert_eq!(devices[0].status, Status::Discovered);
    assert!(!devices[0].paired);
    assert!(!initiator.registry.has_paired_record(&String::from("10.0.0.2")));
}

#[test]
fn pairing_undecodable_reply_does_not_pair() {
    let mut initiator = node("laptop", "10.0.0.1");
    let seen = encode(&Message::Discovery { name: String::from("phone"), port: 1716 });
    initiator.handle_datagram(&seen, &String::from("10.0.0.2"));
    let paired = initiator.handle_pair_reply(&[9u8, 9, 9], &String::from("10.0.0.2"), 4242);
    assert!(!paired);
    assert_eq!(initiator.registry.snapshot()[0].status, Status::Discovered);
}

#[test]
fn new_pair_request_draws_a_four_digit_pin() {
    let (pin, bytes) = Node::new_pair_request();
    assert!((1000..9999).contains(&pin));
    assert_eq!(decode(&bytes).unwrap(), Message::PairRequest { pin });
}

#[test]
fn undecodable_connection_changes_nothing_and_node_keeps_serving() {
    let mut n = node("laptop", "10.0.0.1");
    let seen = encode(&Message::Discovery { name: String::from("phone"), port: 1716 });
    n.handle_datagram(&seen, &String::from("10.0.0.2"));

    let out = n.handle_connection(&[0x42, 0x42, 0x42], &String::from("10.0.0.2"));
    assert!(out.reply.is_none());
    assert!(out.file.is_none());
    assert!(out.status_text.is_none());
    assert!(!out.devices_changed);
    assert!(!out.messages_changed);
    assert_eq!(n.registry.snapshot()[0].status, Status::Discovered);
    assert_eq!(n.messages_snapshot().len(), 0);

    // The next connection is served as if nothing happened.
    let chat = encode(&Message::ChatMessage {
        from: String::from("phone"),
        content: String::from("still here"),
    });
    let out = n.handle_connection(&chat, &String::from("10.0.0.2"));
    assert!(out.messages_changed);
    assert_eq!(n.messages_snapshot(), vec![String::from("From phone: still here")]);
}

#[test]
fn disconnect_moves_a_paired_device_to_disconnected() {
    let mut n = node("laptop", "10.0.0.1");
    let seen = encode(&Message::Discovery { name: String::from("phone"), port: 1716 });
    n.handle_datagram(&seen, &String::from("10.0.0.2"));
    n.handle_connection(&encode(&Message::PairRequest { pin: 7777 }), &String::from("10.0.0.2"));
    assert_eq!(n.registry.snapshot()[0].status, Status::Paired);

    let out = n.handle_connection(&encode(&Message::Disconnect), &String::from("10.0.0.2"));
    assert!(out.devices_changed);
    let devices = n.registry.snapshot();
    assert_eq!(devices[0].status, Status::Disconnected);
    assert!(!devices[0].paired);
}

#[test]
fn file_transfer_surfaces_file_and_status_text() {
    let mut n = node("laptop", "10.0.0.1");
    let msg = encode(&Message::FileTransfer {
        filename: String::from("notes.txt"),
        data: vec![1u8, 2, 3],
    });
    let out = n.handle_connection(&msg, &String::from("10.0.0.2"));
    let file = out.file.expect("a file transfer must surface its file");
    assert_eq!(file.filename, "notes.txt");
    assert_eq!(file.data, vec![1u8, 2, 3]);
    assert_eq!(out.status_text.unwrap(), "Received file: notes.txt");
    assert!(out.reply.is_none());
}

#[test]
fn clipboard_share_surfaces_status_text() {
    let mut n = node("laptop", "10.0.0.1");
    let msg = encode(&Message::ClipboardShare { content: String::from("snippet") });
    let out = n.handle_connection(&msg, &String::from("10.0.0.2"));
    assert_eq!(out.status_text.unwrap(), "Received clipboard: snippet");
    assert!(out.file.is_none());
    assert!(!out.devices_changed);
}

#[test]
fn discovery_over_tcp_is_ignored() {
    let mut n = node("laptop", "10.0.0.1");
    let msg = encode(&Message::Discovery { name: String::from("phone"), port: 1716 });
    let out = n.handle_connection(&msg, &String::from("10.0.0.2"));
    assert!(out.reply.is_none());
    assert!(!out.devices_changed);
    assert_eq!(n.registry.snapshot().len(), 0);
}

#[test]
fn pair_request_from_unknown_address_preseeds_later_discovery() {
    let mut n = node("laptop", "10.0.0.1");
    let request = encode(&Message::PairRequest { pin: 2024 });
    let out = n.handle_connection(&request, &String::from("10.0.0.9"));
    assert!(out.reply.is_some());
    assert_eq!(n.registry.snapshot().len(), 0);

    let announce = encode(&Message::Discovery { name: String::from("tablet"), port: 1716 });
    n.handle_datagram(&announce, &String::from("10.0.0.9"));
    let devices = n.registry.snapshot();
    assert_eq!(devices.len(), 1);
    assert!(devices[0].paired);
    assert_eq!(devices[0].status, Status::Paired);
}

#[test]
fn fifty_chat_messages_all_reach_the_log_in_order() {
    let mut n = node("laptop", "10.0.0.1");
    for i in 0..50u32 {
        let msg = encode(&Message::ChatMessage {
            from: String::from("phone"),
            content: format!("message {}", i),
        });
        let out = n.handle_connection(&msg, &String::from("10.0.0.2"));
        assert!(out.messages_changed);
    }
    let log = n.messages_snapshot();
    assert_eq!(log.len(), 50);
    for i in 0..50usize {
        assert_eq!(log[i], format!("From phone: message {}", i));
    }
}

#[test]
fn chat_lines_name_their_senders() {
    let mut n = node("laptop", "10.0.0.1");
    let a = encode(&Message::ChatMessage {
        from: String::from("alice"),
        content: String::from("hi"),
    });
    let b = encode(&Message::ChatMessage {
        from: String::from("bob"),
        content: String::from("hello"),
    });
    n.handle_connection(&a, &String::from("10.0.0.2"));
    n.handle_connection(&b, &String::from("10.0.0.3"));
    assert_eq!(
        n.messages_snapshot(),
        vec![String::from("From alice: hi"), String::from("From bob: hello")]
    );
}

#[test]
fn responder_echoes_whatever_pin_arrives() {
    // The responder does not verify the PIN; it echoes it and trusts it.
    let mut n = node("laptop", "10.0.0.1");
    let out = n.handle_connection(
        &encode(&Message::PairRequest { pin: 2024 }),
        &String::from("10.0.0.9"),
    );
    assert_eq!(decode(&out.reply.unwrap()).unwrap(), Message::PairConfirm { pin: 2024 });
}
