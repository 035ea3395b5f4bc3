use liaison::endpoint::Endpoint;
use liaison::error::LiaisonError;
use liaison::liaison::{Inbound, Liaison};
use liaison::clipboard::Clipboard;
use liaison::wire::{encode_data, encode_header, encode_packet, OP_DATA, OP_PING, OP_PONG};

const A: u32 = 0xC0A8_010A; // 192.168.1.10
const B: u32 = 0xC0A8_0114; // 192.168.1.20
const PORT: u16 = 1699;

#[test]
fn sweep_pings_every_other_host_of_the_subnet() {
    let a = Liaison::new(A, PORT);
    let out = a.start();
    assert_eq!(out.packet, vec![OP_PING, 0, 0]);
    assert_eq!(out.targets.len(), 253);
    assert_eq!(out.targets[0], Endpoint::new(0xC0A8_0101, PORT));
    assert_eq!(out.targets[252], Endpoint::new(0xC0A8_01FE, PORT));
    assert!(!out.targets.iter().any(|e| e.host == A));
    assert!(out.targets.contains(&Endpoint::new(B, PORT)));
}

#[test]
fn discovery_is_symmetric() {
    let mut a = Liaison::new(A, PORT);
    let mut b = Liaison::new(B, PORT);
    let sweep = a.start();
    let mut replies = Vec::new();
    for target in sweep.targets.iter() {
        if target.host == B {
            replies.push(b.handle(&sweep.packet, A).unwrap());
        }
    }
    assert_eq!(replies.len(), 1);
    assert!(b.knows(A));
    let pong = match replies.pop().unwrap() {
        Inbound::Reply(p) => p,
        other => panic!("expected a reply, got {:?}", other),
    };
    assert_eq!(pong[0], OP_PONG);
    assert_eq!(a.handle(&pong, B), Ok(Inbound::Merged));
    assert!(a.knows(B));
    assert_eq!(a.peers(), vec![Endpoint::new(B, PORT)]);
    assert_eq!(b.peers(), vec![Endpoint::new(A, PORT)]);
}

#[test]
fn ping_reply_lists_known_peers_then_responder() {
    let mut b = Liaison::new(B, PORT);
    b.handle(&encode_packet(OP_PING, &[]), 7).unwrap();
    let reply = b.handle(&encode_packet(OP_PING, &[]), A).unwrap();
    let payload = liaison::wire::encode_pong(&[Endpoint::new(7, PORT), Endpoint::new(B, PORT)]);
    assert_eq!(reply, Inbound::Reply(encode_packet(OP_PONG, &payload)));
    assert_eq!(b.peers(), vec![Endpoint::new(7, PORT), Endpoint::new(A, PORT)]);
}

#[test]
fn ping_from_self_is_answered_but_not_added() {
    let mut a = Liaison::new(A, PORT);
    assert!(matches!(a.handle(&encode_packet(OP_PING, &[]), A), Ok(Inbound::Reply(_))));
    assert_eq!(a.peers(), vec![]);
}

#[test]
fn failed_send_evicts_peer_from_later_broadcasts() {
    let mut a = Liaison::new(A, PORT);
    let mut b = Liaison::new(B, PORT);
    let ping = a.start().packet;
    let pong = match b.handle(&ping, A).unwrap() {
        Inbound::Reply(p) => p,
        _ => panic!("expected a reply"),
    };
    a.handle(&pong, B).unwrap();
    let first = a.broadcast(b"x").unwrap();
    assert_eq!(first.targets, vec![Endpoint::new(B, PORT)]);
    a.evict(B);
    assert!(!a.knows(B));
    let second = a.broadcast(b"y").unwrap();
    assert!(second.targets.is_empty());
}

#[test]
fn broadcast_hello_reaches_sink_once() {
    let mut a = Liaison::new(A, PORT);
    let mut b = Liaison::new(B, PORT);
    a.handle(&encode_packet(OP_PING, &[]), B).unwrap();
    b.handle(&encode_packet(OP_PING, &[]), A).unwrap();
    let before = b.peers();
    let out = a.broadcast(b"hello").unwrap();
    assert_eq!(out.targets, vec![Endpoint::new(B, PORT)]);
    let mut sink = Clipboard::new(16);
    match b.handle(&out.packet, A) {
        Ok(Inbound::Deliver(d)) => sink.append(d),
        other => panic!("expected a delivery, got {:?}", other),
    }
    assert_eq!(sink.content, vec![b"hello".to_vec()]);
    assert_eq!(sink.size, 1);
    assert_eq!(b.peers(), before);
}

#[test]
fn broadcast_packet_is_header_then_data_payload() {
    let a = Liaison::new(A, PORT);
    let out = a.broadcast(b"hello").unwrap();
    let mut expected = encode_header(OP_DATA, 15);
    expected.extend_from_slice(&encode_data(b"hello"));
    assert_eq!(out.packet, expected);
}

#[test]
fn oversized_broadcast_is_refused() {
    let a = Liaison::new(A, PORT);
    assert!(a.broadcast(&vec![0u8; 65525]).is_ok());
    assert!(matches!(a.broadcast(&vec![0u8; 65526]), Err(LiaisonError::PayloadTooLarge)));
}

#[test]
fn corrupted_data_is_dropped_and_next_datagram_still_handled() {
    let mut b = Liaison::new(B, PORT);
    let mut packet = encode_packet(OP_DATA, &encode_data(b"hello"));
    packet[12] ^= 0x04;
    assert_eq!(b.handle(&packet, A), Err(LiaisonError::ChecksumMismatch));
    let good = encode_packet(OP_DATA, &encode_data(b"hello"));
    assert_eq!(b.handle(&good, A), Ok(Inbound::Deliver(b"hello".to_vec())));
    assert_eq!(b.peers(), vec![]);
}

#[test]
fn inconsistent_header_is_dropped_without_state_change() {
    let mut b = Liaison::new(B, PORT);
    let mut packet = encode_header(OP_PING, 10);
    packet.extend_from_slice(&[1, 2, 3, 4, 5]);
    assert_eq!(b.handle(&packet, A), Err(LiaisonError::MalformedHeader));
    assert_eq!(b.handle(&[0, 0], A), Err(LiaisonError::MalformedHeader));
    assert_eq!(b.peers(), vec![]);
    assert!(matches!(b.handle(&encode_packet(OP_PING, &[]), A), Ok(Inbound::Reply(_))));
}

#[test]
fn unknown_opcode_is_refused() {
    let mut b = Liaison::new(B, PORT);
    assert_eq!(b.handle(&encode_packet(9, &[1]), A), Err(LiaisonError::UnknownOpcode(9)));
}

#[test]
fn malformed_pong_changes_nothing() {
    let mut a = Liaison::new(A, PORT);
    assert_eq!(
        a.handle(&encode_packet(OP_PONG, &[1, 0, 0]), B),
        Err(LiaisonError::MalformedPayload)
    );
    assert_eq!(a.peers(), vec![]);
}

#[test]
fn receive_appends_hello_to_sink_exactly_once() {
    let mut a = Liaison::new(A, PORT);
    let mut b = Liaison::new(B, PORT);
    a.handle(&encode_packet(OP_PING, &[]), B).unwrap();
    b.handle(&encode_packet(OP_PING, &[]), A).unwrap();
    let before = b.peers();
    let out = a.broadcast(b"hello").unwrap();
    let mut sink = Clipboard::new(16);
    assert_eq!(b.receive(&mut sink, &out.packet, A), Ok(None));
    assert_eq!(sink.content, vec![b"hello".to_vec()]);
    assert_eq!(sink.size, 1);
    assert_eq!(b.peers(), before);
}

#[test]
fn receive_drops_inconsistent_header_and_handles_next() {
    let mut b = Liaison::new(B, PORT);
    let mut sink = Clipboard::new(16);
    let bad = [OP_DATA, 0x0A, 0x00, 1, 2, 3, 4, 5];
    assert_eq!(b.receive(&mut sink, &bad, A), Err(LiaisonError::MalformedHeader));
    assert!(sink.content.is_empty());
    assert_eq!(b.peers(), vec![]);
    let good = encode_packet(OP_DATA, &encode_data(b"next"));
    assert_eq!(b.receive(&mut sink, &good, A), Ok(None));
    assert_eq!(sink.content, vec![b"next".to_vec()]);
}

#[test]
fn receive_answers_ping_and_learns_sender() {
    let mut b = Liaison::new(B, PORT);
    let mut sink = Clipboard::new(4);
    let reply = b.receive(&mut sink, &encode_packet(OP_PING, &[]), A).unwrap();
    let payload = liaison::wire::encode_pong(&[Endpoint::new(B, PORT)]);
    assert_eq!(reply, Some(encode_packet(OP_PONG, &payload)));
    assert_eq!(b.peers(), vec![Endpoint::new(A, PORT)]);
    assert!(sink.content.is_empty());
    let mut corrupt = encode_packet(OP_DATA, &encode_data(b"x"));
    corrupt[3] ^= 1;
    assert_eq!(b.receive(&mut sink, &corrupt, A), Err(LiaisonError::ChecksumMismatch));
    assert!(sink.content.is_empty());
}

#[test]
fn send_result_evicts_only_on_failure() {
    let mut a = Liaison::new(A, PORT);
    a.handle(&encode_packet(OP_PING, &[]), B).unwrap();
    a.on_send_result(Endpoint::new(B, PORT), true);
    assert!(a.knows(B));
    a.on_send_result(Endpoint::new(B, PORT), false);
    assert!(!a.knows(B));
    assert!(a.broadcast(b"again").unwrap().targets.is_empty());
    a.handle(&encode_packet(OP_PING, &[]), B).unwrap();
    assert_eq!(a.peers(), vec![Endpoint::new(B, PORT)]);
}

#[test]
fn ping_to_oversized_table_adds_sender_but_refuses_reply() {
    let mut a = Liaison::new(A, PORT);
    let peers: Vec<Endpoint> = (0..10921u32).map(|i| Endpoint::new(0x0A00_0000 + i, PORT)).collect();
    let pong = encode_packet(OP_PONG, &liaison::wire::encode_pong(&peers));
    assert_eq!(a.handle(&pong, B), Ok(Inbound::Merged));
    assert_eq!(a.peers().len(), 10921);
    assert_eq!(a.handle(&encode_packet(OP_PING, &[]), B), Err(LiaisonError::PayloadTooLarge));
    assert!(a.knows(B));
    assert_eq!(a.peers().len(), 10922);
}
