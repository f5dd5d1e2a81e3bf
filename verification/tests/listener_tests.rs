use peerchat::addr::IpAddress;
use peerchat::frame::{encode_frame, Frame};
use peerchat::listener::{handle_datagram, ListenerEvent};
use peerchat::registry::PeerRegistry;

fn ip(last: u8) -> IpAddress {
    IpAddress::new(10, 0, 0, last)
}

#[test]
fn hello_refreshes_registry() {
    let mut reg = PeerRegistry::new();
    let mut seen: Vec<u64> = Vec::new();
    let datagram = encode_frame(&Frame::Hello { nickname: b"alice".to_vec() });
    let ev = handle_datagram(&mut reg, &mut seen, ip(5), &datagram, 7);
    assert!(matches!(ev, ListenerEvent::PeerSeen));
    let snap = reg.snapshot(ip(99));
    assert_eq!(snap.len(), 1);
    assert_eq!(snap[0].address, ip(5));
    assert_eq!(snap[0].nickname, b"alice".to_vec());
    assert_eq!(snap[0].last_seen, 7);
    assert!(seen.is_empty());
}

#[test]
fn message_yields_exactly_one_matching_ack() {
    let mut reg = PeerRegistry::new();
    let mut seen: Vec<u64> = Vec::new();
    let datagram = encode_frame(&Frame::Message { id: 31, payload: b"hi there".to_vec() });
    let ev = handle_datagram(&mut reg, &mut seen, ip(5), &datagram, 0);
    match ev {
        ListenerEvent::Deliver { payload, ack } => {
            assert_eq!(payload, b"hi there".to_vec());
            assert_eq!(ack, b"ACK:31".to_vec());
        }
        _ => panic!("expected a delivery"),
    }
    assert!(reg.snapshot(ip(99)).is_empty());
    assert!(seen.is_empty());
}

#[test]
fn duplicate_messages_yield_duplicate_acks() {
    // Retransmissions are not deduplicated: each reception is displayed
    // and acknowledged again.
    let mut reg = PeerRegistry::new();
    let mut seen: Vec<u64> = Vec::new();
    let datagram = encode_frame(&Frame::Message { id: 8, payload: b"again".to_vec() });
    for _ in 0..2 {
        match handle_datagram(&mut reg, &mut seen, ip(5), &datagram, 0) {
            ListenerEvent::Deliver { payload, ack } => {
                assert_eq!(payload, b"again".to_vec());
                assert_eq!(ack, b"ACK:8".to_vec());
            }
            _ => panic!("expected a delivery"),
        }
    }
}

#[test]
fn ack_is_recorded_and_forwarded() {
    let mut reg = PeerRegistry::new();
    let mut seen: Vec<u64> = Vec::new();
    let datagram = encode_frame(&Frame::Ack { id: 77 });
    let ev = handle_datagram(&mut reg, &mut seen, ip(5), &datagram, 0);
    assert!(matches!(ev, ListenerEvent::AckReceived { id: 77 }));
    assert_eq!(seen, vec![77]);
    // A repeated ack is still forwarded but the seen set keeps one
    // entry per id.
    let ev2 = handle_datagram(&mut reg, &mut seen, ip(5), &datagram, 0);
    assert!(matches!(ev2, ListenerEvent::AckReceived { id: 77 }));
    assert_eq!(seen, vec![77]);
    let other = encode_frame(&Frame::Ack { id: 78 });
    let ev3 = handle_datagram(&mut reg, &mut seen, ip(5), &other, 0);
    assert!(matches!(ev3, ListenerEvent::AckReceived { id: 78 }));
    assert_eq!(seen, vec![77, 78]);
}

#[test]
fn malformed_datagram_changes_nothing() {
    let mut reg = PeerRegistry::new();
    reg.upsert(ip(1), b"kept".to_vec(), 3);
    let mut seen: Vec<u64> = vec![4];
    let ev = handle_datagram(&mut reg, &mut seen, ip(5), &b"MSG:oops".to_vec(), 9);
    assert!(matches!(ev, ListenerEvent::Discarded));
    assert_eq!(seen, vec![4]);
    let snap = reg.snapshot(ip(99));
    assert_eq!(snap.len(), 1);
    assert_eq!(snap[0].nickname, b"kept".to_vec());
}
