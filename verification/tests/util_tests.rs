use peerchat::addr::{broadcast_address, IpAddress};
use peerchat::broadcast::run_delivery;
use peerchat::bytes::{bytes_eq, trim_bytes};
use peerchat::constants::{HELLO_INTERVAL, MAX_RETRY, TCP_PORT, UDP_PORT, USER_TIMEOUT};
use peerchat::frame::{encode_frame, Frame};
use peerchat::listener::{handle_datagram, ListenerEvent};
use peerchat::registry::PeerRegistry;

#[test]
fn broadcast_address_keeps_subnet_and_sets_255() {
    let b = broadcast_address(IpAddress::new(192, 168, 4, 27));
    assert_eq!(b, IpAddress::new(192, 168, 4, 255));
}

#[test]
fn configuration_constants() {
    assert_eq!(UDP_PORT, 34254);
    assert_eq!(TCP_PORT, 40000);
    assert_eq!(USER_TIMEOUT, 10);
    assert_eq!(HELLO_INTERVAL, 3);
    assert_eq!(MAX_RETRY, 3);
}

#[test]
fn trim_removes_ascii_whitespace_on_both_sides() {
    assert_eq!(trim_bytes(&b"  a b\t\r\n".to_vec()), b"a b".to_vec());
    assert_eq!(trim_bytes(&b"\t \n".to_vec()), Vec::<u8>::new());
    assert_eq!(trim_bytes(&b"plain".to_vec()), b"plain".to_vec());
}

#[test]
fn bytes_eq_compares_contents() {
    assert!(bytes_eq(&b"abc".to_vec(), &b"abc".to_vec()));
    assert!(!bytes_eq(&b"abc".to_vec(), &b"abd".to_vec()));
    assert!(!bytes_eq(&b"abc".to_vec(), &b"ab".to_vec()));
}

#[test]
fn group_message_reaches_listener_and_sender_succeeds_first_try() {
    // Scenario: A broadcasts "hello" while B listens. B displays the
    // payload tagged with A's address and returns the matching ack;
    // fed back to A's run, delivery succeeds within one attempt.
    let a_addr = IpAddress::new(10, 0, 0, 1);
    let id: u64 = 1;
    let datagram = encode_frame(&Frame::Message { id, payload: b"hello".to_vec() });

    let mut b_registry = PeerRegistry::new();
    let mut b_seen: Vec<u64> = Vec::new();
    let ack_bytes = match handle_datagram(&mut b_registry, &mut b_seen, a_addr, &datagram, 0) {
        ListenerEvent::Deliver { payload, ack } => {
            assert_eq!(payload, b"hello".to_vec());
            ack
        }
        _ => panic!("expected a delivery"),
    };

    // A's listener turns the returned ack into a notification for the
    // waiting send.
    let mut a_registry = PeerRegistry::new();
    let mut a_seen: Vec<u64> = Vec::new();
    let acked_id = match handle_datagram(&mut a_registry, &mut a_seen, a_addr, &ack_bytes, 0) {
        ListenerEvent::AckReceived { id } => id,
        _ => panic!("expected an ack"),
    };
    assert_eq!(acked_id, id);

    let events: Vec<Option<u64>> = vec![Some(acked_id), None, None];
    let report = run_delivery(id, b"hello".to_vec(), &events);
    assert!(report.delivered);
    assert_eq!(report.attempts, 1);
}
