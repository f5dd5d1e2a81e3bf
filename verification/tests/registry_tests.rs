use peerchat::addr::IpAddress;
use peerchat::constants::{HELLO_INTERVAL, USER_TIMEOUT};
use peerchat::registry::{cleanup_inactive, PeerRegistry};

fn ip(last: u8) -> IpAddress {
    IpAddress::new(192, 168, 1, last)
}

#[test]
fn upsert_is_idempotent_per_address() {
    let mut reg = PeerRegistry::new();
    reg.upsert(ip(10), b"alice".to_vec(), 0);
    reg.upsert(ip(10), b"alice".to_vec(), 3);
    reg.upsert(ip(10), b"alicia".to_vec(), 6);
    let snap = reg.snapshot(ip(99));
    assert_eq!(snap.len(), 1);
    assert_eq!(snap[0].address, ip(10));
    assert_eq!(snap[0].nickname, b"alicia".to_vec());
    assert_eq!(snap[0].last_seen, 6);
}

#[test]
fn purge_removes_stale_and_keeps_fresh() {
    let mut reg = PeerRegistry::new();
    reg.upsert(ip(1), b"old".to_vec(), 0);
    reg.upsert(ip(2), b"recent".to_vec(), 8);
    reg.purge(10, 10);
    let snap = reg.snapshot(ip(99));
    assert_eq!(snap.len(), 1);
    assert_eq!(snap[0].address, ip(2));
    assert_eq!(snap[0].nickname, b"recent".to_vec());
    assert_eq!(snap[0].last_seen, 8);
}

#[test]
fn purge_boundary_is_exclusive() {
    // A record exactly `timeout` seconds old is removed; one second
    // younger stays.
    let mut reg = PeerRegistry::new();
    reg.upsert(ip(1), b"at_limit".to_vec(), 5);
    reg.upsert(ip(2), b"inside".to_vec(), 6);
    reg.purge(15, 10);
    let snap = reg.snapshot(ip(99));
    assert_eq!(snap.len(), 1);
    assert_eq!(snap[0].address, ip(2));
}

#[test]
fn cleanup_inactive_purges_like_purge() {
    let mut reg = PeerRegistry::new();
    reg.upsert(ip(1), b"gone".to_vec(), 0);
    reg.upsert(ip(2), b"here".to_vec(), 20);
    cleanup_inactive(&mut reg, 20, USER_TIMEOUT);
    let snap = reg.snapshot(ip(99));
    assert_eq!(snap.len(), 1);
    assert_eq!(snap[0].nickname, b"here".to_vec());
}

#[test]
fn snapshot_excludes_own_address() {
    let mut reg = PeerRegistry::new();
    reg.upsert(ip(1), b"me".to_vec(), 0);
    reg.upsert(ip(2), b"other".to_vec(), 0);
    let snap = reg.snapshot(ip(1));
    assert_eq!(snap.len(), 1);
    assert_eq!(snap[0].address, ip(2));
}

#[test]
fn resolve_nickname_finds_peer() {
    let mut reg = PeerRegistry::new();
    reg.upsert(ip(7), b"bob".to_vec(), 1);
    reg.upsert(ip(8), b"carol".to_vec(), 2);
    assert_eq!(reg.resolve_nickname(&b"carol".to_vec()), Some(ip(8)));
}

#[test]
fn resolve_absent_nickname_fails() {
    // Scenario: connecting to a nickname the registry never saw fails
    // with a not-found outcome, so no connection is attempted.
    let mut reg = PeerRegistry::new();
    reg.upsert(ip(7), b"bob".to_vec(), 1);
    assert_eq!(reg.resolve_nickname(&b"ghost".to_vec()), None);
}

#[test]
fn beacon_tick_builds_hello_and_prunes() {
    let mut reg = PeerRegistry::new();
    reg.upsert(ip(1), b"stale".to_vec(), 0);
    reg.upsert(ip(2), b"fresh".to_vec(), 12);
    let hello = peerchat::beacon::beacon_tick(&mut reg, &b"me".to_vec(), 12, USER_TIMEOUT);
    assert_eq!(hello, b"HELLO:me".to_vec());
    let snap = reg.snapshot(ip(99));
    assert_eq!(snap.len(), 1);
    assert_eq!(snap[0].nickname, b"fresh".to_vec());
}

#[test]
fn heartbeats_keep_peer_visible_until_silence_times_out() {
    // Scenario: peer A heartbeats every HELLO_INTERVAL seconds. B's
    // snapshot shows A within one interval; after USER_TIMEOUT seconds
    // of silence, a purge hides A.
    let b_addr = ip(2);
    let mut reg = PeerRegistry::new();
    let mut now: u64 = 0;
    for _ in 0..3 {
        reg.upsert(ip(1), b"alice".to_vec(), now);
        reg.purge(now, USER_TIMEOUT);
        let snap = reg.snapshot(b_addr);
        assert_eq!(snap.len(), 1);
        assert_eq!(snap[0].nickname, b"alice".to_vec());
        now += HELLO_INTERVAL;
    }
    // A falls silent after its last heartbeat at `now - HELLO_INTERVAL`.
    let last_beat = now - HELLO_INTERVAL;
    now = last_beat + USER_TIMEOUT;
    reg.purge(now, USER_TIMEOUT);
    assert!(reg.snapshot(b_addr).is_empty());
}
