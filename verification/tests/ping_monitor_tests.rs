use quote_stream::ping_monitor::{ClientAddr, PingMonitor};

const SEC: u64 = 1_000_000_000;

fn addr(last: u8, port: u16) -> ClientAddr {
    ClientAddr { ip: u128::from(u32::from_be_bytes([127, 0, 0, last])), port, is_v6: false, flowinfo: 0, scope_id: 0 }
}

#[test]
fn unknown_client_is_inactive() {
    let m = PingMonitor::new(5);
    assert!(!m.is_client_active(&addr(1, 1000)));
}

#[test]
fn ping_makes_client_active() {
    let mut m = PingMonitor::new(5);
    m.update_ping_at(addr(1, 1000), 0);
    assert!(m.is_client_active(&addr(1, 1000)));
    assert!(!m.is_client_active(&addr(1, 1001)));
}

#[test]
fn timeout_is_strictly_longer_than_the_limit() {
    let mut m = PingMonitor::new(5);
    m.update_ping_at(addr(1, 1000), 10 * SEC);
    assert!(m.check_timeouts_at(15 * SEC).is_empty());
    assert!(m.is_client_active(&addr(1, 1000)));
    assert_eq!(m.check_timeouts_at(15 * SEC + 1), vec![addr(1, 1000)]);
    assert!(!m.is_client_active(&addr(1, 1000)));
}

#[test]
fn timed_out_client_is_reported_once() {
    let mut m = PingMonitor::new(1);
    m.update_ping_at(addr(1, 1), 0);
    m.update_ping_at(addr(2, 2), 0);
    let mut first = m.check_timeouts_at(5 * SEC);
    first.sort_by_key(|a| a.port);
    assert_eq!(first, vec![addr(1, 1), addr(2, 2)]);
    assert!(m.check_timeouts_at(50 * SEC).is_empty());
}

#[test]
fn ping_after_timeout_revives_client() {
    let mut m = PingMonitor::new(1);
    m.update_ping_at(addr(1, 1), 0);
    assert_eq!(m.check_timeouts_at(3 * SEC), vec![addr(1, 1)]);
    m.update_ping_at(addr(1, 1), 4 * SEC);
    assert!(m.is_client_active(&addr(1, 1)));
    assert!(m.check_timeouts_at(5 * SEC).is_empty());
    assert_eq!(m.check_timeouts_at(6 * SEC), vec![addr(1, 1)]);
}

#[test]
fn only_silent_clients_time_out() {
    let mut m = PingMonitor::new(2);
    m.update_ping_at(addr(1, 1), 0);
    m.update_ping_at(addr(2, 2), 2 * SEC);
    assert_eq!(m.check_timeouts_at(3 * SEC), vec![addr(1, 1)]);
    assert!(m.is_client_active(&addr(2, 2)));
}

#[test]
fn clock_going_back_counts_as_no_time() {
    let mut m = PingMonitor::new(0);
    m.update_ping_at(addr(1, 1), 10 * SEC);
    assert!(m.check_timeouts_at(SEC).is_empty());
    assert_eq!(m.check_timeouts_at(10 * SEC + 1), vec![addr(1, 1)]);
}

#[test]
fn removed_client_is_forgotten() {
    let mut m = PingMonitor::new(1);
    m.update_ping_at(addr(1, 1), 0);
    m.remove_client(&addr(1, 1));
    assert!(!m.is_client_active(&addr(1, 1)));
    assert!(m.check_timeouts_at(100 * SEC).is_empty());
    m.remove_client(&addr(9, 9));
}

#[test]
fn ipv6_and_ipv4_addresses_are_different_clients() {
    let mut m = PingMonitor::new(1);
    let v4 = ClientAddr { ip: 1, port: 80, is_v6: false, flowinfo: 0, scope_id: 0 };
    let v6 = ClientAddr { ip: 1, port: 80, is_v6: true, flowinfo: 0, scope_id: 0 };
    m.update_ping_at(v4, 0);
    assert!(m.is_client_active(&v4));
    assert!(!m.is_client_active(&v6));
}

#[test]
fn real_clock_detects_silence() {
    let mut m = PingMonitor::new(0);
    m.update_ping(addr(1, 1));
    assert!(m.is_client_active(&addr(1, 1)));
    let start = std::time::Instant::now();
    while start.elapsed() < std::time::Duration::from_millis(5) {}
    assert_eq!(m.check_timeouts(), vec![addr(1, 1)]);
    assert!(!m.is_client_active(&addr(1, 1)));
}

#[test]
fn check_at_ping_time_reports_nothing() {
    let mut m = PingMonitor::new(0);
    m.update_ping_at(addr(3, 3), 7 * SEC);
    assert!(m.check_timeouts_at(7 * SEC).is_empty());
    assert!(m.is_client_active(&addr(3, 3)));
}

#[test]
fn ipv6_scopes_are_different_clients() {
    let mut m = PingMonitor::new(1);
    let a = ClientAddr { ip: 0xfe80 << 112 | 1, port: 9000, is_v6: true, flowinfo: 0, scope_id: 1 };
    let b = ClientAddr { scope_id: 2, ..a };
    let c = ClientAddr { flowinfo: 7, ..a };
    m.update_ping_at(a, 0);
    assert!(m.is_client_active(&a));
    assert!(!m.is_client_active(&b));
    assert!(!m.is_client_active(&c));
    m.update_ping_at(b, 0);
    m.remove_client(&a);
    assert!(!m.is_client_active(&a));
    assert!(m.is_client_active(&b));
}

#[test]
fn activity_follows_the_call_history() {
    let mut m = PingMonitor::new(1);
    let (a, b) = (addr(1, 1), addr(2, 2));
    assert!(!m.is_client_active(&a));
    m.update_ping_at(a, 0);
    m.update_ping_at(b, 0);
    assert!(m.is_client_active(&a) && m.is_client_active(&b));
    m.update_ping_at(b, 2 * SEC);
    let reported = m.check_timeouts_at(2 * SEC);
    assert_eq!(reported, vec![a]);
    assert!(!m.is_client_active(&a) && m.is_client_active(&b));
    m.remove_client(&b);
    assert!(!m.is_client_active(&b));
    m.update_ping_at(a, 3 * SEC);
    assert!(m.is_client_active(&a));
    m.update_ping_at(b, 3 * SEC);
    assert!(m.is_client_active(&b));
}
