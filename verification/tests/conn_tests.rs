use tailscale2::bridge::NativeFetch;
use tailscale2::conn::{Connection, IoAttempt, IoDecision, ListenerKey};
use tailscale2::errors::TailscaleError;
use tailscale2::gate::DescriptorGate;
use tailscale2::ip::IpAddress;

fn dialed(fd: i32) -> Connection {
    Connection {
        fd,
        listener: None,
        nonblocking: true,
        io: DescriptorGate::new(),
    }
}

fn accepted(fd: i32, ln: i32, sd: i32) -> Connection {
    Connection {
        fd,
        listener: Some(ListenerKey { ln, sd }),
        nonblocking: true,
        io: DescriptorGate::new(),
    }
}

fn fetchbuf(ret: i32, s: &str) -> NativeFetch {
    let mut v = s.as_bytes().to_vec();
    v.push(0);
    v.resize(128, 0);
    NativeFetch { ret, buf: v }
}

#[test]
fn zero_read_is_remote_close_not_retry() {
    // A read of zero bytes reports orderly remote close; only a would-block
    // attempt retries.
    let c = dialed(9);
    assert_eq!(c.read(&IoAttempt::Transferred(0)), IoDecision::Ready(0));
    assert_eq!(c.read(&IoAttempt::Transferred(42)), IoDecision::Ready(42));
    assert_eq!(c.read(&IoAttempt::WouldBlock), IoDecision::ClearAndRetry);
    assert_eq!(c.read(&IoAttempt::Failed(104)), IoDecision::Fail(104));
}

#[test]
fn write_decisions_mirror_read() {
    let c = dialed(9);
    assert_eq!(c.write(&IoAttempt::Transferred(5)), IoDecision::Ready(5));
    assert_eq!(c.write(&IoAttempt::WouldBlock), IoDecision::ClearAndRetry);
    assert_eq!(c.write(&IoAttempt::Failed(32)), IoDecision::Fail(32));
}

#[test]
fn close_waits_for_concurrent_read_and_write() {
    // With a read and a write in flight the descriptor cannot close; once
    // both released, it closes exactly once.
    let mut c = dialed(9);
    c.io.begin_read();
    c.io.begin_write();
    assert!(!c.io.can_close());
    c.io.end_read();
    assert!(!c.io.can_close());
    c.io.end_write();
    assert!(c.io.can_close());
    c.io.close();
    assert_eq!(c.io.closes, 1);
    assert!(!c.io.can_close());
}

#[test]
fn reader_and_writer_do_not_exclude_each_other() {
    let mut c = dialed(9);
    c.io.begin_read();
    c.io.begin_write();
    c.io.end_write();
    c.io.end_read();
    assert!(c.io.can_close());
}

#[test]
fn dialed_connection_has_no_remote_addr() {
    // No owning listener: no native query is issued at all and the lookup
    // reports "no remote address".
    let c = dialed(9);
    assert!(c.remote_addr_query().is_none());
    assert!(matches!(c.remote_addr(None, None), Ok(None)));
}

#[test]
fn accepted_connection_queries_listener_and_fd() {
    let c = accepted(21, 11, 4);
    assert_eq!(c.remote_addr_query(), Some((11, 21)));
}

#[test]
fn remote_addr_parses_both_families() {
    let c = accepted(21, 11, 4);
    match c.remote_addr(Some(&fetchbuf(0, "100.101.102.103")), None) {
        Ok(Some(IpAddress::V4(ip))) => assert_eq!(ip.octets, [100, 101, 102, 103]),
        other => panic!("expected V4, got {:?}", other),
    }
    match c.remote_addr(Some(&fetchbuf(0, "fd7a:115c:a1e0::1")), None) {
        Ok(Some(IpAddress::V6(ip))) => {
            assert_eq!(ip.segments, [0xfd7a, 0x115c, 0xa1e0, 0, 0, 0, 0, 1])
        }
        other => panic!("expected V6, got {:?}", other),
    }
}

#[test]
fn remote_addr_failed_query_surfaces_native_text() {
    // A non-zero native return code becomes a native-error failure carrying
    // the session's last-error text — never a panic.
    let c = accepted(21, 11, 4);
    let fetch = fetchbuf(-1, "");
    let err = fetchbuf(0, "connection reset");
    match c.remote_addr(Some(&fetch), Some(&err)) {
        Err(TailscaleError::Tailscale(m)) => assert_eq!(m, b"connection reset".to_vec()),
        other => panic!("expected a native-error failure, got {:?}", other),
    }
}

#[test]
fn remote_addr_unparseable_text() {
    let c = accepted(21, 11, 4);
    match c.remote_addr(Some(&fetchbuf(0, "not-an-address")), None) {
        Err(TailscaleError::AddrParseError(t)) => assert_eq!(t, b"not-an-address".to_vec()),
        other => panic!("expected an address-parse failure, got {:?}", other),
    }
}

#[test]
fn remote_addr_missing_nul() {
    let c = accepted(21, 11, 4);
    let fetch = NativeFetch {
        ret: 0,
        buf: b"100.64.0.1".to_vec(),
    };
    assert!(matches!(
        c.remote_addr(Some(&fetch), None),
        Err(TailscaleError::NullError)
    ));
}
