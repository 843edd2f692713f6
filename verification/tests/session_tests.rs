use tailscale2::bridge::{BridgeOutcome, NativeFetch};
use tailscale2::config::{classify_create, step_failure, step_precheck, BuildStep};
use tailscale2::errors::TailscaleError;
use tailscale2::session::{addr_precheck, Listener, Tailscale};
use tailscale2::NetworkType;

fn errbuf(s: &str) -> NativeFetch {
    let mut v = s.as_bytes().to_vec();
    v.push(0);
    v.resize(2048, 0);
    NativeFetch { ret: 0, buf: v }
}

#[test]
fn network_type_text() {
    assert_eq!(NetworkType::Tcp.as_str(), "tcp");
    assert_eq!(NetworkType::Udp.as_str(), "udp");
    assert_eq!(NetworkType::Tcp.to_bytes(), b"tcp".to_vec());
    assert_eq!(NetworkType::Udp.to_bytes(), b"udp".to_vec());
}

#[test]
fn builder_plan_order_and_contents() {
    // Ephemeral, then directory, then hostname, then auth key, then log sink.
    let plan = Tailscale::builder()
        .hostname(b"foo".to_vec())
        .ephemeral(true)
        .auth_key(b"SECRET-REDACTED".to_vec())
        .dir(b"/var/lib/node".to_vec())
        .log_destination(7)
        .build();
    assert_eq!(plan.len(), 5);
    assert!(matches!(&plan[0], BuildStep::Ephemeral(true)));
    assert!(matches!(&plan[1], BuildStep::Dir(d) if d == &b"/var/lib/node".to_vec()));
    assert!(matches!(&plan[2], BuildStep::Hostname(h) if h == &b"foo".to_vec()));
    assert!(matches!(&plan[3], BuildStep::AuthKey(k) if k == &b"SECRET-REDACTED".to_vec()));
    assert!(matches!(&plan[4], BuildStep::LogFd(7)));
}

#[test]
fn builder_plan_skips_unset_options() {
    let plan = Tailscale::builder().build();
    assert_eq!(plan.len(), 0);

    let plan = Tailscale::builder().ephemeral(false).build();
    assert_eq!(plan.len(), 0);

    let plan = Tailscale::builder().log_discard().build();
    assert_eq!(plan.len(), 1);
    assert!(matches!(&plan[0], BuildStep::LogFd(-1)));
}

#[test]
fn create_failure_is_the_sentinel() {
    assert!(matches!(
        classify_create(0),
        Err(TailscaleError::CreateTailscale)
    ));
    assert_eq!(classify_create(5).unwrap(), 5);
    assert_eq!(classify_create(-3).unwrap(), -3);
}

#[test]
fn step_precheck_catches_interior_nul() {
    assert_eq!(
        step_precheck(&BuildStep::Hostname(b"fo\0o".to_vec())),
        Some(TailscaleError::Utf8Error)
    );
    assert_eq!(step_precheck(&BuildStep::Hostname(b"foo".to_vec())), None);
    assert_eq!(
        step_precheck(&BuildStep::Dir(b"/a\0b".to_vec())),
        Some(TailscaleError::Utf8Error)
    );
    assert_eq!(step_precheck(&BuildStep::Ephemeral(true)), None);
    assert_eq!(step_precheck(&BuildStep::LogFd(-1)), None);
}

#[test]
fn each_step_has_its_own_failure() {
    assert_eq!(
        step_failure(&BuildStep::Ephemeral(true)),
        TailscaleError::SetEphemeral
    );
    assert_eq!(
        step_failure(&BuildStep::Dir(b"d".to_vec())),
        TailscaleError::SetDir
    );
    assert_eq!(
        step_failure(&BuildStep::Hostname(b"h".to_vec())),
        TailscaleError::SetHostname
    );
    assert_eq!(
        step_failure(&BuildStep::AuthKey(b"k".to_vec())),
        TailscaleError::SetAuthKey
    );
    assert_eq!(
        step_failure(&BuildStep::LogFd(3)),
        TailscaleError::SetLogFd
    );
}

#[test]
fn up_outcomes() {
    let ts = Tailscale::from_descriptor(4, None);
    let ok = BridgeOutcome::Completed { ret: 0, out: 0 };
    assert!(matches!(ts.up(&ok, None), Ok(())));

    let failed = BridgeOutcome::Completed { ret: -1, out: 0 };
    let err = errbuf("backend not running");
    match ts.up(&failed, Some(&err)) {
        Err(TailscaleError::UpFailed(m)) => assert_eq!(m, b"backend not running".to_vec()),
        other => panic!("expected UpFailed, got {:?}", other),
    }

    assert!(matches!(
        ts.up(&BridgeOutcome::DispatchFailed, None),
        Err(TailscaleError::SpawnBlockingFailed)
    ));
}

#[test]
fn listener_outcomes() {
    let ts = Tailscale::from_descriptor(4, None);
    let addr = b":1999".to_vec();
    assert_eq!(addr_precheck(&addr), None);

    let ok = BridgeOutcome::Completed { ret: 0, out: 11 };
    let l = ts.listener(NetworkType::Tcp, &addr, &ok, None).unwrap();
    assert_eq!(l.ln, 11);
    assert_eq!(l.sd, 4);

    let failed = BridgeOutcome::Completed { ret: -1, out: 0 };
    let err = errbuf("listen refused");
    match ts.listener(NetworkType::Tcp, &addr, &failed, Some(&err)) {
        Err(TailscaleError::ListenFailed {
            network,
            addr: a,
            message,
        }) => {
            assert_eq!(network, b"tcp".to_vec());
            assert_eq!(a, b":1999".to_vec());
            assert_eq!(message, b"listen refused".to_vec());
        }
        other => panic!("expected ListenFailed, got {:?}", other),
    }
}

#[test]
fn addr_precheck_rejects_interior_nul() {
    assert_eq!(
        addr_precheck(&b":19\099".to_vec()),
        Some(TailscaleError::Utf8Error)
    );
}

#[test]
fn connect_outcomes() {
    let ts = Tailscale::from_descriptor(4, None);
    let addr = b"peer:8000".to_vec();

    let ok = BridgeOutcome::Completed { ret: 0, out: 9 };
    let c = ts
        .connect(NetworkType::Tcp, &addr, &ok, None, true)
        .unwrap();
    assert_eq!(c.fd, 9);
    assert!(c.listener.is_none());
    assert!(c.nonblocking);
    assert!(c.io.open);

    let failed = BridgeOutcome::Completed { ret: -1, out: 0 };
    let err = errbuf("no route");
    match ts.connect(NetworkType::Udp, &addr, &failed, Some(&err), false) {
        Err(TailscaleError::DialFailed {
            network,
            addr: a,
            message,
        }) => {
            assert_eq!(network, b"udp".to_vec());
            assert_eq!(a, b"peer:8000".to_vec());
            assert_eq!(message, b"no route".to_vec());
        }
        other => panic!("expected DialFailed, got {:?}", other),
    }
}

#[test]
fn accept_outcomes() {
    let l = Listener {
        ln: 11,
        sd: 4,
        closed: false,
    };
    let ok = BridgeOutcome::Completed { ret: 0, out: 21 };
    let c = l.accept(&ok, None, true).unwrap();
    assert_eq!(c.fd, 21);
    let k = c.listener.unwrap();
    assert_eq!(k.ln, 11);
    assert_eq!(k.sd, 4);

    let failed = BridgeOutcome::Completed { ret: -1, out: 0 };
    let err = errbuf("listener gone");
    match l.accept(&failed, Some(&err), false) {
        Err(TailscaleError::AcceptFailed(m)) => assert_eq!(m, b"listener gone".to_vec()),
        other => panic!("expected AcceptFailed, got {:?}", other),
    }

    assert!(matches!(
        l.accept(&BridgeOutcome::DispatchFailed, None, false),
        Err(TailscaleError::SpawnBlockingFailed)
    ));
}

#[test]
fn ips_failed_query_reports_native_text() {
    let ts = Tailscale::from_descriptor(4, None);
    let fetch = NativeFetch {
        ret: -1,
        buf: vec![0; 256],
    };
    let err = errbuf("not up yet");
    match ts.ips(&fetch, Some(&err)) {
        Err(TailscaleError::Tailscale(m)) => assert_eq!(m, b"not up yet".to_vec()),
        other => panic!("expected a native-error failure, got {:?}", other),
    }
}

#[test]
fn ips_clean_query_parses_buffer() {
    let ts = Tailscale::from_descriptor(4, None);
    let mut buf = b"100.64.0.1,fd7a:115c:a1e0::1".to_vec();
    buf.push(0);
    buf.resize(256, 0);
    let fetch = NativeFetch { ret: 0, buf };
    match ts.ips(&fetch, None) {
        Ok(Some(pair)) => {
            assert_eq!(pair.ipv4.octets, [100, 64, 0, 1]);
            assert_eq!(pair.ipv6.segments, [0xfd7a, 0x115c, 0xa1e0, 0, 0, 0, 0, 1]);
        }
        other => panic!("expected the address pair, got {:?}", other),
    }
}

#[test]
fn ips_no_addresses_yet() {
    let ts = Tailscale::from_descriptor(4, None);
    let fetch = NativeFetch {
        ret: 0,
        buf: vec![0; 256],
    };
    assert!(matches!(ts.ips(&fetch, None), Ok(None)));
}

#[test]
fn built_session_closes_exactly_once_without_up() {
    // Build, never bring up, then tear down twice: the native close is
    // emitted exactly once.
    let plan = Tailscale::builder()
        .ephemeral(true)
        .hostname(b"foo".to_vec())
        .build();
    for step in &plan {
        assert_eq!(step_precheck(step), None);
    }
    let sd = classify_create(4).unwrap();
    let mut ts = Tailscale::from_descriptor(sd, None);
    assert_eq!(ts.close(), Some(4));
    assert_eq!(ts.close(), None);
    assert_eq!(ts.close(), None);
}

#[test]
fn listener_closes_exactly_once() {
    let mut l = Listener {
        ln: 11,
        sd: 4,
        closed: false,
    };
    assert_eq!(l.close(), Some(11));
    assert_eq!(l.close(), None);
}

#[test]
fn dial_and_write_scenario() {
    // Build with ephemeral=true and hostname "foo", bring up, dial
    // tcp://peer:8000, write b"hello" and tear everything down: the write
    // delivers five bytes and each descriptor closes once.
    let plan = Tailscale::builder()
        .ephemeral(true)
        .hostname(b"foo".to_vec())
        .build();
    assert_eq!(plan.len(), 2);
    assert!(matches!(&plan[0], BuildStep::Ephemeral(true)));
    assert!(matches!(&plan[1], BuildStep::Hostname(h) if h == &b"foo".to_vec()));

    let sd = classify_create(4).unwrap();
    let mut ts = Tailscale::from_descriptor(sd, None);
    assert!(matches!(
        ts.up(&BridgeOutcome::Completed { ret: 0, out: 0 }, None),
        Ok(())
    ));

    let addr = b"peer:8000".to_vec();
    assert_eq!(addr_precheck(&addr), None);
    let mut conn = ts
        .connect(
            NetworkType::Tcp,
            &addr,
            &BridgeOutcome::Completed { ret: 0, out: 9 },
            None,
            true,
        )
        .unwrap();

    conn.io.begin_write();
    let attempt = tailscale2::conn::IoAttempt::Transferred(5);
    let decision = conn.write(&attempt);
    assert_eq!(decision, tailscale2::conn::IoDecision::Ready(5));
    conn.io.end_write();

    assert!(conn.io.can_close());
    conn.io.close();
    assert_eq!(conn.io.closes, 1);
    assert!(!conn.io.open);

    assert_eq!(ts.close(), Some(4));
    assert_eq!(ts.close(), None);
}

#[test]
fn two_accepts_give_independent_connections() {
    // Accept twice on tcp://:1999: both connections are distinct and each
    // descriptor closes independently, exactly once.
    let ts = Tailscale::from_descriptor(4, None);
    let addr = b":1999".to_vec();
    let l = ts
        .listener(
            NetworkType::Tcp,
            &addr,
            &BridgeOutcome::Completed { ret: 0, out: 11 },
            None,
        )
        .unwrap();

    let mut c1 = l
        .accept(&BridgeOutcome::Completed { ret: 0, out: 21 }, None, true)
        .unwrap();
    let mut c2 = l
        .accept(&BridgeOutcome::Completed { ret: 0, out: 22 }, None, true)
        .unwrap();

    assert_ne!(c1.fd, c2.fd);
    assert_eq!(c1.listener.unwrap().ln, 11);
    assert_eq!(c2.listener.unwrap().ln, 11);

    c1.io.close();
    assert_eq!(c1.io.closes, 1);
    assert!(c2.io.open);
    c2.io.close();
    assert_eq!(c2.io.closes, 1);
}
