use tailscale2::bridge::{get_error_message, NativeFetch};
use tailscale2::errors::TailscaleError;
use tailscale2::session::parse_ips_text;

fn nul_terminated(s: &str) -> Vec<u8> {
    let mut v = s.as_bytes().to_vec();
    v.push(0);
    v.resize(256, 0);
    v
}

#[test]
fn ips_empty_text_means_none_assigned() {
    // An empty native buffer is "none assigned": not an error and not a
    // parse failure.
    let buf = nul_terminated("");
    assert!(matches!(parse_ips_text(&buf), Ok(None)));
}

#[test]
fn ips_parses_the_pair() {
    let buf = nul_terminated("100.64.0.1,fd7a:115c:a1e0::1");
    match parse_ips_text(&buf) {
        Ok(Some(pair)) => {
            assert_eq!(pair.ipv4.octets, [100, 64, 0, 1]);
            assert_eq!(pair.ipv6.segments, [0xfd7a, 0x115c, 0xa1e0, 0, 0, 0, 0, 1]);
        }
        other => panic!("expected the address pair, got {:?}", other),
    }
}

#[test]
fn ips_garbage_is_a_shape_failure() {
    let buf = nul_terminated("garbage");
    match parse_ips_text(&buf) {
        Err(TailscaleError::InvalidIpAdresses(t)) => assert_eq!(t, b"garbage".to_vec()),
        other => panic!("expected a shape failure, got {:?}", other),
    }
}

#[test]
fn ips_bad_ipv4_is_a_parse_failure() {
    let buf = nul_terminated("300.1.2.3,::1");
    match parse_ips_text(&buf) {
        Err(TailscaleError::AddrParseError(t)) => assert_eq!(t, b"300.1.2.3".to_vec()),
        other => panic!("expected an address-parse failure, got {:?}", other),
    }
}

#[test]
fn ips_bad_ipv6_is_a_parse_failure() {
    let buf = nul_terminated("100.64.0.1,nonsense");
    match parse_ips_text(&buf) {
        Err(TailscaleError::AddrParseError(t)) => assert_eq!(t, b"nonsense".to_vec()),
        other => panic!("expected an address-parse failure, got {:?}", other),
    }
}

#[test]
fn ips_splits_at_the_first_comma() {
    let buf = nul_terminated("100.64.0.1,::1,junk");
    match parse_ips_text(&buf) {
        Err(TailscaleError::AddrParseError(t)) => assert_eq!(t, b"::1,junk".to_vec()),
        other => panic!("expected an address-parse failure, got {:?}", other),
    }
}

#[test]
fn ips_missing_nul_terminator() {
    let buf = b"100.64.0.1,::1".to_vec();
    assert!(matches!(parse_ips_text(&buf), Err(TailscaleError::NullError)));
}

#[test]
fn ips_rejects_bad_utf8() {
    let mut buf = vec![0xFFu8, 0x2C, 0x31];
    buf.push(0);
    assert!(matches!(
        parse_ips_text(&buf),
        Err(TailscaleError::Utf8ContentError)
    ));
}

#[test]
fn ips_accepts_multibyte_utf8_as_shape_failure() {
    // Well-formed UTF-8 that is not an address pair is a shape failure, not
    // an encoding failure.
    let buf = nul_terminated("caf\u{e9}");
    match parse_ips_text(&buf) {
        Err(TailscaleError::InvalidIpAdresses(t)) => {
            assert_eq!(t, "caf\u{e9}".as_bytes().to_vec())
        }
        other => panic!("expected a shape failure, got {:?}", other),
    }
}

#[test]
fn errmsg_extracts_text() {
    let f = NativeFetch {
        ret: 0,
        buf: nul_terminated("no auth key"),
    };
    assert_eq!(get_error_message(&f), Ok(b"no auth key".to_vec()));
}

#[test]
fn errmsg_failed_query_carries_the_code() {
    let f = NativeFetch {
        ret: 9,
        buf: nul_terminated("ignored"),
    };
    assert_eq!(get_error_message(&f), Err(TailscaleError::ErrmsgFailed(9)));
}

#[test]
fn errmsg_missing_nul() {
    let f = NativeFetch {
        ret: 0,
        buf: b"unterminated".to_vec(),
    };
    assert_eq!(get_error_message(&f), Err(TailscaleError::NullError));
}

#[test]
fn errmsg_bad_utf8() {
    let f = NativeFetch {
        ret: 0,
        buf: vec![0xC0, 0xAF, 0x00],
    };
    assert_eq!(
        get_error_message(&f),
        Err(TailscaleError::Utf8ContentError)
    );
}
