//! Connection handles: byte-stream I/O decisions and remote-address lookup.
//!
//! A connection wraps one native descriptor that was put into non-blocking
//! mode before the handle existed. Read and write run as readiness loops in
//! the embedding runtime: wait until the descriptor is reported ready, attempt
//! the call, and let `read`/`write` here decide what the attempt's outcome
//! means — deliver the bytes, clear the readiness state and wait again, or
//! fail with the OS error code. The descriptor-lifecycle gate serializes the
//! attempts and orders the close after them.

use vstd::prelude::*;
use crate::bridge::{NativeFetch, errmsg_spec, get_error_message};
use crate::errors::TailscaleError;
use crate::gate::DescriptorGate;
use crate::ip::{IpAddress, parse_ip, v4_parses, v6_parses, is_ipv4_text, is_ipv6_text};
use crate::text::{first_index, is_utf8, lemma_first_index, find_range, utf8_prefix_check,
    copy_range};

verus! {

/// The listener a connection was accepted from: the listener descriptor and
/// the session descriptor behind it.
#[derive(Clone, Copy, PartialEq, Eq, Structural, Debug)]
pub struct ListenerKey {
    pub ln: i32,
    pub sd: i32,
}

/// A byte-stream connection to one peer, accepted or dialed.
#[derive(Debug)]
pub struct Connection {
    /// The native connection descriptor.
    pub fd: i32,
    /// The listener this connection was accepted from; `None` for an
    /// outbound dial.
    pub listener: Option<ListenerKey>,
    /// The descriptor stands in non-blocking mode.
    pub nonblocking: bool,
    /// The descriptor's lifecycle gate.
    pub io: DescriptorGate,
}

/// The raw outcome of one non-blocking read or write attempt on the
/// descriptor.
#[derive(Clone, Copy, PartialEq, Eq, Structural, Debug)]
pub enum IoAttempt {
    /// The call transferred this many bytes; zero on a read signals orderly
    /// remote close.
    Transferred(usize),
    /// The call would block: the readiness report was spurious.
    WouldBlock,
    /// The call failed with this OS error code.
    Failed(i32),
}

/// What the readiness loop does next after one attempt.
#[derive(Clone, Copy, PartialEq, Eq, Structural, Debug)]
pub enum IoDecision {
    /// Finish, delivering this many bytes; zero bytes from a read is orderly
    /// remote close, not an error and not a retry.
    Ready(usize),
    /// Clear the readiness state and wait for the next readiness report.
    ClearAndRetry,
    /// Finish with an I/O failure carrying this OS error code.
    Fail(i32),
}

/// The decision for each attempt outcome: transferred bytes are delivered,
/// a would-block attempt clears readiness and retries, an OS error fails.
pub open spec fn io_decision(a: IoAttempt) -> IoDecision {
    match a {
        IoAttempt::Transferred(n) => IoDecision::Ready(n),
        IoAttempt::WouldBlock => IoDecision::ClearAndRetry,
        IoAttempt::Failed(code) => IoDecision::Fail(code),
    }
}

/// A read that transferred zero bytes reports orderly remote close: it is
/// delivered as a completed read of zero bytes and is never retried as a
/// would-block condition, which only a would-block attempt is.
pub proof fn lemma_zero_read_is_remote_close(a: IoAttempt)
    ensures
        io_decision(IoAttempt::Transferred(0)) == IoDecision::Ready(0),
        io_decision(a) == IoDecision::ClearAndRetry <==> a == IoAttempt::WouldBlock,
{
}

impl Connection {
    /// A connection handle is well-formed when its descriptor was put into
    /// non-blocking mode and its gate is in a reachable state.
    pub open spec fn wf(self) -> bool {
        self.nonblocking && self.io.wf()
    }

    /// Decides what one read attempt's outcome means.
    pub fn read(&self, attempt: &IoAttempt) -> (r: IoDecision)
        ensures
            r == io_decision(*attempt),
    {
        match attempt {
            IoAttempt::Transferred(n) => IoDecision::Ready(*n),
            IoAttempt::WouldBlock => IoDecision::ClearAndRetry,
            IoAttempt::Failed(code) => IoDecision::Fail(*code),
        }
    }

    /// Decides what one write attempt's outcome means.
    pub fn write(&self, attempt: &IoAttempt) -> (r: IoDecision)
        ensures
            r == io_decision(*attempt),
    {
        match attempt {
            IoAttempt::Transferred(n) => IoDecision::Ready(*n),
            IoAttempt::WouldBlock => IoDecision::ClearAndRetry,
            IoAttempt::Failed(code) => IoDecision::Fail(*code),
        }
    }

    /// The native remote-address query to issue, if any: an accepted
    /// connection is queried as (listener, connection); a dialed connection
    /// issues no native query at all.
    pub fn remote_addr_query(&self) -> (r: Option<(i32, i32)>)
        ensures
            match self.listener {
                None => r is None,
                Some(k) => r == Some((k.ln, self.fd)),
            },
    {
        match &self.listener {
            None => None,
            Some(k) => Some((k.ln, self.fd)),
        }
    }

    /// Resolves the remote address. A dialed connection has no queried remote
    /// address. For an accepted connection, `fetch` is the raw result of the
    /// native remote-address query and `err` the raw error-query result where
    /// the query failed; the buffer text is parsed as one address of either
    /// family.
    pub fn remote_addr(&self, fetch: Option<&NativeFetch>, err: Option<&NativeFetch>) -> (r:
        Result<Option<IpAddress>, TailscaleError>)
        requires
            self.listener is Some <==> fetch is Some,
            (fetch matches Some(f) && f.ret != 0) ==> err is Some,
        ensures
            self.listener is None ==> r == Ok::<Option<IpAddress>, TailscaleError>(None),
            (self.listener is Some && fetch.unwrap().ret != 0) ==> (match errmsg_spec(
                err.unwrap().ret,
                err.unwrap().buf@,
            ) {
                Ok(m) => r matches Err(TailscaleError::Tailscale(v)) && v@ == m,
                Err(e) => r == Err::<Option<IpAddress>, TailscaleError>(e),
            }),
            (self.listener is Some && fetch.unwrap().ret == 0) ==> (match first_index(
                fetch.unwrap().buf@,
                0u8,
            ) {
                None => r == Err::<Option<IpAddress>, TailscaleError>(TailscaleError::NullError),
                Some(n) => {
                    let content = fetch.unwrap().buf@.take(n);
                    if !is_utf8(content) {
                        r == Err::<Option<IpAddress>, TailscaleError>(
                            TailscaleError::Utf8ContentError,
                        )
                    } else if !v4_parses(content) && !v6_parses(content) {
                        r matches Err(TailscaleError::AddrParseError(t)) && t@ == content
                    } else {
                        match r {
                            Ok(Some(IpAddress::V4(ip))) => is_ipv4_text(
                                content,
                                ip.octets@[0],
                                ip.octets@[1],
                                ip.octets@[2],
                                ip.octets@[3],
                            ),
                            Ok(Some(IpAddress::V6(ip))) => is_ipv6_text(content, ip.segments@)
                                && !v4_parses(content),
                            _ => false,
                        }
                    }
                },
            }),
    {
        let f = match fetch {
            None => {
                return Ok(None);
            },
            Some(f) => f,
        };
        if f.ret != 0 {
            match get_error_message(err.unwrap()) {
                Ok(m) => {
                    return Err(TailscaleError::Tailscale(m));
                },
                Err(e) => {
                    return Err(e);
                },
            }
        }
        proof {
            lemma_first_index(f.buf@, 0u8);
        }
        match find_range(f.buf.as_slice(), 0, f.buf.len(), 0u8) {
            None => Err(TailscaleError::NullError),
            Some(n) => {
                proof {
                    assert(first_index(f.buf@, 0u8) == Some(n as int));
                    assert(f.buf@.take(n as int) =~= f.buf@.subrange(0, n as int));
                }
                if !utf8_prefix_check(f.buf.as_slice(), n) {
                    return Err(TailscaleError::Utf8ContentError);
                }
                match parse_ip(f.buf.as_slice(), 0, n) {
                    Some(ip) => Ok(Some(ip)),
                    None => Err(TailscaleError::AddrParseError(copy_range(f.buf.as_slice(), 0, n))),
                }
            },
        }
    }
}

} // verus!
