//! Session and listener handles.
//!
//! A session owns one native session descriptor; a listener owns one native
//! listener descriptor tied to its session. The native calls that may block
//! (bring-up, listen, dial, accept) run through the blocking-call bridge in
//! the embedding runtime; the methods here classify every raw outcome into
//! the typed result the caller sees, and the teardown functions emit the
//! native close exactly once.

use vstd::prelude::*;
use crate::NetworkType;
use crate::network_bytes;
use crate::bridge::BridgeOutcome;
use crate::bridge::NativeFetch;
use crate::bridge::errmsg_spec;
use crate::bridge::get_error_message;
use crate::config::TailscaleBuilder;
use crate::conn::Connection;
use crate::conn::ListenerKey;
use crate::errors::TailscaleError;
use crate::gate::DescriptorGate;
use crate::ip::IpPair;
use crate::ip::is_ipv4_text;
use crate::ip::is_ipv6_text;
use crate::ip::parse_ipv4;
use crate::ip::parse_ipv6;
use crate::ip::v4_parses;
use crate::ip::v6_parses;
use crate::text::contains_nul;
use crate::text::copy_range;
use crate::text::find_range;
use crate::text::first_index;
use crate::text::has_byte;
use crate::text::is_utf8;
use crate::text::lemma_first_index;
use crate::text::utf8_prefix_check;

verus! {

/// A session: one mesh-network node instance.
#[derive(Debug)]
pub struct Tailscale {
    /// The native session descriptor.
    pub sd: i32,
    /// The log-sink descriptor the session owns, where a sink was configured.
    pub log_fd: Option<i32>,
    /// The session was torn down.
    pub closed: bool,
}

/// A listener accepting inbound connections on the node.
#[derive(Debug)]
pub struct Listener {
    /// The native listener descriptor.
    pub ln: i32,
    /// The session descriptor behind this listener.
    pub sd: i32,
    /// The listener was torn down.
    pub closed: bool,
}

/// Checks address text before it crosses the native boundary as
/// NUL-terminated text.
pub fn addr_precheck(addr: &Vec<u8>) -> (r: Option<TailscaleError>)
    ensures
        has_byte(addr@, 0u8) ==> r == Some(TailscaleError::Utf8Error),
        !has_byte(addr@, 0u8) ==> r is None,
{
    if contains_nul(addr.as_slice()) {
        Some(TailscaleError::Utf8Error)
    } else {
        None
    }
}

/// What the assigned-addresses text means. The buffer must be NUL-terminated
/// UTF-8; empty text means no addresses are assigned yet; otherwise the text
/// up to the first comma must be an IPv4 address and the rest an IPv6
/// address.
pub open spec fn ips_outcome_ok(buf: Seq<u8>, r: Result<Option<IpPair>, TailscaleError>) -> bool {
    match first_index(buf, 0u8) {
        None => r == Err::<Option<IpPair>, TailscaleError>(TailscaleError::NullError),
        Some(n) => {
            let content = buf.take(n);
            if !is_utf8(content) {
                r == Err::<Option<IpPair>, TailscaleError>(TailscaleError::Utf8ContentError)
            } else if content.len() == 0 {
                r == Ok::<Option<IpPair>, TailscaleError>(None)
            } else {
                match first_index(content, 0x2Cu8) {
                    None => r matches Err(TailscaleError::InvalidIpAdresses(t)) && t@ == content,
                    Some(ci) => {
                        let left = content.subrange(0, ci);
                        let right = content.subrange(ci + 1, content.len() as int);
                        if !v4_parses(left) {
                            r matches Err(TailscaleError::AddrParseError(t)) && t@ == left
                        } else if !v6_parses(right) {
                            r matches Err(TailscaleError::AddrParseError(t)) && t@ == right
                        } else {
                            r matches Ok(Some(p)) && is_ipv4_text(
                                left,
                                p.ipv4.octets@[0],
                                p.ipv4.octets@[1],
                                p.ipv4.octets@[2],
                                p.ipv4.octets@[3],
                            ) && is_ipv6_text(right, p.ipv6.segments@)
                        }
                    },
                }
            }
        },
    }
}

/// Parses the native assigned-addresses text: a NUL-terminated UTF-8 buffer
/// holding either nothing (no addresses assigned yet) or `ipv4,ipv6`.
pub fn parse_ips_text(buf: &[u8]) -> (r: Result<Option<IpPair>, TailscaleError>)
    ensures
        ips_outcome_ok(buf@, r),
{
    proof {
        lemma_first_index(buf@, 0u8);
    }
    let n = match find_range(buf, 0, buf.len(), 0u8) {
        None => {
            return Err(TailscaleError::NullError);
        },
        Some(n) => n,
    };
    proof {
        assert(first_index(buf@, 0u8) == Some(n as int));
    }
    if !utf8_prefix_check(buf, n) {
        return Err(TailscaleError::Utf8ContentError);
    }
    if n == 0 {
        return Ok(None);
    }
    let ghost content = buf@.take(n as int);
    proof {
        lemma_first_index(content, 0x2Cu8);
        assert(forall|j: int| 0 <= j < n ==> content[j] == buf@[j]);
    }
    let ci = match find_range(buf, 0, n, 0x2Cu8) {
        None => {
            return Err(TailscaleError::InvalidIpAdresses(copy_range(buf, 0, n)));
        },
        Some(ci) => ci,
    };
    proof {
        assert(content[ci as int] == 0x2Cu8);
        assert(forall|j: int| 0 <= j < ci ==> content[j] != 0x2Cu8);
        assert(first_index(content, 0x2Cu8) == Some(ci as int));
        assert(content.subrange(0, ci as int) =~= buf@.subrange(0, ci as int));
        assert(content.subrange(ci + 1, content.len() as int) =~= buf@.subrange(
            ci + 1,
            n as int,
        ));
    }
    match parse_ipv4(buf, 0, ci) {
        None => Err(TailscaleError::AddrParseError(copy_range(buf, 0, ci))),
        Some(ipv4) => {
            proof {
                assert(v4_parses(content.subrange(0, ci as int)));
            }
            match parse_ipv6(buf, ci + 1, n) {
                None => Err(TailscaleError::AddrParseError(copy_range(buf, ci + 1, n))),
                Some(ipv6) => {
                    proof {
                        assert(v6_parses(content.subrange(ci + 1, content.len() as int)));
                    }
                    Ok(Some(IpPair { ipv4, ipv6 }))
                },
            }
        },
    }
}

/// The assigned-addresses contract pins the parsed pair: two results that
/// both satisfy it for the same buffer, one of them a parsed pair, carry the
/// same four octets and the same eight groups.
pub proof fn lemma_ips_pair_unique(
    buf: Seq<u8>,
    r1: Result<Option<IpPair>, TailscaleError>,
    r2: Result<Option<IpPair>, TailscaleError>,
)
    requires
        ips_outcome_ok(buf, r1),
        ips_outcome_ok(buf, r2),
        r1 matches Ok(Some(_)),
    ensures
        match (r1, r2) {
            (Ok(Some(p1)), Ok(Some(p2))) => p1.ipv4.octets@ == p2.ipv4.octets@
                && p1.ipv6.segments@ == p2.ipv6.segments@,
            _ => false,
        },
{
    let n = first_index(buf, 0u8).unwrap();
    let content = buf.take(n);
    let ci = first_index(content, 0x2Cu8).unwrap();
    let left = content.subrange(0, ci);
    let right = content.subrange(ci + 1, content.len() as int);
    let p1 = r1.unwrap().unwrap();
    let p2 = r2.unwrap().unwrap();
    crate::ip::lemma_ipv4_unique(
        left,
        p1.ipv4.octets@[0],
        p1.ipv4.octets@[1],
        p1.ipv4.octets@[2],
        p1.ipv4.octets@[3],
        p2.ipv4.octets@[0],
        p2.ipv4.octets@[1],
        p2.ipv4.octets@[2],
        p2.ipv4.octets@[3],
    );
    crate::ip::lemma_ipv6_unique(right, p1.ipv6.segments@, p2.ipv6.segments@);
    assert(p1.ipv4.octets@ =~= p2.ipv4.octets@);
}

/// The teardown step of a session: the first teardown emits the native close
/// of the session descriptor, any further teardown emits nothing.
pub open spec fn session_close_step(t: Tailscale) -> (Tailscale, Option<i32>) {
    if !t.closed {
        (Tailscale { sd: t.sd, log_fd: t.log_fd, closed: true }, Some(t.sd))
    } else {
        (t, None)
    }
}

/// The teardown step of a listener: the first teardown emits the close of the
/// listener descriptor, any further teardown emits nothing.
pub open spec fn listener_close_step(l: Listener) -> (Listener, Option<i32>) {
    if !l.closed {
        (Listener { ln: l.ln, sd: l.sd, closed: true }, Some(l.ln))
    } else {
        (l, None)
    }
}

/// A session fresh from build is open, whether or not bring-up ever ran; its
/// teardown emits the native close exactly once: the first teardown emits it
/// and every further teardown emits nothing.
pub proof fn lemma_session_closes_exactly_once(t: Tailscale)
    requires
        !t.closed,
    ensures
        ({
            let (t1, first) = session_close_step(t);
            let (t2, second) = session_close_step(t1);
            first == Some(t.sd) && t1.closed && second == None::<i32> && t2.closed
        }),
{
}

/// A listener's teardown closes its descriptor exactly once.
pub proof fn lemma_listener_closes_exactly_once(l: Listener)
    requires
        !l.closed,
    ensures
        ({
            let (l1, first) = listener_close_step(l);
            let (l2, second) = listener_close_step(l1);
            first == Some(l.ln) && l1.closed && second == None::<i32> && l2.closed
        }),
{
}

impl Tailscale {
    /// A session handle is well-formed when it holds a real descriptor.
    pub open spec fn wf(self) -> bool {
        self.sd != 0
    }

    /// Creates a new builder for configuring a session.
    pub fn builder() -> (b: TailscaleBuilder)
        ensures
            !b.ephemeral,
            b.hostname is None,
            b.dir is None,
            b.auth_key is None,
            b.log_config is Default,
    {
        TailscaleBuilder::default()
    }

    /// Wraps the fresh session descriptor once every configuration step of
    /// the build plan applied cleanly; the session takes ownership of the
    /// log-sink descriptor where one was configured.
    pub fn from_descriptor(sd: i32, log_fd: Option<i32>) -> (t: Tailscale)
        requires
            sd != 0,
        ensures
            t.sd == sd && t.log_fd == log_fd && !t.closed && t.wf(),
    {
        Tailscale { sd, log_fd, closed: false }
    }

    /// Classifies the bring-up outcome: zero is success; a non-zero return
    /// code fails with the native error text; a dispatch failure is its own
    /// failure.
    pub fn up(&self, outcome: &BridgeOutcome, err: Option<&NativeFetch>) -> (r: Result<
        (),
        TailscaleError,
    >)
        requires
            (outcome matches BridgeOutcome::Completed { ret, .. } && ret != 0) ==> err is Some,
        ensures
            match *outcome {
                BridgeOutcome::DispatchFailed => r == Err::<(), TailscaleError>(
                    TailscaleError::SpawnBlockingFailed,
                ),
                BridgeOutcome::Completed { ret, out } => if ret == 0 {
                    r is Ok
                } else {
                    match errmsg_spec(err.unwrap().ret, err.unwrap().buf@) {
                        Ok(m) => r matches Err(TailscaleError::UpFailed(v)) && v@ == m,
                        Err(e) => r == Err::<(), TailscaleError>(e),
                    }
                },
            },
    {
        match outcome {
            BridgeOutcome::DispatchFailed => Err(TailscaleError::SpawnBlockingFailed),
            BridgeOutcome::Completed { ret, out: _ } => {
                if *ret == 0 {
                    Ok(())
                } else {
                    match get_error_message(err.unwrap()) {
                        Ok(m) => Err(TailscaleError::UpFailed(m)),
                        Err(e) => Err(e),
                    }
                }
            },
        }
    }

    /// Classifies the listen outcome: on success wraps the new listener
    /// descriptor in a listener tied to this session; a non-zero return code
    /// fails with the network, the address and the native error text.
    pub fn listener(
        &self,
        network: NetworkType,
        addr: &Vec<u8>,
        outcome: &BridgeOutcome,
        err: Option<&NativeFetch>,
    ) -> (r: Result<Listener, TailscaleError>)
        requires
            !has_byte(addr@, 0u8),
            (outcome matches BridgeOutcome::Completed { ret, .. } && ret != 0) ==> err is Some,
        ensures
            match *outcome {
                BridgeOutcome::DispatchFailed => r == Err::<Listener, TailscaleError>(
                    TailscaleError::SpawnBlockingFailed,
                ),
                BridgeOutcome::Completed { ret, out } => if ret == 0 {
                    r matches Ok(l) && l.ln == out && l.sd == self.sd && !l.closed
                } else {
                    match errmsg_spec(err.unwrap().ret, err.unwrap().buf@) {
                        Ok(m) => r matches Err(TailscaleError::ListenFailed {
                            network: nw,
                            addr: ad,
                            message: msg,
                        }) && nw@ == network_bytes(network) && ad@ == addr@ && msg@ == m,
                        Err(e) => r == Err::<Listener, TailscaleError>(e),
                    }
                },
            },
    {
        match outcome {
            BridgeOutcome::DispatchFailed => Err(TailscaleError::SpawnBlockingFailed),
            BridgeOutcome::Completed { ret, out } => {
                if *ret == 0 {
                    Ok(Listener { ln: *out, sd: self.sd, closed: false })
                } else {
                    match get_error_message(err.unwrap()) {
                        Ok(m) => Err(
                            TailscaleError::ListenFailed {
                                network: network.to_bytes(),
                                addr: copy_range(addr.as_slice(), 0, addr.len()),
                                message: m,
                            },
                        ),
                        Err(e) => Err(e),
                    }
                }
            },
        }
    }

    /// Classifies the dial outcome: on success wraps the new connection
    /// descriptor, already placed into non-blocking mode, in a connection
    /// with no owning listener; a non-zero return code fails with the
    /// network, the address and the native error text.
    pub fn connect(
        &self,
        network: NetworkType,
        addr: &Vec<u8>,
        outcome: &BridgeOutcome,
        err: Option<&NativeFetch>,
        nonblocking: bool,
    ) -> (r: Result<Connection, TailscaleError>)
        requires
            !has_byte(addr@, 0u8),
            (outcome matches BridgeOutcome::Completed { ret, .. } && ret != 0) ==> err is Some,
            (outcome matches BridgeOutcome::Completed { ret, .. } && ret == 0) ==> nonblocking,
        ensures
            match *outcome {
                BridgeOutcome::DispatchFailed => r == Err::<Connection, TailscaleError>(
                    TailscaleError::SpawnBlockingFailed,
                ),
                BridgeOutcome::Completed { ret, out } => if ret == 0 {
                    r matches Ok(c) && c.fd == out && c.listener is None && c.nonblocking && c.io
                        == (DescriptorGate { open: true, reading: false, writing: false, closes: 0 })
                        && c.wf()
                } else {
                    match errmsg_spec(err.unwrap().ret, err.unwrap().buf@) {
                        Ok(m) => r matches Err(TailscaleError::DialFailed {
                            network: nw,
                            addr: ad,
                            message: msg,
                        }) && nw@ == network_bytes(network) && ad@ == addr@ && msg@ == m,
                        Err(e) => r == Err::<Connection, TailscaleError>(e),
                    }
                },
            },
    {
        match outcome {
            BridgeOutcome::DispatchFailed => Err(TailscaleError::SpawnBlockingFailed),
            BridgeOutcome::Completed { ret, out } => {
                if *ret == 0 {
                    Ok(
                        Connection {
                            fd: *out,
                            listener: None,
                            nonblocking,
                            io: DescriptorGate::new(),
                        },
                    )
                } else {
                    match get_error_message(err.unwrap()) {
                        Ok(m) => Err(
                            TailscaleError::DialFailed {
                                network: network.to_bytes(),
                                addr: copy_range(addr.as_slice(), 0, addr.len()),
                                message: m,
                            },
                        ),
                        Err(e) => Err(e),
                    }
                }
            },
        }
    }

    /// Resolves the assigned-addresses query: a failed query reports the
    /// native error text; a clean query's buffer is parsed as the
    /// comma-joined address pair, empty text meaning none assigned yet.
    pub fn ips(&self, fetch: &NativeFetch, err: Option<&NativeFetch>) -> (r: Result<
        Option<IpPair>,
        TailscaleError,
    >)
        requires
            fetch.ret != 0 ==> err is Some,
        ensures
            fetch.ret != 0 ==> (match errmsg_spec(err.unwrap().ret, err.unwrap().buf@) {
                Ok(m) => r matches Err(TailscaleError::Tailscale(v)) && v@ == m,
                Err(e) => r == Err::<Option<IpPair>, TailscaleError>(e),
            }),
            fetch.ret == 0 ==> ips_outcome_ok(fetch.buf@, r),
    {
        if fetch.ret != 0 {
            match get_error_message(err.unwrap()) {
                Ok(m) => Err(TailscaleError::Tailscale(m)),
                Err(e) => Err(e),
            }
        } else {
            parse_ips_text(fetch.buf.as_slice())
        }
    }

    /// Tears the session down: emits the session descriptor to close on the
    /// first call and nothing afterwards.
    pub fn close(&mut self) -> (r: Option<i32>)
        ensures
            (*final(self), r) == session_close_step(*old(self)),
    {
        if !self.closed {
            self.closed = true;
            Some(self.sd)
        } else {
            None
        }
    }
}

impl Listener {
    /// Classifies the accept outcome: on success wraps the new connection
    /// descriptor, already placed into non-blocking mode, in a connection
    /// that keeps this listener (and through it the session) alive; a
    /// non-zero return code fails with the native error text.
    pub fn accept(&self, outcome: &BridgeOutcome, err: Option<&NativeFetch>, nonblocking: bool) -> (r:
        Result<Connection, TailscaleError>)
        requires
            (outcome matches BridgeOutcome::Completed { ret, .. } && ret != 0) ==> err is Some,
            (outcome matches BridgeOutcome::Completed { ret, .. } && ret == 0) ==> nonblocking,
        ensures
            match *outcome {
                BridgeOutcome::DispatchFailed => r == Err::<Connection, TailscaleError>(
                    TailscaleError::SpawnBlockingFailed,
                ),
                BridgeOutcome::Completed { ret, out } => if ret == 0 {
                    r matches Ok(c) && c.fd == out && c.listener == Some(
                        ListenerKey { ln: self.ln, sd: self.sd },
                    ) && c.nonblocking && c.io == (DescriptorGate {
                        open: true,
                        reading: false,
                        writing: false,
                        closes: 0,
                    }) && c.wf()
                } else {
                    match errmsg_spec(err.unwrap().ret, err.unwrap().buf@) {
                        Ok(m) => r matches Err(TailscaleError::AcceptFailed(v)) && v@ == m,
                        Err(e) => r == Err::<Connection, TailscaleError>(e),
                    }
                },
            },
    {
        match outcome {
            BridgeOutcome::DispatchFailed => Err(TailscaleError::SpawnBlockingFailed),
            BridgeOutcome::Completed { ret, out } => {
                if *ret == 0 {
                    Ok(
                        Connection {
                            fd: *out,
                            listener: Some(ListenerKey { ln: self.ln, sd: self.sd }),
                            nonblocking,
                            io: DescriptorGate::new(),
                        },
                    )
                } else {
                    match get_error_message(err.unwrap()) {
                        Ok(m) => Err(TailscaleError::AcceptFailed(m)),
                        Err(e) => Err(e),
                    }
                }
            },
        }
    }

    /// Tears the listener down: emits the listener descriptor to close on
    /// the first call and nothing afterwards.
    pub fn close(&mut self) -> (r: Option<i32>)
        ensures
            (*final(self), r) == listener_close_step(*old(self)),
    {
        if !self.closed {
            self.closed = true;
            Some(self.ln)
        } else {
            None
        }
    }
}

} // verus!
