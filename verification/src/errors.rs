//! Typed failures for every fallible operation of the library.
//!
//! Native text (error messages, offending address text) is carried as the raw
//! bytes read from the native buffer, already checked to be NUL-terminated and
//! well-formed UTF-8 where the variant promises text.

use vstd::prelude::*;

verus! {

/// Errors that can occur when working with the mesh node.
#[derive(Clone, PartialEq, Eq, Debug)]
pub enum TailscaleError {
    /// The native surface handed back the sentinel "no descriptor" value on
    /// session creation.
    CreateTailscale,
    /// The blocking-call bridge could not dispatch the operation.
    SpawnBlockingFailed,
    /// Address text that could not be parsed, carried verbatim.
    AddrParseError(Vec<u8>),
    /// Caller-supplied text holds an interior NUL and cannot cross the native
    /// boundary.
    Utf8Error,
    /// A native output buffer held no NUL terminator.
    NullError,
    /// A native output buffer held bytes that are not well-formed UTF-8.
    Utf8ContentError,
    /// The assigned-address text was not of the expected "ipv4,ipv6" shape;
    /// carries the offending text.
    InvalidIpAdresses(Vec<u8>),
    /// Applying the hostname setting failed.
    SetHostname,
    /// Applying the state-directory setting failed.
    SetDir,
    /// Applying the auth-key setting failed.
    SetAuthKey,
    /// Applying the ephemeral flag failed.
    SetEphemeral,
    /// Applying the log-destination setting failed.
    SetLogFd,
    /// Bringing the node online failed; carries the native error text.
    UpFailed(Vec<u8>),
    /// Creating a listener failed; carries the network, the address and the
    /// native error text.
    ListenFailed { network: Vec<u8>, addr: Vec<u8>, message: Vec<u8> },
    /// Dialing out failed; carries the network, the address and the native
    /// error text.
    DialFailed { network: Vec<u8>, addr: Vec<u8>, message: Vec<u8> },
    /// Accepting an inbound connection failed; carries the native error text.
    AcceptFailed(Vec<u8>),
    /// A native call failed; carries the native error text.
    Tailscale(Vec<u8>),
    /// The native error-query call itself failed; carries its return code.
    ErrmsgFailed(i32),
}

} // verus!
