//! The configuration builder.
//!
//! Setters only record intent; `build` consumes the builder and turns it into
//! the exact, ordered sequence of native configuration steps. The embedding
//! runtime applies each step in order: it first asks `step_precheck` whether
//! the step's text may cross the native boundary, performs the native call,
//! and on a non-zero return code reports `step_failure` for that step.

use vstd::prelude::*;
use crate::errors::TailscaleError;
use crate::text::has_byte;

verus! {

/// Where the native engine's log output goes.
pub enum LogConfig {
    /// No native call is issued; the engine's own default logging applies.
    Default,
    /// Logs go to this descriptor, which the session then owns.
    Fd(i32),
    /// All log output is discarded.
    Discard,
}

/// One native configuration call, with its argument.
pub enum BuildStep {
    Ephemeral(bool),
    Dir(Vec<u8>),
    Hostname(Vec<u8>),
    AuthKey(Vec<u8>),
    LogFd(i32),
}

/// Builder for configuring and creating a session.
pub struct TailscaleBuilder {
    pub ephemeral: bool,
    pub hostname: Option<Vec<u8>>,
    pub dir: Option<Vec<u8>>,
    pub auth_key: Option<Vec<u8>>,
    pub log_config: LogConfig,
}

impl Default for TailscaleBuilder {
    /// An empty configuration: nothing set, default logging.
    fn default() -> (b: TailscaleBuilder)
        ensures
            !b.ephemeral,
            b.hostname is None,
            b.dir is None,
            b.auth_key is None,
            b.log_config is Default,
    {
        TailscaleBuilder {
            ephemeral: false,
            hostname: None,
            dir: None,
            auth_key: None,
            log_config: LogConfig::Default,
        }
    }
}

impl TailscaleBuilder {
    /// The ordered native configuration calls this builder asks for:
    /// ephemeral flag, then storage directory, then hostname, then auth key,
    /// then log destination; absent options contribute no step.
    pub open spec fn plan_spec(self) -> Seq<BuildStep> {
        (if self.ephemeral {
            seq![BuildStep::Ephemeral(true)]
        } else {
            Seq::empty()
        }) + (match self.dir {
            Some(d) => seq![BuildStep::Dir(d)],
            None => Seq::empty(),
        }) + (match self.hostname {
            Some(h) => seq![BuildStep::Hostname(h)],
            None => Seq::empty(),
        }) + (match self.auth_key {
            Some(k) => seq![BuildStep::AuthKey(k)],
            None => Seq::empty(),
        }) + (match self.log_config {
            LogConfig::Default => Seq::empty(),
            LogConfig::Fd(fd) => seq![BuildStep::LogFd(fd)],
            LogConfig::Discard => seq![BuildStep::LogFd(-1i32)],
        })
    }

    /// Sets the authentication key for the node.
    pub fn auth_key(self, key: Vec<u8>) -> (r: Self)
        ensures
            r.auth_key == Some(key),
            r.ephemeral == self.ephemeral,
            r.hostname == self.hostname,
            r.dir == self.dir,
            r.log_config == self.log_config,
    {
        TailscaleBuilder { auth_key: Some(key), ..self }
    }

    /// Sets whether this node should be ephemeral: removed from the network
    /// automatically when it goes offline.
    pub fn ephemeral(self, ephemeral: bool) -> (r: Self)
        ensures
            r.ephemeral == ephemeral,
            r.hostname == self.hostname,
            r.dir == self.dir,
            r.auth_key == self.auth_key,
            r.log_config == self.log_config,
    {
        TailscaleBuilder { ephemeral, ..self }
    }

    /// Sets the hostname for the node.
    pub fn hostname(self, hostname: Vec<u8>) -> (r: Self)
        ensures
            r.hostname == Some(hostname),
            r.ephemeral == self.ephemeral,
            r.dir == self.dir,
            r.auth_key == self.auth_key,
            r.log_config == self.log_config,
    {
        TailscaleBuilder { hostname: Some(hostname), ..self }
    }

    /// Sets the directory where the node stores its state.
    pub fn dir(self, dir: Vec<u8>) -> (r: Self)
        ensures
            r.dir == Some(dir),
            r.ephemeral == self.ephemeral,
            r.hostname == self.hostname,
            r.auth_key == self.auth_key,
            r.log_config == self.log_config,
    {
        TailscaleBuilder { dir: Some(dir), ..self }
    }

    /// Sends the engine's log output to the given descriptor; the session
    /// takes ownership of it.
    pub fn log_destination(self, fd: i32) -> (r: Self)
        ensures
            r.log_config == LogConfig::Fd(fd),
            r.ephemeral == self.ephemeral,
            r.hostname == self.hostname,
            r.dir == self.dir,
            r.auth_key == self.auth_key,
    {
        TailscaleBuilder { log_config: LogConfig::Fd(fd), ..self }
    }

    /// Discards all of the engine's log output.
    pub fn log_discard(self) -> (r: Self)
        ensures
            r.log_config is Discard,
            r.ephemeral == self.ephemeral,
            r.hostname == self.hostname,
            r.dir == self.dir,
            r.auth_key == self.auth_key,
    {
        TailscaleBuilder { log_config: LogConfig::Discard, ..self }
    }

    /// Consumes the builder and returns the native configuration steps to
    /// apply, in order. Mutating the builder after build is impossible by
    /// construction: build takes it.
    pub fn build(self) -> (r: Vec<BuildStep>)
        ensures
            r@ == self.plan_spec(),
    {
        let ghost plan = self.plan_spec();
        let mut r: Vec<BuildStep> = Vec::new();
        if self.ephemeral {
            r.push(BuildStep::Ephemeral(true));
        }
        match self.dir {
            Some(d) => r.push(BuildStep::Dir(d)),
            None => (),
        }
        match self.hostname {
            Some(h) => r.push(BuildStep::Hostname(h)),
            None => (),
        }
        match self.auth_key {
            Some(k) => r.push(BuildStep::AuthKey(k)),
            None => (),
        }
        match self.log_config {
            LogConfig::Default => (),
            LogConfig::Fd(fd) => r.push(BuildStep::LogFd(fd)),
            LogConfig::Discard => r.push(BuildStep::LogFd(-1)),
        }
        proof {
            assert(r@ =~= plan);
        }
        r
    }
}

/// True when a step carries text that holds an interior NUL.
pub open spec fn step_has_nul(step: BuildStep) -> bool {
    match step {
        BuildStep::Dir(d) => has_byte(d@, 0u8),
        BuildStep::Hostname(h) => has_byte(h@, 0u8),
        BuildStep::AuthKey(k) => has_byte(k@, 0u8),
        BuildStep::Ephemeral(_) => false,
        BuildStep::LogFd(_) => false,
    }
}

/// Checks a step's text before it crosses the native boundary: a step whose
/// text holds an interior NUL cannot be passed as NUL-terminated text and
/// aborts the build.
pub fn step_precheck(step: &BuildStep) -> (r: Option<TailscaleError>)
    ensures
        step_has_nul(*step) ==> r == Some(TailscaleError::Utf8Error),
        !step_has_nul(*step) ==> r is None,
{
    match step {
        BuildStep::Dir(d) => {
            if crate::text::contains_nul(d.as_slice()) {
                Some(TailscaleError::Utf8Error)
            } else {
                None
            }
        },
        BuildStep::Hostname(h) => {
            if crate::text::contains_nul(h.as_slice()) {
                Some(TailscaleError::Utf8Error)
            } else {
                None
            }
        },
        BuildStep::AuthKey(k) => {
            if crate::text::contains_nul(k.as_slice()) {
                Some(TailscaleError::Utf8Error)
            } else {
                None
            }
        },
        BuildStep::Ephemeral(_) => None,
        BuildStep::LogFd(_) => None,
    }
}

/// The failure a step reports when its native call returns non-zero.
pub open spec fn step_failure_spec(step: BuildStep) -> TailscaleError {
    match step {
        BuildStep::Ephemeral(_) => TailscaleError::SetEphemeral,
        BuildStep::Dir(_) => TailscaleError::SetDir,
        BuildStep::Hostname(_) => TailscaleError::SetHostname,
        BuildStep::AuthKey(_) => TailscaleError::SetAuthKey,
        BuildStep::LogFd(_) => TailscaleError::SetLogFd,
    }
}

/// Maps a failed configuration step to its setting-specific failure.
pub fn step_failure(step: &BuildStep) -> (r: TailscaleError)
    ensures
        r == step_failure_spec(*step),
{
    match step {
        BuildStep::Ephemeral(_) => TailscaleError::SetEphemeral,
        BuildStep::Dir(_) => TailscaleError::SetDir,
        BuildStep::Hostname(_) => TailscaleError::SetHostname,
        BuildStep::AuthKey(_) => TailscaleError::SetAuthKey,
        BuildStep::LogFd(_) => TailscaleError::SetLogFd,
    }
}

/// Classifies the native session-creation result: the sentinel
/// "no descriptor" value is a creation failure, anything else is the new
/// session descriptor.
pub fn classify_create(sd: i32) -> (r: Result<i32, TailscaleError>)
    ensures
        sd == 0 ==> r == Err::<i32, TailscaleError>(TailscaleError::CreateTailscale),
        sd != 0 ==> r == Ok::<i32, TailscaleError>(sd),
{
    if sd == 0 {
        Err(TailscaleError::CreateTailscale)
    } else {
        Ok(sd)
    }
}

} // verus!
