//! The proxy server's settings and the decisions made for each accepted
//! connection: which protocol the first byte announces, and which SOCKS5
//! authentication method is offered.

use vstd::prelude::*;

use crate::config::{AuthConfig, Config, ConfigError, spec_config_check};
use crate::protocol::{AuthMethod, SOCKS_VERSION};
use crate::stats::{spec_zero_snapshot, Stats, StatsSnapshot};

verus! {

/// The buffer size for each direction of a relayed HTTP stream.
pub const COPY_BUFFER: usize = 64 * 1024;

/// Whether the values of a configuration pass validation.
pub open spec fn spec_config_valid(cfg: Config) -> bool {
    spec_config_check(
        cfg.server.bind@,
        cfg.server.max_connections,
        cfg.auth.username is Some,
        cfg.auth.password is Some,
        cfg.auth.bypass_ips@.len(),
    ) is None
}

/// A proxy server built from a validated configuration.
pub struct ProxyServer {
    bind: String,
    max_connections: usize,
    auth: AuthConfig,
    stats: Stats,
}

impl ProxyServer {
    /// The listen address.
    pub closed spec fn spec_bind(&self) -> Seq<char> {
        self.bind@
    }

    /// The limit of connections served at once.
    pub closed spec fn spec_max_connections(&self) -> usize {
        self.max_connections
    }

    /// The authentication settings.
    pub closed spec fn spec_auth(&self) -> AuthConfig {
        self.auth
    }

    /// The counters.
    pub closed spec fn spec_stats(&self) -> StatsSnapshot {
        self.stats@
    }

    /// Creates a proxy server with fresh statistics.
    pub fn new(cfg: Config) -> (r: Result<ProxyServer, ConfigError>)
        ensures
            r is Ok <==> spec_config_valid(cfg),
            r matches Err(e) ==> spec_config_check(
                cfg.server.bind@,
                cfg.server.max_connections,
                cfg.auth.username is Some,
                cfg.auth.password is Some,
                cfg.auth.bypass_ips@.len(),
            ) == Some(e),
            r matches Ok(s) ==> {
                &&& s.spec_bind() == cfg.server.bind@
                &&& s.spec_max_connections() == cfg.server.max_connections
                &&& s.spec_auth() == cfg.auth
                &&& s.spec_stats() == spec_zero_snapshot()
            },
    {
        Self::with_stats(cfg, Stats::new())
    }

    /// Creates a proxy server that counts into the given statistics.
    pub fn with_stats(cfg: Config, stats: Stats) -> (r: Result<ProxyServer, ConfigError>)
        ensures
            r is Ok <==> spec_config_valid(cfg),
            r matches Err(e) ==> spec_config_check(
                cfg.server.bind@,
                cfg.server.max_connections,
                cfg.auth.username is Some,
                cfg.auth.password is Some,
                cfg.auth.bypass_ips@.len(),
            ) == Some(e),
            r matches Ok(s) ==> {
                &&& s.spec_bind() == cfg.server.bind@
                &&& s.spec_max_connections() == cfg.server.max_connections
                &&& s.spec_auth() == cfg.auth
                &&& s.spec_stats() == stats@
            },
    {
        match cfg.validate() {
            Err(e) => Err(e),
            Ok(()) => {
                let Config { server, auth } = cfg;
                Ok(ProxyServer { bind: server.bind, max_connections: server.max_connections, auth, stats })
            },
        }
    }

    /// The listen address.
    pub fn bind(&self) -> (r: &str)
        ensures
            r@ == self.spec_bind(),
    {
        self.bind.as_str()
    }

    /// The limit of connections served at once.
    pub fn max_connections(&self) -> (r: usize)
        ensures
            r == self.spec_max_connections(),
    {
        self.max_connections
    }

    /// The authentication settings.
    pub fn auth(&self) -> (r: &AuthConfig)
        ensures
            *r == self.spec_auth(),
    {
        &self.auth
    }

    /// The statistics, taken out of the server to be shared by its
    /// connections.
    pub fn into_stats(self) -> (r: Stats)
        ensures
            r@ == self.spec_stats(),
    {
        self.stats
    }
}

/// The protocol a client speaks, told by the first byte it sends.
#[derive(Clone, Copy, Debug, PartialEq, Eq, Structural)]
pub enum ProxyProtocol {
    Socks5,
    Http,
}

/// SOCKS5 starts with its version byte; HTTP methods start with ASCII
/// letters, so the first byte is enough to dispatch.
pub fn detect_protocol(first: u8) -> (r: ProxyProtocol)
    ensures
        r == (if first == SOCKS_VERSION {
            ProxyProtocol::Socks5
        } else {
            ProxyProtocol::Http
        }),
{
    if first == SOCKS_VERSION {
        ProxyProtocol::Socks5
    } else {
        ProxyProtocol::Http
    }
}

/// The SOCKS5 method offered: none for a client whose address is on the
/// allowlist, username and password otherwise.
pub fn socks_auth_method(bypass_auth: bool) -> (r: AuthMethod)
    ensures
        r == (if bypass_auth {
            AuthMethod::NoAuth
        } else {
            AuthMethod::UsernamePassword
        }),
{
    if bypass_auth {
        AuthMethod::NoAuth
    } else {
        AuthMethod::UsernamePassword
    }
}

} // verus!
