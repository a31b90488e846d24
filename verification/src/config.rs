//! Runtime configuration built from the command-line options, and the
//! rules that a usable configuration follows.

use vstd::prelude::*;

use crate::net::{
    parse_ip_addr, parse_ip_net, spec_parse_ip_addr, spec_parse_ip_net, IpAddress, IpNetwork,
};
use crate::text::{owned, spec_strings, spec_trim, trim};

verus! {

pub const DEFAULT_BIND: &'static str = "127.0.0.1:1080";

pub const DEFAULT_MAX_CONNECTIONS: usize = 1024;

pub const MAX_CONNECTIONS_LIMIT: usize = 1_000_000;

/// Where the proxy listens and how many connections it serves at once.
#[derive(Debug, Clone)]
pub struct ServerConfig {
    pub bind: String,
    pub max_connections: usize,
}

/// Credentials and the allowlist of networks that skip authentication.
#[derive(Debug, Clone)]
pub struct AuthConfig {
    pub username: Option<String>,
    pub password: Option<String>,
    pub bypass_ips: Vec<IpNetwork>,
}

/// A validated proxy configuration.
#[derive(Debug, Clone)]
pub struct Config {
    pub server: ServerConfig,
    pub auth: AuthConfig,
}

/// The options as given on the command line or in the environment.
#[derive(Debug, Clone)]
pub struct RuntimeOptions {
    pub bind: String,
    pub max_connections: usize,
    pub username: Option<String>,
    pub password: Option<String>,
    pub bypass_ips: Vec<String>,
}

/// Why a configuration was refused.
#[derive(Debug, Clone, PartialEq, Eq)]
pub enum ConfigError {
    EmptyBind,
    ZeroMaxConnections,
    MaxConnectionsAboveLimit,
    MissingAuth,
    PartialCredentials,
    /// An allowlist entry, trimmed, that is neither an address nor a network.
    InvalidBypassIp(String),
}

/// The message shown for an error.
pub open spec fn spec_config_error_message(e: ConfigError) -> Seq<char> {
    match e {
        ConfigError::EmptyBind => "bind address cannot be empty"@,
        ConfigError::ZeroMaxConnections => "--max-connections must be greater than 0"@,
        ConfigError::MaxConnectionsAboveLimit => "--max-connections must be less than or equal to 1000000"@,
        ConfigError::MissingAuth => "provide --username and --password, or configure --bypass-ip"@,
        ConfigError::PartialCredentials => "--username and --password must be provided together"@,
        ConfigError::InvalidBypassIp(entry) => "invalid bypass IP: "@ + entry@,
    }
}

impl ConfigError {
    /// The message shown for the error.
    pub fn message(&self) -> (r: String)
        ensures
            r@ == spec_config_error_message(*self),
    {
        let text: &str = match self {
            ConfigError::EmptyBind => "bind address cannot be empty",
            ConfigError::ZeroMaxConnections => "--max-connections must be greater than 0",
            ConfigError::MaxConnectionsAboveLimit => "--max-connections must be less than or equal to 1000000",
            ConfigError::MissingAuth => "provide --username and --password, or configure --bypass-ip",
            ConfigError::PartialCredentials => "--username and --password must be provided together",
            ConfigError::InvalidBypassIp(_) => "invalid bypass IP: ",
        };
        let mut out = owned(text);
        if let ConfigError::InvalidBypassIp(entry) = self {
            out.push_str(entry.as_str());
        }
        out
    }
}

/// The value of an optional string.
pub open spec fn spec_opt_view(o: Option<String>) -> Option<Seq<char>> {
    match o {
        Some(s) => Some(s@),
        None => None,
    }
}

/// An optional string with the empty string taken as absent.
pub open spec fn spec_nonempty(o: Option<String>) -> Option<Seq<char>> {
    match o {
        Some(s) => if s@.len() > 0 {
            Some(s@)
        } else {
            None
        },
        None => None,
    }
}

/// The first rule of a configuration that the values break, in the order
/// the rules are checked; `None` when all hold.
pub open spec fn spec_config_check(
    bind: Seq<char>,
    max_connections: usize,
    has_username: bool,
    has_password: bool,
    bypass_count: nat,
) -> Option<ConfigError> {
    if bind.len() == 0 {
        Some(ConfigError::EmptyBind)
    } else if max_connections == 0 {
        Some(ConfigError::ZeroMaxConnections)
    } else if max_connections > MAX_CONNECTIONS_LIMIT {
        Some(ConfigError::MaxConnectionsAboveLimit)
    } else if !(has_username && has_password) && bypass_count == 0 {
        Some(ConfigError::MissingAuth)
    } else if has_username != has_password {
        Some(ConfigError::PartialCredentials)
    } else {
        None
    }
}

/// The network an allowlist entry stands for: a CIDR network, or a bare
/// address taken as a single-host network.
pub open spec fn spec_allowlist_entry(entry: Seq<char>) -> Option<(IpAddress, u8)> {
    match spec_parse_ip_net(entry) {
        Some(n) => Some(n),
        None => match spec_parse_ip_addr(entry) {
            Some(IpAddress::V4(a)) => Some((IpAddress::V4(a), 32u8)),
            Some(IpAddress::V6(a)) => Some((IpAddress::V6(a), 128u8)),
            None => None,
        },
    }
}

/// Every entry, trimmed, stands for a network, and `nets` holds them in order.
pub open spec fn spec_entries_parsed(entries: Seq<Seq<char>>, nets: Seq<IpNetwork>) -> bool {
    &&& nets.len() == entries.len()
    &&& forall|i: int|
        0 <= i < entries.len() ==> spec_allowlist_entry(spec_trim(entries[i])) == Some(
            #[trigger] nets[i]@,
        )
}

/// Entry `i` is the first that stands for no network, and `e` names it.
pub open spec fn spec_first_bad_entry(entries: Seq<Seq<char>>, i: int, e: ConfigError) -> bool {
    &&& 0 <= i < entries.len()
    &&& spec_allowlist_entry(spec_trim(entries[i])) is None
    &&& forall|j: int|
        0 <= j < i ==> (#[trigger] spec_allowlist_entry(spec_trim(entries[j]))) is Some
    &&& e matches ConfigError::InvalidBypassIp(s) && s@ == spec_trim(entries[i])
}

/// Every entry, trimmed, stands for a network.
pub open spec fn spec_entries_valid(entries: Seq<Seq<char>>) -> bool {
    forall|i: int| 0 <= i < entries.len() ==> (#[trigger] spec_allowlist_entry(spec_trim(entries[i]))) is Some
}

/// The options as plain values.
pub struct RuntimeOptionsView {
    pub bind: Seq<char>,
    pub max_connections: usize,
    pub username: Option<Seq<char>>,
    pub password: Option<Seq<char>>,
    pub bypass_ips: Seq<Seq<char>>,
}

impl View for RuntimeOptions {
    type V = RuntimeOptionsView;

    open spec fn view(&self) -> RuntimeOptionsView {
        RuntimeOptionsView {
            bind: self.bind@,
            max_connections: self.max_connections,
            username: spec_opt_view(self.username),
            password: spec_opt_view(self.password),
            bypass_ips: spec_strings(self.bypass_ips@),
        }
    }
}

/// An optional text with the empty text taken as absent.
pub open spec fn spec_nonempty_text(o: Option<Seq<char>>) -> Option<Seq<char>> {
    match o {
        Some(s) => if s.len() > 0 {
            Some(s)
        } else {
            None
        },
        None => None,
    }
}

/// The first configuration rule that options break once their allowlist
/// parses (empty credentials count as absent).
pub open spec fn spec_options_check(o: RuntimeOptionsView) -> Option<ConfigError> {
    spec_config_check(
        o.bind,
        o.max_connections,
        spec_nonempty_text(o.username) is Some,
        spec_nonempty_text(o.password) is Some,
        o.bypass_ips.len(),
    )
}

/// Whether options make a configuration: every allowlist entry parses and
/// no rule is broken.
pub open spec fn spec_options_accepted(o: RuntimeOptionsView) -> bool {
    spec_entries_valid(o.bypass_ips) && spec_options_check(o) is None
}

/// `e` is the error options are refused with: the first allowlist entry
/// that does not parse, or else the first rule they break.
pub open spec fn spec_options_error(o: RuntimeOptionsView, e: ConfigError) -> bool {
    ||| exists|i: int| spec_first_bad_entry(o.bypass_ips, i, e)
    ||| spec_entries_valid(o.bypass_ips) && spec_options_check(o) == Some(e)
}

impl Config {
    /// Builds and validates the runtime configuration from raw options:
    /// empty credentials count as absent, each allowlist entry is trimmed
    /// and parsed (the first bad one is the error), then the configuration
    /// is validated.
    pub fn from_runtime_options(options: RuntimeOptions) -> (r: Result<Config, ConfigError>)
        ensures
            r is Ok <==> spec_options_accepted(options@),
            r matches Ok(cfg) ==> {
                &&& cfg.server.bind@ == options.bind@
                &&& cfg.server.max_connections == options.max_connections
                &&& spec_opt_view(cfg.auth.username) == spec_nonempty(options.username)
                &&& spec_opt_view(cfg.auth.password) == spec_nonempty(options.password)
                &&& spec_entries_parsed(options@.bypass_ips, cfg.auth.bypass_ips@)
            },
            r matches Err(e) ==> spec_options_error(options@, e),
    {
        let username = nonempty(options.username);
        let password = nonempty(options.password);
        let bypass_ips = parse_allowlist_entries(options.bypass_ips)?;
        let cfg = Config {
            server: ServerConfig { bind: options.bind, max_connections: options.max_connections },
            auth: AuthConfig { username, password, bypass_ips },
        };
        proof {
            assert forall|i: int| 0 <= i < options@.bypass_ips.len() implies (
            #[trigger] spec_allowlist_entry(spec_trim(options@.bypass_ips[i]))) is Some by {
                assert(spec_allowlist_entry(spec_trim(options@.bypass_ips[i])) == Some(
                    cfg.auth.bypass_ips@[i]@,
                ));
            }
        }
        match cfg.validate() {
            Ok(()) => Ok(cfg),
            Err(e) => Err(e),
        }
    }

    /// Validates server, authentication and allowlist settings.
    pub fn validate(&self) -> (r: Result<(), ConfigError>)
        ensures
            r == (match spec_config_check(
                self.server.bind@,
                self.server.max_connections,
                self.auth.username is Some,
                self.auth.password is Some,
                self.auth.bypass_ips@.len(),
            ) {
                None => Ok(()),
                Some(e) => Err(e),
            }),
    {
        if self.server.bind.as_str().is_empty() {
            return Err(ConfigError::EmptyBind);
        }
        if self.server.max_connections == 0 {
            return Err(ConfigError::ZeroMaxConnections);
        }
        if self.server.max_connections > MAX_CONNECTIONS_LIMIT {
            return Err(ConfigError::MaxConnectionsAboveLimit);
        }
        let has_credentials = self.auth.username.is_some() && self.auth.password.is_some();
        if !has_credentials && self.auth.bypass_ips.len() == 0 {
            return Err(ConfigError::MissingAuth);
        }
        if self.auth.username.is_some() != self.auth.password.is_some() {
            return Err(ConfigError::PartialCredentials);
        }
        Ok(())
    }
}

/// An optional string with the empty string dropped.
fn nonempty(o: Option<String>) -> (r: Option<String>)
    ensures
        spec_opt_view(r) == spec_nonempty(o),
{
    match o {
        Some(s) => if s.as_str().is_empty() {
            None
        } else {
            Some(s)
        },
        None => None,
    }
}

/// Parses all allowlist entries into networks.
pub fn parse_allowlist_entries(entries: Vec<String>) -> (r: Result<Vec<IpNetwork>, ConfigError>)
    ensures
        r matches Ok(nets) ==> spec_entries_parsed(spec_strings(entries@), nets@),
        r matches Err(e) ==> exists|i: int| spec_first_bad_entry(spec_strings(entries@), i, e),
{
    let mut nets: Vec<IpNetwork> = Vec::new();
    let mut i: usize = 0;
    while i < entries.len()
        invariant
            i <= entries@.len(),
            nets@.len() == i,
            forall|j: int|
                0 <= j < i ==> spec_allowlist_entry(spec_trim(entries@[j]@)) == Some(
                    #[trigger] nets@[j]@,
                ),
        decreases entries@.len() - i,
    {
        let entry = trim(entries[i].as_str());
        match parse_allowlist_entry(entry) {
            Some(net) => {
                nets.push(net);
            },
            None => {
                let e = ConfigError::InvalidBypassIp(owned(entry));
                assert(spec_first_bad_entry(spec_strings(entries@), i as int, e)) by {
                    assert forall|j: int| 0 <= j < i implies (#[trigger] spec_allowlist_entry(
                        spec_trim(entries@[j]@),
                    )) is Some by {
                        assert(spec_allowlist_entry(spec_trim(entries@[j]@)) == Some(nets@[j]@));
                    }
                }
                return Err(e);
            },
        }
        i = i + 1;
    }
    Ok(nets)
}

/// Parses one IP or CIDR allowlist entry; a bare address is a single-host
/// network.
pub fn parse_allowlist_entry(entry: &str) -> (r: Option<IpNetwork>)
    ensures
        match r {
            Some(n) => spec_allowlist_entry(entry@) == Some(n@),
            None => spec_allowlist_entry(entry@) is None,
        },
{
    if let Some((addr, prefix)) = parse_ip_net(entry) {
        return IpNetwork::new(addr, prefix);
    }
    match parse_ip_addr(entry) {
        Some(addr) => {
            let prefix: u8 = match addr {
                IpAddress::V4(_) => 32,
                IpAddress::V6(_) => 128,
            };
            IpNetwork::new(addr, prefix)
        },
        None => None,
    }
}

} // verus!
