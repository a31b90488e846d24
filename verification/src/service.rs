//! What installing the proxy as a service writes: the paths of the
//! installed binary, the environment file and the systemd unit, the quoting
//! of command-line arguments and environment values, the argument lists a
//! service starts the proxy with, and the unit file itself.

use vstd::prelude::*;

use crate::config::{
    Config, ConfigError, RuntimeOptions, RuntimeOptionsView, spec_config_error_message, spec_options_accepted,
    spec_options_error,
};
use crate::text::{chars_of, decimal, owned, replace_all, spec_decimal, spec_replace, spec_strings};

verus! {

/// The name of the service on Linux.
pub const DEFAULT_SERVICE_NAME: &'static str = "tinysocks";

/// The description the service is installed with.
pub const SERVICE_DESCRIPTION: &'static str = "SOCKS5/HTTP tinysocks service";

/// Where the Linux binary is installed.
pub const DEFAULT_LINUX_BIN_DIR: &'static str = "/usr/local/bin";

/// Where the Linux environment file with credentials is written.
pub const DEFAULT_LINUX_CONFIG_DIR: &'static str = "/etc/tinysocks";

/// Where systemd units are written.
pub const SYSTEMD_UNIT_DIR: &'static str = "/etc/systemd/system";

/// The name of the service on Windows.
pub const WINDOWS_SERVICE_NAME: &'static str = "TinySocks";

/// The directory under Program Files that holds the Windows binary.
pub const DEFAULT_WINDOWS_APP_DIR_NAME: &'static str = "TinySocks";

/// The Program Files directory when the environment names none.
pub const DEFAULT_PROGRAM_FILES: &'static str = "C:\\Program Files";

/// Why a service could not be set up.
#[derive(Debug, Clone, PartialEq, Eq)]
pub enum ServiceError {
    /// The runtime options do not make a configuration.
    Config(ConfigError),
    /// An environment value holds a NUL or a line break.
    InvalidEnvValue,
    /// Credentials were given but no private environment file.
    MissingEnvironmentFile,
}

/// The message shown for an error.
pub open spec fn spec_service_error_message(e: ServiceError) -> Seq<char> {
    match e {
        ServiceError::Config(c) => spec_config_error_message(c),
        ServiceError::InvalidEnvValue => "service environment values cannot contain NUL or newline characters"@,
        ServiceError::MissingEnvironmentFile => "credentialed Linux services require a private EnvironmentFile"@,
    }
}

impl ServiceError {
    /// The message shown for the error.
    pub fn message(&self) -> (r: String)
        ensures
            r@ == spec_service_error_message(*self),
    {
        match self {
            ServiceError::Config(e) => e.message(),
            ServiceError::InvalidEnvValue => owned(
                "service environment values cannot contain NUL or newline characters",
            ),
            ServiceError::MissingEnvironmentFile => owned(
                "credentialed Linux services require a private EnvironmentFile",
            ),
        }
    }
}

// ---------------------------------------------------------------------
// Paths
// ---------------------------------------------------------------------

/// A Unix directory without a trailing `/` joined with a name: an absolute
/// name replaces the directory.
pub open spec fn spec_unix_join(dir: Seq<char>, name: Seq<char>) -> Seq<char> {
    if name.len() > 0 && name[0] == '/' {
        name
    } else {
        dir + seq!['/'] + name
    }
}

fn unix_join(dir: &str, name: &str) -> (r: String)
    ensures
        r@ == spec_unix_join(dir@, name@),
{
    let cs = chars_of(name);
    if cs.len() > 0 && cs[0] == '/' {
        return owned(name);
    }
    let mut out = owned(dir);
    out.push('/');
    out.push_str(name);
    out
}

/// Returns the installed Linux binary path for a service name.
pub fn installed_bin_path(service_name: &str) -> (r: String)
    ensures
        r@ == spec_unix_join(DEFAULT_LINUX_BIN_DIR@, service_name@),
{
    unix_join(DEFAULT_LINUX_BIN_DIR, service_name)
}

/// Returns the systemd environment file path for a service name.
pub fn env_file_path(service_name: &str) -> (r: String)
    ensures
        r@ == spec_unix_join(DEFAULT_LINUX_CONFIG_DIR@, service_name@ + ".env"@),
{
    let mut file = owned(service_name);
    file.push_str(".env");
    unix_join(DEFAULT_LINUX_CONFIG_DIR, file.as_str())
}

/// Returns the systemd unit path for a service name.
pub fn unit_path(service_name: &str) -> (r: String)
    ensures
        r@ == spec_unix_join(SYSTEMD_UNIT_DIR@, service_name@ + ".service"@),
{
    let mut file = owned(service_name);
    file.push_str(".service");
    unix_join(SYSTEMD_UNIT_DIR, file.as_str())
}

/// A Windows directory joined with a relative name: a separator is added
/// unless the directory is empty or already ends with one.
pub open spec fn spec_windows_join(dir: Seq<char>, name: Seq<char>) -> Seq<char> {
    if dir.len() == 0 || dir.last() == '\\' || dir.last() == '/' {
        dir + name
    } else {
        dir + seq!['\\'] + name
    }
}

fn windows_join(dir: &str, name: &str) -> (r: String)
    ensures
        r@ == spec_windows_join(dir@, name@),
{
    let cs = chars_of(dir);
    let mut out = owned(dir);
    if !(cs.len() == 0 || cs[cs.len() - 1] == '\\' || cs[cs.len() - 1] == '/') {
        out.push('\\');
    }
    out.push_str(name);
    out
}

/// The Windows install directory: the application directory under Program
/// Files (as the environment names it, or the usual place).
pub open spec fn spec_install_dir(program_files: Option<Seq<char>>) -> Seq<char> {
    spec_windows_join(
        match program_files {
            Some(p) => p,
            None => DEFAULT_PROGRAM_FILES@,
        },
        DEFAULT_WINDOWS_APP_DIR_NAME@,
    )
}

/// Returns the Windows install directory for the service binary.
pub fn install_dir(program_files: Option<&str>) -> (r: String)
    ensures
        r@ == spec_install_dir(
            match program_files {
                Some(p) => Some(p@),
                None => None,
            },
        ),
{
    let base = match program_files {
        Some(p) => p,
        None => DEFAULT_PROGRAM_FILES,
    };
    windows_join(base, DEFAULT_WINDOWS_APP_DIR_NAME)
}

/// Returns the installed executable path for a service name.
pub fn installed_exe_path(program_files: Option<&str>, service_name: &str) -> (r: String)
    ensures
        r@ == spec_windows_join(
            spec_install_dir(
                match program_files {
                    Some(p) => Some(p@),
                    None => None,
                },
            ),
            service_name@ + ".exe"@,
        ),
{
    let dir = install_dir(program_files);
    let mut file = owned(service_name);
    file.push_str(".exe");
    windows_join(dir.as_str(), file.as_str())
}

// ---------------------------------------------------------------------
// Quoting
// ---------------------------------------------------------------------

/// A character that needs no quoting in a systemd command line.
pub open spec fn spec_plain_arg_char(c: char) -> bool {
    ||| ('a' <= c && c <= 'z')
    ||| ('A' <= c && c <= 'Z')
    ||| ('0' <= c && c <= '9')
    ||| c == '-' || c == '_' || c == '.' || c == '/' || c == ':' || c == '@' || c == '=' || c == ','
}

/// A character inside double quotes: backslash, quote, newline and tab
/// escaped.
pub open spec fn spec_escape_char(c: char) -> Seq<char> {
    if c == '\\' {
        seq!['\\', '\\']
    } else if c == '"' {
        seq!['\\', '"']
    } else if c == '\n' {
        seq!['\\', 'n']
    } else if c == '\t' {
        seq!['\\', 't']
    } else {
        seq![c]
    }
}

/// Every character escaped.
pub open spec fn spec_escape(s: Seq<char>) -> Seq<char>
    decreases s.len(),
{
    if s.len() == 0 {
        Seq::empty()
    } else {
        spec_escape(s.drop_last()) + spec_escape_char(s.last())
    }
}

/// One argument of a systemd `ExecStart` line: as it is when every
/// character is plain, else in double quotes with escapes.
pub open spec fn spec_quote_arg(arg: Seq<char>) -> Seq<char> {
    if forall|i: int| 0 <= i < arg.len() ==> spec_plain_arg_char(#[trigger] arg[i]) {
        arg
    } else {
        seq!['"'] + spec_escape(arg) + seq!['"']
    }
}

fn plain_arg_char(c: char) -> (r: bool)
    ensures
        r == spec_plain_arg_char(c),
{
    ('a' <= c && c <= 'z') || ('A' <= c && c <= 'Z') || ('0' <= c && c <= '9') || c == '-' || c
        == '_' || c == '.' || c == '/' || c == ':' || c == '@' || c == '=' || c == ','
}

/// Quotes one shell argument for a systemd `ExecStart` line.
pub fn quote_arg(arg: &str) -> (r: String)
    ensures
        r@ == spec_quote_arg(arg@),
{
    let cs = chars_of(arg);
    let mut plain = true;
    let mut i: usize = 0;
    while i < cs.len()
        invariant
            i <= cs@.len(),
            cs@ == arg@,
            plain <==> forall|k: int| 0 <= k < i ==> spec_plain_arg_char(#[trigger] cs@[k]),
        decreases cs@.len() - i,
    {
        if !plain_arg_char(cs[i]) {
            plain = false;
        }
        i = i + 1;
    }
    if plain {
        return owned(arg);
    }
    let mut out = String::new();
    out.push('"');
    let mut j: usize = 0;
    while j < cs.len()
        invariant
            j <= cs@.len(),
            cs@ == arg@,
            out@ == seq!['"'] + spec_escape(cs@.take(j as int)),
        decreases cs@.len() - j,
    {
        let c = cs[j];
        assert(cs@.take(j + 1).drop_last() =~= cs@.take(j as int));
        if c == '\\' {
            out.push('\\');
            out.push('\\');
        } else if c == '"' {
            out.push('\\');
            out.push('"');
        } else if c == '\n' {
            out.push('\\');
            out.push('n');
        } else if c == '\t' {
            out.push('\\');
            out.push('t');
        } else {
            out.push(c);
        }
        j = j + 1;
        assert(out@ =~= seq!['"'] + spec_escape(cs@.take(j as int)));
    }
    assert(cs@.take(j as int) =~= arg@);
    out.push('"');
    out
}

/// A value of a systemd `EnvironmentFile`: in double quotes, with
/// backslashes and then quotes escaped; refused when it holds a NUL or a
/// line break.
pub open spec fn spec_quote_env_value(value: Seq<char>) -> Option<Seq<char>> {
    if value.contains('\0') || value.contains('\n') || value.contains('\r') {
        None
    } else {
        Some(seq!['"'] + spec_replace(spec_replace(value, seq!['\\'], seq!['\\', '\\']), seq!['"'], seq!['\\', '"']) + seq!['"'])
    }
}

/// Quotes one value for a systemd `EnvironmentFile`.
pub fn quote_env_value(value: &str) -> (r: Result<String, ServiceError>)
    ensures
        r is Ok <==> spec_quote_env_value(value@) is Some,
        r matches Ok(q) ==> spec_quote_env_value(value@) == Some(q@),
        r matches Err(e) ==> e == ServiceError::InvalidEnvValue,
{
    let cs = chars_of(value);
    let mut i: usize = 0;
    while i < cs.len()
        invariant
            i <= cs@.len(),
            cs@ == value@,
            forall|k: int| 0 <= k < i ==> cs@[k] != '\0' && cs@[k] != '\n' && cs@[k] != '\r',
        decreases cs@.len() - i,
    {
        if cs[i] == '\0' || cs[i] == '\n' || cs[i] == '\r' {
            assert(value@.contains(cs@[i as int]));
            return Err(ServiceError::InvalidEnvValue);
        }
        i = i + 1;
    }
    proof {
        reveal_strlit("\\");
        reveal_strlit("\\\\");
        reveal_strlit("\"");
        reveal_strlit("\\\"");
    }
    let once = replace_all(value, "\\", "\\\\");
    let twice = replace_all(once.as_str(), "\"", "\\\"");
    let mut out = String::new();
    out.push('"');
    out.push_str(twice.as_str());
    out.push('"');
    assert(!value@.contains('\0') && !value@.contains('\n') && !value@.contains('\r'));
    assert("\\"@ =~= seq!['\\']);
    assert("\\\\"@ =~= seq!['\\', '\\']);
    assert("\""@ =~= seq!['"']);
    assert("\\\""@ =~= seq!['\\', '"']);
    assert(out@ =~= seq!['"'] + twice@ + seq!['"']);
    Ok(out)
}


// ---------------------------------------------------------------------
// Service command lines and files
// ---------------------------------------------------------------------

/// The credentials file of a Linux service: both quoted values, when both
/// credentials are given; none otherwise.
pub open spec fn spec_env_file(o: RuntimeOptionsView) -> Result<Option<Seq<char>>, ServiceError> {
    match (o.username, o.password) {
        (Some(u), Some(p)) => match (spec_quote_env_value(u), spec_quote_env_value(p)) {
            (Some(qu), Some(qp)) => Ok(
                Some("TINYSOCKS_USERNAME="@ + qu + "\nTINYSOCKS_PASSWORD="@ + qp + "\n"@),
            ),
            _ => Err(ServiceError::InvalidEnvValue),
        },
        _ => Ok(None),
    }
}

/// Builds a protected environment file for secret runtime options.
pub fn build_env_file(options: &RuntimeOptions) -> (r: Result<Option<String>, ServiceError>)
    ensures
        r is Ok <==> spec_env_file(options@) is Ok,
        r matches Ok(o) ==> spec_env_file(options@) == Ok::<Option<Seq<char>>, ServiceError>(
            match o {
                Some(t) => Some(t@),
                None => None,
            },
        ),
        r matches Err(e) ==> spec_env_file(options@) == Err::<Option<Seq<char>>, ServiceError>(e),
{
    match (&options.username, &options.password) {
        (Some(u), Some(p)) => {
            let qu = match quote_env_value(u.as_str()) {
                Ok(q) => q,
                Err(e) => {
                    return Err(e);
                },
            };
            let qp = match quote_env_value(p.as_str()) {
                Ok(q) => q,
                Err(e) => {
                    return Err(e);
                },
            };
            let mut out = String::new();
            out.push_str("TINYSOCKS_USERNAME=");
            out.push_str(qu.as_str());
            out.push_str("\nTINYSOCKS_PASSWORD=");
            out.push_str(qp.as_str());
            out.push_str("\n");
            Ok(Some(out))
        },
        _ => Ok(None),
    }
}

/// The pieces joined by a separator.
pub open spec fn spec_join_list(parts: Seq<Seq<char>>, sep: Seq<char>) -> Seq<char>
    decreases parts.len(),
{
    if parts.len() == 0 {
        Seq::empty()
    } else if parts.len() == 1 {
        parts[0]
    } else {
        spec_join_list(parts.drop_last(), sep) + sep + parts.last()
    }
}

/// Joins strings with a separator.
fn join_strings(parts: &[String], sep: &str) -> (r: String)
    ensures
        r@ == spec_join_list(spec_strings(parts@), sep@),
{
    let ghost ps = spec_strings(parts@);
    let mut out = String::new();
    let mut i: usize = 0;
    while i < parts.len()
        invariant
            i <= parts@.len(),
            ps == spec_strings(parts@),
            out@ == spec_join_list(ps.take(i as int), sep@),
        decreases parts@.len() - i,
    {
        assert(ps.take(i + 1).drop_last() =~= ps.take(i as int));
        if i > 0 {
            out.push_str(sep);
        } else {
            assert(ps.take(1) =~= seq![ps[0]]);
        }
        out.push_str(parts[i].as_str());
        i = i + 1;
    }
    assert(ps.take(i as int) =~= ps);
    out
}

/// The allowlist arguments: `--bypass-ip` and the entries joined by commas,
/// when there are any.
pub open spec fn spec_bypass_args(o: RuntimeOptionsView) -> Seq<Seq<char>> {
    if o.bypass_ips.len() > 0 {
        seq!["--bypass-ip"@, spec_join_list(o.bypass_ips, ","@)]
    } else {
        Seq::empty()
    }
}

/// The arguments a service starts the proxy with: the listen address, the
/// connection limit, the credentials when both are given, and the
/// allowlist.
pub open spec fn spec_runtime_args(o: RuntimeOptionsView) -> Seq<Seq<char>> {
    seq![o.bind, "--max-connections"@, spec_decimal(o.max_connections as nat)] + (match (
        o.username,
        o.password,
    ) {
        (Some(u), Some(p)) => seq!["--username"@, u, "--password"@, p],
        _ => Seq::empty(),
    }) + spec_bypass_args(o)
}

/// The Linux service arguments: `run`, the listen address, the connection
/// limit and the allowlist; credentials go to the environment file.
pub open spec fn spec_linux_service_args(o: RuntimeOptionsView) -> Seq<Seq<char>> {
    seq!["run"@, o.bind, "--max-connections"@, spec_decimal(o.max_connections as nat)]
        + spec_bypass_args(o)
}

/// A copy of the options.
fn copy_options(o: &RuntimeOptions) -> (r: RuntimeOptions)
    ensures
        r@ == o@,
{
    let mut bypass_ips: Vec<String> = Vec::new();
    let mut i: usize = 0;
    while i < o.bypass_ips.len()
        invariant
            i <= o.bypass_ips@.len(),
            spec_strings(bypass_ips@) == spec_strings(o.bypass_ips@).take(i as int),
        decreases o.bypass_ips@.len() - i,
    {
        let ghost before = bypass_ips@;
        let item = owned(o.bypass_ips[i].as_str());
        bypass_ips.push(item);
        assert(bypass_ips@ == before.push(item));
        assert(spec_strings(bypass_ips@) =~= spec_strings(before).push(o.bypass_ips@[i as int]@));
        i = i + 1;
        assert(spec_strings(bypass_ips@) =~= spec_strings(o.bypass_ips@).take(i as int));
    }
    assert(spec_strings(o.bypass_ips@).take(i as int) =~= spec_strings(o.bypass_ips@));
    let username = match &o.username {
        Some(u) => Some(owned(u.as_str())),
        None => None,
    };
    let password = match &o.password {
        Some(p) => Some(owned(p.as_str())),
        None => None,
    };
    let r = RuntimeOptions {
        bind: owned(o.bind.as_str()),
        max_connections: o.max_connections,
        username,
        password,
        bypass_ips,
    };
    assert(r@.bypass_ips =~= o@.bypass_ips);
    r
}

/// Checks that the options make a configuration.
fn check_options(options: &RuntimeOptions) -> (r: Result<(), ServiceError>)
    ensures
        r is Ok <==> spec_options_accepted(options@),
        r matches Err(e) ==> e matches ServiceError::Config(c) && spec_options_error(options@, c),
{
    match Config::from_runtime_options(copy_options(options)) {
        Ok(_) => Ok(()),
        Err(e) => Err(ServiceError::Config(e)),
    }
}

/// Appends the allowlist arguments.
fn push_bypass_args(args: &mut Vec<String>, options: &RuntimeOptions)
    ensures
        spec_strings(final(args)@) == spec_strings(old(args)@) + spec_bypass_args(options@),
{
    let ghost before = spec_strings(args@);
    if options.bypass_ips.len() > 0 {
        args.push(owned("--bypass-ip"));
        args.push(join_strings(options.bypass_ips.as_slice(), ","));
        assert(spec_strings(args@) =~= before + spec_bypass_args(options@));
    } else {
        assert(spec_strings(args@) =~= before + spec_bypass_args(options@));
    }
}

/// Builds the runtime command-line arguments from service options, after
/// checking that the options make a configuration.
pub fn runtime_args(options: &RuntimeOptions) -> (r: Result<Vec<String>, ServiceError>)
    ensures
        r is Ok <==> spec_options_accepted(options@),
        r matches Ok(args) ==> spec_strings(args@) == spec_runtime_args(options@),
        r matches Err(e) ==> e matches ServiceError::Config(c) && spec_options_error(options@, c),
{
    match check_options(options) {
        Err(e) => {
            return Err(e);
        },
        Ok(()) => {},
    }
    let mut args: Vec<String> = Vec::new();
    args.push(owned(options.bind.as_str()));
    args.push(owned("--max-connections"));
    args.push(decimal(options.max_connections as u64));
    match (&options.username, &options.password) {
        (Some(u), Some(p)) => {
            args.push(owned("--username"));
            args.push(owned(u.as_str()));
            args.push(owned("--password"));
            args.push(owned(p.as_str()));
        },
        _ => {},
    }
    let ghost head = spec_strings(args@);
    push_bypass_args(&mut args, options);
    assert(spec_strings(args@) =~= spec_runtime_args(options@));
    Ok(args)
}

/// Builds the Linux foreground service command arguments.
pub fn foreground_service_args(options: &RuntimeOptions) -> (r: Result<Vec<String>, ServiceError>)
    ensures
        r is Ok <==> spec_options_accepted(options@),
        r matches Ok(args) ==> spec_strings(args@) == seq!["run"@] + spec_runtime_args(options@),
        r matches Err(e) ==> e matches ServiceError::Config(c) && spec_options_error(options@, c),
{
    prefixed_args("run", options)
}

/// Builds the Windows service command arguments.
pub fn windows_service_args(options: &RuntimeOptions) -> (r: Result<Vec<String>, ServiceError>)
    ensures
        r is Ok <==> spec_options_accepted(options@),
        r matches Ok(args) ==> spec_strings(args@) == seq!["--run-service"@] + spec_runtime_args(
            options@,
        ),
        r matches Err(e) ==> e matches ServiceError::Config(c) && spec_options_error(options@, c),
{
    prefixed_args("--run-service", options)
}

/// The runtime arguments after a first one.
fn prefixed_args(first: &str, options: &RuntimeOptions) -> (r: Result<Vec<String>, ServiceError>)
    ensures
        r is Ok <==> spec_options_accepted(options@),
        r matches Ok(args) ==> spec_strings(args@) == seq![first@] + spec_runtime_args(options@),
        r matches Err(e) ==> e matches ServiceError::Config(c) && spec_options_error(options@, c),
{
    let rest = match runtime_args(options) {
        Ok(a) => a,
        Err(e) => {
            return Err(e);
        },
    };
    let mut args: Vec<String> = Vec::new();
    args.push(owned(first));
    let mut i: usize = 0;
    while i < rest.len()
        invariant
            i <= rest@.len(),
            spec_strings(args@) == seq![first@] + spec_strings(rest@).take(i as int),
        decreases rest@.len() - i,
    {
        let ghost before = args@;
        let item = owned(rest[i].as_str());
        args.push(item);
        assert(args@ == before.push(item));
        assert(spec_strings(args@) =~= spec_strings(before).push(rest@[i as int]@));
        i = i + 1;
        assert(spec_strings(args@) =~= seq![first@] + spec_strings(rest@).take(i as int));
    }
    assert(spec_strings(rest@).take(i as int) =~= spec_strings(rest@));
    Ok(args)
}

/// Builds the Linux service command arguments, without credentials.
pub fn linux_service_args(options: &RuntimeOptions) -> (r: Result<Vec<String>, ServiceError>)
    ensures
        r is Ok <==> spec_options_accepted(options@),
        r matches Ok(args) ==> spec_strings(args@) == spec_linux_service_args(options@),
        r matches Err(e) ==> e matches ServiceError::Config(c) && spec_options_error(options@, c),
{
    match check_options(options) {
        Err(e) => {
            return Err(e);
        },
        Ok(()) => {},
    }
    let mut args: Vec<String> = Vec::new();
    args.push(owned("run"));
    args.push(owned(options.bind.as_str()));
    args.push(owned("--max-connections"));
    args.push(decimal(options.max_connections as u64));
    push_bypass_args(&mut args, options);
    assert(spec_strings(args@) =~= spec_linux_service_args(options@));
    Ok(args)
}

/// Each argument quoted.
pub open spec fn spec_quote_all(args: Seq<Seq<char>>) -> Seq<Seq<char>> {
    Seq::new(args.len(), |i: int| spec_quote_arg(args[i]))
}

/// The systemd unit of the Linux service: it starts the installed binary
/// with the Linux service arguments, each quoted, as `nobody`, after the
/// network is up, reads credentials from the environment file when there
/// is one, and restarts on failure.
pub open spec fn spec_unit_text(bin: Seq<char>, env_file: Option<Seq<char>>, o: RuntimeOptionsView) -> Seq<char> {
    "[Unit]\nDescription="@ + SERVICE_DESCRIPTION@
        + "\nWants=network-online.target\nAfter=network-online.target\n\n[Service]\nType=simple\nUser=nobody\n"@
        + (match env_file {
        Some(p) => "EnvironmentFile="@ + spec_quote_arg(p) + "\n"@,
        None => Seq::empty(),
    }) + "ExecStart="@ + spec_join_list(
        spec_quote_all(seq![bin] + spec_linux_service_args(o)),
        " "@,
    ) + "\nRestart=on-failure\nRestartSec=5s\n\n[Install]\nWantedBy=multi-user.target\n"@
}

/// Builds the systemd unit file contents. Credentials need a private
/// environment file, and the options must make a configuration.
pub fn build_unit(installed_bin: &str, env_file: Option<&str>, options: &RuntimeOptions) -> (r: Result<
    String,
    ServiceError,
>)
    ensures
        r is Ok <==> !(options.username is Some && env_file is None) && spec_options_accepted(options@),
        options.username is Some && env_file is None ==> r == Err::<String, ServiceError>(
            ServiceError::MissingEnvironmentFile,
        ),
        r matches Err(ServiceError::Config(c)) ==> spec_options_error(options@, c),
        r matches Ok(u) ==> u@ == spec_unit_text(
            installed_bin@,
            match env_file {
                Some(p) => Some(p@),
                None => None,
            },
            options@,
        ),
{
    if options.username.is_some() && env_file.is_none() {
        return Err(ServiceError::MissingEnvironmentFile);
    }
    let args = match linux_service_args(options) {
        Ok(a) => a,
        Err(e) => {
            return Err(e);
        },
    };
    let ghost all = seq![installed_bin@] + spec_strings(args@);
    let mut command: Vec<String> = Vec::new();
    command.push(quote_arg(installed_bin));
    let mut i: usize = 0;
    while i < args.len()
        invariant
            i <= args@.len(),
            all == seq![installed_bin@] + spec_strings(args@),
            spec_strings(command@) == spec_quote_all(all.take(i + 1)),
        decreases args@.len() - i,
    {
        let ghost before = command@;
        let item = quote_arg(args[i].as_str());
        command.push(item);
        assert(command@ == before.push(item));
        assert(spec_strings(command@) =~= spec_strings(before).push(spec_quote_arg(all[i + 1])));
        i = i + 1;
        assert(spec_strings(command@) =~= spec_quote_all(all.take(i + 1)));
    }
    assert(all.take(i + 1) =~= all);
    let exec_start = join_strings(command.as_slice(), " ");
    let mut out = String::new();
    out.push_str("[Unit]\nDescription=");
    out.push_str(SERVICE_DESCRIPTION);
    out.push_str(
        "\nWants=network-online.target\nAfter=network-online.target\n\n[Service]\nType=simple\nUser=nobody\n",
    );
    match env_file {
        Some(p) => {
            out.push_str("EnvironmentFile=");
            out.push_str(quote_arg(p).as_str());
            out.push_str("\n");
        },
        None => {},
    }
    out.push_str("ExecStart=");
    out.push_str(exec_start.as_str());
    out.push_str("\nRestart=on-failure\nRestartSec=5s\n\n[Install]\nWantedBy=multi-user.target\n");
    assert(out@ =~= spec_unit_text(
        installed_bin@,
        match env_file {
            Some(p) => Some(p@),
            None => None,
        },
        options@,
    ));
    Ok(out)
}

/// Law: the systemd unit never carries the credentials: two sets of
/// options that differ only in username and password give the same unit.
pub proof fn lemma_unit_omits_credentials(
    bin: Seq<char>,
    env_file: Option<Seq<char>>,
    o1: RuntimeOptionsView,
    o2: RuntimeOptionsView,
)
    requires
        o1.bind == o2.bind,
        o1.max_connections == o2.max_connections,
        o1.bypass_ips == o2.bypass_ips,
    ensures
        spec_unit_text(bin, env_file, o1) == spec_unit_text(bin, env_file, o2),
{
    assert(spec_linux_service_args(o1) == spec_linux_service_args(o2));
}

} // verus!
