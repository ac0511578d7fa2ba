//! The server's configuration: where it listens and which directory it serves,
//! read from the values of the command line.
use vstd::prelude::*;
use clap::ArgMatches;
use crate::port::{decimal_text, is_port_text, parse_port, port_of, port_text, PortError};

verus! {

#[verifier::external_type_specification]
#[verifier::external_body]
pub struct ExArgMatches<'a>(ArgMatches<'a>);

/// The text of the first value of each argument that has one, by argument
/// name, as clap's `ArgMatches::value_of_lossy` hands it out.
pub uninterp spec fn first_values(m: ArgMatches<'static>) -> Map<Seq<char>, Seq<char>>;

/// Relies on clap's `ArgMatches::value_of_lossy`: the first value of the named
/// argument, if it has one, with any invalid UTF-8 replaced.
#[verifier::external_body]
fn value_text(m: &ArgMatches<'static>, name: &str) -> (r: Option<String>)
    ensures
        match r {
            Some(v) => first_values(*m).contains_key(name@) && v@ == first_values(*m)[name@],
            None => !first_values(*m).contains_key(name@),
        },
{
    m.value_of_lossy(name).map(|v| v.into_owned())
}

/// The name under which the port is given: `--port`, `-p`.
pub const PORT_ARG: &'static str = "port";

/// The name under which the served directory is given: `--dir`, `-d`.
pub const DIR_ARG: &'static str = "dir";

/// The port used when none is given.
pub const DEFAULT_PORT: &'static str = "3000";

/// The directory served when none is given: the working directory.
pub const DEFAULT_DIR: &'static str = ".";

/// A setting that the configuration needs.
#[derive(Clone, Copy, Debug, PartialEq, Eq, Structural)]
pub enum Setting {
    Port,
    Dir,
}

/// Why the configuration could not be loaded.
#[derive(Clone, Copy, Debug, PartialEq, Eq, Structural)]
pub enum ConfigError {
    /// The setting has no value.
    MissingArgument(Setting),
    /// The port's text is not a port number.
    InvalidPort(PortError),
}

/// Where the server listens and what it serves.
#[derive(Clone, Debug)]
pub struct Config {
    pub port: u16,
    pub dir: String,
}

pub open spec fn opt_view(o: Option<&str>) -> Option<Seq<char>> {
    match o {
        Some(s) => Some(s@),
        None => None,
    }
}

pub open spec fn lookup(m: Map<Seq<char>, Seq<char>>, k: Seq<char>) -> Option<Seq<char>> {
    if m.contains_key(k) {
        Some(m[k])
    } else {
        None
    }
}

/// The configuration that the values of the two settings give: the port,
/// and the directory, or the first fault, the port's before the directory's.
pub open spec fn load_outcome(port: Option<Seq<char>>, dir: Option<Seq<char>>) -> Result<(u16, Seq<char>), ConfigError> {
    match port {
        None => Err(ConfigError::MissingArgument(Setting::Port)),
        Some(p) => match port_of(p) {
            Err(e) => Err(ConfigError::InvalidPort(e)),
            Ok(n) => match dir {
                None => Err(ConfigError::MissingArgument(Setting::Dir)),
                Some(d) => Ok((n, d)),
            },
        },
    }
}

/// `r` is the configuration, or the error, that `o` describes.
pub open spec fn config_matches(r: Result<Config, ConfigError>, o: Result<(u16, Seq<char>), ConfigError>) -> bool {
    match o {
        Ok((p, d)) => r is Ok && r->Ok_0.port == p && r->Ok_0.dir@ == d,
        Err(e) => r is Err && r->Err_0 == e,
    }
}

/// Builds the configuration from the values of the port and directory
/// settings.
pub fn load(port: Option<&str>, dir: Option<&str>) -> (r: Result<Config, ConfigError>)
    ensures
        config_matches(r, load_outcome(opt_view(port), opt_view(dir))),
{
    let p = match port {
        None => return Err(ConfigError::MissingArgument(Setting::Port)),
        Some(p) => p,
    };
    let n = match parse_port(p) {
        Err(e) => return Err(ConfigError::InvalidPort(e)),
        Ok(n) => n,
    };
    match dir {
        None => Err(ConfigError::MissingArgument(Setting::Dir)),
        Some(d) => Ok(Config { port: n, dir: String::from_str(d) }),
    }
}

/// Builds the configuration from parsed command-line arguments.
pub fn parse_matches(matches: &ArgMatches<'static>) -> (r: Result<Config, ConfigError>)
    ensures
        config_matches(
            r,
            load_outcome(
                lookup(first_values(*matches), PORT_ARG@),
                lookup(first_values(*matches), DIR_ARG@),
            ),
        ),
{
    let port = value_text(matches, PORT_ARG);
    let dir = value_text(matches, DIR_ARG);
    let p = match &port {
        Some(s) => Some(s.as_str()),
        None => None,
    };
    let d = match &dir {
        Some(s) => Some(s.as_str()),
        None => None,
    };
    load(p, d)
}

/// The host the server listens on.
pub const HOST: &'static str = "127.0.0.1";

/// The address the server binds: the loopback host and the port.
pub open spec fn address_text(port: u16) -> Seq<char> {
    HOST@ + ":"@ + decimal_text(port as nat)
}

/// The address to bind, `127.0.0.1:<port>`.
pub fn listen_address(port: u16) -> (r: String)
    ensures
        r@ == address_text(port),
{
    let s = String::from_str(HOST).concat(":");
    s.concat(port_text(port).as_str())
}

/// The line announcing where the server listens, as a URL.
pub fn announcement(port: u16) -> (r: String)
    ensures
        r@ == "start petra server on http://"@ + address_text(port),
{
    String::from_str("start petra server on http://").concat(listen_address(port).as_str())
}

pub open spec fn port_error_text(e: PortError) -> Seq<char> {
    match e {
        PortError::Empty => "cannot parse integer from empty string"@,
        PortError::InvalidDigit => "invalid digit found in string"@,
        PortError::TooLarge => "number too large to fit in target type"@,
    }
}

pub open spec fn config_error_text(e: ConfigError) -> Seq<char> {
    "arg parse error, "@ + match e {
        ConfigError::MissingArgument(Setting::Port) => "missing arg: 'port'"@,
        ConfigError::MissingArgument(Setting::Dir) => "missing arg 'dir'"@,
        ConfigError::InvalidPort(p) => port_error_text(p),
    }
}

impl PortError {
    /// What went wrong, in words.
    pub fn message(&self) -> (r: &'static str)
        ensures
            r@ == port_error_text(*self),
    {
        match self {
            PortError::Empty => "cannot parse integer from empty string",
            PortError::InvalidDigit => "invalid digit found in string",
            PortError::TooLarge => "number too large to fit in target type",
        }
    }
}

impl ConfigError {
    /// The line reported when the configuration cannot be loaded.
    pub fn message(&self) -> (r: String)
        ensures
            r@ == config_error_text(*self),
    {
        let reason = match self {
            ConfigError::MissingArgument(Setting::Port) => "missing arg: 'port'",
            ConfigError::MissingArgument(Setting::Dir) => "missing arg 'dir'",
            ConfigError::InvalidPort(p) => p.message(),
        };
        String::from_str("arg parse error, ").concat(reason)
    }
}

/// Every port number, given in decimal with a directory, loads: the server
/// then listens on exactly that port.
pub proof fn lemma_every_port_loads(p: u16, dir: Seq<char>)
    ensures
        load_outcome(Some(decimal_text(p as nat)), Some(dir)) == Ok::<(u16, Seq<char>), ConfigError>((p, dir)),
{
    crate::port::lemma_port_text_round_trip(p);
}

/// A port text that is not numeric, or names a number above 65535, is
/// refused as an invalid port, whatever the directory.
pub proof fn lemma_bad_port_rejected(s: Seq<char>, dir: Option<Seq<char>>)
    requires
        !is_port_text(s),
    ensures
        load_outcome(Some(s), dir) is Err,
        load_outcome(Some(s), dir)->Err_0 is InvalidPort,
{
    crate::port::lemma_port_text_exactly(s);
}

/// With the default values of both settings the server listens on port
/// 3000 and serves the working directory.
pub proof fn lemma_default_invocation()
    ensures
        load_outcome(Some(DEFAULT_PORT@), Some(DEFAULT_DIR@)) == Ok::<(u16, Seq<char>), ConfigError>((3000u16, "."@)),
{
    reveal_strlit("3000");
    crate::port::lemma_port_text_round_trip(3000);
    assert(decimal_text(3000) =~= DEFAULT_PORT@) by {
        reveal_with_fuel(decimal_text, 5);
    }
}

} // verus!
