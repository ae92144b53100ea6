//! Configuration of the engine: the gateway that links go through, the
//! tunnels, and the limits on reconnection.
use vstd::prelude::*;
use vstd::string::*;

verus! {

/// Where links are carried: the gateway host and the identity used on it.
#[derive(Clone, Debug)]
pub struct SshConfig {
    pub host: String,
    pub user: String,
    pub port: u16,
    pub key_path: String,
    pub timeout: u64,
    pub keepalive_interval: u64,
    /// Name shown in place of the host where the host is an internal address.
    pub server_name: Option<String>,
}

/// One configured tunnel, as written in the configuration.
#[derive(Clone, Debug)]
pub struct TunnelConfig {
    pub name: String,
    /// `"send"` or `"receive"`.
    pub direction: String,
    pub local_host: String,
    pub local_port: u16,
    pub remote_host: String,
    pub remote_port: u16,
    pub enabled: bool,
}

/// Process-wide limits on connection attempts and on the backoff delay.
#[derive(Clone, Copy, Debug)]
pub struct ConnectionLimits {
    pub max_attempts: u32,
    pub retry_window_secs: u64,
    pub max_backoff_secs: u64,
}

impl Default for ConnectionLimits {
    fn default() -> (r: ConnectionLimits)
        ensures
            r.max_attempts == 5,
            r.retry_window_secs == 300,
            r.max_backoff_secs == 60,
    {
        ConnectionLimits { max_attempts: 5, retry_window_secs: 300, max_backoff_secs: 60 }
    }
}

/// The whole configuration.
#[derive(Clone, Debug)]
pub struct Config {
    pub gate: SshConfig,
    pub tunnels: Vec<TunnelConfig>,
    pub limits: ConnectionLimits,
}

/// Position of the last `:` in `s`, or -1 where there is none.
pub open spec fn last_colon(s: Seq<char>) -> int
    decreases s.len(),
{
    if s.len() == 0 {
        -1
    } else if s.last() == ':' {
        s.len() - 1
    } else {
        last_colon(s.drop_last())
    }
}

/// Whether `c` is a decimal digit.
pub open spec fn is_digit(c: char) -> bool {
    '0' <= c <= '9'
}

/// The value of a string of decimal digits.
pub open spec fn digits_value(d: Seq<char>) -> nat
    decreases d.len(),
{
    if d.len() == 0 {
        0
    } else {
        digits_value(d.drop_last()) * 10 + ((d.last() as u32) - ('0' as u32)) as nat
    }
}

/// The host and port that `s` denotes when written `host:port`: the port is
/// what follows the last `:`, one or more decimal digits of a value up to 65535.
pub open spec fn host_port_of(s: Seq<char>) -> Option<(Seq<char>, u16)> {
    let k = last_colon(s);
    let port = s.subrange(k + 1, s.len() as int);
    if k >= 0 && port.len() > 0 && (forall|i: int| 0 <= i < port.len() ==> is_digit(port[i]))
        && digits_value(port) <= 65535 {
        Some((s.subrange(0, k), digits_value(port) as u16))
    } else {
        None
    }
}

proof fn lemma_last_colon(s: Seq<char>)
    ensures
        -1 <= last_colon(s) < s.len(),
        last_colon(s) >= 0 ==> s[last_colon(s)] == ':',
        forall|i: int| last_colon(s) < i < s.len() ==> s[i] != ':',
    decreases s.len(),
{
    if s.len() > 0 {
        lemma_last_colon(s.drop_last());
        assert forall|i: int| 0 <= i < s.len() - 1 implies s.drop_last()[i] == s[i] by {}
    }
}

proof fn lemma_digits_grow(d: Seq<char>, n: int)
    requires
        0 <= n <= d.len(),
        forall|i: int| 0 <= i < d.len() ==> is_digit(d[i]),
    ensures
        digits_value(d.take(n)) <= digits_value(d),
    decreases d.len() - n,
{
    if n < d.len() {
        lemma_digits_grow(d, n + 1);
        assert(d.take(n + 1).drop_last() =~= d.take(n));
    }
    assert(n == d.len() ==> d.take(n) =~= d);
}

/// Why a configuration was refused.
#[derive(Debug)]
pub enum ConfigError {
    /// The gateway host holds a shell metacharacter.
    InvalidHost,
    /// The gateway user holds a shell metacharacter.
    InvalidUser,
    /// The named enabled tunnel has a direction other than `send` or `receive`.
    InvalidDirection(String),
    /// Two enabled tunnels carry this name.
    DuplicateTunnel(String),
    /// An endpoint is not written `host:port` with a port from 0 to 65535.
    InvalidEndpoint,
}

impl Config {
    /// Splits an endpoint written `host:port` at its last `:`.
    pub fn parse_host_port(s: &str) -> (r: Result<(String, u16), ConfigError>)
        ensures
            match r {
                Ok((h, p)) => host_port_of(s@) == Some((h@, p)),
                Err(e) => host_port_of(s@) is None && e is InvalidEndpoint,
            },
    {
        let n = s.unicode_len();
        let mut colon: usize = n;
        let mut i: usize = 0;
        while i < n
            invariant
                n == s@.len(),
                i <= n,
                colon <= n,
                colon == n ==> last_colon(s@.take(i as int)) == -1,
                colon < n ==> colon < i && last_colon(s@.take(i as int)) == colon,
            decreases n - i,
        {
            proof {
                assert(s@.take(i + 1).drop_last() =~= s@.take(i as int));
            }
            if s.get_char(i) == ':' {
                colon = i;
            }
            i = i + 1;
        }
        proof {
            assert(s@.take(n as int) =~= s@);
        }
        if colon == n {
            return Err(ConfigError::InvalidEndpoint);
        }
        let ghost port = s@.subrange(colon + 1, n as int);
        if colon + 1 == n {
            return Err(ConfigError::InvalidEndpoint);
        }
        let mut value: u64 = 0;
        let mut j: usize = colon + 1;
        while j < n
            invariant
                n == s@.len(),
                colon < j <= n,
                last_colon(s@) == colon,
                port == s@.subrange(colon + 1, n as int),
                forall|m: int| 0 <= m < j - colon - 1 ==> is_digit(port[m]),
                value as nat == digits_value(port.take(j - colon - 1)),
                value <= 65535,
            decreases n - j,
        {
            let c = s.get_char(j);
            proof {
                assert(port.take(j - colon).drop_last() =~= port.take(j - colon - 1));
                assert(port[j - colon - 1] == c);
            }
            if c < '0' || c > '9' {
                return Err(ConfigError::InvalidEndpoint);
            }
            value = value * 10 + ((c as u32) - ('0' as u32)) as u64;
            assert(value as nat == digits_value(port.take(j - colon)));
            if value > 65535 {
                proof {
                    let all = forall|m: int| 0 <= m < port.len() ==> is_digit(port[m]);
                    if all {
                        lemma_digits_grow(port, j - colon);
                    }
                }
                return Err(ConfigError::InvalidEndpoint);
            }
            j = j + 1;
        }
        proof {
            assert(port.take(n - colon - 1) =~= port);
        }
        let host = s.substring_char(0, colon);
        Ok((host.to_owned(), value as u16))
    }
}

/// The one-line description of an error.
pub open spec fn error_message(e: ConfigError) -> Seq<char> {
    match e {
        ConfigError::InvalidHost => "Invalid characters in hostname"@,
        ConfigError::InvalidUser => "Invalid characters in username"@,
        ConfigError::InvalidDirection(name) => "Invalid tunnel direction in tunnel "@ + name@,
        ConfigError::DuplicateTunnel(name) => "Duplicate tunnel name "@ + name@,
        ConfigError::InvalidEndpoint => "Invalid endpoint, expected host:port"@,
    }
}

impl ConfigError {
    /// A one-line description of the error.
    pub fn message(&self) -> (r: String)
        ensures
            r@ == error_message(*self),
    {
        match self {
            ConfigError::InvalidHost => "Invalid characters in hostname".to_owned(),
            ConfigError::InvalidUser => "Invalid characters in username".to_owned(),
            ConfigError::InvalidDirection(name) => {
                let mut s = "Invalid tunnel direction in tunnel ".to_owned();
                s.append(name.as_str());
                s
            },
            ConfigError::InvalidEndpoint => "Invalid endpoint, expected host:port".to_owned(),
            ConfigError::DuplicateTunnel(name) => {
                let mut s = "Duplicate tunnel name ".to_owned();
                s.append(name.as_str());
                s
            },
        }
    }
}

} // verus!
