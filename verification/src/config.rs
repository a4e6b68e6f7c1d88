//! The daemon's settings: built-in defaults, each overridden by a value that
//! the environment supplies.
use vstd::prelude::*;
use crate::bridge::BridgeConfig;
use crate::database::DatabaseConfig;
use crate::database::http_client::HttpConfig;
use crate::outside::{duration_from_secs, seconds_duration};
use crate::text::{parse_unsigned, unsigned_parse};

verus! {

/// How much the daemon logs, from least to most.
#[derive(Clone, Copy, PartialEq, Eq, Structural, Debug)]
pub enum LogLevel {
    Error,
    Warn,
    Info,
    Debug,
    Trace,
}

/// How detailed a level is: `Error` is the least, `Trace` the most.
pub open spec fn verbosity(l: LogLevel) -> nat {
    match l {
        LogLevel::Error => 1,
        LogLevel::Warn => 2,
        LogLevel::Info => 3,
        LogLevel::Debug => 4,
        LogLevel::Trace => 5,
    }
}

impl LogLevel {
    /// How detailed the level is (see `verbosity`).
    pub fn rank(self) -> (r: u8)
        ensures
            r == verbosity(self),
    {
        match self {
            LogLevel::Error => 1,
            LogLevel::Warn => 2,
            LogLevel::Info => 3,
            LogLevel::Debug => 4,
            LogLevel::Trace => 5,
        }
    }

    /// Whether a message of level `message` is logged when logging at this
    /// level: it is no more detailed than this level.
    pub fn allows(self, message: LogLevel) -> (r: bool)
        ensures
            r == (verbosity(message) <= verbosity(self)),
    {
        message.rank() <= self.rank()
    }
}

/// The upper-case form of an ASCII lower-case letter; other characters stay.
pub open spec fn ascii_upper(c: char) -> char {
    if 'a' <= c && c <= 'z' {
        ((c as u32) - 32) as char
    } else {
        c
    }
}

/// `s` equals the lower-case ASCII word `word` when ASCII case is ignored.
pub open spec fn same_ignoring_case(s: Seq<char>, word: Seq<char>) -> bool {
    &&& s.len() == word.len()
    &&& forall|i: int| 0 <= i < s.len() ==> (#[trigger] s[i] == word[i] || s[i] == ascii_upper(word[i]))
}

/// The level that the numbers 1 to 5 stand for.
pub open spec fn level_of_number(n: nat) -> LogLevel {
    if n == 1 {
        LogLevel::Error
    } else if n == 2 {
        LogLevel::Warn
    } else if n == 3 {
        LogLevel::Info
    } else if n == 4 {
        LogLevel::Debug
    } else {
        LogLevel::Trace
    }
}

/// What `tracing::Level` parses a text into: a number from 1 to 5 as read
/// by `str::parse::<usize>`, else one of the names `error`, `warn`, `info`,
/// `debug`, `trace` in any ASCII case; anything else is refused.
pub open spec fn level_from_text(s: Seq<char>) -> Option<LogLevel> {
    match unsigned_parse(s, usize::MAX as nat) {
        Some(n) if 1 <= n <= 5 => Some(level_of_number(n)),
        _ => if same_ignoring_case(s, seq!['e', 'r', 'r', 'o', 'r']) {
            Some(LogLevel::Error)
        } else if same_ignoring_case(s, seq!['w', 'a', 'r', 'n']) {
            Some(LogLevel::Warn)
        } else if same_ignoring_case(s, seq!['i', 'n', 'f', 'o']) {
            Some(LogLevel::Info)
        } else if same_ignoring_case(s, seq!['d', 'e', 'b', 'u', 'g']) {
            Some(LogLevel::Debug)
        } else if same_ignoring_case(s, seq!['t', 'r', 'a', 'c', 'e']) {
            Some(LogLevel::Trace)
        } else {
            None
        },
    }
}

/// `<tracing::Level as FromStr>::from_str`, each of its levels taken to the
/// same level here: the result is `level_from_text` of the text, which is
/// what that function's source does.
#[verifier::external_body]
fn parse_level(s: &str) -> (r: Option<LogLevel>)
    ensures
        r == level_from_text(s@),
{
    match s.parse::<tracing::Level>() {
        Ok(tracing::Level::ERROR) => Some(LogLevel::Error),
        Ok(tracing::Level::WARN) => Some(LogLevel::Warn),
        Ok(tracing::Level::INFO) => Some(LogLevel::Info),
        Ok(tracing::Level::DEBUG) => Some(LogLevel::Debug),
        Ok(_) => Some(LogLevel::Trace),
        Err(_) => None,
    }
}

/// The values that the environment may set, each as it was read (`None`
/// where the variable is not set).
pub struct EnvSettings {
    pub db_base_url: Option<String>,
    pub db_endpoint: Option<String>,
    pub db_user_agent: Option<String>,
    pub db_timeout: Option<String>,
    pub db_max_retries: Option<String>,
    pub db_update_interval: Option<String>,
    pub bridge_port: Option<String>,
    pub log_level: Option<String>,
}

/// All the daemon's settings.
pub struct Config {
    pub bridge: BridgeConfig,
    pub database: DatabaseConfig,
    pub log_level: LogLevel,
}

/// The text that was set, else the default.
pub open spec fn text_or(v: Option<String>, default: Seq<char>) -> Seq<char> {
    match v {
        Some(s) => s@,
        None => default,
    }
}

/// The number that was set, where it parses as an unsigned integer of at
/// most `max`; else the default.
pub open spec fn number_or(v: Option<String>, max: nat, default: nat) -> nat {
    match v {
        Some(s) => match unsigned_parse(s@, max) {
            Some(n) => n,
            None => default,
        },
        None => default,
    }
}

/// The level that was set, where it names one; else `Info`.
pub open spec fn level_or_info(v: Option<String>) -> LogLevel {
    match v {
        Some(s) => match level_from_text(s@) {
            Some(l) => l,
            None => LogLevel::Info,
        },
        None => LogLevel::Info,
    }
}

/// The text that was set, else a copy of the default.
fn text_setting(v: Option<String>, default: &str) -> (r: String)
    ensures
        r@ == text_or(v, default@),
{
    match v {
        Some(s) => s,
        None => default.to_string(),
    }
}

/// The number that was set, where it parses and fits under `max`; else the
/// default.
fn number_setting(v: &Option<String>, max: u64, default: u64) -> (r: u64)
    requires
        default <= max,
    ensures
        r == number_or(*v, max as nat, default as nat),
{
    match v {
        Some(s) => match parse_unsigned(s.as_str(), max) {
            Some(n) => n,
            None => default,
        },
        None => default,
    }
}

/// The settings: each default below, replaced by the environment's value
/// where one is set and, for a number or a level, where it parses. The
/// bridge listens on 127.0.0.1:1337; the database comes from
/// `https://discord.com/api/v9` + `/applications/detectable` with user agent
/// `arrus/1.0`, a 30 s timeout, a 10 s connect timeout and 3 retries, and is
/// refreshed every 15 minutes; the log level is `Info`.
pub fn load_config(env: EnvSettings, db_path: String) -> (config: Config)
    ensures
        config.bridge.port == number_or(env.bridge_port, u16::MAX as nat, 1337),
        config.bridge.bind_address@ == "127.0.0.1"@,
        config.database.http.base_url@ == text_or(env.db_base_url, "https://discord.com/api/v9"@),
        config.database.http.endpoint@ == text_or(env.db_endpoint, "/applications/detectable"@),
        config.database.http.user_agent@ == text_or(env.db_user_agent, "arrus/1.0"@),
        config.database.http.timeout == seconds_duration(
            number_or(env.db_timeout, u64::MAX as nat, 30) as u64,
        ),
        config.database.http.connect_timeout == seconds_duration(10),
        config.database.http.max_retries == number_or(env.db_max_retries, u32::MAX as nat, 3),
        config.database.update_interval == seconds_duration(
            number_or(env.db_update_interval, u64::MAX as nat, 15 * 60) as u64,
        ),
        config.database.db_path@ == db_path@,
        config.log_level == level_or_info(env.log_level),
{
    let port = number_setting(&env.bridge_port, 65535, 1337);
    let timeout = number_setting(&env.db_timeout, u64::MAX, 30);
    let retries = number_setting(&env.db_max_retries, 4294967295, 3);
    let interval = number_setting(&env.db_update_interval, u64::MAX, 15 * 60);
    let log_level = match &env.log_level {
        Some(s) => match parse_level(s.as_str()) {
            Some(l) => l,
            None => LogLevel::Info,
        },
        None => LogLevel::Info,
    };
    let EnvSettings { db_base_url, db_endpoint, db_user_agent, .. } = env;
    let http = HttpConfig {
        base_url: text_setting(db_base_url, "https://discord.com/api/v9"),
        endpoint: text_setting(db_endpoint, "/applications/detectable"),
        user_agent: text_setting(db_user_agent, "arrus/1.0"),
        timeout: duration_from_secs(timeout),
        connect_timeout: duration_from_secs(10),
        max_retries: retries as u32,
    };
    Config {
        bridge: BridgeConfig { port: port as u16, bind_address: "127.0.0.1".to_string() },
        database: DatabaseConfig { http, update_interval: duration_from_secs(interval), db_path },
        log_level,
    }
}

} // verus!
