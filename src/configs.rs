//! Service configuration: the token settings kept in the backing store, and
//! the defaults of the local configuration file.
use rand::distributions::{Alphanumeric, DistString};
use vstd::prelude::*;

use crate::error::UmtError;
use crate::store::Record;

verus! {

/// An ASCII letter or digit.
pub open spec fn is_alphanumeric(c: char) -> bool {
    ('a' <= c && c <= 'z') || ('A' <= c && c <= 'Z') || ('0' <= c && c <= '9')
}

/// Relies on rand's `Alphanumeric.sample_string` on the thread-local
/// generator: `len` characters, each an ASCII letter or digit, drawn at random.
#[verifier::external_body]
fn random_alphanumeric(len: usize) -> (r: String)
    ensures
        r@.len() == len,
        forall|i: int| 0 <= i < len ==> is_alphanumeric(#[trigger] r@[i]),
{
    Alphanumeric.sample_string(&mut rand::thread_rng(), len)
}

/// Length of a freshly drawn token secret.
pub const SECRET_LEN: usize = 64;

/// Lifetime of a session token unless configured otherwise, in seconds.
pub const DEFAULT_TOKEN_SECONDS: i64 = 14400;

/// The id under which the token settings are stored.
pub open spec fn token_label() -> Seq<char> {
    seq!['t', 'o', 'k', 'e', 'n']
}

/// Settings of the session tokens: the signing secret and their lifetime in seconds.
#[derive(Clone, Debug, PartialEq)]
pub struct TokenConfig {
    pub secret: String,
    pub duration: i64,
}

impl TokenConfig {
    /// The id under which these settings are stored.
    pub fn label() -> (r: &'static str)
        ensures
            r@ == token_label(),
    {
        proof {
            reveal_strlit("token");
        }
        "token"
    }

    /// A copy of these settings.
    pub fn copied(&self) -> (r: TokenConfig)
        ensures
            r == *self,
    {
        TokenConfig { secret: self.secret.clone(), duration: self.duration }
    }
}

impl Default for TokenConfig {
    /// A fresh random secret of letters and digits, and the default lifetime.
    fn default() -> (r: TokenConfig)
        ensures
            r.secret@.len() == SECRET_LEN,
            forall|i: int| 0 <= i < SECRET_LEN ==> is_alphanumeric(#[trigger] r.secret@[i]),
            r.duration == DEFAULT_TOKEN_SECONDS,
    {
        TokenConfig { secret: random_alphanumeric(SECRET_LEN), duration: DEFAULT_TOKEN_SECONDS }
    }
}

/// The data of a stored configuration.
#[derive(Clone, Debug, PartialEq)]
pub enum ConfigData {
    Token(TokenConfig),
}

/// A stored configuration: its id and its data.
#[derive(Clone, Debug, PartialEq)]
pub struct Config {
    pub id: String,
    pub data: ConfigData,
}

impl Config {
    /// The id of this configuration.
    pub fn id(&self) -> (r: String)
        ensures
            r@ == self.id@,
    {
        self.id.clone()
    }

    /// New token settings, stored under the token label, with a fresh secret.
    pub fn new_token() -> (r: Config)
        ensures
            r.id@ == token_label(),
            r.data matches ConfigData::Token(t) && t.duration == DEFAULT_TOKEN_SECONDS
                && t.secret@.len() == SECRET_LEN
                && forall|i: int| 0 <= i < SECRET_LEN ==> is_alphanumeric(#[trigger] t.secret@[i]),
    {
        Config { id: TokenConfig::label().to_owned(), data: ConfigData::Token(TokenConfig::default()) }
    }

    /// The token settings this configuration holds.
    pub fn unwrap_token(&self) -> (r: Result<TokenConfig, UmtError>)
        ensures
            match self.data {
                ConfigData::Token(t) => r == Ok::<TokenConfig, UmtError>(t),
            },
    {
        match &self.data {
            ConfigData::Token(t) => Ok(t.copied()),
        }
    }
}

/// The token settings from what a lookup of the token configuration found:
/// `GetConfig` where it found nothing.
pub fn token_config(found: Option<&Config>) -> (r: Result<TokenConfig, UmtError>)
    ensures
        match found {
            Some(c) => match c.data {
                ConfigData::Token(t) => r == Ok::<TokenConfig, UmtError>(t),
            },
            None => r == Err::<TokenConfig, UmtError>(UmtError::GetConfig),
        },
{
    match found {
        Some(c) => c.unwrap_token(),
        None => Err(UmtError::GetConfig),
    }
}

impl Record for Config {
    open spec fn key_id(&self) -> Seq<char> {
        self.id@
    }

    open spec fn key_name(&self) -> Seq<char> {
        self.id@
    }

    fn id_key(&self) -> (r: String) {
        self.id.clone()
    }

    fn name_key(&self) -> (r: String) {
        self.id.clone()
    }
}

/// Where the backing store is found, unless configured otherwise.
pub fn default_mongo_db_uri() -> (r: String)
    ensures
        r@ == "mongodb://localhost:27017"@,
{
    "mongodb://localhost:27017".to_owned()
}

/// The database used, unless configured otherwise.
pub fn default_mongo_db_db_name() -> (r: String)
    ensures
        r@ == "userman"@,
{
    "userman".to_owned()
}

/// The public address of the front end, empty unless configured.
pub fn default_front_public_url() -> (r: String)
    ensures
        r@ == Seq::<char>::empty(),
{
    String::new()
}

/// The port served, unless configured otherwise.
pub fn default_port() -> (r: u16)
    ensures
        r == 8090,
{
    8090
}

/// Connection settings of the backing store.
#[derive(Clone, Debug, PartialEq)]
pub struct MongoDB {
    pub uri: String,
    pub db_name: String,
}

impl Default for MongoDB {
    fn default() -> (r: MongoDB)
        ensures
            r.uri@ == "mongodb://localhost:27017"@,
            r.db_name@ == "userman"@,
    {
        MongoDB { uri: default_mongo_db_uri(), db_name: default_mongo_db_db_name() }
    }
}

/// TLS settings: whether it is on, and the certificate and key files.
#[derive(Clone, Debug, PartialEq)]
pub struct Tls {
    pub enabled: bool,
    pub certs: String,
    pub key: String,
}

impl Default for Tls {
    fn default() -> (r: Tls)
        ensures
            !r.enabled,
            r.certs@ == Seq::<char>::empty(),
            r.key@ == Seq::<char>::empty(),
    {
        Tls { enabled: false, certs: String::new(), key: String::new() }
    }
}

/// Settings of the front end.
#[derive(Clone, Debug, PartialEq)]
pub struct Front {
    pub public_url: String,
}

impl Default for Front {
    fn default() -> (r: Front)
        ensures
            r.public_url@ == Seq::<char>::empty(),
    {
        Front { public_url: default_front_public_url() }
    }
}

/// How much the service logs.
#[derive(Clone, Copy, Debug, PartialEq, Eq, Structural)]
pub enum LogsLevel {
    Info,
    Debug,
    Error,
}

impl Default for LogsLevel {
    fn default() -> (r: LogsLevel)
        ensures
            r == LogsLevel::Info,
    {
        LogsLevel::Info
    }
}

impl LogsLevel {
    /// The name of this level, as the configuration file writes it.
    pub fn name(&self) -> (r: &'static str)
        ensures
            r@ == match *self {
                LogsLevel::Info => "info"@,
                LogsLevel::Debug => "debug"@,
                LogsLevel::Error => "error"@,
            },
    {
        match self {
            LogsLevel::Info => "info",
            LogsLevel::Debug => "debug",
            LogsLevel::Error => "error",
        }
    }
}

} // verus!
