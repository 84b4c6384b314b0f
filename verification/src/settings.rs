//! Server and client settings and their defaults.

use vstd::prelude::*;

verus! {

/// The default address to listen on or connect to.
pub fn default_host() -> (s: String)
    ensures
        s@ == "127.0.0.1"@,
{
    "127.0.0.1".to_owned()
}

/// The default port.
pub fn default_port() -> (p: u16)
    ensures
        p == 5432,
{
    5432
}

/// The default user.
pub fn default_user() -> (s: String)
    ensures
        s@ == "postgres"@,
{
    "postgres".to_owned()
}

/// The default superuser password.
pub fn default_password() -> (s: String)
    ensures
        s@ == "postgres"@,
{
    "postgres".to_owned()
}

/// The default database.
pub fn default_database() -> (s: String)
    ensures
        s@ == "postgres"@,
{
    "postgres".to_owned()
}

/// The default data directory.
pub fn default_data_dir() -> (s: String)
    ensures
        s@ == "./data"@,
{
    "./data".to_owned()
}

/// Whether a missing data directory is initialised by default.
pub fn default_initdb() -> (b: bool)
    ensures
        b,
{
    true
}

/// What the server starts with.
#[derive(Debug)]
pub struct ServerConfig {
    pub user: String,
    pub password: String,
    pub database: String,
    pub host: String,
    pub port: u16,
    pub data_dir: String,
    pub initdb: bool,
}

impl ServerConfig {
    /// Every setting at its default.
    pub fn defaults() -> (c: Self)
        ensures
            c.user@ == "postgres"@,
            c.password@ == "postgres"@,
            c.database@ == "postgres"@,
            c.host@ == "127.0.0.1"@,
            c.port == 5432,
            c.data_dir@ == "./data"@,
            c.initdb,
    {
        ServerConfig {
            user: default_user(),
            password: default_password(),
            database: default_database(),
            host: default_host(),
            port: default_port(),
            data_dir: default_data_dir(),
            initdb: default_initdb(),
        }
    }
}

/// What the client connects with.
#[derive(Debug)]
pub struct ClientConfig {
    pub host: String,
    pub port: u16,
    pub user: String,
    pub database: String,
}

impl ClientConfig {
    /// Every setting at its default.
    pub fn defaults() -> (c: Self)
        ensures
            c.host@ == "127.0.0.1"@,
            c.port == 5432,
            c.user@ == "postgres"@,
            c.database@ == "postgres"@,
    {
        ClientConfig { host: default_host(), port: default_port(), user: default_user(), database: default_database() }
    }

    /// The settings of `base` (from the configuration file and environment,
    /// or the defaults), each overridden by a command-line value when given.
    pub fn with_overrides(base: ClientConfig, host: Option<String>, port: Option<u16>, user: Option<String>,
        database: Option<String>) -> (c: Self)
        ensures
            c.host == match host { Some(h) => h, None => base.host },
            c.port == match port { Some(p) => p, None => base.port },
            c.user == match user { Some(u) => u, None => base.user },
            c.database == match database { Some(d) => d, None => base.database },
    {
        ClientConfig {
            host: match host { Some(h) => h, None => base.host },
            port: match port { Some(p) => p, None => base.port },
            user: match user { Some(u) => u, None => base.user },
            database: match database { Some(d) => d, None => base.database },
        }
    }
}

} // verus!
