//! Service configuration: a typestate builder that will only build once a
//! database URL and a port were given, and the environment readers of the
//! services expressed over the (optional) values of their variables.
use std::marker::PhantomData;
use vstd::prelude::*;

use crate::text::{concat, parse_unsigned, parse_unsigned_decimal};

verus! {

/// Configuration of the authentication service.
pub struct AuthConfig {
    pub database_url: String,
    /// Read-replica URL. Falls back to `database_url` if not set.
    pub database_read_url: String,
    pub server_port: u16,
    pub mode: String,
    pub server_addr: String,
    pub cors_origin: String,
}

/// Configuration of the URL service.
pub struct UrlConfig {
    pub database_url: String,
    /// Read-replica URL. Falls back to `database_url` if not set.
    pub database_read_url: String,
    pub redis_url: String,
    pub server_port: u16,
    pub server_addr: String,
    pub mode: String,
    pub cors_origin: String,
}

/// Typestate: the value has not been given yet.
pub struct Missing;

/// Typestate: the value has been given.
pub struct Provided;

/// The values a [`ConfigBuilder`] holds.
pub struct ConfigView {
    pub database_url: Seq<char>,
    pub database_read_url: Option<Seq<char>>,
    pub server_port: u16,
    pub server_addr: Seq<char>,
    pub mode: Seq<char>,
    pub cors_origin: Seq<char>,
    pub redis_url: Seq<char>,
}

/// Builder whose type records whether the database URL and the port were given.
pub struct ConfigBuilder<DbState, PortState> {
    database_url: String,
    database_read_url: Option<String>,
    server_port: u16,
    server_addr: String,
    mode: String,
    cors_origin: String,
    redis_url: String,
    _marker: PhantomData<(DbState, PortState)>,
}

/// The view of an optional string.
pub open spec fn opt_view(o: Option<String>) -> Option<Seq<char>> {
    match o {
        Some(s) => Some(s@),
        None => None,
    }
}

impl<DbState, PortState> View for ConfigBuilder<DbState, PortState> {
    type V = ConfigView;

    closed spec fn view(&self) -> ConfigView {
        ConfigView {
            database_url: self.database_url@,
            database_read_url: opt_view(self.database_read_url),
            server_port: self.server_port,
            server_addr: self.server_addr@,
            mode: self.mode@,
            cors_origin: self.cors_origin@,
            redis_url: self.redis_url@,
        }
    }
}

/// The value an optional override leaves: the override if given, else `current`.
pub open spec fn or_keep(o: Option<String>, current: Seq<char>) -> Seq<char> {
    match o {
        Some(s) => s@,
        None => current,
    }
}

/// The read-replica URL a built configuration carries.
pub open spec fn read_url_of(v: ConfigView) -> Seq<char> {
    match v.database_read_url {
        Some(u) => u,
        None => v.database_url,
    }
}

impl ConfigBuilder<Missing, Missing> {
    /// A builder with the defaults: no database URL, port 0, host `0.0.0.0`,
    /// mode `production`, CORS origin `http://localhost:8000` and Redis at
    /// `redis://127.0.0.1:6379`.
    pub fn new() -> (b: Self)
        ensures
            b@ == (ConfigView {
                database_url: Seq::<char>::empty(),
                database_read_url: None,
                server_port: 0,
                server_addr: "0.0.0.0"@,
                mode: "production"@,
                cors_origin: "http://localhost:8000"@,
                redis_url: "redis://127.0.0.1:6379"@,
            }),
    {
        Self {
            database_url: String::new(),
            database_read_url: None,
            server_port: 0,
            server_addr: "0.0.0.0".to_owned(),
            mode: "production".to_owned(),
            cors_origin: "http://localhost:8000".to_owned(),
            redis_url: "redis://127.0.0.1:6379".to_owned(),
            _marker: PhantomData,
        }
    }
}

impl<DbState, PortState> ConfigBuilder<DbState, PortState> {
    /// Sets the read-replica URL when one is given; `None` keeps the current one.
    pub fn with_database_read_url(self, url: Option<String>) -> (b: Self)
        ensures
            b@ == (ConfigView {
                database_read_url: if url is Some {
                    opt_view(url)
                } else {
                    self@.database_read_url
                },
                ..self@
            }),
    {
        let mut s = self;
        if url.is_some() {
            s.database_read_url = url;
        }
        s
    }

    /// Sets the host when one is given.
    pub fn with_host(self, host: Option<String>) -> (b: Self)
        ensures
            b@ == (ConfigView { server_addr: or_keep(host, self@.server_addr), ..self@ }),
    {
        let mut s = self;
        if let Some(h) = host {
            s.server_addr = h;
        }
        s
    }

    /// Sets the mode when one is given.
    pub fn with_mode(self, mode: Option<String>) -> (b: Self)
        ensures
            b@ == (ConfigView { mode: or_keep(mode, self@.mode), ..self@ }),
    {
        let mut s = self;
        if let Some(m) = mode {
            s.mode = m;
        }
        s
    }

    /// Sets the CORS origin when one is given.
    pub fn with_cors_origin(self, origin: Option<String>) -> (b: Self)
        ensures
            b@ == (ConfigView { cors_origin: or_keep(origin, self@.cors_origin), ..self@ }),
    {
        let mut s = self;
        if let Some(o) = origin {
            s.cors_origin = o;
        }
        s
    }

    /// Sets the Redis URL when one is given.
    pub fn with_redis_url(self, url: Option<String>) -> (b: Self)
        ensures
            b@ == (ConfigView { redis_url: or_keep(url, self@.redis_url), ..self@ }),
    {
        let mut s = self;
        if let Some(r) = url {
            s.redis_url = r;
        }
        s
    }
}

impl<PortState> ConfigBuilder<Missing, PortState> {
    /// Gives the database URL; only possible once.
    pub fn with_database_url(self, url: String) -> (b: ConfigBuilder<Provided, PortState>)
        ensures
            b@ == (ConfigView { database_url: url@, ..self@ }),
    {
        ConfigBuilder {
            database_url: url,
            database_read_url: self.database_read_url,
            server_port: self.server_port,
            server_addr: self.server_addr,
            mode: self.mode,
            cors_origin: self.cors_origin,
            redis_url: self.redis_url,
            _marker: PhantomData,
        }
    }
}

impl<DbState> ConfigBuilder<DbState, Missing> {
    /// Gives the port; only possible once.
    pub fn with_port(self, port: u16) -> (b: ConfigBuilder<DbState, Provided>)
        ensures
            b@ == (ConfigView { server_port: port, ..self@ }),
    {
        ConfigBuilder {
            database_url: self.database_url,
            database_read_url: self.database_read_url,
            server_port: port,
            server_addr: self.server_addr,
            mode: self.mode,
            cors_origin: self.cors_origin,
            redis_url: self.redis_url,
            _marker: PhantomData,
        }
    }
}

impl ConfigBuilder<Provided, Provided> {
    /// The authentication service's configuration; the read-replica URL
    /// falls back to the database URL.
    pub fn build_auth_config(self) -> (c: AuthConfig)
        ensures
            c.database_url@ == self@.database_url,
            c.database_read_url@ == read_url_of(self@),
            c.server_port == self@.server_port,
            c.server_addr@ == self@.server_addr,
            c.mode@ == self@.mode,
            c.cors_origin@ == self@.cors_origin,
    {
        let read_url = match self.database_read_url {
            Some(u) => u,
            None => self.database_url.clone(),
        };
        AuthConfig {
            database_url: self.database_url,
            database_read_url: read_url,
            server_port: self.server_port,
            server_addr: self.server_addr,
            mode: self.mode,
            cors_origin: self.cors_origin,
        }
    }

    /// The URL service's configuration; the read-replica URL falls back to
    /// the database URL.
    pub fn build_url_config(self) -> (c: UrlConfig)
        ensures
            c.database_url@ == self@.database_url,
            c.database_read_url@ == read_url_of(self@),
            c.redis_url@ == self@.redis_url,
            c.server_port == self@.server_port,
            c.server_addr@ == self@.server_addr,
            c.mode@ == self@.mode,
            c.cors_origin@ == self@.cors_origin,
    {
        let read_url = match self.database_read_url {
            Some(u) => u,
            None => self.database_url.clone(),
        };
        UrlConfig {
            database_url: self.database_url,
            database_read_url: read_url,
            server_addr: self.server_addr,
            server_port: self.server_port,
            mode: self.mode,
            cors_origin: self.cors_origin,
            redis_url: self.redis_url,
        }
    }
}

/// Why a configuration could not be read from the environment.
pub enum ConfigError {
    /// The port variable is set but is not a number in `0..=65535`.
    InvalidPort,
    /// The database URL variable is not set.
    MissingDatabaseUrl,
}

/// The port a service listens on: the variable's value parsed as a `u16`,
/// or `default` when the variable is unset.
pub open spec fn port_from(var: Option<Seq<char>>, default: u16) -> Option<u16> {
    match var {
        None => Some(default),
        Some(s) => match parse_unsigned(s, 65535) {
            Some(p) => Some(p as u16),
            None => None,
        },
    }
}

fn parse_port(var: Option<String>, default: u16) -> (r: Option<u16>)
    ensures
        r == port_from(opt_view(var), default),
{
    match var {
        None => Some(default),
        Some(s) => match parse_unsigned_decimal(s.as_str(), 65535) {
            Some(p) => Some(p as u16),
            None => None,
        },
    }
}

impl AuthConfig {
    /// The authentication service's configuration from the values of
    /// `AUTH_PORT` (default 3001), `AUTH_DATABASE_URL` (required),
    /// `AUTH_DATABASE_READ_URL`, `AUTH_HOST`, `MODE` and `CORS_ORIGIN`.
    /// A bad port is reported before a missing database URL.
    pub fn from_vars(
        port: Option<String>,
        database_url: Option<String>,
        database_read_url: Option<String>,
        host: Option<String>,
        mode: Option<String>,
        cors_origin: Option<String>,
    ) -> (r: Result<AuthConfig, ConfigError>)
        ensures
            port_from(opt_view(port), 3001) is None <==> r matches Err(ConfigError::InvalidPort),
            port_from(opt_view(port), 3001) is Some && database_url is None <==> r matches Err(
                ConfigError::MissingDatabaseUrl,
            ),
            r matches Ok(c) ==> {
                &&& Some(c.server_port) == port_from(opt_view(port), 3001)
                &&& Some(c.database_url@) == opt_view(database_url)
                &&& c.database_read_url@ == or_keep(database_read_url, c.database_url@)
                &&& c.server_addr@ == or_keep(host, "0.0.0.0"@)
                &&& c.mode@ == or_keep(mode, "production"@)
                &&& c.cors_origin@ == or_keep(cors_origin, "http://localhost:8000"@)
            },
    {
        let server_port = match parse_port(port, 3001) {
            Some(p) => p,
            None => {
                return Err(ConfigError::InvalidPort);
            },
        };
        let db = match database_url {
            Some(d) => d,
            None => {
                return Err(ConfigError::MissingDatabaseUrl);
            },
        };
        let config = ConfigBuilder::new().with_database_url(db).with_port(
            server_port,
        ).with_database_read_url(database_read_url).with_host(host).with_mode(
            mode,
        ).with_cors_origin(cors_origin).build_auth_config();
        Ok(config)
    }
}

impl UrlConfig {
    /// The URL service's configuration from the values of `URL_PORT`
    /// (default 3002), `URL_DATABASE_URL` (required), `URL_DATABASE_READ_URL`,
    /// `URL_HOST`, `MODE`, `CORS_ORIGIN` and `REDIS_URL`.
    pub fn from_vars(
        port: Option<String>,
        database_url: Option<String>,
        database_read_url: Option<String>,
        host: Option<String>,
        mode: Option<String>,
        cors_origin: Option<String>,
        redis_url: Option<String>,
    ) -> (r: Result<UrlConfig, ConfigError>)
        ensures
            port_from(opt_view(port), 3002) is None <==> r matches Err(ConfigError::InvalidPort),
            port_from(opt_view(port), 3002) is Some && database_url is None <==> r matches Err(
                ConfigError::MissingDatabaseUrl,
            ),
            r matches Ok(c) ==> {
                &&& Some(c.server_port) == port_from(opt_view(port), 3002)
                &&& Some(c.database_url@) == opt_view(database_url)
                &&& c.database_read_url@ == or_keep(database_read_url, c.database_url@)
                &&& c.server_addr@ == or_keep(host, "0.0.0.0"@)
                &&& c.mode@ == or_keep(mode, "production"@)
                &&& c.cors_origin@ == or_keep(cors_origin, "http://localhost:8000"@)
                &&& c.redis_url@ == or_keep(redis_url, "redis://127.0.0.1:6379"@)
            },
    {
        let server_port = match parse_port(port, 3002) {
            Some(p) => p,
            None => {
                return Err(ConfigError::InvalidPort);
            },
        };
        let db = match database_url {
            Some(d) => d,
            None => {
                return Err(ConfigError::MissingDatabaseUrl);
            },
        };
        let config = ConfigBuilder::new().with_database_url(db).with_port(
            server_port,
        ).with_database_read_url(database_read_url).with_host(host).with_mode(
            mode,
        ).with_cors_origin(cors_origin).with_redis_url(redis_url).build_url_config();
        Ok(config)
    }
}

/// Settings of the single-binary deployment.
pub struct Settings {
    pub database_url: String,
    pub redis_url: String,
    pub server_addr: String,
    /// "development" | "production"
    pub mode: String,
    /// Allowed CORS origin, e.g. "http://localhost:5173"
    pub cors_origin: String,
}

impl Settings {
    /// The settings from the values of `DATABASE_URL` (required), `REDIS_URL`,
    /// `HOST`, `PORT`, `MODE` and `CORS_ORIGIN`; the listen address is
    /// `host:port`. `None` when the database URL is missing.
    pub fn from_vars(
        database_url: Option<String>,
        redis_url: Option<String>,
        host: Option<String>,
        port: Option<String>,
        mode: Option<String>,
        cors_origin: Option<String>,
    ) -> (r: Option<Settings>)
        ensures
            r is Some <==> database_url is Some,
            r matches Some(st) ==> {
                &&& Some(st.database_url@) == opt_view(database_url)
                &&& st.redis_url@ == or_keep(redis_url, "redis://127.0.0.1:6379"@)
                &&& st.server_addr@ == or_keep(host, "127.0.0.1"@) + ":"@ + or_keep(
                    port,
                    "3000"@,
                )
                &&& st.mode@ == or_keep(mode, "production"@)
                &&& st.cors_origin@ == or_keep(cors_origin, "http://localhost:5173"@)
            },
    {
        let database_url = match database_url {
            Some(d) => d,
            None => {
                return None;
            },
        };
        let redis_url = match redis_url {
            Some(r) => r,
            None => "redis://127.0.0.1:6379".to_owned(),
        };
        let host = match host {
            Some(h) => h,
            None => "127.0.0.1".to_owned(),
        };
        let port = match port {
            Some(p) => p,
            None => "3000".to_owned(),
        };
        let mode = match mode {
            Some(m) => m,
            None => "production".to_owned(),
        };
        let cors_origin = match cors_origin {
            Some(c) => c,
            None => "http://localhost:5173".to_owned(),
        };
        let with_colon = concat(host.as_str(), ":");
        let server_addr = concat(with_colon.as_str(), port.as_str());
        Some(Settings { database_url, redis_url, server_addr, mode, cors_origin })
    }
}

/// Connection-pool settings of a service's database pool.
pub struct PoolSettings {
    pub max_connections: u32,
    pub connect_timeout_secs: u64,
    pub idle_timeout_secs: u64,
    pub max_lifetime_secs: u64,
}

/// A variable's value parsed as an unsigned number up to `max`, or `default`
/// when it is unset or does not parse.
pub open spec fn number_or(var: Option<Seq<char>>, max: nat, default: nat) -> nat {
    match var {
        Some(s) => match parse_unsigned(s, max) {
            Some(v) => v,
            None => default,
        },
        None => default,
    }
}

fn number_or_default(var: Option<String>, max: u64, default: u64) -> (r: u64)
    requires
        default <= max,
    ensures
        r as nat == number_or(opt_view(var), max as nat, default as nat),
        r <= max,
{
    match var {
        Some(s) => match parse_unsigned_decimal(s.as_str(), max) {
            Some(v) => v,
            None => default,
        },
        None => default,
    }
}

impl PoolSettings {
    /// The pool settings from `DB_MAX_CONNECTIONS` (default 20),
    /// `DB_CONNECT_TIMEOUT_SECS` (default 5), `DB_IDLE_TIMEOUT_SECS`
    /// (default 600) and `DB_MAX_LIFETIME_SECS` (default 1800); a value that
    /// does not parse counts as unset.
    pub fn from_vars(
        max_connections: Option<String>,
        connect_timeout: Option<String>,
        idle_timeout: Option<String>,
        max_lifetime: Option<String>,
    ) -> (p: PoolSettings)
        ensures
            p.max_connections as nat == number_or(opt_view(max_connections), u32::MAX as nat, 20),
            p.connect_timeout_secs as nat == number_or(
                opt_view(connect_timeout),
                u64::MAX as nat,
                5,
            ),
            p.idle_timeout_secs as nat == number_or(opt_view(idle_timeout), u64::MAX as nat, 600),
            p.max_lifetime_secs as nat == number_or(
                opt_view(max_lifetime),
                u64::MAX as nat,
                1800,
            ),
    {
        let max_connections = number_or_default(max_connections, u32::MAX as u64, 20) as u32;
        PoolSettings {
            max_connections,
            connect_timeout_secs: number_or_default(connect_timeout, u64::MAX, 5),
            idle_timeout_secs: number_or_default(idle_timeout, u64::MAX, 600),
            max_lifetime_secs: number_or_default(max_lifetime, u64::MAX, 1800),
        }
    }
}

} // verus!
