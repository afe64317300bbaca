//! The command-line front end's settings: a two-level `section.key` store
//! read and written as text, and the paths derived from it.
use vstd::prelude::*;
use crate::text::{
    bool_text, bool_to_text, decimal_spec, parse_bool, parse_bool_spec, parse_unsigned,
    parse_unsigned_spec, str_eq, u64_to_decimal,
};

verus! {

/// Errors of the front end.
pub enum CliError {
    ConfigError(String),
    DatabaseError(String),
    IoError(String),
    SyncError(String),
    DaemonError(String),
    ValidationError(String),
    AuthError(String),
    NotFound(String),
    Other(String),
}

/// A `CliError` with its message as characters.
pub enum CliErrorView {
    ConfigError(Seq<char>),
    DatabaseError(Seq<char>),
    IoError(Seq<char>),
    SyncError(Seq<char>),
    DaemonError(Seq<char>),
    ValidationError(Seq<char>),
    AuthError(Seq<char>),
    NotFound(Seq<char>),
    Other(Seq<char>),
}

impl View for CliError {
    type V = CliErrorView;

    open spec fn view(&self) -> CliErrorView {
        match self {
            CliError::ConfigError(m) => CliErrorView::ConfigError(m@),
            CliError::DatabaseError(m) => CliErrorView::DatabaseError(m@),
            CliError::IoError(m) => CliErrorView::IoError(m@),
            CliError::SyncError(m) => CliErrorView::SyncError(m@),
            CliError::DaemonError(m) => CliErrorView::DaemonError(m@),
            CliError::ValidationError(m) => CliErrorView::ValidationError(m@),
            CliError::AuthError(m) => CliErrorView::AuthError(m@),
            CliError::NotFound(m) => CliErrorView::NotFound(m@),
            CliError::Other(m) => CliErrorView::Other(m@),
        }
    }
}

/// The text shown for an error.
pub open spec fn error_message_spec(e: CliErrorView) -> Seq<char> {
    match e {
        CliErrorView::ConfigError(m) => "Configuration error: "@ + m,
        CliErrorView::DatabaseError(m) => "Database error: "@ + m,
        CliErrorView::IoError(m) => "IO error: "@ + m,
        CliErrorView::SyncError(m) => "Sync error: "@ + m,
        CliErrorView::DaemonError(m) => "Daemon error: "@ + m,
        CliErrorView::ValidationError(m) => "Validation error: "@ + m,
        CliErrorView::AuthError(m) => "Authentication error: "@ + m,
        CliErrorView::NotFound(m) => "Not found: "@ + m,
        CliErrorView::Other(m) => m,
    }
}

fn prefixed(prefix: &str, m: &String) -> (r: String)
    ensures
        r@ == prefix@ + m@,
{
    let mut s = prefix.to_string();
    s.append(m.as_str());
    s
}

impl CliError {
    /// The text shown for this error.
    pub fn message(&self) -> (r: String)
        ensures
            r@ == error_message_spec(self@),
    {
        match self {
            CliError::ConfigError(m) => prefixed("Configuration error: ", m),
            CliError::DatabaseError(m) => prefixed("Database error: ", m),
            CliError::IoError(m) => prefixed("IO error: ", m),
            CliError::SyncError(m) => prefixed("Sync error: ", m),
            CliError::DaemonError(m) => prefixed("Daemon error: ", m),
            CliError::ValidationError(m) => prefixed("Validation error: ", m),
            CliError::AuthError(m) => prefixed("Authentication error: ", m),
            CliError::NotFound(m) => prefixed("Not found: ", m),
            CliError::Other(m) => m.clone(),
        }
    }
}

pub struct DatabaseConfig {
    pub path: String,
    pub auto_migrate: bool,
}

pub struct UserConfig {
    pub id: String,
    pub name: String,
    pub email: String,
}

pub struct DeviceConfig {
    pub id: String,
    pub device_type: String,
    pub name: String,
}

#[derive(Clone, Copy, Debug, PartialEq, Eq, Structural)]
pub struct SyncConfig {
    pub enabled: bool,
    pub auto_start: bool,
    pub enable_mdns: bool,
    pub enable_relay: bool,
    pub heartbeat_interval_secs: u64,
    pub max_message_size: usize,
}

pub struct NetworkConfig {
    pub listen_port: u16,
    pub listen_address: String,
    pub bootstrap_nodes: Vec<String>,
    pub relay_servers: Vec<String>,
}

pub struct LoggingConfig {
    pub level: String,
    pub format: String,
    pub file: String,
    pub max_size_mb: u64,
    pub max_files: u32,
}

pub struct Config {
    pub database: DatabaseConfig,
    pub user: Option<UserConfig>,
    pub device: Option<DeviceConfig>,
    pub sync: SyncConfig,
    pub network: NetworkConfig,
    pub logging: LoggingConfig,
}

pub struct DatabaseConfigView {
    pub path: Seq<char>,
    pub auto_migrate: bool,
}

pub struct UserConfigView {
    pub id: Seq<char>,
    pub name: Seq<char>,
    pub email: Seq<char>,
}

pub struct DeviceConfigView {
    pub id: Seq<char>,
    pub device_type: Seq<char>,
    pub name: Seq<char>,
}

pub struct NetworkConfigView {
    pub listen_port: u16,
    pub listen_address: Seq<char>,
    pub bootstrap_nodes: Seq<Seq<char>>,
    pub relay_servers: Seq<Seq<char>>,
}

pub struct LoggingConfigView {
    pub level: Seq<char>,
    pub format: Seq<char>,
    pub file: Seq<char>,
    pub max_size_mb: u64,
    pub max_files: u32,
}

pub struct ConfigView {
    pub database: DatabaseConfigView,
    pub user: Option<UserConfigView>,
    pub device: Option<DeviceConfigView>,
    pub sync: SyncConfig,
    pub network: NetworkConfigView,
    pub logging: LoggingConfigView,
}

pub open spec fn strings_view(v: Seq<String>) -> Seq<Seq<char>> {
    v.map_values(|s: String| s@)
}

impl View for Config {
    type V = ConfigView;

    open spec fn view(&self) -> ConfigView {
        ConfigView {
            database: DatabaseConfigView {
                path: self.database.path@,
                auto_migrate: self.database.auto_migrate,
            },
            user: match &self.user {
                Some(u) => Some(UserConfigView { id: u.id@, name: u.name@, email: u.email@ }),
                None => None,
            },
            device: match &self.device {
                Some(d) => Some(
                    DeviceConfigView { id: d.id@, device_type: d.device_type@, name: d.name@ },
                ),
                None => None,
            },
            sync: self.sync,
            network: NetworkConfigView {
                listen_port: self.network.listen_port,
                listen_address: self.network.listen_address@,
                bootstrap_nodes: strings_view(self.network.bootstrap_nodes@),
                relay_servers: strings_view(self.network.relay_servers@),
            },
            logging: LoggingConfigView {
                level: self.logging.level@,
                format: self.logging.format@,
                file: self.logging.file@,
                max_size_mb: self.logging.max_size_mb,
                max_files: self.logging.max_files,
            },
        }
    }
}

/// `i` is the position of the only `.` in `key`.
pub open spec fn only_dot_at(key: Seq<char>, i: int) -> bool {
    &&& 0 <= i < key.len()
    &&& key[i] == '.'
    &&& forall|j: int| 0 <= j < key.len() && j != i ==> key[j] != '.'
}

/// `key` split at its only `.` into section and name; `None` unless it
/// holds exactly one.
pub open spec fn key_parts(key: Seq<char>) -> Option<(Seq<char>, Seq<char>)> {
    if exists|i: int| only_dot_at(key, i) {
        let i = choose|i: int| only_dot_at(key, i);
        Some((key.subrange(0, i), key.subrange(i + 1, key.len() as int)))
    } else {
        None
    }
}

pub open spec fn bad_format() -> CliErrorView {
    CliErrorView::ValidationError("Key must be in format: section.key"@)
}

pub open spec fn unknown_key(key: Seq<char>) -> CliErrorView {
    CliErrorView::NotFound("Unknown key: "@ + key)
}

pub open spec fn unknown_section(section: Seq<char>) -> CliErrorView {
    CliErrorView::NotFound("Unknown section: "@ + section)
}

/// The text of the setting `key`.
pub open spec fn get_spec(c: ConfigView, key: Seq<char>) -> Result<Seq<char>, CliErrorView> {
    match key_parts(key) {
        None => Err(bad_format()),
        Some((sec, name)) => if sec == "database"@ {
            if name == "path"@ {
                Ok(c.database.path)
            } else if name == "auto_migrate"@ {
                Ok(bool_text(c.database.auto_migrate))
            } else {
                Err(unknown_key(key))
            }
        } else if sec == "sync"@ {
            if name == "enabled"@ {
                Ok(bool_text(c.sync.enabled))
            } else if name == "auto_start"@ {
                Ok(bool_text(c.sync.auto_start))
            } else if name == "enable_mdns"@ {
                Ok(bool_text(c.sync.enable_mdns))
            } else if name == "enable_relay"@ {
                Ok(bool_text(c.sync.enable_relay))
            } else if name == "heartbeat_interval_secs"@ {
                Ok(decimal_spec(c.sync.heartbeat_interval_secs as nat))
            } else if name == "max_message_size"@ {
                Ok(decimal_spec(c.sync.max_message_size as nat))
            } else {
                Err(unknown_key(key))
            }
        } else if sec == "network"@ {
            if name == "listen_port"@ {
                Ok(decimal_spec(c.network.listen_port as nat))
            } else if name == "listen_address"@ {
                Ok(c.network.listen_address)
            } else {
                Err(unknown_key(key))
            }
        } else if sec == "logging"@ {
            if name == "level"@ {
                Ok(c.logging.level)
            } else if name == "format"@ {
                Ok(c.logging.format)
            } else if name == "file"@ {
                Ok(c.logging.file)
            } else if name == "max_size_mb"@ {
                Ok(decimal_spec(c.logging.max_size_mb as nat))
            } else if name == "max_files"@ {
                Ok(decimal_spec(c.logging.max_files as nat))
            } else {
                Err(unknown_key(key))
            }
        } else if sec == "user"@ {
            if name == "id"@ || name == "name"@ || name == "email"@ {
                match c.user {
                    None => Err(CliErrorView::NotFound("User not configured"@)),
                    Some(u) => Ok(
                        if name == "id"@ {
                            u.id
                        } else if name == "name"@ {
                            u.name
                        } else {
                            u.email
                        },
                    ),
                }
            } else {
                Err(unknown_key(key))
            }
        } else if sec == "device"@ {
            if name == "id"@ || name == "type"@ || name == "name"@ {
                match c.device {
                    None => Err(CliErrorView::NotFound("Device not configured"@)),
                    Some(d) => Ok(
                        if name == "id"@ {
                            d.id
                        } else if name == "type"@ {
                            d.device_type
                        } else {
                            d.name
                        },
                    ),
                }
            } else {
                Err(unknown_key(key))
            }
        } else {
            Err(unknown_section(sec))
        },
    }
}

pub open spec fn invalid_bool() -> CliErrorView {
    CliErrorView::ValidationError("Invalid boolean value"@)
}

pub open spec fn invalid_number() -> CliErrorView {
    CliErrorView::ValidationError("Invalid number value"@)
}

/// The settings after writing `value` to `key`.
pub open spec fn set_spec(c: ConfigView, key: Seq<char>, value: Seq<char>) -> Result<
    ConfigView,
    CliErrorView,
> {
    match key_parts(key) {
        None => Err(bad_format()),
        Some((sec, name)) => if sec == "database"@ {
            if name == "path"@ {
                Ok(ConfigView { database: DatabaseConfigView { path: value, ..c.database }, ..c })
            } else if name == "auto_migrate"@ {
                match parse_bool_spec(value) {
                    Some(b) => Ok(
                        ConfigView {
                            database: DatabaseConfigView { auto_migrate: b, ..c.database },
                            ..c
                        },
                    ),
                    None => Err(invalid_bool()),
                }
            } else {
                Err(unknown_key(key))
            }
        } else if sec == "sync"@ {
            if name == "enabled"@ {
                match parse_bool_spec(value) {
                    Some(b) => Ok(ConfigView { sync: SyncConfig { enabled: b, ..c.sync }, ..c }),
                    None => Err(invalid_bool()),
                }
            } else if name == "auto_start"@ {
                match parse_bool_spec(value) {
                    Some(b) => Ok(ConfigView { sync: SyncConfig { auto_start: b, ..c.sync }, ..c }),
                    None => Err(invalid_bool()),
                }
            } else if name == "enable_mdns"@ {
                match parse_bool_spec(value) {
                    Some(b) => Ok(ConfigView { sync: SyncConfig { enable_mdns: b, ..c.sync }, ..c }),
                    None => Err(invalid_bool()),
                }
            } else if name == "enable_relay"@ {
                match parse_bool_spec(value) {
                    Some(b) => Ok(
                        ConfigView { sync: SyncConfig { enable_relay: b, ..c.sync }, ..c },
                    ),
                    None => Err(invalid_bool()),
                }
            } else if name == "heartbeat_interval_secs"@ {
                match parse_unsigned_spec(value, u64::MAX as nat) {
                    Some(n) => Ok(
                        ConfigView {
                            sync: SyncConfig { heartbeat_interval_secs: n as u64, ..c.sync },
                            ..c
                        },
                    ),
                    None => Err(invalid_number()),
                }
            } else if name == "max_message_size"@ {
                match parse_unsigned_spec(value, usize::MAX as nat) {
                    Some(n) => Ok(
                        ConfigView { sync: SyncConfig { max_message_size: n as usize, ..c.sync }, ..c },
                    ),
                    None => Err(invalid_number()),
                }
            } else {
                Err(unknown_key(key))
            }
        } else if sec == "network"@ {
            if name == "listen_port"@ {
                match parse_unsigned_spec(value, u16::MAX as nat) {
                    Some(n) => Ok(
                        ConfigView {
                            network: NetworkConfigView { listen_port: n as u16, ..c.network },
                            ..c
                        },
                    ),
                    None => Err(CliErrorView::ValidationError("Invalid port number"@)),
                }
            } else if name == "listen_address"@ {
                Ok(
                    ConfigView {
                        network: NetworkConfigView { listen_address: value, ..c.network },
                        ..c
                    },
                )
            } else {
                Err(unknown_key(key))
            }
        } else if sec == "logging"@ {
            if name == "level"@ {
                Ok(ConfigView { logging: LoggingConfigView { level: value, ..c.logging }, ..c })
            } else if name == "format"@ {
                Ok(ConfigView { logging: LoggingConfigView { format: value, ..c.logging }, ..c })
            } else if name == "file"@ {
                Ok(ConfigView { logging: LoggingConfigView { file: value, ..c.logging }, ..c })
            } else if name == "max_size_mb"@ {
                match parse_unsigned_spec(value, u64::MAX as nat) {
                    Some(n) => Ok(
                        ConfigView {
                            logging: LoggingConfigView { max_size_mb: n as u64, ..c.logging },
                            ..c
                        },
                    ),
                    None => Err(invalid_number()),
                }
            } else if name == "max_files"@ {
                match parse_unsigned_spec(value, u32::MAX as nat) {
                    Some(n) => Ok(
                        ConfigView {
                            logging: LoggingConfigView { max_files: n as u32, ..c.logging },
                            ..c
                        },
                    ),
                    None => Err(invalid_number()),
                }
            } else {
                Err(unknown_key(key))
            }
        } else {
            Err(unknown_section(sec))
        },
    }
}

/// `rest` appended to `base` as a path component, with `/` separators: an
/// absolute `rest` replaces `base`.
pub open spec fn join_spec(base: Seq<char>, rest: Seq<char>) -> Seq<char> {
    if rest.len() > 0 && rest[0] == '/' {
        rest
    } else if base.len() == 0 {
        rest
    } else if base.last() == '/' {
        base + rest
    } else {
        base + "/"@ + rest
    }
}

/// `path` with a leading `~/` replaced by the home directory, when known.
pub open spec fn expand_spec(path: Seq<char>, home: Option<Seq<char>>) -> Seq<char> {
    if path.len() >= 2 && path[0] == '~' && path[1] == '/' && home is Some {
        join_spec(home->Some_0, path.subrange(2, path.len() as int))
    } else {
        path
    }
}

/// The application directory under the home directory (or under `.`).
pub open spec fn nexus_dir_spec(home: Option<Seq<char>>) -> Seq<char> {
    join_spec(
        match home {
            Some(h) => h,
            None => "."@,
        },
        ".nexus"@,
    )
}

/// Joins two path components (see `join_spec`).
pub fn join_path(base: &str, rest: &str) -> (r: String)
    ensures
        r@ == join_spec(base@, rest@),
{
    proof {
        reveal_strlit("/");
    }
    if rest.unicode_len() > 0 && rest.get_char(0) == '/' {
        return rest.to_string();
    }
    let n = base.unicode_len();
    if n == 0 {
        return rest.to_string();
    }
    let mut s = base.to_string();
    if base.get_char(n - 1) != '/' {
        s.append("/");
    }
    s.append(rest);
    s
}

/// Relies on dirs::home_dir (its path made text by
/// `Path::to_string_lossy`): the current user's home directory, if the
/// environment names one. Nothing is promised of its value.
#[verifier::external_body]
fn home_dir() -> (r: Option<String>) {
    dirs::home_dir().map(|p| p.to_string_lossy().to_string())
}

/// Splits `key` at its only `.`.
fn split_key(key: &str) -> (r: Option<(&str, &str)>)
    ensures
        match key_parts(key@) {
            Some((a, b)) => r matches Some((x, y)) && x@ == a && y@ == b,
            None => r is None,
        },
{
    let n = key.unicode_len();
    let mut i: usize = 0;
    while i < n && key.get_char(i) != '.'
        invariant
            n == key@.len(),
            0 <= i <= n,
            forall|j: int| 0 <= j < i ==> key@[j] != '.',
        decreases n - i,
    {
        i += 1;
    }
    if i == n {
        assert(!exists|k: int| only_dot_at(key@, k));
        return None;
    }
    let mut j: usize = i + 1;
    while j < n
        invariant
            n == key@.len(),
            i < j <= n,
            key@[i as int] == '.',
            forall|k: int| 0 <= k < i ==> key@[k] != '.',
            forall|k: int| i < k < j ==> key@[k] != '.',
        decreases n - j,
    {
        if key.get_char(j) == '.' {
            assert(!exists|k: int| only_dot_at(key@, k)) by {
                if exists|k: int| only_dot_at(key@, k) {
                    let k = choose|k: int| only_dot_at(key@, k);
                    assert(key@[i as int] == '.' && key@[j as int] == '.');
                }
            }
            return None;
        }
        j += 1;
    }
    assert(only_dot_at(key@, i as int));
    proof {
        let k = choose|k: int| only_dot_at(key@, k);
        assert(k == i);
    }
    Some((key.substring_char(0, i), key.substring_char(i + 1, n)))
}

fn not_found_key(key: &str) -> (r: CliError)
    ensures
        r@ == unknown_key(key@),
{
    let mut m = "Unknown key: ".to_string();
    m.append(key);
    CliError::NotFound(m)
}

fn validation(msg: &str) -> (r: CliError)
    ensures
        r@ == CliErrorView::ValidationError(msg@),
{
    CliError::ValidationError(msg.to_string())
}

impl Default for Config {
    /// Database and log under the application directory, sync enabled with
    /// discovery and relaying, an ephemeral port on all interfaces, and no
    /// user or device yet.
    fn default() -> (r: Config)
        ensures
            exists|home: Option<Seq<char>>|
                r.database.path@ == join_spec(nexus_dir_spec(home), "nexus.db"@) && r.logging.file@
                    == join_spec(nexus_dir_spec(home), "nexus.log"@),
            r.database.auto_migrate,
            r.user is None,
            r.device is None,
            r.sync == (SyncConfig {
                enabled: true,
                auto_start: false,
                enable_mdns: true,
                enable_relay: true,
                heartbeat_interval_secs: 10,
                max_message_size: 65536,
            }),
            r.network.listen_port == 0,
            r.network.listen_address@ == "0.0.0.0"@,
            r.network.bootstrap_nodes@.len() == 0,
            r.network.relay_servers@.len() == 0,
            r.logging.level@ == "info"@,
            r.logging.format@ == "pretty"@,
            r.logging.max_size_mb == 100,
            r.logging.max_files == 5,
    {
        let dir = Config::nexus_dir();
        Config {
            database: DatabaseConfig {
                path: join_path(dir.as_str(), "nexus.db"),
                auto_migrate: true,
            },
            user: None,
            device: None,
            sync: SyncConfig {
                enabled: true,
                auto_start: false,
                enable_mdns: true,
                enable_relay: true,
                heartbeat_interval_secs: 10,
                max_message_size: 65536,
            },
            network: NetworkConfig {
                listen_port: 0,
                listen_address: "0.0.0.0".to_string(),
                bootstrap_nodes: Vec::new(),
                relay_servers: Vec::new(),
            },
            logging: LoggingConfig {
                level: "info".to_string(),
                format: "pretty".to_string(),
                file: join_path(dir.as_str(), "nexus.log"),
                max_size_mb: 100,
                max_files: 5,
            },
        }
    }
}

impl Config {
    /// `path` with a leading `~/` replaced by `home`, when given.
    pub fn expand_path_with(path: &str, home: Option<String>) -> (r: String)
        ensures
            r@ == expand_spec(
                path@,
                match home {
                    Some(h) => Some(h@),
                    None => None,
                },
            ),
    {
        let n = path.unicode_len();
        if n >= 2 && path.get_char(0) == '~' && path.get_char(1) == '/' {
            match home {
                Some(h) => {
                    return join_path(h.as_str(), path.substring_char(2, n));
                },
                None => {},
            }
        }
        path.to_string()
    }

    /// `path` with a leading `~/` replaced by the current home directory.
    pub fn expand_path(path: &str) -> (r: String)
        ensures
            exists|home: Option<Seq<char>>| r@ == expand_spec(path@, home),
    {
        let home = home_dir();
        let ghost h = match &home {
            Some(s) => Some(s@),
            None => None,
        };
        let r = Self::expand_path_with(path, home);
        assert(r@ == expand_spec(path@, h));
        r
    }

    /// The application directory for a given home directory.
    pub fn nexus_dir_with(home: Option<String>) -> (r: String)
        ensures
            r@ == nexus_dir_spec(
                match home {
                    Some(h) => Some(h@),
                    None => None,
                },
            ),
    {
        match home {
            Some(h) => join_path(h.as_str(), ".nexus"),
            None => join_path(".", ".nexus"),
        }
    }

    /// The application directory under the current home directory.
    pub fn nexus_dir() -> (r: String)
        ensures
            exists|home: Option<Seq<char>>| r@ == nexus_dir_spec(home),
    {
        let home = home_dir();
        let ghost h = match &home {
            Some(s) => Some(s@),
            None => None,
        };
        let r = Self::nexus_dir_with(home);
        assert(r@ == nexus_dir_spec(h));
        r
    }

    /// The configuration file's default location.
    pub fn default_path() -> (r: String)
        ensures
            exists|home: Option<Seq<char>>| r@ == join_spec(nexus_dir_spec(home), "config.toml"@),
    {
        let d = Self::nexus_dir();
        join_path(d.as_str(), "config.toml")
    }

    /// The daemon's PID file.
    pub fn pid_file() -> (r: String)
        ensures
            exists|home: Option<Seq<char>>| r@ == join_spec(nexus_dir_spec(home), "nexus.pid"@),
    {
        let d = Self::nexus_dir();
        join_path(d.as_str(), "nexus.pid")
    }

    /// The database path with `~/` expanded.
    pub fn db_path(&self) -> (r: String)
        ensures
            exists|home: Option<Seq<char>>| r@ == expand_spec(self.database.path@, home),
    {
        Self::expand_path(self.database.path.as_str())
    }

    /// The log file path with `~/` expanded.
    pub fn log_path(&self) -> (r: String)
        ensures
            exists|home: Option<Seq<char>>| r@ == expand_spec(self.logging.file@, home),
    {
        Self::expand_path(self.logging.file.as_str())
    }

    /// The text of the setting `key` (`section.name`).
    pub fn get_value(&self, key: &str) -> (r: Result<String, CliError>)
        ensures
            match get_spec(self@, key@) {
                Ok(v) => r matches Ok(s) && s@ == v,
                Err(e) => r matches Err(err) && err@ == e,
            },
    {
        let (sec, name) = match split_key(key) {
            Some(p) => p,
            None => return Err(validation("Key must be in format: section.key")),
        };
        if str_eq(sec, "database") {
            if str_eq(name, "path") {
                Ok(self.database.path.clone())
            } else if str_eq(name, "auto_migrate") {
                Ok(bool_to_text(self.database.auto_migrate))
            } else {
                Err(not_found_key(key))
            }
        } else if str_eq(sec, "sync") {
            if str_eq(name, "enabled") {
                Ok(bool_to_text(self.sync.enabled))
            } else if str_eq(name, "auto_start") {
                Ok(bool_to_text(self.sync.auto_start))
            } else if str_eq(name, "enable_mdns") {
                Ok(bool_to_text(self.sync.enable_mdns))
            } else if str_eq(name, "enable_relay") {
                Ok(bool_to_text(self.sync.enable_relay))
            } else if str_eq(name, "heartbeat_interval_secs") {
                Ok(u64_to_decimal(self.sync.heartbeat_interval_secs))
            } else if str_eq(name, "max_message_size") {
                Ok(u64_to_decimal(self.sync.max_message_size as u64))
            } else {
                Err(not_found_key(key))
            }
        } else if str_eq(sec, "network") {
            if str_eq(name, "listen_port") {
                Ok(u64_to_decimal(self.network.listen_port as u64))
            } else if str_eq(name, "listen_address") {
                Ok(self.network.listen_address.clone())
            } else {
                Err(not_found_key(key))
            }
        } else if str_eq(sec, "logging") {
            if str_eq(name, "level") {
                Ok(self.logging.level.clone())
            } else if str_eq(name, "format") {
                Ok(self.logging.format.clone())
            } else if str_eq(name, "file") {
                Ok(self.logging.file.clone())
            } else if str_eq(name, "max_size_mb") {
                Ok(u64_to_decimal(self.logging.max_size_mb))
            } else if str_eq(name, "max_files") {
                Ok(u64_to_decimal(self.logging.max_files as u64))
            } else {
                Err(not_found_key(key))
            }
        } else if str_eq(sec, "user") {
            let is_id = str_eq(name, "id");
            let is_name = str_eq(name, "name");
            let is_email = str_eq(name, "email");
            if !(is_id || is_name || is_email) {
                return Err(not_found_key(key));
            }
            match &self.user {
                None => Err(CliError::NotFound("User not configured".to_string())),
                Some(u) => Ok(
                    if is_id {
                        u.id.clone()
                    } else if is_name {
                        u.name.clone()
                    } else {
                        u.email.clone()
                    },
                ),
            }
        } else if str_eq(sec, "device") {
            let is_id = str_eq(name, "id");
            let is_type = str_eq(name, "type");
            let is_name = str_eq(name, "name");
            if !(is_id || is_type || is_name) {
                return Err(not_found_key(key));
            }
            match &self.device {
                None => Err(CliError::NotFound("Device not configured".to_string())),
                Some(d) => Ok(
                    if is_id {
                        d.id.clone()
                    } else if is_type {
                        d.device_type.clone()
                    } else {
                        d.name.clone()
                    },
                ),
            }
        } else {
            let mut m = "Unknown section: ".to_string();
            m.append(sec);
            Err(CliError::NotFound(m))
        }
    }

    /// Writes `value` to the setting `key` (`section.name`); on error
    /// nothing changes.
    pub fn set_value(&mut self, key: &str, value: &str) -> (r: Result<(), CliError>)
        ensures
            match set_spec(old(self)@, key@, value@) {
                Ok(c) => r is Ok && final(self)@ == c,
                Err(e) => r matches Err(err) && err@ == e && final(self)@ == old(self)@,
            },
    {
        let (sec, name) = match split_key(key) {
            Some(p) => p,
            None => return Err(validation("Key must be in format: section.key")),
        };
        if str_eq(sec, "database") {
            if str_eq(name, "path") {
                self.database.path = value.to_string();
            } else if str_eq(name, "auto_migrate") {
                match parse_bool(value) {
                    Some(b) => self.database.auto_migrate = b,
                    None => return Err(validation("Invalid boolean value")),
                }
            } else {
                return Err(not_found_key(key));
            }
        } else if str_eq(sec, "sync") {
            if str_eq(name, "enabled") {
                match parse_bool(value) {
                    Some(b) => self.sync.enabled = b,
                    None => return Err(validation("Invalid boolean value")),
                }
            } else if str_eq(name, "auto_start") {
                match parse_bool(value) {
                    Some(b) => self.sync.auto_start = b,
                    None => return Err(validation("Invalid boolean value")),
                }
            } else if str_eq(name, "enable_mdns") {
                match parse_bool(value) {
                    Some(b) => self.sync.enable_mdns = b,
                    None => return Err(validation("Invalid boolean value")),
                }
            } else if str_eq(name, "enable_relay") {
                match parse_bool(value) {
                    Some(b) => self.sync.enable_relay = b,
                    None => return Err(validation("Invalid boolean value")),
                }
            } else if str_eq(name, "heartbeat_interval_secs") {
                match parse_unsigned(value, u64::MAX) {
                    Some(n) => self.sync.heartbeat_interval_secs = n,
                    None => return Err(validation("Invalid number value")),
                }
            } else if str_eq(name, "max_message_size") {
                match parse_unsigned(value, usize::MAX as u64) {
                    Some(n) => self.sync.max_message_size = n as usize,
                    None => return Err(validation("Invalid number value")),
                }
            } else {
                return Err(not_found_key(key));
            }
        } else if str_eq(sec, "network") {
            if str_eq(name, "listen_port") {
                match parse_unsigned(value, u16::MAX as u64) {
                    Some(n) => self.network.listen_port = n as u16,
                    None => return Err(validation("Invalid port number")),
                }
            } else if str_eq(name, "listen_address") {
                self.network.listen_address = value.to_string();
            } else {
                return Err(not_found_key(key));
            }
        } else if str_eq(sec, "logging") {
            if str_eq(name, "level") {
                self.logging.level = value.to_string();
            } else if str_eq(name, "format") {
                self.logging.format = value.to_string();
            } else if str_eq(name, "file") {
                self.logging.file = value.to_string();
            } else if str_eq(name, "max_size_mb") {
                match parse_unsigned(value, u64::MAX) {
                    Some(n) => self.logging.max_size_mb = n,
                    None => return Err(validation("Invalid number value")),
                }
            } else if str_eq(name, "max_files") {
                match parse_unsigned(value, u32::MAX as u64) {
                    Some(n) => self.logging.max_files = n as u32,
                    None => return Err(validation("Invalid number value")),
                }
            } else {
                return Err(not_found_key(key));
            }
        } else {
            let mut m = "Unknown section: ".to_string();
            m.append(sec);
            return Err(CliError::NotFound(m));
        }
        Ok(())
    }
}

} // verus!
