//! Settings of the server, read from its TOML file.
use vstd::prelude::*;

verus! {

/// The server's settings.
pub struct Config {
    pub server: ServerConfig,
    pub database: DatabaseConfig,
    pub jwt: JwtConfig,
    pub logging: LoggingConfig,
}

/// Where the server listens and what it serves.
pub struct ServerConfig {
    pub host: String,
    pub port: u16,
    pub https: Option<HttpsConfig>,
    pub ui_path: Option<String>,
}

/// TLS settings.
pub struct HttpsConfig {
    pub enabled: bool,
    pub cert_path: String,
    pub key_path: String,
}

/// The database location.
pub struct DatabaseConfig {
    pub url: String,
}

/// Signing of login tokens.
pub struct JwtConfig {
    pub secret: String,
    pub expiration_hours: i64,
}

/// Log verbosity.
pub struct LoggingConfig {
    pub level: String,
}

/// The settings file written for a new server.
pub open spec fn server_template() -> Seq<char> {
    r#"[server]
host = "0.0.0.0"
port = 8080

[server.https]
enabled = false
cert_path = "certs/cert.pem"
key_path = "certs/key.pem"

# Optional: Path to custom UI directory.
# If invalid or empty, server defaults to "./static" (or embedded UI if compiled with feature).
# ui_path = "./static"

[database]
# URL for the SQLite database. Ensure the directory exists.
url = "sqlite://slatron.db"

[jwt]
secret = "change-me-in-production"
expiration_hours = 24

[logging]
level = "info"
"#@
}

impl Config {
    /// The text of a starter settings file.
    pub fn default_template() -> (r: &'static str)
        ensures
            r@ == server_template(),
    {
        r#"[server]
host = "0.0.0.0"
port = 8080

[server.https]
enabled = false
cert_path = "certs/cert.pem"
key_path = "certs/key.pem"

# Optional: Path to custom UI directory.
# If invalid or empty, server defaults to "./static" (or embedded UI if compiled with feature).
# ui_path = "./static"

[database]
# URL for the SQLite database. Ensure the directory exists.
url = "sqlite://slatron.db"

[jwt]
secret = "change-me-in-production"
expiration_hours = 24

[logging]
level = "info"
"#
    }
}

} // verus!
