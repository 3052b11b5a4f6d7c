use vstd::prelude::*;

verus! {

/// The server's settings (paths as text).
#[derive(Debug)]
pub struct ServerConfig {
    pub bind_addr: String,
    pub tls: TlsConfig,
    pub auth: AuthConfig,
    pub database: DatabaseConfig,
    pub log_level: Option<String>,
}

#[derive(Debug)]
pub struct TlsConfig {
    pub cert_path: String,
    pub key_path: String,
}

#[derive(Debug)]
pub struct AuthConfig {
    /// Name of the environment variable holding the token secret.
    pub jwt_secret_env: String,
    pub token_expiry_secs: i64,
}

#[derive(Debug)]
pub struct DatabaseConfig {
    pub path: String,
}

/// The content of an authentication token.
#[derive(Debug)]
pub struct Claims {
    /// The user's id.
    pub sub: String,
    pub username: String,
    /// Expiry, Unix seconds.
    pub exp: i64,
    /// Issue time, Unix seconds.
    pub iat: i64,
}

impl Default for ServerConfig {
    /// Listen on all interfaces on 8443, certificates under `certs/`, the
    /// secret in `GC_JWT_SECRET`, tokens valid seven days, `gamecenter.db`,
    /// log level `info`.
    fn default() -> (c: Self)
        ensures
            c.bind_addr@ == "0.0.0.0:8443"@,
            c.tls.cert_path@ == "certs/server.crt"@,
            c.tls.key_path@ == "certs/server.key"@,
            c.auth.jwt_secret_env@ == "GC_JWT_SECRET"@,
            c.auth.token_expiry_secs == 7 * 24 * 3600,
            c.database.path@ == "gamecenter.db"@,
            c.log_level matches Some(l) && l@ == "info"@,
    {
        ServerConfig {
            bind_addr: "0.0.0.0:8443".to_owned(),
            tls: TlsConfig {
                cert_path: "certs/server.crt".to_owned(),
                key_path: "certs/server.key".to_owned(),
            },
            auth: AuthConfig {
                jwt_secret_env: "GC_JWT_SECRET".to_owned(),
                token_expiry_secs: 7 * 24 * 3600,
            },
            database: DatabaseConfig { path: "gamecenter.db".to_owned() },
            log_level: Some("info".to_owned()),
        }
    }
}

} // verus!
