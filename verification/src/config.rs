//! The settings of the service and their defaults.

use vstd::prelude::*;
use rand::Rng;

verus! {

/// The settings of the service.
#[derive(Debug, PartialEq, Eq)]
pub struct Config {
    pub port: u16,
    pub db_path: String,
    pub jwt_secret: String,
    pub admin_username: String,
    pub admin_password: String,
    pub token_expiry_hours: u64,
}

/// Settings from the environment; each one that is present wins over what
/// the settings held before.
#[derive(Debug, PartialEq, Eq)]
pub struct Overrides {
    pub port: Option<u16>,
    pub db_path: Option<String>,
    pub jwt_secret: Option<String>,
    pub admin_username: Option<String>,
    pub admin_password: Option<String>,
}

/// The port to listen on when none is set.
pub fn default_port() -> (port: u16)
    ensures
        port == 21114,
{
    21114
}

/// Where the database lies when no path is set.
pub fn default_db_path() -> (path: String)
    ensures
        path@ == "data/db.sqlite3"@,
{
    "data/db.sqlite3".to_string()
}

/// The login name of the first administrator when none is set.
pub fn default_admin_username() -> (name: String)
    ensures
        name@ == "admin"@,
{
    "admin".to_string()
}

/// The password of the first administrator when none is set.
pub fn default_admin_password() -> (password: String)
    ensures
        password@ == "admin"@,
{
    "admin".to_string()
}

/// How long a token is good for when nothing is set: seven days.
pub fn default_token_expiry_hours() -> (hours: u64)
    ensures
        hours == 7 * 24,
{
    168
}

/// A letter or digit of ASCII.
pub open spec fn is_ascii_alphanumeric(c: char) -> bool {
    ('A' <= c && c <= 'Z') || ('a' <= c && c <= 'z') || ('0' <= c && c <= '9')
}

/// The secret that signs tokens when none is set: 64 letters and digits
/// that `rand::thread_rng` draws from `rand::distributions::Alphanumeric`.
/// Sessions do not outlive the process that drew it.
#[verifier::external_body]
fn default_jwt_secret() -> (secret: String)
    ensures
        secret@.len() == 64,
        forall|i: int| 0 <= i < secret@.len() ==> is_ascii_alphanumeric(#[trigger] secret@[i]),
{
    rand::thread_rng().sample_iter(&rand::distributions::Alphanumeric).take(64).map(char::from).collect()
}

impl Config {
    /// The settings when nothing is set, with `jwt_secret` to sign tokens.
    pub fn with_secret(jwt_secret: String) -> (c: Config)
        ensures
            c.port == 21114,
            c.db_path@ == "data/db.sqlite3"@,
            c.jwt_secret == jwt_secret,
            c.admin_username@ == "admin"@,
            c.admin_password@ == "admin"@,
            c.token_expiry_hours == 168,
    {
        Config {
            port: default_port(),
            db_path: default_db_path(),
            jwt_secret,
            admin_username: default_admin_username(),
            admin_password: default_admin_password(),
            token_expiry_hours: default_token_expiry_hours(),
        }
    }

    /// The settings when nothing is set, with a newly drawn secret of 64
    /// letters and digits to sign tokens.
    pub fn defaults() -> (c: Config)
        ensures
            c.port == 21114,
            c.db_path@ == "data/db.sqlite3"@,
            c.jwt_secret@.len() == 64,
            forall|i: int|
                0 <= i < c.jwt_secret@.len() ==> is_ascii_alphanumeric(#[trigger] c.jwt_secret@[i]),
            c.admin_username@ == "admin"@,
            c.admin_password@ == "admin"@,
            c.token_expiry_hours == 168,
    {
        Config::with_secret(default_jwt_secret())
    }

    /// The settings with every one replaced that `env` holds.
    pub fn overridden(self, env: Overrides) -> (c: Config)
        ensures
            c.port == (if env.port is Some { env.port->0 } else { self.port }),
            c.db_path == (if env.db_path is Some { env.db_path->0 } else { self.db_path }),
            c.jwt_secret == (if env.jwt_secret is Some { env.jwt_secret->0 } else { self.jwt_secret }),
            c.admin_username == (if env.admin_username is Some {
                env.admin_username->0
            } else {
                self.admin_username
            }),
            c.admin_password == (if env.admin_password is Some {
                env.admin_password->0
            } else {
                self.admin_password
            }),
            c.token_expiry_hours == self.token_expiry_hours,
    {
        Config {
            port: match env.port {
                Some(p) => p,
                None => self.port,
            },
            db_path: match env.db_path {
                Some(p) => p,
                None => self.db_path,
            },
            jwt_secret: match env.jwt_secret {
                Some(p) => p,
                None => self.jwt_secret,
            },
            admin_username: match env.admin_username {
                Some(p) => p,
                None => self.admin_username,
            },
            admin_password: match env.admin_password {
                Some(p) => p,
                None => self.admin_password,
            },
            token_expiry_hours: self.token_expiry_hours,
        }
    }
}

} // verus!
