//! Server configuration from environment values.

use vstd::prelude::*;
use crate::filters::{decimal, push_decimal};
use crate::numbers::{parse_u16, parsed_u16};

verus! {

#[derive(Debug, Clone)]
pub enum AuthMode {
    Unauthenticated,
    Password(String),
}

#[derive(Debug, Clone)]
pub struct Config {
    pub host: String,
    pub port: u16,
    pub database_path: String,
    pub migrations_path: String,
    pub static_path: String,
    pub auth_mode: AuthMode,
}

/// Why the password-hash setting is refused.
#[derive(Debug, Clone)]
pub enum AuthConfigError {
    /// The variable is not set.
    Missing,
    /// The variable is set to the empty string.
    Empty,
    /// The value is neither an Argon2id hash nor the opt-out value.
    Invalid(String),
}

/// The value that explicitly allows unauthenticated access.
pub open spec fn unauthenticated_magic() -> Seq<char> {
    "DANGEROUSLY_ALLOW_UNAUTHENTICATED_USERS"@
}

pub fn unauthenticated_magic_str() -> (res: &'static str)
    ensures
        res@ == unauthenticated_magic(),
{
    "DANGEROUSLY_ALLOW_UNAUTHENTICATED_USERS"
}

/// How a password-hash setting is read: the opt-out value, an Argon2id
/// hash (`$argon2id$...`), or an error.
pub open spec fn auth_mode_spec(hash: Option<Seq<char>>) -> Result<Option<Seq<char>>, int> {
    match hash {
        None => Err(0),
        Some(h) => if h == unauthenticated_magic() {
            Ok(None)
        } else if "$argon2id$"@.is_prefix_of(h) {
            Ok(Some(h))
        } else if h.len() == 0 {
            Err(1)
        } else {
            Err(2)
        },
    }
}

fn starts_with(s: &str, prefix: &str) -> (res: bool)
    ensures
        res == prefix@.is_prefix_of(s@),
{
    let a = crate::text::chars_of(prefix);
    let b = crate::text::chars_of(s);
    if a.len() > b.len() {
        return false;
    }
    let mut i: usize = 0;
    while i < a.len()
        invariant
            a@ == prefix@,
            b@ == s@,
            a@.len() <= b@.len(),
            i <= a@.len(),
            forall|t: int| 0 <= t < i ==> a@[t] == b@[t],
        decreases a@.len() - i,
    {
        if a[i] != b[i] {
            return false;
        }
        i += 1;
    }
    assert(b@.take(a@.len() as int) =~= a@);
    true
}

/// The authentication mode a password-hash setting selects.
pub fn auth_mode_from(hash: Option<&str>) -> (res: Result<AuthMode, AuthConfigError>)
    ensures
        match res {
            Ok(AuthMode::Unauthenticated) => auth_mode_spec(match hash {
                Some(h) => Some(h@),
                None => None,
            }) == Ok::<Option<Seq<char>>, int>(None),
            Ok(AuthMode::Password(p)) => auth_mode_spec(match hash {
                Some(h) => Some(h@),
                None => None,
            }) == Ok::<Option<Seq<char>>, int>(Some(p@)),
            Err(AuthConfigError::Missing) => hash is None,
            Err(AuthConfigError::Empty) => auth_mode_spec(match hash {
                Some(h) => Some(h@),
                None => None,
            }) == Err::<Option<Seq<char>>, int>(1),
            Err(AuthConfigError::Invalid(v)) => auth_mode_spec(match hash {
                Some(h) => Some(h@),
                None => None,
            }) == Err::<Option<Seq<char>>, int>(2) && (hash matches Some(h) && h@ == v@),
        },
{
    match hash {
        None => Err(AuthConfigError::Missing),
        Some(h) => {
            let owned = h.to_owned();
            if owned == String::from_str("DANGEROUSLY_ALLOW_UNAUTHENTICATED_USERS") {
                Ok(AuthMode::Unauthenticated)
            } else if starts_with(h, "$argon2id$") {
                Ok(AuthMode::Password(owned))
            } else if h.unicode_len() == 0 {
                Err(AuthConfigError::Empty)
            } else {
                Err(AuthConfigError::Invalid(owned))
            }
        },
    }
}

/// The database file named by a `sqlite://` or `sqlite:` URL (or a plain
/// path); `data/solvency.db` when none is given.
pub open spec fn database_path_spec(url: Option<Seq<char>>) -> Seq<char> {
    match url {
        None => "data/solvency.db"@,
        Some(v) => if "sqlite://"@.is_prefix_of(v) {
            v.skip(9)
        } else if "sqlite:"@.is_prefix_of(v) {
            v.skip(7)
        } else {
            v
        },
    }
}

pub fn database_path_from(url: Option<&str>) -> (res: String)
    ensures
        res@ == database_path_spec(match url {
            Some(v) => Some(v@),
            None => None,
        }),
{
    proof {
        reveal_strlit("sqlite://");
        reveal_strlit("sqlite:");
    }
    match url {
        None => String::from_str("data/solvency.db"),
        Some(v) => {
            if starts_with(v, "sqlite://") {
                v.substring_char(9, v.unicode_len()).to_owned()
            } else if starts_with(v, "sqlite:") {
                v.substring_char(7, v.unicode_len()).to_owned()
            } else {
                v.to_owned()
            }
        },
    }
}

/// The port a setting selects: its value when it parses as a `u16`, else
/// 7070.
pub fn port_from(value: Option<&str>) -> (res: u16)
    ensures
        res == match value {
            Some(v) => match parsed_u16(v@) {
                Some(p) => p,
                None => 7070,
            },
            None => 7070,
        },
{
    match value {
        Some(v) => match parse_u16(v) {
            Some(p) => p,
            None => 7070,
        },
        None => 7070,
    }
}

fn or_default(value: Option<&str>, default: &str) -> (res: String)
    ensures
        res@ == match value {
            Some(v) => v@,
            None => default@,
        },
{
    match value {
        Some(v) => v.to_owned(),
        None => default.to_owned(),
    }
}

impl Config {
    /// The configuration given by the values of the `SOLVENCY_*`
    /// variables (`None` where one is not set).
    pub fn from_values(
        password_hash: Option<&str>,
        host: Option<&str>,
        port: Option<&str>,
        database_url: Option<&str>,
        migrations_path: Option<&str>,
        static_path: Option<&str>,
    ) -> (res: Result<Config, AuthConfigError>)
        ensures
            match res {
                Ok(c) => {
                    &&& auth_mode_spec(match password_hash {
                        Some(h) => Some(h@),
                        None => None,
                    }) is Ok
                    &&& match c.auth_mode {
                        AuthMode::Unauthenticated => auth_mode_spec(match password_hash {
                            Some(h) => Some(h@),
                            None => None,
                        }) == Ok::<Option<Seq<char>>, int>(None),
                        AuthMode::Password(p) => auth_mode_spec(match password_hash {
                            Some(h) => Some(h@),
                            None => None,
                        }) == Ok::<Option<Seq<char>>, int>(Some(p@)),
                    }
                    &&& c.host@ == (match host {
                        Some(v) => v@,
                        None => "0.0.0.0"@,
                    })
                    &&& c.port == (match port {
                        Some(v) => match parsed_u16(v@) {
                            Some(p) => p,
                            None => 7070,
                        },
                        None => 7070,
                    })
                    &&& c.database_path@ == database_path_spec(match database_url {
                        Some(v) => Some(v@),
                        None => None,
                    })
                    &&& c.migrations_path@ == (match migrations_path {
                        Some(v) => v@,
                        None => "migrations"@,
                    })
                    &&& c.static_path@ == (match static_path {
                        Some(v) => v@,
                        None => "static"@,
                    })
                },
                Err(_) => auth_mode_spec(match password_hash {
                    Some(h) => Some(h@),
                    None => None,
                }) is Err,
            },
    {
        let auth_mode = match auth_mode_from(password_hash) {
            Ok(m) => m,
            Err(e) => {
                return Err(e);
            },
        };
        Ok(Config {
            host: or_default(host, "0.0.0.0"),
            port: port_from(port),
            database_path: database_path_from(database_url),
            migrations_path: or_default(migrations_path, "migrations"),
            static_path: or_default(static_path, "static"),
            auth_mode,
        })
    }

    /// `host:port`.
    pub fn address(&self) -> (res: String)
        ensures
            res@ == self.host@ + ":"@ + decimal(self.port as nat),
    {
        let mut out = self.host.clone();
        out.append(":");
        push_decimal(&mut out, self.port as u64);
        out
    }
}

} // verus!
