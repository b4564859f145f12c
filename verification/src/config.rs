//! Configuration resolution: the server address is one `host:port` string,
//! taken from exactly two positional command-line arguments or, when none are
//! given, from the two environment values. The caller gathers the raw
//! arguments and environment; this decides.

use vstd::prelude::*;
use vstd::string::StringExecFns;

verus! {

/// Why configuration resolution failed.
#[derive(Debug, PartialEq, Eq, Structural, Clone, Copy)]
pub enum ConfigError {
    /// No positional arguments, and an environment value is missing.
    MissingEnv,
    /// Some argument count other than zero or two.
    BadArgCount,
}

impl ConfigError {
    /// The operator-facing text of this error.
    pub fn text(&self) -> (r: &'static str)
        ensures
            *self == ConfigError::MissingEnv ==> r@ == ("environment variable not found")@,
            *self == ConfigError::BadArgCount ==> r@ == ("Formatting error at cmd line")@,
    {
        match self {
            ConfigError::MissingEnv => "environment variable not found",
            ConfigError::BadArgCount => "Formatting error at cmd line",
        }
    }
}

/// The address text `"{host}:{port}"`.
pub open spec fn url_text(host: Seq<char>, port: Seq<char>) -> Seq<char> {
    host + (":")@ + port
}

/// Resolves the server address: from exactly two positional arguments, or,
/// with none, from the two environment values. Any other argument count is a
/// fatal configuration error, as is a missing environment value.
pub fn get_server_url(args: &Vec<String>, env_url: Option<&String>, env_port: Option<&String>) -> (r:
    Result<String, ConfigError>)
    ensures
        args@.len() == 0 ==> (match (env_url, env_port) {
            (Some(h), Some(p)) => (match r {
                Ok(u) => u@ == url_text(h@, p@),
                Err(_) => false,
            }),
            _ => r == Err::<String, ConfigError>(ConfigError::MissingEnv),
        }),
        args@.len() == 2 ==> (match r {
            Ok(u) => u@ == url_text(args@[0]@, args@[1]@),
            Err(_) => false,
        }),
        args@.len() != 0 && args@.len() != 2 ==> r == Err::<String, ConfigError>(
            ConfigError::BadArgCount,
        ),
{
    if args.len() == 0 {
        match (env_url, env_port) {
            (Some(h), Some(p)) => {
                let mut u = h.clone();
                u.append(":");
                u.append(p.as_str());
                proof {
                    assert(u@ =~= url_text(h@, p@));
                }
                Ok(u)
            },
            _ => Err(ConfigError::MissingEnv),
        }
    } else if args.len() == 2 {
        let mut u = args[0].clone();
        u.append(":");
        u.append(args[1].as_str());
        proof {
            assert(u@ =~= url_text(args@[0]@, args@[1]@));
        }
        Ok(u)
    } else {
        Err(ConfigError::BadArgCount)
    }
}

} // verus!
