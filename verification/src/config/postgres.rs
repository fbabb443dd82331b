//! The durable backend's connection settings.

use vstd::prelude::*;
use vstd::string::StringExecFns;

use crate::decimal::{spec_udec, u64_to_dec};

verus! {

/// The port the relational store listens on when the environment names
/// none.
pub fn default_pgport() -> (r: u16)
    ensures
        r == 5432,
{
    5432
}

/// The connection pool's size when the environment names none.
pub fn default_pg_poolsize() -> (r: u8)
    ensures
        r == 4,
{
    4
}

/// The raw values as the environment supplies them.
#[derive(Clone, Debug)]
pub struct ConfigFlat {
    pub host: String,
    pub port: Option<u16>,
    pub database: String,
    pub user: String,
    pub password: String,
    pub poolsize: Option<u8>,
}

/// The resolved settings.
#[derive(Clone)]
pub struct Config {
    pub host: String,
    pub port: u16,
    pub database: String,
    pub user: String,
    pub password: String,
    pub poolsize: u8,
}

/// What loading resolves the raw values to.
pub open spec fn spec_load(flat: ConfigFlat) -> Config {
    Config {
        host: flat.host,
        port: match flat.port {
            Some(p) => p,
            None => 5432,
        },
        database: flat.database,
        user: flat.user,
        password: flat.password,
        poolsize: match flat.poolsize {
            Some(p) => p,
            None => 4,
        },
    }
}

/// Resolves the raw values against the defaults.
pub fn load(flat: ConfigFlat) -> (r: Config)
    ensures
        r == spec_load(flat),
{
    Config {
        host: flat.host,
        port: match flat.port {
            Some(p) => p,
            None => default_pgport(),
        },
        database: flat.database,
        user: flat.user,
        password: flat.password,
        poolsize: match flat.poolsize {
            Some(p) => p,
            None => default_pg_poolsize(),
        },
    }
}

/// What the masked one-line rendering of the settings looks like.
pub open spec fn spec_masked_summary(c: Config) -> Seq<char> {
    "Postgres(server="@ + c.host@ + ":"@ + spec_udec(c.port as nat) + "; database="@ + c.database@
        + "; user="@ + c.user@ + "; password=***; poolsize="@ + spec_udec(c.poolsize as nat)
        + ")"@
}

impl Config {
    /// A one-line rendering of the settings with the password masked, so
    /// the configuration can be reported without leaking the secret.
    pub fn masked_summary(&self) -> (r: String)
        ensures
            r@ == spec_masked_summary(*self),
    {
        let mut s: String = "Postgres(server=".to_owned();
        s.append(self.host.as_str());
        s.append(":");
        let port = u64_to_dec(self.port as u64);
        s.append(port.as_str());
        s.append("; database=");
        s.append(self.database.as_str());
        s.append("; user=");
        s.append(self.user.as_str());
        s.append("; password=***; poolsize=");
        let pool = u64_to_dec(self.poolsize as u64);
        s.append(pool.as_str());
        s.append(")");
        proof {
            assert(s@ =~= spec_masked_summary(*self));
        }
        s
    }
}

} // verus!
