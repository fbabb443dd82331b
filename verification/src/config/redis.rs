//! The cache backend's connection settings.

use vstd::prelude::*;

verus! {

/// The port the in-memory store listens on when the environment names
/// none.
pub fn default_port() -> (r: u16)
    ensures
        r == 6379,
{
    6379
}

/// The user name when the environment names none: empty, since the
/// store authenticates by password alone.
pub fn default_user() -> (r: String)
    ensures
        r@ == Seq::<char>::empty(),
{
    String::new()
}

/// The connection pool's size when the environment names none.
pub fn default_poolsize() -> (r: u32)
    ensures
        r == 1,
{
    1
}

/// The raw values as the environment supplies them.
#[derive(Clone, Debug)]
pub struct ConfigFlat {
    pub host: String,
    pub port: Option<u16>,
    pub user: Option<String>,
    pub password: String,
    pub poolsize: Option<u32>,
}

/// The resolved settings.
#[derive(Clone, Debug)]
pub struct Config {
    pub host: String,
    pub port: u16,
    pub user: String,
    pub password: String,
    pub poolsize: u32,
}

/// Resolves the raw values against the defaults.
pub fn load(flat: ConfigFlat) -> (r: Config)
    ensures
        r.host == flat.host,
        r.port == match flat.port {
            Some(p) => p,
            None => 6379u16,
        },
        r.user@ == match flat.user {
            Some(u) => u@,
            None => Seq::<char>::empty(),
        },
        r.password == flat.password,
        r.poolsize == match flat.poolsize {
            Some(p) => p,
            None => 1u32,
        },
{
    Config {
        host: flat.host,
        port: match flat.port {
            Some(p) => p,
            None => default_port(),
        },
        user: match flat.user {
            Some(u) => u,
            None => default_user(),
        },
        password: flat.password,
        poolsize: match flat.poolsize {
            Some(p) => p,
            None => default_poolsize(),
        },
    }
}

} // verus!
