//! The HTTP server's settings.

use vstd::prelude::*;

verus! {

/// The port the API listens on when the environment names none.
pub fn default_port() -> (r: u16)
    ensures
        r == 8080,
{
    8080
}

/// The port the metrics endpoint listens on when the environment names
/// none.
pub fn default_metrics_port() -> (r: u16)
    ensures
        r == 9090,
{
    9090
}

/// The raw values as the environment supplies them.
#[derive(Clone, Debug)]
pub struct ConfigFlat {
    pub port: Option<u16>,
    pub metrics_port: Option<u16>,
}

/// The resolved settings.
#[derive(Clone, Debug)]
pub struct Config {
    pub port: u16,
    pub metrics_port: u16,
}

/// What loading resolves the raw values to.
pub open spec fn spec_load(flat: ConfigFlat) -> Config {
    Config {
        port: match flat.port {
            Some(p) => p,
            None => 8080,
        },
        metrics_port: match flat.metrics_port {
            Some(p) => p,
            None => 9090,
        },
    }
}

/// Resolves the raw values against the defaults.
pub fn load(flat: ConfigFlat) -> (r: Config)
    ensures
        r == spec_load(flat),
{
    Config {
        port: match flat.port {
            Some(p) => p,
            None => default_port(),
        },
        metrics_port: match flat.metrics_port {
            Some(p) => p,
            None => default_metrics_port(),
        },
    }
}

} // verus!
