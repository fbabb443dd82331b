//! The process configuration model.
//!
//! Each backend's settings are an explicit struct constructed once at
//! startup and injected where needed, never ambient global state.  The
//! environment is read outside this crate; what arrives here are the raw
//! optional values, and the verified part is the defaulting: exactly
//! which value each setting takes when the environment names none.

pub mod api;
pub mod postgres;
pub mod redis;

use vstd::prelude::*;

verus! {

/// Everything the service needs at startup.  (The durable section
/// renders itself only through its masked summary, so this struct
/// carries no derived rendering either.)
#[derive(Clone)]
pub struct Config {
    pub api: api::Config,
    pub pg: postgres::Config,
}

/// What loading resolves the whole configuration to.
pub open spec fn spec_load(api_flat: api::ConfigFlat, pg_flat: postgres::ConfigFlat) -> Config {
    Config { api: api::spec_load(api_flat), pg: postgres::spec_load(pg_flat) }
}

/// Resolves the raw values of every section against their defaults.
pub fn load(api_flat: api::ConfigFlat, pg_flat: postgres::ConfigFlat) -> (r: Config)
    ensures
        r == spec_load(api_flat, pg_flat),
{
    Config { api: api::load(api_flat), pg: postgres::load(pg_flat) }
}

} // verus!
