//! Service settings.

use vstd::prelude::*;

verus! {

/// The port the service listens on when the settings name none.
pub const DEFAULT_PORT: u16 = 42000u16;

/// Settings of the HTTP service.
#[derive(Debug)]
pub struct ServiceConfig {
    pub port: u16,
}

/// All settings.
#[derive(Debug)]
pub struct Settings {
    pub service: ServiceConfig,
}

impl Settings {
    /// The settings, given the `service.port` the settings file names, if it
    /// names one; the port defaults to 42000.
    pub fn load(configured_port: Option<u16>) -> (s: Settings)
        ensures
            s.service.port == (match configured_port {
                Some(p) => p,
                None => DEFAULT_PORT,
            }),
    {
        let port = match configured_port {
            Some(p) => p,
            None => DEFAULT_PORT,
        };
        Settings { service: ServiceConfig { port } }
    }
}

} // verus!
