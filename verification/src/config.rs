//! Settings of a running server.

use vstd::prelude::*;

verus! {

/// The kind of deployment.
#[derive(Debug, Clone, Copy, PartialEq, Eq, Structural)]
pub enum Environment {
    Dev,
    Prod,
}

impl Environment {
    /// True for a development deployment.
    pub fn is_dev(&self) -> (dev: bool)
        ensures
            dev == (*self == Environment::Dev),
    {
        *self == Environment::Dev
    }
}

impl Default for Environment {
    fn default() -> (env: Environment)
        ensures
            env == Environment::Dev,
    {
        Environment::Dev
    }
}

/// Where the server listens, and in which environment it runs.
#[derive(Debug)]
pub struct Config {
    pub environment: Environment,
    pub address: String,
    pub port: u16,
}

impl Config {
    /// Puts the settings together. A deployment that names no environment is a
    /// development deployment.
    pub fn new(environment: Option<Environment>, address: String, port: u16) -> (conf: Config)
        ensures
            conf.environment == (match environment {
                Some(env) => env,
                None => Environment::Dev,
            }),
            conf.address == address,
            conf.port == port,
    {
        let environment = match environment {
            Some(env) => env,
            None => Environment::Dev,
        };
        Config { environment, address, port }
    }
}

} // verus!
