//! Runtime settings of the policy engine, as plain values.

use vstd::prelude::*;
use crate::config::{assembled, default_tables, policy_plugins, table_views};
use crate::fetch::DEFAULT_UPSTREAM_URL;
use crate::pipeline::Pipeline;
use crate::plugin::PluginError;
use crate::strmap::StringMap;

verus! {

/// The default listening address of both services.
pub const DEFAULT_ADDRESS: &'static str = "127.0.0.1";

/// The default port of the main service.
pub const DEFAULT_PORT: u16 = 8081;

/// The default port of the status service.
pub const DEFAULT_STATUS_PORT: u16 = 9081;

/// Runtime settings, validated.
pub struct AppSettings {
    /// Log level: 0 warnings, 1 information, 2 debugging, 3 and above tracing.
    pub verbosity: u8,
    /// URL of the upstream graph provider.
    pub upstream: String,
    /// Listening address of the main service.
    pub address: String,
    /// Listening port of the main service.
    pub port: u16,
    /// Listening address of the status service.
    pub status_address: String,
    /// Listening port of the status service.
    pub status_port: u16,
    /// Prefix of the main service's endpoints.
    pub path_prefix: String,
    /// Settings tables of the configured policies, in order.
    pub policies: Vec<StringMap>,
    /// Parameters that every client request must carry.
    pub mandatory_client_parameters: Vec<String>,
}

/// Why the settings cannot be used.
#[derive(Debug, PartialEq, Eq, Structural)]
pub enum SettingsError {
    /// The main and the status service would listen on the same address and port.
    SameListener,
}

impl AppSettings {
    /// The settings before any option is merged in.
    pub fn defaults() -> (s: AppSettings)
        ensures
            s.verbosity == 0,
            s.upstream@ == DEFAULT_UPSTREAM_URL@,
            s.address@ == DEFAULT_ADDRESS@,
            s.port == DEFAULT_PORT,
            s.status_address@ == DEFAULT_ADDRESS@,
            s.status_port == DEFAULT_STATUS_PORT,
            s.path_prefix@.len() == 0,
            s.policies@.len() == 0,
            s.mandatory_client_parameters@.len() == 0,
    {
        AppSettings {
            verbosity: 0,
            upstream: DEFAULT_UPSTREAM_URL.to_owned(),
            address: DEFAULT_ADDRESS.to_owned(),
            port: DEFAULT_PORT,
            status_address: DEFAULT_ADDRESS.to_owned(),
            status_port: DEFAULT_STATUS_PORT,
            path_prefix: String::new(),
            policies: Vec::new(),
            mandatory_client_parameters: Vec::new(),
        }
    }

    /// Accepts the settings unless both services would listen on the same address and port.
    pub fn try_validate(self) -> (r: Result<AppSettings, SettingsError>)
        ensures
            (self.address@ == self.status_address@ && self.port == self.status_port) ==> r
                == Err::<AppSettings, SettingsError>(SettingsError::SameListener),
            !(self.address@ == self.status_address@ && self.port == self.status_port) ==> r
                == Ok::<AppSettings, SettingsError>(self),
    {
        if self.address == self.status_address && self.port == self.status_port {
            return Err(SettingsError::SameListener);
        }
        Ok(self)
    }

    /// The pipeline of the configured policies, or of the default ones (graph fetch from
    /// the upstream, then channel filter) when none are configured.
    pub fn policy_plugins(&self) -> (r: Result<Pipeline, PluginError>)
        ensures
            assembled(
                if self.policies@.len() == 0 {
                    default_tables(self.upstream@)
                } else {
                    table_views(self.policies@)
                },
                r,
            ),
    {
        policy_plugins(&self.policies, self.upstream.as_str())
    }
}

} // verus!
