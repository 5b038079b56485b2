//! What flows between plugins, and how a plugin fails.

use vstd::prelude::*;
use crate::graph::Graph;
use crate::strmap::StringMap;

verus! {

/// The state handed from one plugin to the next: a graph and the request's parameters.
pub struct PluginIO {
    pub graph: Graph,
    pub parameters: StringMap,
}

impl PluginIO {
    pub open spec fn wf(&self) -> bool {
        self.graph.wf()
    }
}

/// Why a plugin, or the building of one, failed.
#[derive(Debug)]
pub enum PluginError {
    /// A required request parameter is absent; the key is named.
    MissingParameter(String),
    /// The telemetry service answered with an error envelope.
    QueryFailed,
    /// The telemetry service answered with a result that is not a vector.
    UnexpectedResultType,
    /// The upstream could not be reached.
    UpstreamUnreachable(String),
    /// The upstream answered with a status that is not a success.
    UpstreamStatus(u16),
    /// The upstream's body is not a graph.
    MalformedGraph(String),
    /// The upstream URL is empty.
    EmptyUpstream,
    /// A reply was handed to a plugin that does not fit what it asked for.
    UnexpectedReply,
    /// A plugin's settings lack this required key.
    MissingSetting(String),
    /// A plugin's setting under this key has a value that cannot be used.
    InvalidSetting(String),
    /// No plugin has this name.
    UnknownPlugin(String),
    /// The plugin takes no setting under this key.
    UnknownSetting(String),
}

} // verus!
