//! Graph fetch: replace the request's graph with the one an upstream service serves.

use vstd::prelude::*;
use crate::graph::{Graph, GraphError, Release};
use crate::plugin::{PluginError, PluginIO};
use crate::strmap::StringMap;
use vstd::string::StrSliceExecFns;

verus! {

/// Default URL of the upstream graph provider.
pub const DEFAULT_UPSTREAM_URL: &'static str = "http://localhost:8080/v1/graph";

/// The content type asked of the upstream.
pub const CONTENT_TYPE: &'static str = "application/json";

/// The name under which the plugin is configured.
pub const PLUGIN_NAME: &'static str = "cincinnati-graph-fetch";

/// Counter of upstream requests.
pub const UPSTREAM_REQUESTS_METRIC: &'static str = "http_upstream_requests_total";

/// Counter of failed upstream requests.
pub const UPSTREAM_ERRORS_METRIC: &'static str = "http_upstream_errors_total";

/// A graph as an upstream serves it: releases, and edges between their positions.
pub struct GraphData {
    pub releases: Vec<Release>,
    pub edges: Vec<(usize, usize)>,
}

/// What came back from the upstream.
pub enum UpstreamReply {
    /// The request did not reach the upstream, or its body could not be read.
    Unreachable(String),
    /// The upstream answered with `status`; `body` is the graph it sent, or why it is none.
    Response { status: u16, body: Result<GraphData, String> },
}

/// One more, unless the counter is at its largest.
pub open spec fn bump(x: u64) -> u64 {
    if x < u64::MAX {
        (x + 1) as u64
    } else {
        x
    }
}

fn increment(x: u64) -> (r: u64)
    ensures
        r == bump(x),
{
    if x < u64::MAX {
        x + 1
    } else {
        x
    }
}

/// A status in the success class.
pub open spec fn is_success(status: u16) -> bool {
    200 <= status <= 299
}

/// Every edge of `d` joins two of its releases.
pub open spec fn edges_in_range(d: GraphData) -> bool {
    forall|j: int| 0 <= j < d.edges@.len() ==> #[trigger] d.edges@[j].0 < d.releases@.len()
        && d.edges@[j].1 < d.releases@.len()
}

/// What `complete` does: counters and result for each kind of reply.
pub open spec fn fetch_outcome(
    old: CincinnatiGraphFetchPlugin,
    new: CincinnatiGraphFetchPlugin,
    io: PluginIO,
    reply: UpstreamReply,
    r: Result<PluginIO, PluginError>,
) -> bool {
    &&& new.upstream == old.upstream
    &&& new.http_upstream_reqs == old.http_upstream_reqs
    &&& new.http_upstream_errors_total == if r is Ok {
        old.http_upstream_errors_total
    } else {
        bump(old.http_upstream_errors_total)
    }
    &&& match reply {
        UpstreamReply::Unreachable(m) => r matches Err(PluginError::UpstreamUnreachable(e)) && e@
            == m@,
        UpstreamReply::Response { status, body } => if !is_success(status) {
            r matches Err(PluginError::UpstreamStatus(c)) && c == status
        } else {
            match body {
                Err(m) => r matches Err(PluginError::MalformedGraph(e)) && e@ == m@,
                Ok(d) => if edges_in_range(d) && d.releases@.len() < usize::MAX {
                    r matches Ok(out) && out.wf() && out.graph.slots_view() == d.releases@.map_values(
                        |x: Release| Some(x),
                    ) && out.graph.edges_view() == d.edges@ && out.parameters == io.parameters
                } else {
                    r matches Err(PluginError::MalformedGraph(_))
                },
            }
        },
    }
}

/// Fetches the graph from an upstream and counts requests and failures.
pub struct CincinnatiGraphFetchPlugin {
    /// The URL from which the graph is fetched.
    pub upstream: String,
    /// Requests made to the upstream.
    pub http_upstream_reqs: u64,
    /// Requests to the upstream that failed.
    pub http_upstream_errors_total: u64,
}

impl CincinnatiGraphFetchPlugin {
    /// The upstream URL from the plugin's settings: the `upstream` setting, else the
    /// default. Fails when it is empty.
    pub fn deserialize_config(settings: &StringMap) -> (r: Result<String, PluginError>)
        ensures
            ({
                let u = if settings.view().contains_key("upstream"@) {
                    settings.view()["upstream"@]
                } else {
                    DEFAULT_UPSTREAM_URL@
                };
                if u.len() == 0 {
                    r matches Err(PluginError::EmptyUpstream)
                } else {
                    r matches Ok(s) && s@ == u
                }
            }),
    {
        let upstream = match settings.get("upstream") {
            Some(u) => u.clone(),
            None => DEFAULT_UPSTREAM_URL.to_owned(),
        };
        if upstream.as_str().unicode_len() == 0 {
            return Err(PluginError::EmptyUpstream);
        }
        Ok(upstream)
    }

    /// A plugin for `upstream` with both counters at zero.
    pub fn new(upstream: String) -> (p: CincinnatiGraphFetchPlugin)
        ensures
            p.upstream == upstream,
            p.http_upstream_reqs == 0,
            p.http_upstream_errors_total == 0,
    {
        CincinnatiGraphFetchPlugin { upstream, http_upstream_reqs: 0, http_upstream_errors_total: 0 }
    }

    /// Counts a request to the upstream and gives the URL to ask.
    pub fn begin_request(&mut self) -> (url: String)
        ensures
            url@ == old(self).upstream@,
            final(self).upstream == old(self).upstream,
            final(self).http_upstream_reqs == bump(old(self).http_upstream_reqs),
            final(self).http_upstream_errors_total == old(self).http_upstream_errors_total,
    {
        self.http_upstream_reqs = increment(self.http_upstream_reqs);
        self.upstream.clone()
    }

    /// Turns the upstream's reply into the plugin's result. On success the graph is the one
    /// served and the parameters pass through; every failure is counted.
    pub fn complete(&mut self, io: PluginIO, reply: UpstreamReply) -> (r: Result<PluginIO, PluginError>)
        ensures
            fetch_outcome(*old(self), *final(self), io, reply, r),
    {
        let r = match reply {
            UpstreamReply::Unreachable(m) => Err(PluginError::UpstreamUnreachable(m)),
            UpstreamReply::Response { status, body } => {
                if status < 200 || status > 299 {
                    Err(PluginError::UpstreamStatus(status))
                } else {
                    match body {
                        Err(m) => Err(PluginError::MalformedGraph(m)),
                        Ok(d) => {
                            if d.releases.len() == usize::MAX {
                                Err(PluginError::MalformedGraph("too many releases".to_owned()))
                            } else {
                                match Graph::from_parts(d.releases, d.edges) {
                                    Ok(graph) => Ok(PluginIO { graph, parameters: io.parameters }),
                                    Err(GraphError::InvalidEdge) => Err(
                                        PluginError::MalformedGraph(
                                            "an edge names a missing release".to_owned(),
                                        ),
                                    ),
                                }
                            }
                        },
                    }
                }
            },
        };
        if r.is_err() {
            self.http_upstream_errors_total = increment(self.http_upstream_errors_total);
        }
        r
    }
}

} // verus!
