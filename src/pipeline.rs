//! The pipeline: plugins run in their configured order, each on the output of the one
//! before, stopping at the first failure.
//!
//! A run is a state machine. The caller asks the pipeline what the next stage needs,
//! performs that outside work (an upstream fetch, a telemetry query, or nothing), and hands
//! the reply back to `step`.

use vstd::prelude::*;
use crate::channel::{channel_outcome, ChannelFilterPlugin};
use crate::fetch::{fetch_outcome, CincinnatiGraphFetchPlugin, UpstreamReply, bump};
use crate::plugin::{PluginError, PluginIO};
use crate::query::QueryResult;
use crate::rollout::{first_missing, require_parameters, rollout_outcome, PhasedRolloutPlugin, PROMETHEUS_QUERY_DEFAULT};

verus! {

/// One configured stage.
pub enum Plugin {
    GraphFetch(CincinnatiGraphFetchPlugin),
    ChannelFilter(ChannelFilterPlugin),
    PhasedRollout(PhasedRolloutPlugin),
}

impl Plugin {
    pub open spec fn wf(&self) -> bool {
        match self {
            Plugin::GraphFetch(_) => true,
            Plugin::ChannelFilter(_) => true,
            Plugin::PhasedRollout(p) => p.wf(),
        }
    }
}

/// The outside work that the next stage needs before it can run.
pub enum Request {
    /// None: the stage runs on what it has.
    Nothing,
    /// Fetch the graph from this URL.
    Upstream(String),
    /// Send this query to the telemetry service.
    Telemetry(String),
}

/// The result of a `Request`.
pub enum Reply {
    Nothing,
    Upstream(UpstreamReply),
    Telemetry(QueryResult),
}

/// Where a run stands.
pub enum RunState {
    /// Stage `next` is to run on `io`.
    Running { next: usize, io: PluginIO },
    /// Every stage ran; this is the response.
    Done(PluginIO),
    /// A stage failed; no graph is served.
    Failed(PluginError),
}

/// The state after stage `next` of `len` gave `r`.
pub open spec fn advanced(next: usize, len: usize, r: Result<PluginIO, PluginError>, s: RunState) -> bool {
    match r {
        Ok(out) => if next + 1 == len {
            s == RunState::Done(out)
        } else {
            s == RunState::Running { next: (next + 1) as usize, io: out }
        },
        Err(e) => s == RunState::Failed(e),
    }
}

/// What stage `p` gives on `io` with `reply`, and what becomes of the plugin.
pub open spec fn stage_outcome(
    p: Plugin,
    q: Plugin,
    io: PluginIO,
    reply: Reply,
    r: Result<PluginIO, PluginError>,
) -> bool {
    match p {
        Plugin::GraphFetch(f) => match reply {
            Reply::Upstream(u) => q matches Plugin::GraphFetch(g) && fetch_outcome(f, g, io, u, r),
            _ => q == p && (r matches Err(PluginError::UnexpectedReply)),
        },
        Plugin::ChannelFilter(c) => q == p && channel_outcome(c, io, r),
        Plugin::PhasedRollout(pr) => q == p && (match reply {
            Reply::Telemetry(t) => rollout_outcome(pr, io, t, r),
            _ => match first_missing(io.parameters.view()) {
                Some(k) => r matches Err(PluginError::MissingParameter(s)) && s@ == k,
                None => r matches Err(PluginError::UnexpectedReply),
            },
        }),
    }
}

/// A phased rollout stage whose request lacks `version`, `channel` or `id` fails naming the
/// first one missing, whatever reply it is handed; `request` asks no query for it.
pub proof fn lemma_missing_parameter_fails(p: Plugin, q: Plugin, io: PluginIO, reply: Reply, r: Result<
    PluginIO,
    PluginError,
>)
    requires
        p is PhasedRollout,
        first_missing(io.parameters.view()) is Some,
        stage_outcome(p, q, io, reply, r),
    ensures
        r matches Err(PluginError::MissingParameter(k)) && k@ == first_missing(io.parameters.view())->Some_0,
        q == p,
{
}

/// An ordered list of plugins.
pub struct Pipeline {
    plugins: Vec<Plugin>,
}

impl Pipeline {
    pub closed spec fn stages(&self) -> Seq<Plugin> {
        self.plugins@
    }

    pub open spec fn wf(&self) -> bool {
        forall|i: int| 0 <= i < self.stages().len() ==> #[trigger] self.stages()[i].wf()
    }

    /// A pipeline of `plugins`, run in this order.
    pub fn new(plugins: Vec<Plugin>) -> (p: Pipeline)
        ensures
            p.stages() == plugins@,
    {
        Pipeline { plugins }
    }

    /// The number of stages.
    pub fn len(&self) -> (n: usize)
        ensures
            n == self.stages().len(),
    {
        self.plugins.len()
    }

    /// The state in which a run on `io` begins.
    pub fn start(&self, io: PluginIO) -> (s: RunState)
        ensures
            self.stages().len() == 0 ==> s == RunState::Done(io),
            self.stages().len() > 0 ==> s == (RunState::Running { next: 0, io }),
    {
        if self.plugins.len() == 0 {
            RunState::Done(io)
        } else {
            RunState::Running { next: 0, io }
        }
    }

    /// What the next stage needs. A graph fetch counts its request here. A phased rollout
    /// whose request lacks a required parameter needs nothing: it fails without a query.
    pub fn request(&mut self, state: &RunState) -> (r: Request)
        requires
            old(self).wf(),
            state matches RunState::Running { next, io } ==> next < old(self).stages().len()
                && io.wf(),
        ensures
            final(self).wf(),
            final(self).stages().len() == old(self).stages().len(),
            match *state {
                RunState::Running { next, io } => {
                    &&& forall|i: int| 0 <= i < old(self).stages().len() && i != next ==> #[trigger] final(self).stages()[i]
                        == old(self).stages()[i]
                    &&& match old(self).stages()[next as int] {
                        Plugin::GraphFetch(f) => final(self).stages()[next as int] matches Plugin::GraphFetch(g)
                            && g.upstream == f.upstream && g.http_upstream_reqs == bump(f.http_upstream_reqs)
                            && g.http_upstream_errors_total == f.http_upstream_errors_total
                            && (r matches Request::Upstream(url) && url@ == f.upstream@),
                        Plugin::ChannelFilter(_) => final(self).stages()[next as int] == old(self).stages()[next as int]
                            && r is Nothing,
                        Plugin::PhasedRollout(p) => final(self).stages()[next as int] == old(self).stages()[next as int]
                            && (match first_missing(io.parameters.view()) {
                                Some(_) => r is Nothing,
                                None => r matches Request::Telemetry(q) && match p.prometheus_query_override {
                                    Some(o) => q@ == o@,
                                    None => q@ == PROMETHEUS_QUERY_DEFAULT@,
                                },
                            }),
                    }
                },
                _ => r is Nothing && final(self).stages() == old(self).stages(),
            },
    {
        match state {
            RunState::Running { next, io } => {
                let ghost before = self.plugins@;
                let r = match &mut self.plugins[*next] {
                    Plugin::GraphFetch(f) => Request::Upstream(f.begin_request()),
                    Plugin::ChannelFilter(_) => Request::Nothing,
                    Plugin::PhasedRollout(p) => match p.prepare(io) {
                        Ok(q) => Request::Telemetry(q),
                        Err(_) => Request::Nothing,
                    },
                };
                proof {
                    assert forall|i: int| 0 <= i < self.stages().len() implies #[trigger] self.stages()[i].wf() by {
                        if i != *next as int {
                            assert(self.stages()[i] == before[i]);
                        }
                    }
                }
                r
            },
            _ => Request::Nothing,
        }
    }

    /// Runs the next stage on the reply to its request. A failed or finished run stays as
    /// it is.
    pub fn step(&mut self, state: RunState, reply: Reply) -> (s: RunState)
        requires
            old(self).wf(),
            state matches RunState::Running { next, io } ==> next < old(self).stages().len()
                && io.wf(),
        ensures
            final(self).wf(),
            final(self).stages().len() == old(self).stages().len(),
            match state {
                RunState::Running { next, io } => {
                    &&& forall|i: int| 0 <= i < old(self).stages().len() && i != next ==> #[trigger] final(self).stages()[i]
                        == old(self).stages()[i]
                    &&& exists|r: Result<PluginIO, PluginError>|
                        stage_outcome(old(self).stages()[next as int], final(self).stages()[next as int], io, reply, r)
                            && advanced(next, old(self).stages().len() as usize, r, s)
                },
                _ => s == state && final(self).stages() == old(self).stages(),
            },
            s matches RunState::Running { next, io } ==> next < final(self).stages().len() && io.wf(),
    {
        match state {
            RunState::Running { next, io } => {
                let ghost before = self.plugins@;
                let ghost io0 = io;
                let len = self.plugins.len();
                assert(before[next as int].wf());
                let r = match &mut self.plugins[next] {
                    Plugin::GraphFetch(f) => match reply {
                        Reply::Upstream(u) => f.complete(io, u),
                        _ => Err(PluginError::UnexpectedReply),
                    },
                    Plugin::ChannelFilter(c) => c.run_internal(io),
                    Plugin::PhasedRollout(p) => match reply {
                        Reply::Telemetry(t) => p.run_internal(io, &t),
                        _ => match require_parameters(&io.parameters) {
                            Err(e) => Err(e),
                            Ok(()) => Err(PluginError::UnexpectedReply),
                        },
                    },
                };
                proof {
                    assert(stage_outcome(before[next as int], self.stages()[next as int], io0, reply, r));
                    assert forall|i: int| 0 <= i < self.stages().len() implies #[trigger] self.stages()[i].wf() by {
                        if i != next as int {
                            assert(self.stages()[i] == before[i]);
                        }
                    }
                }
                match r {
                    Ok(out) => if next + 1 == len {
                        RunState::Done(out)
                    } else {
                        RunState::Running { next: next + 1, io: out }
                    },
                    Err(e) => RunState::Failed(e),
                }
            },
            _ => state,
        }
    }
}

} // verus!
