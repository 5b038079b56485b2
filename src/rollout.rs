//! Phased rollout: annotate releases with their observed failure ratio and prune the risky
//! ones.

use vstd::prelude::*;
use crate::graph::{Graph, Release, ReleaseId, untouched, id_set};
use crate::plugin::{PluginError, PluginIO};
use crate::query::{metric_version, QueryData, QueryResult, VectorResult};
use crate::ratio::{exceeds, parse_ratio, ratio_of, Ratio};
use crate::strmap::StringMap;

verus! {

/// The metadata key under which a release's failure ratio is kept.
pub open spec fn failure_ratio_key() -> Seq<char> {
    "failure_ratio"@
}

/// The metadata of a release; empty for an abstract one.
pub open spec fn metadata_of(r: Release) -> Map<Seq<char>, Seq<char>> {
    match r {
        Release::Concrete(c) => c.metadata.view(),
        Release::Abstract(_) => Map::empty(),
    }
}

/// The ratio that a version gets: the observed one, else the default, if any.
pub open spec fn ratio_for(
    ratios: Map<Seq<char>, Seq<char>>,
    version: Seq<char>,
    default: Option<Seq<char>>,
) -> Option<Seq<char>> {
    if ratios.contains_key(version) {
        Some(ratios[version])
    } else {
        default
    }
}

/// A concrete release goes when its failure ratio is missing, is not a decimal, or is
/// strictly greater than the threshold. Abstract releases stay.
pub open spec fn prunable(r: Release, threshold: Ratio) -> bool {
    match r {
        Release::Concrete(c) => {
            let m = c.metadata.view();
            !m.contains_key(failure_ratio_key()) || match ratio_of(m[failure_ratio_key()]) {
                Some(x) => exceeds(x, threshold),
                None => true,
            }
        },
        Release::Abstract(_) => false,
    }
}

/// The releases of `g` that go under `threshold`.
pub open spec fn pruned(g: Graph, threshold: Ratio) -> Set<usize> {
    Set::new(|i: usize| g.contains(i) && prunable(g.release(i), threshold))
}

/// `new` is `old` with each release annotated as `ratio_for` says.
pub open spec fn attached(
    old: Graph,
    new: Graph,
    ratios: Map<Seq<char>, Seq<char>>,
    default: Option<Seq<char>>,
) -> bool {
    &&& new.wf()
    &&& new.slots_view().len() == old.slots_view().len()
    &&& new.nodes() == old.nodes()
    &&& new.edges_view() == old.edges_view()
    &&& forall|i: usize| #[trigger] old.contains(i) ==> match old.release(i) {
        Release::Concrete(c) => match ratio_for(ratios, c.version@, default) {
            Some(v) => new.release(i) is Concrete && new.release(i)->Concrete_0.version
                == c.version && new.release(i)->Concrete_0.payload == c.payload
                && new.release(i)->Concrete_0.metadata.view() == c.metadata.view().insert(
                failure_ratio_key(),
                v,
            ),
            None => new.release(i) == old.release(i),
        },
        Release::Abstract(_) => new.release(i) == old.release(i),
    }
}

/// `new` is `old` without the releases that go under `threshold` and their edges.
pub open spec fn filtered(old: Graph, new: Graph, threshold: Ratio) -> bool {
    &&& new.wf()
    &&& new.nodes() == old.nodes().difference(pruned(old, threshold))
    &&& forall|i: usize| #[trigger] new.contains(i) ==> new.release(i) == old.release(i)
    &&& new.edges_view() == old.edges_view().filter(untouched(pruned(old, threshold)))
}

/// The first of `version`, `channel` and `id` that `params` lacks.
pub open spec fn first_missing(params: Map<Seq<char>, Seq<char>>) -> Option<Seq<char>> {
    if !params.contains_key("version"@) {
        Some("version"@)
    } else if !params.contains_key("channel"@) {
        Some("channel"@)
    } else if !params.contains_key("id"@) {
        Some("id"@)
    } else {
        None
    }
}

/// Fails with the first of `version`, `channel` and `id` that the parameters lack.
pub fn require_parameters(params: &StringMap) -> (r: Result<(), PluginError>)
    ensures
        match first_missing(params.view()) {
            None => r is Ok,
            Some(k) => r matches Err(PluginError::MissingParameter(s)) && s@ == k,
        },
{
    if params.get("version").is_none() {
        return Err(PluginError::MissingParameter("version".to_owned()));
    }
    if params.get("channel").is_none() {
        return Err(PluginError::MissingParameter("channel".to_owned()));
    }
    if params.get("id").is_none() {
        return Err(PluginError::MissingParameter("id".to_owned()));
    }
    Ok(())
}

/// The ratios that well-formed entries give, by version; a later entry wins.
pub open spec fn ratios_of(results: Seq<VectorResult>) -> Map<Seq<char>, Seq<char>>
    decreases results.len(),
{
    if results.len() == 0 {
        Map::empty()
    } else {
        let rest = ratios_of(results.drop_last());
        match metric_version(results.last().metric) {
            Some(v) => rest.insert(v, results.last().value.sample@),
            None => rest,
        }
    }
}

/// Collects the failure ratio of each version from a query result. Entries whose labels
/// are not an object, lack a `version` label, or hold a version that is not a string are
/// dropped.
pub fn collect_failure_ratios(results: &Vec<VectorResult>) -> (r: StringMap)
    ensures
        r.wf(),
        r.view() == ratios_of(results@),
{
    let mut r = StringMap::new();
    let mut i: usize = 0;
    while i < results.len()
        invariant
            i <= results.len(),
            r.wf(),
            r.view() == ratios_of(results@.take(i as int)),
        decreases results.len() - i,
    {
        assert(results@.take(i + 1).drop_last() =~= results@.take(i as int));
        let (metric, value) = results[i].get_metric_value_pair();
        match metric.version() {
            Some(v) => {
                r.insert(v.clone(), value.sample.clone());
            },
            None => {},
        }
        i = i + 1;
    }
    assert(results@.take(i as int) =~= results@);
    r
}

/// The failure ratios in a query result; fails unless it is a success holding a vector.
pub fn failure_ratios(result: &QueryResult) -> (r: Result<StringMap, PluginError>)
    ensures
        match result {
            QueryResult::Success(s) => match s.data {
                QueryData::Vector(v) => r matches Ok(m) && m.wf() && m.view() == ratios_of(v@),
                QueryData::Matrix(_) => r matches Err(PluginError::UnexpectedResultType),
            },
            QueryResult::Error(_) => r matches Err(PluginError::QueryFailed),
        },
{
    match result {
        QueryResult::Success(s) => match s.data() {
            QueryData::Vector(v) => Ok(collect_failure_ratios(v)),
            QueryData::Matrix(_) => Err(PluginError::UnexpectedResultType),
        },
        QueryResult::Error(_) => Err(PluginError::QueryFailed),
    }
}

/// Whether `release` goes under `threshold`.
pub fn is_prunable(release: &Release, threshold: &Ratio) -> (r: bool)
    requires
        release.wf(),
        threshold.wf(),
    ensures
        r == prunable(*release, *threshold),
{
    match release {
        Release::Concrete(c) => match c.metadata.get("failure_ratio") {
            Some(text) => match parse_ratio(text.as_str()) {
                Some(x) => x.exceeds(threshold),
                None => true,
            },
            None => true,
        },
        Release::Abstract(_) => false,
    }
}

/// The ratio that the release under `id` gets, if it is a concrete one.
fn ratio_to_attach(graph: &Graph, id: ReleaseId, ratios: &StringMap, default: &Option<String>) -> (r:
    Option<String>)
    requires
        graph.wf(),
    ensures
        graph.contains(id.0) && graph.release(id.0) is Concrete ==> match ratio_for(
            ratios.view(),
            graph.release(id.0)->Concrete_0.version@,
            match default {
                Some(d) => Some(d@),
                None => None,
            },
        ) {
            Some(v) => r is Some && r->Some_0@ == v,
            None => r is None,
        },
{
    match graph.get(id) {
        Some(Release::Concrete(c)) => match ratios.get(c.version.as_str()) {
            Some(v) => Some(v.clone()),
            None => match default {
                Some(d) => Some(d.clone()),
                None => None,
            },
        },
        _ => None,
    }
}

/// Sets the `failure_ratio` metadata of every concrete release: the ratio observed for its
/// version, else `default`. Without either, the release is left as it is.
pub fn attach_failure_ratios(graph: &mut Graph, ratios: &StringMap, default: &Option<String>)
    requires
        old(graph).wf(),
    ensures
        attached(
            *old(graph),
            *final(graph),
            ratios.view(),
            match default {
                Some(d) => Some(d@),
                None => None,
            },
        ),
{
    proof {
        use_type_invariant(ratios);
    }
    let ghost before = *graph;
    let ghost dflt = match default {
        Some(d) => Some(d@),
        None => None::<Seq<char>>,
    };
    let n = graph.slot_count();
    let mut i: usize = 0;
    while i < n
        invariant
            i <= n,
            n == before.slots_view().len(),
            graph.wf(),
            ratios.wf(),
            graph.slots_view().len() == before.slots_view().len(),
            graph.nodes() == before.nodes(),
            graph.edges_view() == before.edges_view(),
            dflt == match default {
                Some(d) => Some(d@),
                None => None::<Seq<char>>,
            },
            forall|j: usize| #[trigger] before.contains(j) && j >= i ==> graph.release(j)
                == before.release(j),
            forall|j: usize| #[trigger] before.contains(j) && j < i ==> match before.release(j) {
                Release::Concrete(c) => match ratio_for(ratios.view(), c.version@, dflt) {
                    Some(v) => graph.release(j) is Concrete && graph.release(j)->Concrete_0.version
                        == c.version && graph.release(j)->Concrete_0.payload == c.payload
                        && graph.release(j)->Concrete_0.metadata.view() == c.metadata.view().insert(
                        failure_ratio_key(),
                        v,
                    ),
                    None => graph.release(j) == before.release(j),
                },
                Release::Abstract(_) => graph.release(j) == before.release(j),
            },
        decreases n - i,
    {
        let ghost mid = *graph;
        proof {
            assert(before.contains(i) == mid.contains(i)) by {
                assert(before.nodes().contains(i) == mid.nodes().contains(i));
            }
        }
        let ratio = ratio_to_attach(graph, ReleaseId(i), ratios, default);
        match ratio {
            Some(v) => {
                let key: String = "failure_ratio".to_owned();
                proof {
                    reveal_strlit("failure_ratio");
                    assert(key@ =~= failure_ratio_key());
                }
                graph.set_metadata(ReleaseId(i), key, v);
            },
            None => {},
        }
        proof {
            assert forall|j: usize| #[trigger] before.contains(j) implies graph.contains(j) == mid.contains(j) by {
                assert(graph.nodes().contains(j) == mid.nodes().contains(j));
            }
        }
        i = i + 1;
    }
    proof {
        assert forall|j: usize| #[trigger] before.contains(j) implies j < i by {}
    }
}

/// Removes every concrete release whose failure ratio is missing, not a decimal, or above
/// `threshold`, with the edges that touch it. Returns how many releases were removed.
pub fn filter_by_failure_ratio(graph: &mut Graph, threshold: &Ratio) -> (removed: usize)
    requires
        old(graph).wf(),
        threshold.wf(),
    ensures
        filtered(*old(graph), *final(graph), *threshold),
        removed == pruned(*old(graph), *threshold).len(),
{
    let ghost t = *threshold;
    let goes = |r: &Release| -> (b: bool)
        requires
            r.wf(),
        ensures
            b == prunable(*r, t),
        {
            is_prunable(r, threshold)
        };
    let to_remove = graph.find_by_fn(goes);
    let ghost before = *graph;
    proof {
        assert(id_set(to_remove@) =~= pruned(before, t));
        assert(pruned(before, t).intersect(before.nodes()) =~= pruned(before, t));
    }
    graph.remove_releases(&to_remove)
}

/// Whether a release goes depends on its kind and its metadata alone.
proof fn lemma_prunable_by_metadata(a: Release, b: Release, t: Ratio)
    requires
        a is Concrete <==> b is Concrete,
        metadata_of(a) == metadata_of(b),
    ensures
        prunable(a, t) == prunable(b, t),
{
}

/// Annotating and pruning a second time with the same ratios, default and threshold keeps
/// exactly the releases that the first run kept, and leaves their metadata as it was.
pub proof fn lemma_rollout_idempotent(
    g0: Graph,
    g1: Graph,
    g2: Graph,
    g3: Graph,
    g4: Graph,
    ratios: Map<Seq<char>, Seq<char>>,
    default: Option<Seq<char>>,
    t: Ratio,
)
    requires
        g0.wf(),
        attached(g0, g1, ratios, default),
        filtered(g1, g2, t),
        attached(g2, g3, ratios, default),
        filtered(g3, g4, t),
    ensures
        g4.nodes() == g2.nodes(),
        forall|i: usize| #[trigger] g4.contains(i) ==> metadata_of(g4.release(i)) == metadata_of(
            g2.release(i),
        ),
{
    assert forall|i: usize| #[trigger] g2.contains(i) implies g4.contains(i) && metadata_of(
        g4.release(i),
    ) == metadata_of(g2.release(i)) by {
        assert(g2.nodes().contains(i));
        assert(g1.nodes().contains(i));
        assert(g0.nodes().contains(i));
        assert(g0.contains(i));
        assert(g2.release(i) == g1.release(i));
        assert(!prunable(g1.release(i), t));
        assert(g3.nodes().contains(i));
        assert(g3.contains(i));
        match g0.release(i) {
            Release::Concrete(c) => {
                match ratio_for(ratios, c.version@, default) {
                    Some(v) => {
                        let c2 = g2.release(i)->Concrete_0;
                        assert(c2.version@ == c.version@);
                        assert(metadata_of(g3.release(i)) =~= metadata_of(g2.release(i)));
                    },
                    None => {
                        assert(g3.release(i) == g2.release(i));
                    },
                }
            },
            Release::Abstract(_) => {
                assert(g3.release(i) == g2.release(i));
            },
        }
        lemma_prunable_by_metadata(g3.release(i), g2.release(i), t);
        assert(!pruned(g3, t).contains(i));
        assert(g4.nodes().contains(i));
        assert(g4.release(i) == g3.release(i));
    }
    assert forall|i: usize| #[trigger] g4.contains(i) implies g2.contains(i) by {
        assert(g4.nodes().contains(i));
        assert(g3.nodes().contains(i));
    }
    assert(g4.nodes() =~= g2.nodes());
}

/// Running the plugin a second time on its own output, with the same telemetry reply,
/// keeps exactly the releases of the first run and leaves their metadata as it was.
pub proof fn lemma_run_twice_stable(
    p: PhasedRolloutPlugin,
    io0: PluginIO,
    io1: PluginIO,
    io2: PluginIO,
    reply: QueryResult,
)
    requires
        io0.wf(),
        rollout_outcome(p, io0, reply, Ok(io1)),
        rollout_outcome(p, io1, reply, Ok(io2)),
    ensures
        io2.graph.nodes() == io1.graph.nodes(),
        forall|i: usize| #[trigger] io2.graph.contains(i) ==> metadata_of(io2.graph.release(i))
            == metadata_of(io1.graph.release(i)),
        io2.parameters == io0.parameters,
{
    match reply {
        QueryResult::Success(s) => match s.data {
            QueryData::Vector(v) => {
                let g1 = choose|g: Graph|
                    attached(io0.graph, g, ratios_of(v@), option_view(p.default_failure_ratio))
                        && filtered(g, io1.graph, p.threshold_spec());
                let g3 = choose|g: Graph|
                    attached(io1.graph, g, ratios_of(v@), option_view(p.default_failure_ratio))
                        && filtered(g, io2.graph, p.threshold_spec());
                lemma_rollout_idempotent(
                    io0.graph,
                    g1,
                    io1.graph,
                    g3,
                    io2.graph,
                    ratios_of(v@),
                    option_view(p.default_failure_ratio),
                    p.threshold_spec(),
                );
            },
            QueryData::Matrix(_) => {},
        },
        QueryResult::Error(_) => {},
    }
}

/// A concrete release whose failure ratio equals the threshold stays; one whose ratio is
/// strictly greater goes.
pub proof fn lemma_threshold_is_strict(r: Release, t: Ratio, x: Ratio)
    requires
        r is Concrete,
        metadata_of(r).contains_key(failure_ratio_key()),
        ratio_of(metadata_of(r)[failure_ratio_key()]) == Some(x),
    ensures
        x.units * crate::ratio::pow10(t.scale as nat) == t.units * crate::ratio::pow10(
            x.scale as nat,
        ) ==> !prunable(r, t),
        exceeds(x, t) ==> prunable(r, t),
{
}

/// A concrete release without a failure ratio is removed, whatever its real risk.
pub proof fn lemma_missing_ratio_pruned(old: Graph, new: Graph, t: Ratio, i: usize)
    requires
        filtered(old, new, t),
        old.contains(i),
        old.release(i) is Concrete,
        !metadata_of(old.release(i)).contains_key(failure_ratio_key()),
    ensures
        !new.contains(i),
{
    assert(pruned(old, t).contains(i));
    assert(!new.nodes().contains(i));
}

/// The name under which the plugin is configured.
pub const PLUGIN_NAME: &'static str = "phased-rollout";

/// The telemetry query used when none is configured.
pub const PROMETHEUS_QUERY_DEFAULT: &'static str = "(\n        count by (version) (count_over_time(cluster_version{type=\"failure\"}[14d]))\n            / on (version)\n        count by (version) (count_over_time(cluster_version[14d]))\n    )";

/// The ratio given to a release for which the telemetry has none: maximal risk.
pub const DEFAULT_VERSION_FAILURE_RATIO: &'static str = "1.0";

/// Units of the threshold used when none is configured: 0.8.
pub const DEFAULT_THRESHOLD_UNITS: u64 = 8;

/// Scale of the threshold used when none is configured.
pub const DEFAULT_THRESHOLD_SCALE: u32 = 1;

/// Prunes releases whose observed failure ratio is too high.
pub struct PhasedRolloutPlugin {
    pub tollbooth_api_base: String,
    pub prometheus_api_base: String,
    pub prometheus_api_token: String,
    pub prometheus_query_override: Option<String>,
    /// Releases above this ratio go; `None` means the default of 0.8.
    pub failure_ratio_threshold: Option<Ratio>,
    /// The ratio given to a release without one in the telemetry; `None` gives none, so
    /// that such a release goes.
    pub default_failure_ratio: Option<String>,
}

/// The default as a spec value.
pub open spec fn option_view(o: Option<String>) -> Option<Seq<char>> {
    match o {
        Some(d) => Some(d@),
        None => None,
    }
}

/// What `run_internal` gives for a request and a telemetry reply.
pub open spec fn rollout_outcome(
    p: PhasedRolloutPlugin,
    io: PluginIO,
    reply: QueryResult,
    r: Result<PluginIO, PluginError>,
) -> bool {
    match first_missing(io.parameters.view()) {
        Some(k) => r matches Err(PluginError::MissingParameter(s)) && s@ == k,
        None => match reply {
            QueryResult::Error(_) => r matches Err(PluginError::QueryFailed),
            QueryResult::Success(s) => match s.data {
                QueryData::Matrix(_) => r matches Err(PluginError::UnexpectedResultType),
                QueryData::Vector(v) => r matches Ok(out) && out.wf() && out.parameters
                    == io.parameters && exists|g: Graph|
                    attached(io.graph, g, ratios_of(v@), option_view(p.default_failure_ratio))
                        && filtered(g, out.graph, p.threshold_spec()),
            },
        },
    }
}

impl PhasedRolloutPlugin {
    pub open spec fn wf(&self) -> bool {
        self.failure_ratio_threshold matches Some(t) ==> t.wf()
    }

    /// The threshold in force.
    pub open spec fn threshold_spec(&self) -> Ratio {
        match self.failure_ratio_threshold {
            Some(t) => t,
            None => Ratio { units: DEFAULT_THRESHOLD_UNITS, scale: DEFAULT_THRESHOLD_SCALE },
        }
    }

    /// A plugin for the given telemetry service, with the default query, threshold and
    /// default ratio.
    pub fn new(prometheus_api_base: String, prometheus_api_token: String) -> (p: PhasedRolloutPlugin)
        ensures
            p.wf(),
            p.prometheus_api_base == prometheus_api_base,
            p.prometheus_api_token == prometheus_api_token,
            p.prometheus_query_override is None,
            p.failure_ratio_threshold is None,
            p.default_failure_ratio matches Some(d) && d@ == DEFAULT_VERSION_FAILURE_RATIO@,
    {
        PhasedRolloutPlugin {
            tollbooth_api_base: String::new(),
            prometheus_api_base,
            prometheus_api_token,
            prometheus_query_override: None,
            failure_ratio_threshold: None,
            default_failure_ratio: Some(DEFAULT_VERSION_FAILURE_RATIO.to_owned()),
        }
    }

    /// The threshold in force.
    pub fn threshold(&self) -> (t: Ratio)
        requires
            self.wf(),
        ensures
            t == self.threshold_spec(),
            t.wf(),
    {
        match self.failure_ratio_threshold {
            Some(t) => t,
            None => Ratio { units: DEFAULT_THRESHOLD_UNITS, scale: DEFAULT_THRESHOLD_SCALE },
        }
    }

    /// The telemetry query to send: the configured one, else the default.
    pub fn query(&self) -> (q: String)
        ensures
            match self.prometheus_query_override {
                Some(o) => q@ == o@,
                None => q@ == PROMETHEUS_QUERY_DEFAULT@,
            },
    {
        match &self.prometheus_query_override {
            Some(o) => o.clone(),
            None => PROMETHEUS_QUERY_DEFAULT.to_owned(),
        }
    }

    /// What to ask the telemetry service for this request. Fails, before any query is made,
    /// when a required parameter is missing.
    pub fn prepare(&self, io: &PluginIO) -> (r: Result<String, PluginError>)
        requires
            io.wf(),
        ensures
            match first_missing(io.parameters.view()) {
                Some(k) => r matches Err(PluginError::MissingParameter(s)) && s@ == k,
                None => r matches Ok(q) && match self.prometheus_query_override {
                    Some(o) => q@ == o@,
                    None => q@ == PROMETHEUS_QUERY_DEFAULT@,
                },
            },
    {
        require_parameters(&io.parameters)?;
        Ok(self.query())
    }

    /// Annotates the graph with the failure ratios of `reply` and prunes the releases that go
    /// under the threshold. The parameters pass through unchanged.
    pub fn run_internal(&self, io: PluginIO, reply: &QueryResult) -> (r: Result<PluginIO, PluginError>)
        requires
            self.wf(),
            io.wf(),
        ensures
            rollout_outcome(*self, io, *reply, r),
    {
        require_parameters(&io.parameters)?;
        let ratios = failure_ratios(reply)?;
        let mut graph = io.graph;
        attach_failure_ratios(&mut graph, &ratios, &self.default_failure_ratio);
        let ghost annotated = graph;
        let threshold = self.threshold();
        let _removed = filter_by_failure_ratio(&mut graph, &threshold);
        proof {
            assert(attached(io.graph, annotated, ratios.view(), option_view(self.default_failure_ratio)));
        }
        Ok(PluginIO { graph, parameters: io.parameters })
    }
}

} // verus!
