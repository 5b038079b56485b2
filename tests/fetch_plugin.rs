use cincinnati::fetch::{CincinnatiGraphFetchPlugin, GraphData, UpstreamReply, DEFAULT_UPSTREAM_URL};
use cincinnati::graph::{ConcreteRelease, Graph, Release, ReleaseId};
use cincinnati::pipeline::{Pipeline, Plugin, Reply, Request, RunState};
use cincinnati::plugin::{PluginError, PluginIO};
use cincinnati::query::{Metric, QueryData, QueryResult, QuerySuccess, VectorResult, VectorValue};
use cincinnati::rollout::PhasedRolloutPlugin;
use cincinnati::strmap::StringMap;

fn empty_io() -> PluginIO {
    PluginIO { graph: Graph::new(), parameters: StringMap::new() }
}

fn plugin(upstream: &str) -> CincinnatiGraphFetchPlugin {
    CincinnatiGraphFetchPlugin::new(upstream.to_string())
}

fn concrete(version: &str) -> Release {
    Release::Concrete(ConcreteRelease {
        version: version.to_string(),
        payload: String::new(),
        metadata: StringMap::new(),
    })
}

#[test]
fn fetch_static_graph_succeeds() {
    let mut plugin = plugin("http://127.0.0.1:1234");
    assert_eq!(0, plugin.http_upstream_reqs);
    assert_eq!(0, plugin.http_upstream_errors_total);
    let url = plugin.begin_request();
    assert_eq!(url, "http://127.0.0.1:1234");
    let reply = UpstreamReply::Response {
        status: 200,
        body: Ok(GraphData { releases: vec![], edges: vec![] }),
    };
    let processed = plugin.complete(empty_io(), reply).expect("plugin run failed");
    assert_eq!(processed.graph.release_count(), 0);
    assert!(processed.graph.next_releases(ReleaseId(0)).is_empty());
    assert_eq!(1, plugin.http_upstream_reqs);
    assert_eq!(0, plugin.http_upstream_errors_total);
}

#[test]
fn fetch_fails_unreachable() {
    let mut plugin = plugin("http://not.reachable.test");
    assert_eq!(0, plugin.http_upstream_reqs);
    assert_eq!(0, plugin.http_upstream_errors_total);
    plugin.begin_request();
    let result = plugin.complete(empty_io(), UpstreamReply::Unreachable("dns error".to_string()));
    assert!(result.is_err());
    assert_eq!(1, plugin.http_upstream_reqs);
    assert_eq!(1, plugin.http_upstream_errors_total);
}

#[test]
fn fetch_fails_status_error() {
    let mut plugin = plugin("http://127.0.0.1:1234");
    assert_eq!(0, plugin.http_upstream_reqs);
    assert_eq!(0, plugin.http_upstream_errors_total);
    plugin.begin_request();
    let reply = UpstreamReply::Response { status: 404, body: Err("NOT FOUND".to_string()) };
    let result = plugin.complete(empty_io(), reply);
    assert!(matches!(result, Err(PluginError::UpstreamStatus(404))));
    assert_eq!(1, plugin.http_upstream_reqs);
    assert_eq!(1, plugin.http_upstream_errors_total);
}

#[test]
fn fetch_fails_on_malformed_body() {
    let mut plugin = plugin("http://127.0.0.1:1234");
    plugin.begin_request();
    let reply = UpstreamReply::Response { status: 200, body: Err("expected value".to_string()) };
    assert!(matches!(plugin.complete(empty_io(), reply), Err(PluginError::MalformedGraph(_))));
    plugin.begin_request();
    let reply = UpstreamReply::Response {
        status: 204,
        body: Ok(GraphData { releases: vec![concrete("1")], edges: vec![(0, 3)] }),
    };
    assert!(matches!(plugin.complete(empty_io(), reply), Err(PluginError::MalformedGraph(_))));
    assert_eq!(2, plugin.http_upstream_reqs);
    assert_eq!(2, plugin.http_upstream_errors_total);
}

#[test]
fn fetch_replaces_graph_and_keeps_parameters() {
    let mut plugin = plugin("http://127.0.0.1:1234");
    plugin.begin_request();
    let mut parameters = StringMap::new();
    parameters.insert("channel".to_string(), "stable".to_string());
    let mut old = Graph::new();
    old.add_release(concrete("0.1"));
    let reply = UpstreamReply::Response {
        status: 200,
        body: Ok(GraphData { releases: vec![concrete("1"), concrete("2")], edges: vec![(0, 1)] }),
    };
    let io = plugin.complete(PluginIO { graph: old, parameters }, reply).unwrap();
    assert_eq!(io.graph.release_count(), 2);
    assert_eq!(io.graph.get(ReleaseId(0)).unwrap().version(), "1");
    assert_eq!(io.graph.next_releases(ReleaseId(0)), vec![ReleaseId(1)]);
    assert_eq!(io.parameters.get("channel").unwrap(), "stable");
}

#[test]
fn config_defaults_and_rejects_empty_upstream() {
    let settings = StringMap::new();
    assert_eq!(CincinnatiGraphFetchPlugin::deserialize_config(&settings).unwrap(), DEFAULT_UPSTREAM_URL);
    let mut settings = StringMap::new();
    settings.insert("upstream".to_string(), "http://graph".to_string());
    assert_eq!(CincinnatiGraphFetchPlugin::deserialize_config(&settings).unwrap(), "http://graph");
    settings.insert("upstream".to_string(), String::new());
    assert!(matches!(
        CincinnatiGraphFetchPlugin::deserialize_config(&settings),
        Err(PluginError::EmptyUpstream)
    ));
}

#[test]
fn pipeline_runs_stages_in_order() {
    let mut pipeline = Pipeline::new(vec![
        Plugin::GraphFetch(plugin("http://upstream")),
        Plugin::PhasedRollout(PhasedRolloutPlugin::new("http://telemetry".to_string(), String::new())),
    ]);
    let mut parameters = StringMap::new();
    for k in ["version", "channel", "id"] {
        parameters.insert(k.to_string(), String::new());
    }
    let state = pipeline.start(PluginIO { graph: Graph::new(), parameters });
    match pipeline.request(&state) {
        Request::Upstream(url) => assert_eq!(url, "http://upstream"),
        _ => panic!("expected an upstream request"),
    }
    let reply = UpstreamReply::Response {
        status: 200,
        body: Ok(GraphData { releases: vec![concrete("1"), concrete("2")], edges: vec![(0, 1)] }),
    };
    let state = pipeline.step(state, Reply::Upstream(reply));
    assert!(matches!(state, RunState::Running { next: 1, .. }));
    assert!(matches!(pipeline.request(&state), Request::Telemetry(_)));
    let telemetry = QueryResult::Success(QuerySuccess {
        data: QueryData::Vector(vec![VectorResult {
            metric: Metric::Object(vec![("version".to_string(), Some("2".to_string()))]),
            value: VectorValue { time: "0".to_string(), sample: "0.1".to_string() },
        }]),
        warnings: None,
    });
    match pipeline.step(state, Reply::Telemetry(telemetry)) {
        RunState::Done(io) => {
            assert_eq!(io.graph.release_count(), 1);
            assert_eq!(io.graph.get(ReleaseId(1)).unwrap().version(), "2");
        },
        _ => panic!("expected a finished run"),
    }
}

#[test]
fn pipeline_stops_at_first_failure() {
    let mut pipeline = Pipeline::new(vec![
        Plugin::GraphFetch(plugin("http://upstream")),
        Plugin::PhasedRollout(PhasedRolloutPlugin::new("http://telemetry".to_string(), String::new())),
    ]);
    let state = pipeline.start(empty_io());
    pipeline.request(&state);
    let state = pipeline.step(state, Reply::Upstream(UpstreamReply::Response { status: 500, body: Err(String::new()) }));
    assert!(matches!(state, RunState::Failed(PluginError::UpstreamStatus(500))));
    assert!(matches!(pipeline.request(&state), Request::Nothing));
    let state = pipeline.step(state, Reply::Nothing);
    assert!(matches!(state, RunState::Failed(PluginError::UpstreamStatus(500))));
    let empty = Pipeline::new(vec![]);
    assert!(matches!(empty.start(empty_io()), RunState::Done(_)));
}
