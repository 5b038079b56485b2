use cincinnati::graph::{AbstractRelease, ConcreteRelease, Graph, Release, ReleaseId};
use cincinnati::pipeline::{Pipeline, Plugin, Reply, Request, RunState};
use cincinnati::plugin::{PluginError, PluginIO};
use cincinnati::query::{Metric, QueryData, QueryError, QueryResult, QuerySuccess, VectorResult, VectorValue};
use cincinnati::ratio::{parse_ratio, Ratio};
use cincinnati::rollout::{
    attach_failure_ratios, collect_failure_ratios, failure_ratios, filter_by_failure_ratio, is_prunable,
    require_parameters, PhasedRolloutPlugin, PROMETHEUS_QUERY_DEFAULT,
};
use cincinnati::strmap::StringMap;

fn release(version: &str, ratio: Option<&str>) -> Release {
    let mut metadata = StringMap::new();
    if let Some(r) = ratio {
        metadata.insert("failure_ratio".to_string(), r.to_string());
    }
    Release::Concrete(ConcreteRelease { version: version.to_string(), payload: String::new(), metadata })
}

fn sample(version: &str, ratio: &str) -> VectorResult {
    VectorResult {
        metric: Metric::Object(vec![("version".to_string(), Some(version.to_string()))]),
        value: VectorValue { time: "1552056334".to_string(), sample: ratio.to_string() },
    }
}

fn vector(results: Vec<VectorResult>) -> QueryResult {
    QueryResult::Success(QuerySuccess { data: QueryData::Vector(results), warnings: None })
}

fn params(pairs: &[(&str, &str)]) -> StringMap {
    let mut m = StringMap::new();
    for (k, v) in pairs {
        m.insert(k.to_string(), v.to_string());
    }
    m
}

fn versions_of(g: &Graph) -> Vec<String> {
    let mut out = Vec::new();
    for i in 0..g.slot_count() {
        if let Some(r) = g.get(ReleaseId(i)) {
            out.push(r.version().clone());
        }
    }
    out
}

fn ratio_of(g: &Graph, i: usize) -> Option<String> {
    match g.get(ReleaseId(i)) {
        Some(Release::Concrete(c)) => c.metadata.get("failure_ratio").cloned(),
        _ => None,
    }
}

#[test]
fn parse_ratio_values() {
    assert_eq!(parse_ratio("0.8"), Some(Ratio { units: 8, scale: 1 }));
    assert_eq!(parse_ratio("1.0"), Some(Ratio { units: 10, scale: 1 }));
    assert_eq!(parse_ratio(".5"), Some(Ratio { units: 5, scale: 1 }));
    assert_eq!(parse_ratio("5."), Some(Ratio { units: 5, scale: 0 }));
    assert_eq!(parse_ratio("12415917818"), Some(Ratio { units: 12415917818, scale: 0 }));
    assert_eq!(
        parse_ratio("0.04081632653061224"),
        Some(Ratio { units: 4081632653061224, scale: 17 })
    );
    assert_eq!(parse_ratio(""), None);
    assert_eq!(parse_ratio("."), None);
    assert_eq!(parse_ratio("1.2.3"), None);
    assert_eq!(parse_ratio("1e3"), None);
    assert_eq!(parse_ratio("NaN"), None);
    assert_eq!(parse_ratio("-0.1"), None);
    assert_eq!(parse_ratio("0.00000000000000000001"), None);
    assert_eq!(parse_ratio("99999999999999999999"), None);
}

#[test]
fn ratio_comparison_is_exact() {
    let t = Ratio { units: 8, scale: 1 };
    assert!(parse_ratio("0.9").unwrap().exceeds(&t));
    assert!(!parse_ratio("0.8").unwrap().exceeds(&t));
    assert!(!parse_ratio("0.80000").unwrap().exceeds(&t));
    assert!(parse_ratio("0.8000000000000000001").unwrap().exceeds(&t));
    assert!(!parse_ratio("0.7999").unwrap().exceeds(&t));
}

#[test]
fn threshold_equal_is_retained_above_is_removed() {
    let t = Ratio { units: 8, scale: 1 };
    assert!(!is_prunable(&release("a", Some("0.8")), &t));
    assert!(is_prunable(&release("a", Some("0.81")), &t));
    assert!(!is_prunable(&release("a", Some("0.0")), &t));
    let mut g = Graph::new();
    g.add_release(release("equal", Some("0.8")));
    g.add_release(release("above", Some("0.9")));
    assert_eq!(filter_by_failure_ratio(&mut g, &t), 1);
    assert_eq!(versions_of(&g), vec!["equal".to_string()]);
}

#[test]
fn release_without_ratio_is_removed() {
    let t = Ratio { units: 8, scale: 1 };
    let mut g = Graph::new();
    g.add_release(release("none", None));
    g.add_release(release("garbled", Some("high")));
    g.add_release(Release::Abstract(AbstractRelease { version: "abstract".to_string() }));
    g.add_release(release("low", Some("0.1")));
    assert_eq!(filter_by_failure_ratio(&mut g, &t), 2);
    assert_eq!(versions_of(&g), vec!["abstract".to_string(), "low".to_string()]);
}

#[test]
fn collect_failure_ratios_drops_malformed_entries() {
    let results = vec![
        sample("4.0.0-0.1", "0.1"),
        VectorResult {
            metric: Metric::NotObject,
            value: VectorValue { time: "0".to_string(), sample: "0.5".to_string() },
        },
        VectorResult {
            metric: Metric::Object(vec![("version".to_string(), None)]),
            value: VectorValue { time: "0".to_string(), sample: "0.5".to_string() },
        },
        VectorResult {
            metric: Metric::Object(vec![("other".to_string(), Some("4.0.0-0.2".to_string()))]),
            value: VectorValue { time: "0".to_string(), sample: "0.5".to_string() },
        },
        sample("4.0.0-0.3", "0.3"),
        sample("4.0.0-0.1", "0.7"),
    ];
    let ratios = collect_failure_ratios(&results);
    assert_eq!(ratios.len(), 2);
    assert_eq!(ratios.get("4.0.0-0.1").unwrap(), "0.7");
    assert_eq!(ratios.get("4.0.0-0.3").unwrap(), "0.3");
    assert!(ratios.get("4.0.0-0.2").is_none());
}

#[test]
fn failure_ratios_needs_a_vector_success() {
    let err = QueryResult::Error(QueryError {
        error_type: "bad_data".to_string(),
        error: "parse error".to_string(),
        warnings: None,
    });
    assert!(matches!(failure_ratios(&err), Err(PluginError::QueryFailed)));
    let matrix = QueryResult::Success(QuerySuccess { data: QueryData::Matrix(vec![]), warnings: None });
    assert!(matches!(failure_ratios(&matrix), Err(PluginError::UnexpectedResultType)));
    assert_eq!(failure_ratios(&vector(vec![sample("1", "0.5")])).ok().unwrap().len(), 1);
}

#[test]
fn attach_uses_observed_ratio_then_default() {
    let mut g = Graph::new();
    g.add_release(release("seen", None));
    g.add_release(release("unseen", Some("0.2")));
    g.add_release(Release::Abstract(AbstractRelease { version: "seen".to_string() }));
    let ratios = params(&[("seen", "0.3")]);
    attach_failure_ratios(&mut g, &ratios, &Some("1.0".to_string()));
    assert_eq!(ratio_of(&g, 0), Some("0.3".to_string()));
    assert_eq!(ratio_of(&g, 1), Some("1.0".to_string()));
    assert_eq!(ratio_of(&g, 2), None);
    let mut h = Graph::new();
    h.add_release(release("unseen", Some("0.2")));
    attach_failure_ratios(&mut h, &ratios, &None);
    assert_eq!(ratio_of(&h, 0), Some("0.2".to_string()));
}

#[test]
fn rollout_twice_is_stable() {
    let plugin = PhasedRolloutPlugin::new("http://telemetry".to_string(), "token".to_string());
    let mut g = Graph::new();
    for v in ["a", "b", "c", "d"] {
        g.add_release(release(v, None));
    }
    g.add_edge(ReleaseId(0), ReleaseId(1)).unwrap();
    g.add_edge(ReleaseId(1), ReleaseId(3)).unwrap();
    let reply = vector(vec![sample("a", "0.1"), sample("b", "0.95"), sample("d", "0.8")]);
    let p = params(&[("version", "a"), ("channel", "stable"), ("id", "x")]);
    let once = plugin.run_internal(PluginIO { graph: g, parameters: p }, &reply).unwrap();
    assert_eq!(versions_of(&once.graph), vec!["a".to_string(), "d".to_string()]);
    let twice = plugin.run_internal(once, &reply).unwrap();
    assert_eq!(versions_of(&twice.graph), vec!["a".to_string(), "d".to_string()]);
    assert_eq!(ratio_of(&twice.graph, 0), Some("0.1".to_string()));
    assert_eq!(ratio_of(&twice.graph, 3), Some("0.8".to_string()));
    assert!(twice.graph.next_releases(ReleaseId(0)).is_empty());
    assert_eq!(twice.parameters.get("channel").unwrap(), "stable");
}

#[test]
fn phased_rollout_scenario() {
    let plugin = PhasedRolloutPlugin::new("https://infogw-data.api.openshift.com".to_string(), String::new());
    let mut g = Graph::new();
    for i in 1..=9 {
        g.add_release(release(&format!("4.0.0-0.{}", i), None));
    }
    for i in 1..9 {
        g.add_edge(ReleaseId(i - 1), ReleaseId(i)).unwrap();
    }
    let p = params(&[("version", "4.0.0-0.9"), ("channel", ""), ("id", "")]);
    let reply = vector(vec![sample("4.0.0-0.5", "0.9")]);
    let io = plugin.run_internal(PluginIO { graph: g, parameters: p }, &reply).unwrap();
    assert_eq!(io.graph.release_count(), 0);
    assert_eq!(io.parameters.get("version").unwrap(), "4.0.0-0.9");

    // a release whose ratio is present and low enough is the only one kept
    let mut g = Graph::new();
    for i in 1..=9 {
        g.add_release(release(&format!("4.0.0-0.{}", i), None));
    }
    let reply = vector(vec![sample("4.0.0-0.5", "0.9"), sample("4.0.0-0.3", "0.8")]);
    let p = params(&[("version", "4.0.0-0.9"), ("channel", ""), ("id", "")]);
    let io = plugin.run_internal(PluginIO { graph: g, parameters: p }, &reply).unwrap();
    assert_eq!(versions_of(&io.graph), vec!["4.0.0-0.3".to_string()]);
}

#[test]
fn missing_parameter_fails_before_any_query() {
    let cases: [(&[(&str, &str)], &str); 4] = [
        (&[("channel", ""), ("id", "")], "version"),
        (&[("version", "1"), ("id", "")], "channel"),
        (&[("version", "1"), ("channel", "")], "id"),
        (&[], "version"),
    ];
    for (pairs, missing) in cases.iter() {
        match require_parameters(&params(pairs)) {
            Err(PluginError::MissingParameter(k)) => assert_eq!(k, *missing),
            other => panic!("unexpected {:?}", other),
        }
        let mut pipeline = Pipeline::new(vec![Plugin::PhasedRollout(PhasedRolloutPlugin::new(
            "http://telemetry".to_string(),
            String::new(),
        ))]);
        let state = pipeline.start(PluginIO { graph: Graph::new(), parameters: params(pairs) });
        assert!(matches!(pipeline.request(&state), Request::Nothing));
        match pipeline.step(state, Reply::Nothing) {
            RunState::Failed(PluginError::MissingParameter(k)) => assert_eq!(k, *missing),
            _ => panic!("expected a missing parameter"),
        }
    }
    assert!(require_parameters(&params(&[("version", "1"), ("channel", ""), ("id", "")])).is_ok());
}

#[test]
fn query_is_override_or_default() {
    let mut plugin = PhasedRolloutPlugin::new("http://telemetry".to_string(), String::new());
    assert_eq!(plugin.query(), PROMETHEUS_QUERY_DEFAULT);
    plugin.prometheus_query_override = Some("up".to_string());
    assert_eq!(plugin.query(), "up");
    assert_eq!(plugin.threshold(), Ratio { units: 8, scale: 1 });
    plugin.failure_ratio_threshold = Some(Ratio { units: 5, scale: 1 });
    assert_eq!(plugin.threshold(), Ratio { units: 5, scale: 1 });
}
