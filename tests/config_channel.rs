use cincinnati::channel::{is_on_channel, ChannelFilterPlugin};
use cincinnati::config::{default_policies, pipeline_from_settings, plugin_from_settings, policy_plugins};
use cincinnati::graph::{AbstractRelease, ConcreteRelease, Graph, Release, ReleaseId};
use cincinnati::pipeline::{Plugin, Reply, Request};
use cincinnati::plugin::{PluginError, PluginIO};
use cincinnati::ratio::Ratio;
use cincinnati::settings::{AppSettings, SettingsError};
use cincinnati::strmap::StringMap;

const CHANNELS: &str = "io.openshift.upgrades.graph.release.channels";

fn table(pairs: &[(&str, &str)]) -> StringMap {
    let mut m = StringMap::new();
    for (k, v) in pairs {
        m.insert(k.to_string(), v.to_string());
    }
    m
}

fn on(version: &str, channels: Option<&str>) -> Release {
    let mut metadata = StringMap::new();
    if let Some(c) = channels {
        metadata.insert(CHANNELS.to_string(), c.to_string());
    }
    Release::Concrete(ConcreteRelease { version: version.to_string(), payload: String::new(), metadata })
}

#[test]
fn channel_membership_is_by_listed_name() {
    let ch = "stable-4.1".to_string();
    assert!(is_on_channel(&on("1", Some("fast-4.1,stable-4.1")), CHANNELS, &ch));
    assert!(!is_on_channel(&on("1", Some("stable-4.10")), CHANNELS, &ch));
    assert!(!is_on_channel(&on("1", None), CHANNELS, &ch));
    assert!(is_on_channel(&Release::Abstract(AbstractRelease { version: "1".to_string() }), CHANNELS, &ch));
}

#[test]
fn channel_filter_prunes_other_channels() {
    let plugin = ChannelFilterPlugin::new();
    assert_eq!(plugin.channel_key(), CHANNELS);
    let mut g = Graph::new();
    let a = g.add_release(on("a", Some("stable")));
    let b = g.add_release(on("b", Some("fast")));
    let c = g.add_release(on("c", Some("fast,stable")));
    g.add_edge(a, b).unwrap();
    g.add_edge(b, c).unwrap();
    g.add_edge(a, c).unwrap();
    let io = plugin.run_internal(PluginIO { graph: g, parameters: table(&[("channel", "stable")]) }).unwrap();
    assert_eq!(io.graph.release_count(), 2);
    assert!(io.graph.get(b).is_none());
    assert_eq!(io.graph.next_releases(a), vec![c]);
    let missing = plugin.run_internal(PluginIO { graph: Graph::new(), parameters: StringMap::new() });
    match missing {
        Err(PluginError::MissingParameter(k)) => assert_eq!(k, "channel"),
        _ => panic!("expected a missing channel"),
    }
}

#[test]
fn plugins_from_settings() {
    match plugin_from_settings(&table(&[("name", "cincinnati-graph-fetch")])).unwrap() {
        Plugin::GraphFetch(f) => assert_eq!(f.upstream, "http://localhost:8080/v1/graph"),
        _ => panic!("expected a graph fetch"),
    }
    assert!(matches!(
        plugin_from_settings(&table(&[("name", "cincinnati-graph-fetch"), ("upstream", "")])),
        Err(PluginError::EmptyUpstream)
    ));
    match plugin_from_settings(&table(&[("name", "channel-filter"), ("key_suffix", "channels")])).unwrap() {
        Plugin::ChannelFilter(c) => {
            assert_eq!(c.key_prefix, "io.openshift.upgrades.graph");
            assert_eq!(c.key_suffix, "channels");
        },
        _ => panic!("expected a channel filter"),
    }
    match plugin_from_settings(&table(&[
        ("name", "phased-rollout"),
        ("prometheus_api_base", "http://telemetry"),
        ("threshold", "0.5"),
    ]))
    .unwrap()
    {
        Plugin::PhasedRollout(p) => {
            assert_eq!(p.prometheus_api_base, "http://telemetry");
            assert_eq!(p.prometheus_api_token, "");
            assert_eq!(p.failure_ratio_threshold, Some(Ratio { units: 5, scale: 1 }));
            assert_eq!(p.default_failure_ratio, Some("1.0".to_string()));
            assert!(p.prometheus_query_override.is_none());
        },
        _ => panic!("expected a phased rollout"),
    }
    match plugin_from_settings(&table(&[("name", "phased-rollout"), ("prometheus_api_base", "x"), ("threshold", "high")])) {
        Err(PluginError::InvalidSetting(k)) => assert_eq!(k, "threshold"),
        _ => panic!("expected an invalid threshold"),
    }
    match plugin_from_settings(&table(&[("name", "phased-rollout")])) {
        Err(PluginError::MissingSetting(k)) => assert_eq!(k, "prometheus_api_base"),
        _ => panic!("expected a missing setting"),
    }
    match plugin_from_settings(&table(&[("name", "nope")])) {
        Err(PluginError::UnknownPlugin(k)) => assert_eq!(k, "nope"),
        _ => panic!("expected an unknown plugin"),
    }
    match plugin_from_settings(&table(&[])) {
        Err(PluginError::MissingSetting(k)) => assert_eq!(k, "name"),
        _ => panic!("expected a missing name"),
    }
}

#[test]
fn pipeline_assembly_stops_at_first_bad_table() {
    let tables = vec![table(&[("name", "channel-filter")]), table(&[("name", "nope")]), table(&[])];
    match pipeline_from_settings(&tables) {
        Err(PluginError::UnknownPlugin(k)) => assert_eq!(k, "nope"),
        _ => panic!("expected an unknown plugin"),
    }
    let defaults = default_policies("http://upstream");
    assert_eq!(defaults.len(), 2);
    assert_eq!(defaults[0].get("upstream").unwrap(), "http://upstream");
    assert_eq!(defaults[1].get("name").unwrap(), "channel-filter");
    let mut pipeline = policy_plugins(&vec![], "http://upstream").ok().unwrap();
    assert_eq!(pipeline.len(), 2);
    let state = pipeline.start(PluginIO { graph: Graph::new(), parameters: table(&[("channel", "stable")]) });
    match pipeline.request(&state) {
        Request::Upstream(url) => assert_eq!(url, "http://upstream"),
        _ => panic!("expected a fetch"),
    }
    let configured = vec![table(&[("name", "channel-filter")])];
    let mut pipeline = policy_plugins(&configured, "http://upstream").ok().unwrap();
    assert_eq!(pipeline.len(), 1);
    let state = pipeline.start(PluginIO { graph: Graph::new(), parameters: table(&[("channel", "stable")]) });
    assert!(matches!(pipeline.request(&state), Request::Nothing));
    match pipeline.step(state, Reply::Nothing) {
        cincinnati::pipeline::RunState::Done(io) => assert!(io.graph.next_releases(ReleaseId(0)).is_empty()),
        _ => panic!("expected a finished run"),
    }
}

#[test]
fn unknown_setting_fails_construction() {
    match plugin_from_settings(&table(&[("name", "cincinnati-graph-fetch"), ("upstrem", "http://x")])) {
        Err(PluginError::UnknownSetting(k)) => assert_eq!(k, "upstrem"),
        _ => panic!("expected an unknown setting"),
    }
    match plugin_from_settings(&table(&[("name", "channel-filter"), ("upstream", "http://x")])) {
        Err(PluginError::UnknownSetting(k)) => assert_eq!(k, "upstream"),
        _ => panic!("expected an unknown setting"),
    }
    match plugin_from_settings(&table(&[
        ("name", "phased-rollout"),
        ("prometheus_api_base", "http://t"),
        ("tollbooth_api_base", "http://tb"),
    ]))
    .unwrap()
    {
        Plugin::PhasedRollout(p) => assert_eq!(p.tollbooth_api_base, "http://tb"),
        _ => panic!("expected a phased rollout"),
    }
}

#[test]
fn settings_validate_listeners() {
    let s = AppSettings::defaults();
    assert_eq!(s.port, 8081);
    assert_eq!(s.status_port, 9081);
    let s = s.try_validate().ok().unwrap();
    let mut clash = AppSettings::defaults();
    clash.status_port = clash.port;
    assert_eq!(clash.try_validate().err(), Some(SettingsError::SameListener));
    let mut other = AppSettings::defaults();
    other.status_port = other.port;
    other.status_address = "0.0.0.0".to_string();
    assert!(other.try_validate().is_ok());
    let pipeline = s.policy_plugins().ok().unwrap();
    assert_eq!(pipeline.len(), 2);
}
