//! Building plugins, and the pipeline, from settings tables: each table names a plugin under
//! `name` and holds its string settings; unset settings take their defaults.

use vstd::prelude::*;
use crate::channel::{self, ChannelFilterPlugin};
use crate::fetch::{self, CincinnatiGraphFetchPlugin};
use crate::pipeline::{Pipeline, Plugin};
use crate::plugin::PluginError;
use crate::ratio::{parse_ratio, ratio_of};
use crate::rollout::{self, option_view, PhasedRolloutPlugin};
use crate::strmap::StringMap;

verus! {

/// The setting under `key`, else `default`.
pub open spec fn setting(s: Map<Seq<char>, Seq<char>>, key: Seq<char>, default: Seq<char>) -> Seq<char> {
    if s.contains_key(key) {
        s[key]
    } else {
        default
    }
}

/// The setting under `key`, if any.
pub open spec fn optional(s: Map<Seq<char>, Seq<char>>, key: Seq<char>) -> Option<Seq<char>> {
    if s.contains_key(key) {
        Some(s[key])
    } else {
        None
    }
}

/// Whether the plugin named `name` takes a setting under `key`.
pub open spec fn known_setting(name: Seq<char>, key: Seq<char>) -> bool {
    ||| key == "name"@
    ||| name == fetch::PLUGIN_NAME@ && key == "upstream"@
    ||| name == channel::PLUGIN_NAME@ && (key == "key_prefix"@ || key == "key_suffix"@)
    ||| name == rollout::PLUGIN_NAME@ && (key == "tollbooth_api_base"@ || key == "prometheus_api_base"@
        || key == "prometheus_api_token"@ || key == "prometheus_query"@ || key == "threshold"@ || key
        == "default_failure_ratio"@)
}

/// `name` is the name of a plugin.
pub open spec fn known_plugin(name: Seq<char>) -> bool {
    name == fetch::PLUGIN_NAME@ || name == channel::PLUGIN_NAME@ || name == rollout::PLUGIN_NAME@
}

/// What building a plugin from the settings `s` gives.
pub open spec fn config_outcome(s: Map<Seq<char>, Seq<char>>, r: Result<Plugin, PluginError>) -> bool {
    if !s.contains_key("name"@) {
        r matches Err(PluginError::MissingSetting(k)) && k@ == "name"@
    } else if known_plugin(s["name"@]) && exists|k: Seq<char>|
        s.contains_key(k) && !#[trigger] known_setting(s["name"@], k) {
        r matches Err(PluginError::UnknownSetting(k)) && s.contains_key(k@) && !known_setting(
            s["name"@],
            k@,
        )
    } else if s["name"@] == fetch::PLUGIN_NAME@ {
        let u = setting(s, "upstream"@, fetch::DEFAULT_UPSTREAM_URL@);
        if u.len() == 0 {
            r matches Err(PluginError::EmptyUpstream)
        } else {
            r matches Ok(Plugin::GraphFetch(f)) && f.upstream@ == u && f.http_upstream_reqs == 0
                && f.http_upstream_errors_total == 0
        }
    } else if s["name"@] == channel::PLUGIN_NAME@ {
        r matches Ok(Plugin::ChannelFilter(c)) && c.key_prefix@ == setting(
            s,
            "key_prefix"@,
            channel::DEFAULT_KEY_PREFIX@,
        ) && c.key_suffix@ == setting(s, "key_suffix"@, channel::DEFAULT_KEY_SUFFIX@)
    } else if s["name"@] == rollout::PLUGIN_NAME@ {
        if !s.contains_key("prometheus_api_base"@) {
            r matches Err(PluginError::MissingSetting(k)) && k@ == "prometheus_api_base"@
        } else if s.contains_key("threshold"@) && ratio_of(s["threshold"@]) is None {
            r matches Err(PluginError::InvalidSetting(k)) && k@ == "threshold"@
        } else {
            &&& r matches Ok(Plugin::PhasedRollout(p))
            &&& p.wf()
            &&& p.tollbooth_api_base@ == setting(s, "tollbooth_api_base"@, Seq::empty())
            &&& p.prometheus_api_base@ == s["prometheus_api_base"@]
            &&& p.prometheus_api_token@ == setting(s, "prometheus_api_token"@, Seq::empty())
            &&& option_view(p.prometheus_query_override) == optional(s, "prometheus_query"@)
            &&& p.failure_ratio_threshold == if s.contains_key("threshold"@) {
                ratio_of(s["threshold"@])
            } else {
                None
            }
            &&& option_view(p.default_failure_ratio) == Some(
                setting(s, "default_failure_ratio"@, rollout::DEFAULT_VERSION_FAILURE_RATIO@),
            )
        }
    } else {
        r matches Err(PluginError::UnknownPlugin(n)) && n@ == s["name"@]
    }
}

fn setting_or(s: &StringMap, key: &str, default: &str) -> (r: String)
    ensures
        r@ == setting(s.view(), key@, default@),
{
    match s.get(key) {
        Some(v) => v.clone(),
        None => default.to_owned(),
    }
}

fn optional_setting(s: &StringMap, key: &str) -> (r: Option<String>)
    ensures
        option_view(r) == optional(s.view(), key@),
{
    match s.get(key) {
        Some(v) => Some(v.clone()),
        None => None,
    }
}

fn same_text(a: &String, b: &str) -> (r: bool)
    ensures
        r == (a@ == b@),
{
    *a == b.to_owned()
}

fn is_known_setting(name: &String, key: &String) -> (r: bool)
    ensures
        r == known_setting(name@, key@),
{
    same_text(key, "name") || (same_text(name, fetch::PLUGIN_NAME) && same_text(key, "upstream"))
        || (same_text(name, channel::PLUGIN_NAME) && (same_text(key, "key_prefix") || same_text(
        key,
        "key_suffix",
    ))) || (same_text(name, rollout::PLUGIN_NAME) && (same_text(key, "tollbooth_api_base")
        || same_text(key, "prometheus_api_base") || same_text(key, "prometheus_api_token")
        || same_text(key, "prometheus_query") || same_text(key, "threshold") || same_text(
        key,
        "default_failure_ratio",
    )))
}

/// The first setting, in order of insertion, that the plugin named `name` does not take.
fn first_unknown_setting(settings: &StringMap, name: &String) -> (r: Option<String>)
    ensures
        match r {
            None => forall|k: Seq<char>| #[trigger] settings.view().contains_key(k) ==> known_setting(name@, k),
            Some(k) => settings.view().contains_key(k@) && !known_setting(name@, k@),
        },
{
    proof {
        use_type_invariant(settings);
        settings.lemma_keys();
    }
    let n = settings.len();
    let mut i: usize = 0;
    while i < n
        invariant
            i <= n,
            n == settings.view().dom().len(),
            settings.keys().len() == n,
            forall|j: int| 0 <= j < i ==> known_setting(name@, #[trigger] settings.keys()[j]),
        decreases n - i,
    {
        let (key, _) = settings.entry(i);
        if !is_known_setting(name, key) {
            return Some(key.clone());
        }
        i = i + 1;
    }
    proof {
        assert forall|k: Seq<char>| #[trigger] settings.view().contains_key(k) implies known_setting(name@, k) by {
            assert(settings.keys().contains(k));
            let j = choose|j: int| 0 <= j < settings.keys().len() && settings.keys()[j] == k;
        }
    }
    None
}

/// Builds the plugin that the settings name.
pub fn plugin_from_settings(settings: &StringMap) -> (r: Result<Plugin, PluginError>)
    ensures
        config_outcome(settings.view(), r),
        r matches Ok(p) ==> p.wf(),
{
    let name = match settings.get("name") {
        Some(n) => n.clone(),
        None => {
            return Err(PluginError::MissingSetting("name".to_owned()));
        },
    };
    let fetch_name = fetch::PLUGIN_NAME.to_owned();
    let channel_name = channel::PLUGIN_NAME.to_owned();
    let rollout_name = rollout::PLUGIN_NAME.to_owned();
    if name == fetch_name || name == channel_name || name == rollout_name {
        match first_unknown_setting(settings, &name) {
            Some(k) => {
                return Err(PluginError::UnknownSetting(k));
            },
            None => {},
        }
    }
    if name == fetch_name {
        let upstream = CincinnatiGraphFetchPlugin::deserialize_config(settings)?;
        Ok(Plugin::GraphFetch(CincinnatiGraphFetchPlugin::new(upstream)))
    } else if name == channel_name {
        Ok(
            Plugin::ChannelFilter(
                ChannelFilterPlugin {
                    key_prefix: setting_or(settings, "key_prefix", channel::DEFAULT_KEY_PREFIX),
                    key_suffix: setting_or(settings, "key_suffix", channel::DEFAULT_KEY_SUFFIX),
                },
            ),
        )
    } else if name == rollout_name {
        let api_base = match settings.get("prometheus_api_base") {
            Some(b) => b.clone(),
            None => {
                return Err(PluginError::MissingSetting("prometheus_api_base".to_owned()));
            },
        };
        proof {
            reveal_strlit("");
            assert(""@ =~= Seq::<char>::empty());
        }
        let threshold = match settings.get("threshold") {
            Some(t) => match parse_ratio(t.as_str()) {
                Some(x) => Some(x),
                None => {
                    return Err(PluginError::InvalidSetting("threshold".to_owned()));
                },
            },
            None => None,
        };
        Ok(
            Plugin::PhasedRollout(
                PhasedRolloutPlugin {
                    tollbooth_api_base: setting_or(settings, "tollbooth_api_base", ""),
                    prometheus_api_base: api_base,
                    prometheus_api_token: setting_or(settings, "prometheus_api_token", ""),
                    prometheus_query_override: optional_setting(settings, "prometheus_query"),
                    failure_ratio_threshold: threshold,
                    default_failure_ratio: Some(
                        setting_or(settings, "default_failure_ratio", rollout::DEFAULT_VERSION_FAILURE_RATIO),
                    ),
                },
            ),
        )
    } else {
        Err(PluginError::UnknownPlugin(name))
    }
}

/// The settings of each table.
pub open spec fn table_views(tables: Seq<StringMap>) -> Seq<Map<Seq<char>, Seq<char>>> {
    tables.map_values(|t: StringMap| t.view())
}

/// The pipeline is built from `tables`, or one of them fails.
pub open spec fn assembled(tables: Seq<Map<Seq<char>, Seq<char>>>, r: Result<Pipeline, PluginError>) -> bool {
    &&& r matches Ok(p) ==> p.wf() && p.stages().len() == tables.len() && forall|i: int|
        0 <= i < tables.len() ==> #[trigger] config_outcome(tables[i], Ok(p.stages()[i]))
    &&& r matches Err(e) ==> exists|i: int| 0 <= i < tables.len() && #[trigger] config_outcome(tables[i], Err(e))
}

/// The tables of the default policies.
pub open spec fn default_tables(upstream: Seq<char>) -> Seq<Map<Seq<char>, Seq<char>>> {
    seq![
        Map::<Seq<char>, Seq<char>>::empty().insert("name"@, fetch::PLUGIN_NAME@).insert("upstream"@, upstream),
        Map::<Seq<char>, Seq<char>>::empty().insert("name"@, channel::PLUGIN_NAME@).insert(
            "key_prefix"@,
            channel::DEFAULT_KEY_PREFIX@,
        ).insert("key_suffix"@, channel::DEFAULT_KEY_SUFFIX@),
    ]
}

/// Builds every configured plugin, in order. The first table that fails stops the build.
pub fn pipeline_from_settings(tables: &Vec<StringMap>) -> (r: Result<Pipeline, PluginError>)
    ensures
        assembled(table_views(tables@), r),
{
    let mut plugins: Vec<Plugin> = Vec::new();
    let mut i: usize = 0;
    while i < tables.len()
        invariant
            i <= tables.len(),
            plugins@.len() == i,
            forall|j: int| 0 <= j < i ==> #[trigger] config_outcome(tables@[j].view(), Ok(plugins@[j]))
                && plugins@[j].wf(),
        decreases tables.len() - i,
    {
        let ghost before = plugins@;
        match plugin_from_settings(&tables[i]) {
            Ok(p) => {
                plugins.push(p);
                proof {
                    assert forall|j: int| 0 <= j < i + 1 implies #[trigger] config_outcome(
                        tables@[j].view(),
                        Ok(plugins@[j]),
                    ) && plugins@[j].wf() by {
                        if j < i {
                            assert(plugins@[j] == before[j]);
                        }
                    }
                }
            },
            Err(e) => {
                proof {
                    assert(config_outcome(tables@[i as int].view(), Err(e)));
                    assert(table_views(tables@)[i as int] == tables@[i as int].view());
                }
                return Err(e);
            },
        }
        i = i + 1;
    }
    let p = Pipeline::new(plugins);
    proof {
        assert forall|j: int| 0 <= j < p.stages().len() implies #[trigger] p.stages()[j].wf() by {
            assert(config_outcome(tables@[j].view(), Ok(plugins@[j])));
        }
        assert forall|j: int| 0 <= j < tables@.len() implies #[trigger] config_outcome(
            table_views(tables@)[j],
            Ok(p.stages()[j]),
        ) by {
            assert(table_views(tables@)[j] == tables@[j].view());
        }
    }
    Ok(p)
}

/// The policies used when none are configured: fetch the graph from `upstream`, then keep
/// the requested channel.
pub fn default_policies(upstream: &str) -> (r: Vec<StringMap>)
    ensures
        table_views(r@) == default_tables(upstream@),
{
    let mut fetch_table = StringMap::new();
    fetch_table.insert("name".to_owned(), fetch::PLUGIN_NAME.to_owned());
    fetch_table.insert("upstream".to_owned(), upstream.to_owned());
    let mut channel_table = StringMap::new();
    channel_table.insert("name".to_owned(), channel::PLUGIN_NAME.to_owned());
    channel_table.insert("key_prefix".to_owned(), channel::DEFAULT_KEY_PREFIX.to_owned());
    channel_table.insert("key_suffix".to_owned(), channel::DEFAULT_KEY_SUFFIX.to_owned());
    let mut r: Vec<StringMap> = Vec::new();
    r.push(fetch_table);
    r.push(channel_table);
    assert(table_views(r@) =~= default_tables(upstream@));
    r
}

/// The pipeline of the configured policies, or of the default ones when none are configured.
pub fn policy_plugins(configured: &Vec<StringMap>, upstream: &str) -> (r: Result<Pipeline, PluginError>)
    ensures
        assembled(
            if configured@.len() == 0 {
                default_tables(upstream@)
            } else {
                table_views(configured@)
            },
            r,
        ),
{
    if configured.len() == 0 {
        pipeline_from_settings(&default_policies(upstream))
    } else {
        pipeline_from_settings(configured)
    }
}

} // verus!
