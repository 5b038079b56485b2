//! Channel filter: keep the releases that the requested channel lists.

use vstd::prelude::*;
use vstd::string::StringExecFns;
use crate::command::{split_at_commas, split_commas, string_views};
use crate::graph::{untouched, Graph, Release};
use crate::plugin::{PluginError, PluginIO};

verus! {

/// The name under which the plugin is configured.
pub const PLUGIN_NAME: &'static str = "channel-filter";

/// Default prefix of the metadata key that lists a release's channels.
pub const DEFAULT_KEY_PREFIX: &'static str = "io.openshift.upgrades.graph";

/// Default suffix of the metadata key that lists a release's channels.
pub const DEFAULT_KEY_SUFFIX: &'static str = "release.channels";

/// The metadata key `prefix.suffix`.
pub open spec fn channel_key(prefix: Seq<char>, suffix: Seq<char>) -> Seq<char> {
    prefix + seq!['.'] + suffix
}

/// Whether a release belongs to `channel`: a concrete release lists it among the
/// comma-separated channels under `key`; an abstract release always does.
pub open spec fn on_channel(r: Release, key: Seq<char>, channel: Seq<char>) -> bool {
    match r {
        Release::Concrete(c) => c.metadata.view().contains_key(key) && split_commas(
            c.metadata.view()[key],
        ).contains(channel),
        Release::Abstract(_) => true,
    }
}

/// The releases of `g` that are not on `channel`.
pub open spec fn off_channel(g: Graph, key: Seq<char>, channel: Seq<char>) -> Set<usize> {
    Set::new(|i: usize| g.contains(i) && !on_channel(g.release(i), key, channel))
}

/// Keeps the releases of the requested channel.
pub struct ChannelFilterPlugin {
    pub key_prefix: String,
    pub key_suffix: String,
}

/// What `run_internal` gives.
pub open spec fn channel_outcome(p: ChannelFilterPlugin, io: PluginIO, r: Result<PluginIO, PluginError>) -> bool {
    let params = io.parameters.view();
    if !params.contains_key("channel"@) {
        r matches Err(PluginError::MissingParameter(k)) && k@ == "channel"@
    } else {
        let gone = off_channel(io.graph, channel_key(p.key_prefix@, p.key_suffix@), params["channel"@]);
        &&& r matches Ok(out)
        &&& out.wf()
        &&& out.parameters == io.parameters
        &&& out.graph.nodes() == io.graph.nodes().difference(gone)
        &&& forall|i: usize| #[trigger] out.graph.contains(i) ==> out.graph.release(i) == io.graph.release(i)
        &&& out.graph.edges_view() == io.graph.edges_view().filter(untouched(gone))
    }
}

/// Whether `release` is on `channel`.
pub fn is_on_channel(release: &Release, key: &str, channel: &String) -> (r: bool)
    ensures
        r == on_channel(*release, key@, channel@),
{
    match release {
        Release::Concrete(c) => match c.metadata.get(key) {
            Some(listed) => {
                let pieces = split_at_commas(listed.as_str());
                let mut i: usize = 0;
                while i < pieces.len()
                    invariant
                        i <= pieces.len(),
                        string_views(pieces@) == split_commas(listed@),
                        on_channel(*release, key@, channel@) == split_commas(listed@).contains(channel@),
                        forall|j: int| 0 <= j < i ==> string_views(pieces@)[j] != channel@,
                    decreases pieces.len() - i,
                {
                    if pieces[i] == *channel {
                        assert(string_views(pieces@)[i as int] == channel@);
                        assert(split_commas(listed@)[i as int] == channel@);
                        assert(split_commas(listed@).contains(channel@));
                        return true;
                    }
                    i = i + 1;
                }
                false
            },
            None => false,
        },
        Release::Abstract(_) => true,
    }
}

impl ChannelFilterPlugin {
    /// A filter on the default metadata key.
    pub fn new() -> (p: ChannelFilterPlugin)
        ensures
            p.key_prefix@ == DEFAULT_KEY_PREFIX@,
            p.key_suffix@ == DEFAULT_KEY_SUFFIX@,
    {
        ChannelFilterPlugin { key_prefix: DEFAULT_KEY_PREFIX.to_owned(), key_suffix: DEFAULT_KEY_SUFFIX.to_owned() }
    }

    /// The metadata key that lists a release's channels.
    pub fn channel_key(&self) -> (k: String)
        ensures
            k@ == channel_key(self.key_prefix@, self.key_suffix@),
    {
        let mut k = self.key_prefix.clone();
        k.append(".");
        k.append(self.key_suffix.as_str());
        proof {
            reveal_strlit(".");
            assert(k@ =~= channel_key(self.key_prefix@, self.key_suffix@));
        }
        k
    }

    /// Removes the releases that are not on the `channel` parameter, with their edges.
    /// Fails when the parameter is missing.
    pub fn run_internal(&self, io: PluginIO) -> (r: Result<PluginIO, PluginError>)
        requires
            io.wf(),
        ensures
            channel_outcome(*self, io, r),
    {
        let channel = match io.parameters.get("channel") {
            Some(c) => c.clone(),
            None => {
                return Err(PluginError::MissingParameter("channel".to_owned()));
            },
        };
        let key = self.channel_key();
        let goes = |r: &Release| -> (b: bool)
            ensures
                b == !on_channel(*r, key@, channel@),
            {
                !is_on_channel(r, key.as_str(), &channel)
            };
        let mut graph = io.graph;
        let to_remove = graph.find_by_fn(goes);
        let ghost before = graph;
        proof {
            assert(crate::graph::id_set(to_remove@) =~= off_channel(before, key@, channel@));
        }
        let _removed = graph.remove_releases(&to_remove);
        Ok(PluginIO { graph, parameters: io.parameters })
    }
}

} // verus!
