//! The data utility's command line, as plain values.

use vstd::prelude::*;
use vstd::string::StrSliceExecFns;
use crate::persistence::DownloadMode;

verus! {

/// Options of the utility.
pub struct Args {
    /// Where the node files are cached.
    pub nodes_persistence_dir: String,
    pub cmd: Command,
}

pub enum Command {
    DownloadNodes(DownloadNodes),
    PushToQuay(PushToQuay),
}

/// Options of the node download.
pub struct DownloadNodes {
    pub registry: String,
    pub repository: String,
    pub persistence_mode: DownloadMode,
    pub concurrency: usize,
    pub manifestref_key: String,
    pub username: Option<String>,
    pub password: Option<String>,
}

/// Default registry of the node download.
pub const DEFAULT_REGISTRY: &'static str = "quay.io";

/// Default repository of the node download.
pub const DEFAULT_REPOSITORY: &'static str = "openshift-release-dev/ocp-release";

/// Default label that holds a release's manifest reference.
pub const DEFAULT_MANIFESTREF_KEY: &'static str = "io.openshift.upgrades.graph.release.manifestref";

/// Default number of concurrent downloads.
pub const DEFAULT_CONCURRENCY: usize = 16;

impl DownloadNodes {
    /// The options with every default applied and no credentials.
    pub fn with_defaults() -> (d: DownloadNodes)
        ensures
            d.registry@ == DEFAULT_REGISTRY@,
            d.repository@ == DEFAULT_REPOSITORY@,
            d.persistence_mode == DownloadMode::VerifyExistingAddNew,
            d.concurrency == DEFAULT_CONCURRENCY,
            d.manifestref_key@ == DEFAULT_MANIFESTREF_KEY@,
            d.username is None,
            d.password is None,
    {
        DownloadNodes {
            registry: DEFAULT_REGISTRY.to_owned(),
            repository: DEFAULT_REPOSITORY.to_owned(),
            persistence_mode: DownloadMode::VerifyExistingAddNew,
            concurrency: DEFAULT_CONCURRENCY,
            manifestref_key: DEFAULT_MANIFESTREF_KEY.to_owned(),
            username: None,
            password: None,
        }
    }
}

/// The pieces of `s` between commas; a text without commas is one piece.
pub open spec fn split_commas(s: Seq<char>) -> Seq<Seq<char>>
    decreases s.len(),
{
    if s.len() == 0 {
        seq![Seq::<char>::empty()]
    } else {
        let parts = split_commas(s.drop_last());
        if s.last() == ',' {
            parts.push(Seq::<char>::empty())
        } else {
            parts.update(parts.len() - 1, parts.last().push(s.last()))
        }
    }
}

proof fn lemma_split_commas_nonempty(s: Seq<char>)
    ensures
        split_commas(s).len() >= 1,
    decreases s.len(),
{
    if s.len() > 0 {
        lemma_split_commas_nonempty(s.drop_last());
    }
}

/// The texts of a list of strings.
pub open spec fn string_views(v: Seq<String>) -> Seq<Seq<char>> {
    v.map_values(|x: String| x@)
}

/// A list of versions, given on the command line separated by commas.
pub struct Versions(pub Vec<String>);

impl Versions {
    pub open spec fn view(&self) -> Seq<Seq<char>> {
        string_views(self.0@)
    }

    /// The versions in `s`, split at each comma.
    pub fn from_str(s: &str) -> (v: Versions)
        ensures
            v.view() == split_commas(s@),
    {
        Versions(split_at_commas(s))
    }
}

/// The pieces of `s` between commas.
pub fn split_at_commas(s: &str) -> (v: Vec<String>)
    ensures
        string_views(v@) == split_commas(s@),
{
    let n = s.unicode_len();
    let mut pieces: Vec<String> = Vec::new();
    let mut start: usize = 0;
    let mut i: usize = 0;
    proof {
        assert(s@.take(0) =~= Seq::<char>::empty());
        assert(string_views(pieces@).push(s@.subrange(0, 0)) =~= seq![Seq::<char>::empty()]);
    }
    while i < n
        invariant
            n == s@.len(),
            start <= i <= n,
            string_views(pieces@).push(s@.subrange(start as int, i as int))
                == split_commas(s@.take(i as int)),
        decreases n - i,
    {
        let c = s.get_char(i);
        let ghost parts = split_commas(s@.take(i as int));
        proof {
            assert(s@.take(i + 1).drop_last() =~= s@.take(i as int));
            assert(s@.take(i + 1).last() == c);
            lemma_split_commas_nonempty(s@.take(i as int));
        }
        let ghost views_before = string_views(pieces@);
        if c == ',' {
            let piece = s.substring_char(start, i).to_owned();
            pieces.push(piece);
            assert(string_views(pieces@) =~= views_before.push(s@.subrange(start as int, i as int)));
            let ghost old_start = start;
            start = i + 1;
            proof {
                assert(parts == views_before.push(s@.subrange(old_start as int, i as int)));
                assert(s@.subrange(start as int, i + 1) =~= Seq::<char>::empty());
                assert(string_views(pieces@).push(s@.subrange(start as int, i + 1))
                    =~= parts.push(Seq::<char>::empty()));
            }
        } else {
            proof {
                assert(s@.subrange(start as int, i + 1) =~= s@.subrange(start as int, i as int).push(c));
                assert(string_views(pieces@).push(s@.subrange(start as int, i + 1))
                    =~= parts.update(parts.len() - 1, parts.last().push(c)));
            }
        }
        i = i + 1;
    }
    let last = s.substring_char(start, n).to_owned();
    pieces.push(last);
    proof {
        assert(s@.take(n as int) =~= s@);
        assert(string_views(pieces@) =~= split_commas(s@));
    }
    pieces
}

/// Options of the push of metadata to the registry.
pub struct PushToQuay {
    pub metadata_input_dir: String,
    pub token_file: Option<String>,
    pub versions: Option<Versions>,
}

} // verus!
