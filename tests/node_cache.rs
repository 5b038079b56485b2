use cincinnati::command::{DownloadNodes, Versions};
use cincinnati::graph::{ConcreteRelease, Release};
use cincinnati::memtrack::{AllocationTracker, ScopeTracker};
use cincinnati::persistence::{
    collect_by_manifestref, split_manifestref, Cache, DownloadMode, Downloader, Persistence, PersistenceError,
};
use cincinnati::strmap::StringMap;

const KEY: &str = "io.openshift.upgrades.graph.release.manifestref";

fn release(version: &str, manifestref: &str) -> Release {
    let mut metadata = StringMap::new();
    metadata.insert(KEY.to_string(), manifestref.to_string());
    Release::Concrete(ConcreteRelease { version: version.to_string(), payload: String::new(), metadata })
}

fn cache(entries: &[(&str, Option<Release>)]) -> Cache {
    let mut c = Cache::new();
    for (k, v) in entries.iter() {
        c.insert(k.to_string(), v.as_ref().map(|r| r.copy()));
    }
    c
}

fn version_in(c: &Cache, key: &str) -> Option<String> {
    match c.get(key) {
        Some(Some(r)) => Some(r.version().clone()),
        _ => None,
    }
}

#[test]
fn e2e_simple_repo() {
    let mut downloader = Downloader {
        options: DownloadNodes::with_defaults(),
        persistence: Persistence::new(".nodes".to_string(), DownloadMode::VerifyExistingAddNew),
    };
    assert!(downloader.persistence.needs_loading());
    downloader
        .persistence
        .load_value("sha256", "aaa", Some(release("4.1.0", "sha256:aaa")));
    assert_eq!(downloader.initial_cache().len(), 0);
    let releases = vec![release("4.1.0", "sha256:aaa"), release("4.1.1", "sha256:bbb")];
    let jobs = downloader.finish(&releases).unwrap();
    assert_eq!(jobs.len(), 1);
    assert_eq!(jobs[0].manifestref, "sha256:bbb");
    assert_eq!(jobs[0].algo, "sha256");
    assert_eq!(jobs[0].hash, "bbb");
    assert_eq!(version_in(downloader.persistence.get_cache(), "sha256:bbb"), Some("4.1.1".to_string()));
    assert_eq!(downloader.persistence.get_cache().len(), 2);
}

#[test]
fn verify_only_reports_mismatch_and_changes_nothing() {
    let mut p = Persistence::new("d".to_string(), DownloadMode::VerifyExistingOnly);
    p.load_value("sha256", "aaa", Some(release("1", "sha256:aaa")));
    let fresh = cache(&[("sha256:aaa", Some(release("2", "sha256:aaa"))), ("sha256:ccc", None)]);
    match p.update_with(&fresh) {
        Err(PersistenceError::ValueMismatch(keys)) => assert_eq!(keys, vec!["sha256:aaa".to_string()]),
        _ => panic!("expected a mismatch"),
    }
    assert_eq!(p.get_cache().len(), 1);
    let same = cache(&[("sha256:aaa", Some(release("1", "sha256:aaa"))), ("sha256:ccc", None)]);
    assert_eq!(p.update_with(&same).unwrap().len(), 0);
    assert_eq!(p.get_cache().len(), 1);
}

#[test]
fn add_new_overwrites_and_persists_everything() {
    let mut p = Persistence::new("d".to_string(), DownloadMode::AddNew);
    p.load_value("sha256", "aaa", Some(release("1", "sha256:aaa")));
    let fresh = cache(&[("sha256:aaa", Some(release("2", "sha256:aaa"))), ("sha256:ccc", None)]);
    let jobs = p.update_with(&fresh).unwrap();
    assert_eq!(jobs.len(), 2);
    assert_eq!(version_in(p.get_cache(), "sha256:aaa"), Some("2".to_string()));
    assert!(matches!(p.get_cache().get("sha256:ccc"), Some(None)));
}

#[test]
fn bad_manifestref_fails_update() {
    let mut p = Persistence::new("d".to_string(), DownloadMode::AddNewOverwriteExisting);
    assert!(!p.needs_loading());
    let fresh = cache(&[("no-colon", None)]);
    match p.update_with(&fresh) {
        Err(PersistenceError::BadManifestref(k)) => assert_eq!(k, "no-colon"),
        _ => panic!("expected a bad reference"),
    }
}

#[test]
fn split_manifestref_needs_one_colon() {
    assert_eq!(split_manifestref("sha256:abc"), Some(("sha256".to_string(), "abc".to_string())));
    assert_eq!(split_manifestref(":abc"), Some((String::new(), "abc".to_string())));
    assert_eq!(split_manifestref("sha256"), None);
    assert_eq!(split_manifestref("a:b:c"), None);
}

#[test]
fn collect_needs_the_reference_key() {
    let ok = collect_by_manifestref(&vec![release("1", "sha256:a"), release("2", "sha256:a")], KEY).unwrap();
    assert_eq!(ok.len(), 1);
    assert_eq!(version_in(&ok, "sha256:a"), Some("2".to_string()));
    match collect_by_manifestref(&vec![release("1", "sha256:a")], "other") {
        Err(PersistenceError::MissingManifestref(k)) => assert_eq!(k, "other"),
        _ => panic!("expected a missing reference"),
    }
}

#[test]
fn load_value_keys_by_algo_and_file() {
    let mut p = Persistence::new("d".to_string(), DownloadMode::AddNew);
    p.load_value("sha256", "abc", None);
    assert!(matches!(p.get_cache().get("sha256:abc"), Some(None)));
    p.get_cache_mut().insert("x:y".to_string(), None);
    assert_eq!(p.get_cache().len(), 2);
}

#[test]
fn versions_split_at_commas() {
    assert_eq!(Versions::from_str("4.1.0,4.1.1").0, vec!["4.1.0".to_string(), "4.1.1".to_string()]);
    assert_eq!(Versions::from_str("4.1.0").0, vec!["4.1.0".to_string()]);
    assert_eq!(Versions::from_str("").0, vec![String::new()]);
    assert_eq!(Versions::from_str("a,,b,").0, vec!["a".to_string(), String::new(), "b".to_string(), String::new()]);
}

#[test]
fn download_defaults() {
    let d = DownloadNodes::with_defaults();
    assert_eq!(d.registry, "quay.io");
    assert_eq!(d.repository, "openshift-release-dev/ocp-release");
    assert_eq!(d.concurrency, 16);
    assert_eq!(d.persistence_mode, DownloadMode::VerifyExistingAddNew);
}

#[test]
fn scope_tracker_reports_escaped_bytes() {
    let mut t = AllocationTracker::new();
    t.record_alloc(100);
    let scope = ScopeTracker::new("s".to_string(), "f.rs".to_string(), 3, &t);
    assert_eq!(scope.escaped(&t), None);
    t.record_alloc(40);
    t.record_dealloc(10);
    assert_eq!(t.current_mem(), 130);
    assert_eq!(scope.escaped(&t), Some(30));
    t.record_dealloc(30);
    assert_eq!(scope.escaped(&t), None);
}
