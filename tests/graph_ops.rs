use cincinnati::graph::{AbstractRelease, ConcreteRelease, Graph, GraphError, Release, ReleaseId};
use cincinnati::strmap::StringMap;

fn concrete(version: &str) -> Release {
    Release::Concrete(ConcreteRelease {
        version: version.to_string(),
        payload: format!("image:{}", version),
        metadata: StringMap::new(),
    })
}

fn chain(n: usize) -> (Graph, Vec<ReleaseId>) {
    let mut g = Graph::new();
    let mut ids = Vec::new();
    for i in 0..n {
        ids.push(g.add_release(concrete(&format!("1.0.{}", i))));
    }
    for i in 1..n {
        g.add_edge(ids[i - 1], ids[i]).unwrap();
    }
    (g, ids)
}

#[test]
fn add_release_hands_out_fresh_handles() {
    let (g, ids) = chain(3);
    assert_eq!(ids, vec![ReleaseId(0), ReleaseId(1), ReleaseId(2)]);
    assert_eq!(g.release_count(), 3);
    assert_eq!(g.get(ReleaseId(1)).unwrap().version(), "1.0.1");
    assert!(g.get(ReleaseId(3)).is_none());
}

#[test]
fn add_edge_to_missing_release_is_invalid() {
    let (mut g, ids) = chain(2);
    assert_eq!(g.add_edge(ids[0], ReleaseId(9)), Err(GraphError::InvalidEdge));
    assert_eq!(g.add_edge(ReleaseId(9), ids[0]), Err(GraphError::InvalidEdge));
    assert_eq!(g.next_releases(ids[0]), vec![ids[1]]);
}

#[test]
fn remove_releases_counts_only_present_ids() {
    let (mut g, ids) = chain(4);
    g.add_edge(ids[0], ids[2]).unwrap();
    let removed = g.remove_releases(&vec![ids[1], ids[1], ReleaseId(7)]);
    assert_eq!(removed, 1);
    assert_eq!(g.release_count(), 3);
    assert!(g.get(ids[1]).is_none());
    assert_eq!(g.next_releases(ids[0]), vec![ids[2]]);
    assert_eq!(g.next_releases(ids[1]), Vec::<ReleaseId>::new());
    assert_eq!(g.next_releases(ids[2]), vec![ids[3]]);
    // removing again is a no-op
    assert_eq!(g.remove_releases(&vec![ids[1]]), 0);
}

#[test]
fn removed_handles_are_not_reused() {
    let (mut g, ids) = chain(2);
    assert_eq!(g.remove_releases(&vec![ids[1]]), 1);
    let fresh = g.add_release(Release::Abstract(AbstractRelease { version: "2.0.0".to_string() }));
    assert_eq!(fresh, ReleaseId(2));
    assert!(g.get(ids[1]).is_none());
}

#[test]
fn next_releases_of_absent_id_is_empty() {
    let (g, _) = chain(3);
    assert!(g.next_releases(ReleaseId(42)).is_empty());
    assert!(Graph::new().next_releases(ReleaseId(0)).is_empty());
}

#[test]
fn next_releases_in_edge_order() {
    let (mut g, ids) = chain(4);
    g.add_edge(ids[0], ids[3]).unwrap();
    g.add_edge(ids[0], ids[2]).unwrap();
    assert_eq!(g.next_releases(ids[0]), vec![ids[1], ids[3], ids[2]]);
    assert_eq!(g.next_releases(ids[3]), Vec::<ReleaseId>::new());
}

#[test]
fn find_by_fn_and_set_metadata() {
    let (mut g, ids) = chain(3);
    assert!(g.set_metadata(ids[1], "k".to_string(), "v".to_string()));
    assert!(!g.set_metadata(ReleaseId(8), "k".to_string(), "v".to_string()));
    let found = g.find_by_fn(|r: &Release| match r {
        Release::Concrete(c) => c.metadata.get("k").is_some(),
        Release::Abstract(_) => false,
    });
    assert_eq!(found, vec![ids[1]]);
}

#[test]
fn from_parts_checks_edges() {
    let g = Graph::from_parts(vec![concrete("1"), concrete("2")], vec![(0, 1)]).ok().unwrap();
    assert_eq!(g.next_releases(ReleaseId(0)), vec![ReleaseId(1)]);
    assert!(Graph::from_parts(vec![concrete("1")], vec![(0, 1)]).is_err());
    assert_eq!(Graph::from_parts(vec![], vec![]).ok().unwrap().release_count(), 0);
}

#[test]
fn string_map_insert_replaces() {
    let mut m = StringMap::new();
    m.insert("a".to_string(), "1".to_string());
    m.insert("b".to_string(), "2".to_string());
    m.insert("a".to_string(), "3".to_string());
    assert_eq!(m.len(), 2);
    assert_eq!(m.get("a").unwrap(), "3");
    assert!(m.get("c").is_none());
    let c = m.copy();
    assert!(c.same_as(&m));
    m.insert("c".to_string(), "4".to_string());
    assert!(!c.same_as(&m));
}
