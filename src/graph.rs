//! The release graph: releases in an arena indexed by stable handles, plus upgrade edges.

use vstd::prelude::*;
use crate::strmap::StringMap;

verus! {

/// Handle of a release in one graph. Handles are never reused within a graph.
#[derive(Clone, Copy, Debug, PartialEq, Eq, Structural, Hash)]
pub struct ReleaseId(pub usize);

/// A release with its payload and its policy metadata.
pub struct ConcreteRelease {
    pub version: String,
    pub payload: String,
    pub metadata: StringMap,
}

/// A placeholder release of which only the version is known.
pub struct AbstractRelease {
    pub version: String,
}

pub enum Release {
    Concrete(ConcreteRelease),
    Abstract(AbstractRelease),
}

impl Release {
    /// The metadata of a concrete release is well formed.
    pub open spec fn wf(&self) -> bool {
        match self {
            Release::Concrete(c) => c.metadata.wf(),
            Release::Abstract(_) => true,
        }
    }

    pub open spec fn version_view(&self) -> Seq<char> {
        match self {
            Release::Concrete(c) => c.version@,
            Release::Abstract(a) => a.version@,
        }
    }

    /// The version string of the release.
    pub fn version(&self) -> (r: &String)
        ensures
            r@ == self.version_view(),
    {
        match self {
            Release::Concrete(c) => &c.version,
            Release::Abstract(a) => &a.version,
        }
    }
}

/// What a release holds, as plain values.
pub ghost enum ReleaseModel {
    Concrete { version: Seq<char>, payload: Seq<char>, metadata: Map<Seq<char>, Seq<char>> },
    Abstract { version: Seq<char> },
}

impl Release {
    pub open spec fn model(&self) -> ReleaseModel {
        match self {
            Release::Concrete(c) => ReleaseModel::Concrete {
                version: c.version@,
                payload: c.payload@,
                metadata: c.metadata.view(),
            },
            Release::Abstract(a) => ReleaseModel::Abstract { version: a.version@ },
        }
    }

    /// A release that holds the same.
    pub fn copy(&self) -> (r: Release)
        ensures
            r.model() == self.model(),
    {
        match self {
            Release::Concrete(c) => Release::Concrete(
                ConcreteRelease {
                    version: c.version.clone(),
                    payload: c.payload.clone(),
                    metadata: c.metadata.copy(),
                },
            ),
            Release::Abstract(a) => Release::Abstract(AbstractRelease { version: a.version.clone() }),
        }
    }

    /// Whether both releases hold the same.
    pub fn same_as(&self, other: &Release) -> (r: bool)
        ensures
            r == (self.model() == other.model()),
    {
        match (self, other) {
            (Release::Concrete(a), Release::Concrete(b)) => a.version == b.version && a.payload
                == b.payload && a.metadata.same_as(&b.metadata),
            (Release::Abstract(a), Release::Abstract(b)) => a.version == b.version,
            _ => false,
        }
    }
}

/// Why a structural change of the graph was refused.
#[derive(Clone, Copy, Debug, PartialEq, Eq, Structural)]
pub enum GraphError {
    /// An endpoint of the edge is not in the graph.
    InvalidEdge,
}

/// The successors of `id` along `edges`, in edge order.
pub open spec fn successors(edges: Seq<(usize, usize)>, id: usize) -> Seq<ReleaseId>
    decreases edges.len(),
{
    if edges.len() == 0 {
        Seq::empty()
    } else {
        let rest = successors(edges.drop_last(), id);
        if edges.last().0 == id {
            rest.push(ReleaseId(edges.last().1))
        } else {
            rest
        }
    }
}

/// Whether an edge touches a node of `s`.
pub open spec fn touches(e: (usize, usize), s: Set<usize>) -> bool {
    s.contains(e.0) || s.contains(e.1)
}

/// Keeps the edges that touch no node of `s`.
pub open spec fn untouched(s: Set<usize>) -> spec_fn((usize, usize)) -> bool {
    |e: (usize, usize)| !touches(e, s)
}

proof fn lemma_filter_last(s: Seq<(usize, usize)>, p: spec_fn((usize, usize)) -> bool)
    requires
        s.len() > 0,
    ensures
        s.filter(p) == if p(s.last()) {
            s.drop_last().filter(p).push(s.last())
        } else {
            s.drop_last().filter(p)
        },
{
    reveal(Seq::filter);
}

/// The handles listed in `ids`, as a set.
pub open spec fn id_set(ids: Seq<ReleaseId>) -> Set<usize> {
    Set::new(|i: usize| exists|k: int| 0 <= k < ids.len() && ids[k].0 == i)
}

proof fn lemma_id_set_push(ids: Seq<ReleaseId>, k: int)
    requires
        0 <= k < ids.len(),
    ensures
        id_set(ids.take(k + 1)) == id_set(ids.take(k)).insert(ids[k].0),
{
    let a = id_set(ids.take(k + 1));
    let b = id_set(ids.take(k)).insert(ids[k].0);
    assert forall|i: usize| a.contains(i) implies b.contains(i) by {
        let w = choose|w: int| 0 <= w < k + 1 && #[trigger] ids.take(k + 1)[w].0 == i;
        if w < k {
            assert(ids.take(k)[w].0 == i);
        }
    }
    assert forall|i: usize| b.contains(i) implies a.contains(i) by {
        if i == ids[k].0 {
            assert(ids.take(k + 1)[k].0 == i);
        } else {
            let w = choose|w: int| 0 <= w < k && #[trigger] ids.take(k)[w].0 == i;
            assert(ids.take(k + 1)[w].0 == i);
        }
    }
    assert(a =~= b);
}

/// A directed graph of releases. Edge `(a, b)` permits upgrading from `a` to `b`.
pub struct Graph {
    slots: Vec<Option<Release>>,
    edges: Vec<(usize, usize)>,
}

impl Graph {
    pub closed spec fn slots_view(&self) -> Seq<Option<Release>> {
        self.slots@
    }

    /// The edges, in the order in which they were added.
    pub closed spec fn edges_view(&self) -> Seq<(usize, usize)> {
        self.edges@
    }

    /// Whether handle `i` names a release that is in the graph.
    pub open spec fn contains(&self, i: usize) -> bool {
        i < self.slots_view().len() && self.slots_view()[i as int] is Some
    }

    /// The handles of the releases in the graph.
    pub open spec fn nodes(&self) -> Set<usize> {
        Set::new(|i: usize| self.contains(i))
    }

    /// The release under handle `i`.
    pub open spec fn release(&self, i: usize) -> Release {
        self.slots_view()[i as int]->Some_0
    }

    /// No edge dangles and every release is well formed.
    pub open spec fn wf(&self) -> bool {
        &&& forall|j: int|
            0 <= j < self.edges_view().len() ==> #[trigger] self.contains(self.edges_view()[j].0)
                && self.contains(self.edges_view()[j].1)
        &&& forall|i: usize| #[trigger] self.contains(i) ==> self.release(i).wf()
    }

    /// An empty graph.
    pub fn new() -> (g: Graph)
        ensures
            g.wf(),
            g.slots_view().len() == 0,
            g.edges_view().len() == 0,
            g.nodes() == Set::<usize>::empty(),
    {
        let g = Graph { slots: Vec::new(), edges: Vec::new() };
        assert(g.nodes() =~= Set::<usize>::empty());
        g
    }

    /// The number of releases in the graph.
    pub fn release_count(&self) -> (n: usize)
        ensures
            n == self.nodes().len(),
    {
        let mut n: usize = 0;
        let mut i: usize = 0;
        assert(Set::new(|k: usize| k < 0 && self.contains(k)) =~= Set::<usize>::empty());
        while i < self.slots.len()
            invariant
                i <= self.slots.len(),
                n <= i,
                n == Set::new(|k: usize| k < i && self.contains(k)).len(),
                Set::new(|k: usize| k < i && self.contains(k)).finite(),
            decreases self.slots.len() - i,
        {
            let ghost before = Set::new(|k: usize| k < i && self.contains(k));
            let ghost after = Set::new(|k: usize| k < i + 1 && self.contains(k));
            if self.slots[i].is_some() {
                assert(after =~= before.insert(i));
                n = n + 1;
            } else {
                assert(after =~= before);
            }
            i = i + 1;
        }
        assert(Set::new(|k: usize| k < i && self.contains(k)) =~= self.nodes());
        n
    }

    /// Adds a release and returns its new handle. No duplicate check is made.
    pub fn add_release(&mut self, release: Release) -> (id: ReleaseId)
        requires
            old(self).wf(),
            old(self).slots_view().len() < usize::MAX,
        ensures
            final(self).wf(),
            id.0 == old(self).slots_view().len(),
            final(self).slots_view() == old(self).slots_view().push(Some(release)),
            final(self).edges_view() == old(self).edges_view(),
            final(self).nodes() == old(self).nodes().insert(id.0),
    {
        let id = ReleaseId(self.slots.len());
        match &release {
            Release::Concrete(c) => {
                proof {
                    use_type_invariant(&c.metadata);
                }
            },
            Release::Abstract(_) => {},
        }
        self.slots.push(Some(release));
        proof {
            assert forall|i: usize| old(self).contains(i) implies #[trigger] self.contains(i)
                && self.release(i) == old(self).release(i) by {
                assert(self.slots_view()[i as int] == old(self).slots_view()[i as int]);
            }
            assert forall|j: int| 0 <= j < self.edges_view().len() implies #[trigger] self.contains(
                self.edges_view()[j].0,
            ) && self.contains(self.edges_view()[j].1) by {
                assert(old(self).contains(old(self).edges_view()[j].0));
            }
            assert forall|i: usize| #[trigger] self.contains(i) implies self.release(i).wf() by {
                if i < id.0 {
                    assert(old(self).contains(i));
                }
            }
            assert(self.nodes() =~= old(self).nodes().insert(id.0));
        }
        id
    }

    /// Adds the edge `from -> to`; fails when an endpoint is not in the graph.
    pub fn add_edge(&mut self, from: ReleaseId, to: ReleaseId) -> (r: Result<(), GraphError>)
        requires
            old(self).wf(),
        ensures
            final(self).wf(),
            final(self).slots_view() == old(self).slots_view(),
            r is Ok <==> old(self).contains(from.0) && old(self).contains(to.0),
            r is Ok ==> final(self).edges_view() == old(self).edges_view().push((from.0, to.0)),
            r is Err ==> r == Err::<(), GraphError>(GraphError::InvalidEdge)
                && final(self).edges_view() == old(self).edges_view(),
    {
        if from.0 < self.slots.len() && self.slots[from.0].is_some() && to.0 < self.slots.len()
            && self.slots[to.0].is_some() {
            self.edges.push((from.0, to.0));
            proof {
                assert forall|j: int| 0 <= j < self.edges_view().len() implies #[trigger] self.contains(
                    self.edges_view()[j].0,
                ) && self.contains(self.edges_view()[j].1) by {
                    if j < old(self).edges_view().len() {
                        assert(self.edges_view()[j] == old(self).edges_view()[j]);
                        assert(old(self).contains(old(self).edges_view()[j].0));
                    } else {
                        assert(self.edges_view()[j] == (from.0, to.0));
                    }
                }
                assert forall|i: usize| #[trigger] self.contains(i) implies self.release(i).wf() by {
                    assert(old(self).contains(i));
                }
            }
            Ok(())
        } else {
            Err(GraphError::InvalidEdge)
        }
    }

    /// The release under `id`, if it is in the graph.
    pub fn get(&self, id: ReleaseId) -> (r: Option<&Release>)
        ensures
            r is Some <==> self.contains(id.0),
            r is Some ==> *r->Some_0 == self.release(id.0),
    {
        if id.0 < self.slots.len() {
            match &self.slots[id.0] {
                Some(rel) => Some(rel),
                None => None,
            }
        } else {
            None
        }
    }

    proof fn lemma_no_successors_outside(&self, id: usize, n: int)
        requires
            self.wf(),
            !self.contains(id),
            0 <= n <= self.edges_view().len(),
        ensures
            successors(self.edges_view().take(n), id).len() == 0,
        decreases n,
    {
        if n > 0 {
            assert(self.edges_view().take(n).drop_last() =~= self.edges_view().take(n - 1));
            assert(self.contains(self.edges_view()[n - 1].0));
            self.lemma_no_successors_outside(id, n - 1);
        }
    }

    /// The handles of the direct successors of `id`, in edge order; empty when `id` is not in
    /// the graph or has no outgoing edge.
    pub fn next_releases(&self, id: ReleaseId) -> (r: Vec<ReleaseId>)
        ensures
            r@ == successors(self.edges_view(), id.0),
            self.wf() && !self.contains(id.0) ==> r@.len() == 0,
    {
        let mut r: Vec<ReleaseId> = Vec::new();
        let mut j: usize = 0;
        while j < self.edges.len()
            invariant
                j <= self.edges.len(),
                r@ == successors(self.edges_view().take(j as int), id.0),
            decreases self.edges.len() - j,
        {
            assert(self.edges_view().take(j + 1).drop_last() =~= self.edges_view().take(j as int));
            if self.edges[j].0 == id.0 {
                r.push(ReleaseId(self.edges[j].1));
            }
            j = j + 1;
        }
        assert(self.edges_view().take(j as int) =~= self.edges_view());
        proof {
            if self.wf() && !self.contains(id.0) {
                self.lemma_no_successors_outside(id.0, self.edges_view().len() as int);
            }
        }
        r
    }

    /// Removes every release listed in `ids` together with each edge that touches one of
    /// them. Handles that are not in the graph are skipped. Returns how many releases were
    /// removed.
    pub fn remove_releases(&mut self, ids: &Vec<ReleaseId>) -> (count: usize)
        requires
            old(self).wf(),
        ensures
            final(self).wf(),
            final(self).slots_view().len() == old(self).slots_view().len(),
            final(self).nodes() == old(self).nodes().difference(id_set(ids@)),
            forall|i: usize| #[trigger] final(self).contains(i) ==> final(self).release(i)
                == old(self).release(i),
            final(self).edges_view() == old(self).edges_view().filter(
                untouched(id_set(ids@)),
            ),
            forall|j: int| 0 <= j < final(self).edges_view().len() ==> !#[trigger] touches(
                final(self).edges_view()[j],
                id_set(ids@),
            ),
            count == id_set(ids@).intersect(old(self).nodes()).len(),
    {
        let ghost before = *self;
        let mut count: usize = 0;
        let mut k: usize = 0;
        assert(Set::new(|i: usize| before.contains(i) && id_set(ids@.take(0)).contains(i))
            =~= Set::<usize>::empty());
        while k < ids.len()
            invariant
                k <= ids.len(),
                before.wf(),
                self.edges_view() == before.edges_view(),
                self.slots_view().len() == before.slots_view().len(),
                forall|i: usize| #[trigger] self.contains(i) <==> before.contains(i) && !id_set(
                    ids@.take(k as int),
                ).contains(i),
                forall|i: usize| #[trigger] self.contains(i) ==> self.release(i) == before.release(i),
                Set::new(|i: usize| before.contains(i) && id_set(ids@.take(k as int)).contains(i)).finite(),
                count == Set::new(
                    |i: usize| before.contains(i) && id_set(ids@.take(k as int)).contains(i),
                ).len(),
                count <= k,
            decreases ids.len() - k,
        {
            let x = ids[k].0;
            proof {
                lemma_id_set_push(ids@, k as int);
            }
            let ghost old_removed = Set::new(
                |i: usize| before.contains(i) && id_set(ids@.take(k as int)).contains(i),
            );
            let ghost new_removed = Set::new(
                |i: usize| before.contains(i) && id_set(ids@.take(k + 1)).contains(i),
            );
            if x < self.slots.len() && self.slots[x].is_some() {
                let ghost mid = *self;
                self.slots.set(x, None);
                proof {
                    assert(mid.contains(x));
                    assert(new_removed =~= old_removed.insert(x));
                    assert forall|i: usize| #[trigger] self.contains(i) implies self.release(i)
                        == before.release(i) by {
                        assert(mid.contains(i));
                    }
                    assert forall|i: usize| #[trigger] self.contains(i) <==> before.contains(i)
                        && !id_set(ids@.take(k + 1)).contains(i) by {
                        if i != x && i < self.slots_view().len() {
                            assert(self.slots_view()[i as int] == mid.slots_view()[i as int]);
                            assert(mid.contains(i) == self.contains(i));
                        }
                    }
                }
                count = count + 1;
            } else {
                proof {
                    assert(!self.contains(x));
                    assert(new_removed =~= old_removed);
                    assert forall|i: usize| #[trigger] self.contains(i) <==> before.contains(i)
                        && !id_set(ids@.take(k + 1)).contains(i) by {
                        if i == x {
                            assert(!self.contains(x));
                        }
                    }
                }
            }
            k = k + 1;
        }
        assert(ids@.take(k as int) =~= ids@);
        assert(Set::new(|i: usize| before.contains(i) && id_set(ids@).contains(i)) =~= id_set(
            ids@,
        ).intersect(before.nodes()));
        let ghost gone = id_set(ids@);
        let mut kept: Vec<(usize, usize)> = Vec::new();
        let mut j: usize = 0;
        while j < self.edges.len()
            invariant
                j <= self.edges.len(),
                before.wf(),
                self.edges_view() == before.edges_view(),
                self.slots_view().len() == before.slots_view().len(),
                forall|i: usize| #[trigger] self.contains(i) <==> before.contains(i) && !gone.contains(i),
                forall|i: usize| #[trigger] self.contains(i) ==> self.release(i) == before.release(i),
                gone == id_set(ids@),
                kept@ == before.edges_view().take(j as int).filter(untouched(id_set(ids@))),
            decreases self.edges.len() - j,
        {
            let e = self.edges[j];
            let ghost kept_before = kept@;
            proof {
                assert(before.edges_view().take(j + 1).drop_last() =~= before.edges_view().take(
                    j as int,
                ));
                assert(before.contains(before.edges_view()[j as int].0));
                assert(before.contains(before.edges_view()[j as int].1));
            }
            assert(self.contains(e.0) == !gone.contains(e.0));
            assert(self.contains(e.1) == !gone.contains(e.1));
            if self.slots[e.0].is_some() && self.slots[e.1].is_some() {
                kept.push(e);
            }
            proof {
                let t = before.edges_view().take(j + 1);
                assert(t.len() > 0);
                assert(t.last() == e);
                assert(untouched(gone)(e) == !touches(e, gone));
                lemma_filter_last(t, untouched(gone));
                assert(t.drop_last().filter(untouched(gone)) == kept_before);
                if !touches(e, gone) {
                    assert(kept@ == kept_before.push(e));
                } else {
                    assert(kept@ == kept_before);
                }
            }
            j = j + 1;
        }
        assert(before.edges_view().take(j as int) =~= before.edges_view());
        let ghost unfiltered = *self;
        self.edges = kept;
        proof {
            assert(self.slots_view() == unfiltered.slots_view());
            assert forall|i: usize| #[trigger] self.contains(i) <==> before.contains(i) && !gone.contains(i) by {
                assert(self.contains(i) == unfiltered.contains(i));
            }
            assert forall|i: usize| #[trigger] self.contains(i) implies self.release(i) == before.release(i) by {
                assert(unfiltered.contains(i));
                assert(self.release(i) == unfiltered.release(i));
            }
            assert(self.nodes() =~= before.nodes().difference(gone));
            assert forall|m: int| 0 <= m < self.edges_view().len() implies #[trigger] self.contains(
                self.edges_view()[m].0,
            ) && self.contains(self.edges_view()[m].1) by {
                let e = self.edges_view()[m];
                before.edges_view().lemma_filter_pred(untouched(id_set(ids@)), m);
                assert(self.edges_view().contains(e));
                before.edges_view().lemma_filter_contains_rev(untouched(id_set(ids@)), e);
                let w = choose|w: int| 0 <= w < before.edges_view().len() && before.edges_view()[w] == e;
                assert(before.contains(before.edges_view()[w].0));
            }
            assert forall|i: usize| #[trigger] self.contains(i) implies self.release(i).wf() by {
                assert(before.contains(i));
                assert(self.release(i) == before.release(i));
            }
            assert forall|j: int| 0 <= j < self.edges_view().len() implies !#[trigger] touches(
                self.edges_view()[j],
                id_set(ids@),
            ) by {
                before.edges_view().lemma_filter_pred(untouched(id_set(ids@)), j);
            }
        }
        count
    }

    /// One past the largest handle ever given out.
    pub fn slot_count(&self) -> (n: usize)
        ensures
            n == self.slots_view().len(),
    {
        self.slots.len()
    }

    /// Handles of the releases on which `pred` holds, in handle order. `pred` is called once
    /// on each release.
    pub fn find_by_fn<F: Fn(&Release) -> bool>(&self, pred: F) -> (r: Vec<ReleaseId>)
        requires
            forall|i: usize| #[trigger] self.contains(i) ==> pred.requires((&self.release(i),)),
        ensures
            forall|k: int| 0 <= k < r@.len() ==> #[trigger] self.contains(r@[k].0) && pred.ensures(
                (&self.release(r@[k].0),),
                true,
            ),
            forall|i: usize| #[trigger] self.contains(i) ==> id_set(r@).contains(i) || pred.ensures(
                (&self.release(i),),
                false,
            ),
            forall|i: usize| id_set(r@).contains(i) ==> #[trigger] self.contains(i),
    {
        let mut r: Vec<ReleaseId> = Vec::new();
        let mut i: usize = 0;
        while i < self.slots.len()
            invariant
                i <= self.slots.len(),
                forall|i: usize| #[trigger] self.contains(i) ==> pred.requires((&self.release(i),)),
                forall|k: int| 0 <= k < r@.len() ==> #[trigger] r@[k].0 < i,
                forall|k: int| 0 <= k < r@.len() ==> #[trigger] self.contains(r@[k].0)
                    && pred.ensures((&self.release(r@[k].0),), true),
                forall|j: usize| j < i && #[trigger] self.contains(j) ==> id_set(r@).contains(j)
                    || pred.ensures((&self.release(j),), false),
            decreases self.slots.len() - i,
        {
            match &self.slots[i] {
                Some(rel) => {
                    assert(self.contains(i));
                    assert(*rel == self.release(i));
                    let ghost before = r@;
                    let keep = pred(rel);
                    assert(pred.ensures((rel,), keep));
                    if keep {
                        r.push(ReleaseId(i));
                        proof {
                            assert forall|k: int| 0 <= k < r@.len() implies #[trigger] self.contains(r@[k].0)
                                && r@[k].0 < i + 1 && pred.ensures((&self.release(r@[k].0),), true) by {
                                if k < before.len() {
                                    assert(r@[k] == before[k]);
                                } else {
                                    assert(r@[k].0 == i);
                                    assert(pred.ensures((&self.release(i),), true));
                                }
                            }
                            assert(r@[r@.len() - 1].0 == i);
                            assert forall|j: usize| id_set(before).contains(j) implies id_set(r@).contains(j) by {
                                let w = choose|w: int| 0 <= w < before.len() && #[trigger] before[w].0 == j;
                                assert(r@[w].0 == j);
                            }
                            assert(id_set(r@).contains(i));
                        }
                    } else {
                        assert(r@ == before);
                        assert(forall|k: int| 0 <= k < r@.len() ==> #[trigger] self.contains(r@[k].0)
                            && pred.ensures((&self.release(r@[k].0),), true));
                    }
                },
                None => {
                    assert(forall|k: int| 0 <= k < r@.len() ==> #[trigger] self.contains(r@[k].0)
                        && pred.ensures((&self.release(r@[k].0),), true));
                },
            }
            i = i + 1;
        }
        proof {
            assert forall|j: usize| id_set(r@).contains(j) implies #[trigger] self.contains(j) by {
                let w = choose|w: int| 0 <= w < r@.len() && #[trigger] r@[w].0 == j;
                assert(self.contains(r@[w].0));
            }
        }
        r
    }

    /// Sets `key` to `value` in the metadata of the concrete release under `id`. Returns
    /// whether there was such a release.
    pub fn set_metadata(&mut self, id: ReleaseId, key: String, value: String) -> (done: bool)
        requires
            old(self).wf(),
        ensures
            final(self).wf(),
            final(self).slots_view().len() == old(self).slots_view().len(),
            final(self).edges_view() == old(self).edges_view(),
            final(self).nodes() == old(self).nodes(),
            forall|i: usize| #[trigger] final(self).contains(i) && i != id.0 ==> final(self).release(i)
                == old(self).release(i),
            done <==> old(self).contains(id.0) && old(self).release(id.0) is Concrete,
            !done ==> final(self).release(id.0) == old(self).release(id.0),
            done ==> final(self).release(id.0) is Concrete
                && final(self).release(id.0)->Concrete_0.version == old(self).release(id.0)->Concrete_0.version
                && final(self).release(id.0)->Concrete_0.payload == old(self).release(id.0)->Concrete_0.payload
                && final(self).release(id.0)->Concrete_0.metadata.view() == old(self).release(
                id.0,
            )->Concrete_0.metadata.view().insert(key@, value@),
    {
        if id.0 >= self.slots.len() {
            return false;
        }
        let ghost before = *self;
        let done = match &mut self.slots[id.0] {
            Some(Release::Concrete(c)) => {
                proof {
                    assert(before.contains(id.0));
                }
                c.metadata.insert(key, value);
                true
            },
            _ => false,
        };
        proof {
            assert forall|i: usize| #[trigger] self.contains(i) && i != id.0 implies self.release(i)
                == before.release(i) by {
                assert(self.slots_view()[i as int] == before.slots_view()[i as int]);
            }
            assert forall|i: usize| #[trigger] self.contains(i) <==> before.contains(i) by {
                if i != id.0 && i < self.slots_view().len() {
                    assert(self.slots_view()[i as int] == before.slots_view()[i as int]);
                }
            }
            assert(self.nodes() =~= before.nodes());
            assert forall|j: int| 0 <= j < self.edges_view().len() implies #[trigger] self.contains(
                self.edges_view()[j].0,
            ) && self.contains(self.edges_view()[j].1) by {
                assert(before.contains(before.edges_view()[j].0));
                assert(before.contains(before.edges_view()[j].1));
            }
            assert forall|i: usize| #[trigger] self.contains(i) implies self.release(i).wf() by {
                assert(before.contains(i));
            }
        }
        done
    }

    /// Builds a graph from releases, whose handles are their positions, and edges between
    /// those positions. Fails when an edge names a position past the releases.
    pub fn from_parts(releases: Vec<Release>, edges: Vec<(usize, usize)>) -> (r: Result<Graph, GraphError>)
        requires
            releases.len() < usize::MAX,
        ensures
            r is Ok <==> forall|j: int| 0 <= j < edges@.len() ==> #[trigger] edges@[j].0 < releases@.len()
                && edges@[j].1 < releases@.len(),
            r matches Ok(g) ==> g.wf() && g.slots_view() == releases@.map_values(
                |x: Release| Some(x),
            ) && g.edges_view() == edges@,
            r is Err ==> r == Err::<Graph, GraphError>(GraphError::InvalidEdge),
    {
        let ghost rs = releases@;
        let n = releases.len();
        let mut g = Graph::new();
        let mut rest = releases;
        while rest.len() > 0
            invariant
                g.wf(),
                g.edges_view().len() == 0,
                rest@.len() + g.slots_view().len() == rs.len(),
                rs.len() == n,
                rs == releases@,
                n < usize::MAX,
                g.slots_view() == rs.take(g.slots_view().len() as int).map_values(|x: Release| Some(x)),
                rest@ == rs.skip(g.slots_view().len() as int),
            decreases rest.len(),
        {
            let ghost m = g.slots_view().len() as int;
            let rel = rest.remove(0);
            g.add_release(rel);
            proof {
                assert(rest@ =~= rs.skip(m + 1));
                assert(g.slots_view() =~= rs.take(m + 1).map_values(|x: Release| Some(x)));
            }
        }
        proof {
            assert(rs.take(rs.len() as int) =~= rs);
        }
        let mut j: usize = 0;
        while j < edges.len()
            invariant
                g.wf(),
                j <= edges.len(),
                g.slots_view() == rs.map_values(|x: Release| Some(x)),
                g.slots_view().len() == n,
                rs == releases@,
                rs.len() == n,
                g.edges_view() == edges@.take(j as int),
                forall|k: int| 0 <= k < j ==> #[trigger] edges@[k].0 < n && edges@[k].1 < n,
            decreases edges.len() - j,
        {
            let (a, b) = edges[j];
            proof {
                if a < n {
                    assert(g.slots_view()[a as int] == Some(rs[a as int]));
                }
                if b < n {
                    assert(g.slots_view()[b as int] == Some(rs[b as int]));
                }
                assert(g.contains(a) <==> a < n);
                assert(g.contains(b) <==> b < n);
            }
            let ghost pre = g;
            match g.add_edge(ReleaseId(a), ReleaseId(b)) {
                Ok(()) => {
                    assert(pre.contains(a) && pre.contains(b));
                    assert(a < n && b < n);
                },
                Err(e) => {
                    proof {
                        assert(!(edges@[j as int].0 < n && edges@[j as int].1 < n));
                        assert(!(forall|k: int| 0 <= k < edges@.len() ==> #[trigger] edges@[k].0
                            < releases@.len() && edges@[k].1 < releases@.len()));
                    }
                    return Err(e);
                },
            }
            proof {
                assert(g.edges_view() =~= edges@.take(j + 1));
                assert(edges@[j as int] == (a, b));
            }
            j = j + 1;
        }
        proof {
            assert(g.edges_view() =~= edges@);
        }
        Ok(g)
    }
}

} // verus!
