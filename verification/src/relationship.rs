//! Entity relationship types and the directed relationship graph.
//!
//! Tracks connections, containment, and structural dependencies between
//! BIM entities, with per-entity indexes of outgoing and incoming edges.
use vstd::prelude::*;

use crate::entity::EntityId;

verus! {

/// A directed relationship between two entities.
#[derive(Debug, Clone, Copy, PartialEq, Eq, Structural, Hash)]
pub enum RelationshipType {
    /// Source is connected to target (e.g., wall meets wall).
    ConnectedTo,
    /// Source contains target (e.g., wall contains door).
    Contains,
    /// Source supports target (e.g., column supports beam).
    Supports,
    /// Source hosts target (e.g., slab hosts furniture).
    Hosts,
}

impl RelationshipType {
    /// The label of each relationship type.
    pub open spec fn spec_label(self) -> Seq<char> {
        match self {
            RelationshipType::ConnectedTo => "connected_to"@,
            RelationshipType::Contains => "contains"@,
            RelationshipType::Supports => "supports"@,
            RelationshipType::Hosts => "hosts"@,
        }
    }

    /// Human-readable label.
    pub fn label(&self) -> (s: &'static str)
        ensures
            s@ == self.spec_label(),
    {
        match self {
            RelationshipType::ConnectedTo => "connected_to",
            RelationshipType::Contains => "contains",
            RelationshipType::Supports => "supports",
            RelationshipType::Hosts => "hosts",
        }
    }
}

/// A single relationship edge.
#[derive(Debug, Clone, Copy, PartialEq, Eq)]
pub struct Relationship {
    /// Unique identifier.
    pub id: u64,
    /// Source entity.
    pub source: EntityId,
    /// Target entity.
    pub target: EntityId,
    /// Type of relationship.
    pub rel_type: RelationshipType,
}

/// The entity an edge is indexed under: its source for the outgoing index,
/// its target for the incoming index.
pub open spec fn endpoint(r: Relationship, outgoing: bool) -> EntityId {
    if outgoing {
        r.source
    } else {
        r.target
    }
}

/// The edges of `edges` whose endpoint (source when `outgoing`, else target)
/// is `e`, in their order in `edges`.
pub open spec fn edges_at(edges: Seq<Relationship>, e: EntityId, outgoing: bool) -> Seq<Relationship>
    decreases edges.len(),
{
    if edges.len() == 0 {
        Seq::empty()
    } else {
        let rest = edges_at(edges.drop_last(), e, outgoing);
        if endpoint(edges.last(), outgoing) == e {
            rest.push(edges.last())
        } else {
            rest
        }
    }
}

/// The ids of a sequence of edges.
pub open spec fn ids_of(edges: Seq<Relationship>) -> Seq<u64> {
    edges.map_values(|r: Relationship| r.id)
}

/// `ids` with every occurrence of `x` taken out.
pub open spec fn without(ids: Seq<u64>, x: u64) -> Seq<u64>
    decreases ids.len(),
{
    if ids.len() == 0 {
        ids
    } else {
        let rest = without(ids.drop_last(), x);
        if ids.last() == x {
            rest
        } else {
            rest.push(ids.last())
        }
    }
}

/// Ids strictly increase along the sequence.
pub open spec fn ids_increasing(edges: Seq<Relationship>) -> bool {
    forall|i: int, j: int| 0 <= i < j < edges.len() ==> edges[i].id < edges[j].id
}

/// The entities connected to `e`: targets of its outgoing edges and sources
/// of its incoming edges.
pub open spec fn is_neighbor(edges: Seq<Relationship>, e: EntityId, n: EntityId) -> bool {
    exists|i: int|
        0 <= i < edges.len() && ((edges[i].source == e && edges[i].target == n) || (
        edges[i].target == e && edges[i].source == n))
}

/// Every edge of `edges_at` is in `edges` and has `e` as its endpoint.
pub proof fn lemma_edges_at_members(edges: Seq<Relationship>, e: EntityId, outgoing: bool)
    ensures
        edges_at(edges, e, outgoing).len() <= edges.len(),
        forall|i: int|
            0 <= i < edges_at(edges, e, outgoing).len() ==> {
                &&& edges.contains(#[trigger] edges_at(edges, e, outgoing)[i])
                &&& endpoint(edges_at(edges, e, outgoing)[i], outgoing) == e
            },
    decreases edges.len(),
{
    if edges.len() > 0 {
        let d = edges.drop_last();
        lemma_edges_at_members(d, e, outgoing);
        let r = edges_at(edges, e, outgoing);
        assert forall|i: int| 0 <= i < r.len() implies edges.contains(r[i]) && endpoint(
            r[i],
            outgoing,
        ) == e by {
            if i < edges_at(d, e, outgoing).len() {
                let x = edges_at(d, e, outgoing)[i];
                assert(r[i] == x);
                let k = choose|k: int| 0 <= k < d.len() && d[k] == x;
                assert(edges[k] == x);
            } else {
                assert(r[i] == edges.last());
                assert(edges[edges.len() - 1] == edges.last());
            }
        }
    }
}

/// If no edge has endpoint `e`, there are no edges at `e`.
pub proof fn lemma_edges_at_none(edges: Seq<Relationship>, e: EntityId, outgoing: bool)
    requires
        forall|k: int| 0 <= k < edges.len() ==> endpoint(#[trigger] edges[k], outgoing) != e,
    ensures
        edges_at(edges, e, outgoing) == Seq::<Relationship>::empty(),
{
    lemma_edges_at_members(edges, e, outgoing);
    let r = edges_at(edges, e, outgoing);
    if r.len() > 0 {
        assert(edges.contains(r[0]));
    }
    assert(r =~= Seq::<Relationship>::empty());
}

/// `without` leaves a sequence that lacks `x` unchanged.
pub proof fn lemma_without_absent(ids: Seq<u64>, x: u64)
    requires
        !ids.contains(x),
    ensures
        without(ids, x) == ids,
    decreases ids.len(),
{
    if ids.len() > 0 {
        let d = ids.drop_last();
        assert(!d.contains(x)) by {
            if d.contains(x) {
                let k = choose|k: int| 0 <= k < d.len() && d[k] == x;
                assert(ids[k] == x);
            }
        }
        lemma_without_absent(d, x);
        assert(ids[ids.len() - 1] == ids.last());
        assert(d.push(ids.last()) =~= ids);
    }
}

/// Removing the edge at `k` from `edges` (with distinct ids) removes its id
/// from the id list of every endpoint.
pub proof fn lemma_edges_at_remove(edges: Seq<Relationship>, k: int, e: EntityId, outgoing: bool)
    requires
        0 <= k < edges.len(),
        ids_increasing(edges),
    ensures
        ids_of(edges_at(edges.remove(k), e, outgoing)) == without(
            ids_of(edges_at(edges, e, outgoing)),
            edges[k].id,
        ),
    decreases edges.len(),
{
    let n = edges.len();
    let d = edges.drop_last();
    let last = edges.last();
    let x = edges[k].id;
    assert(edges[n - 1] == last);
    let rd = edges_at(d, e, outgoing);
    assert(ids_of(rd.push(last)) =~= ids_of(rd).push(last.id));
    if k == n - 1 {
        assert(edges.remove(k) =~= d);
        lemma_edges_at_members(d, e, outgoing);
        assert(!ids_of(rd).contains(x)) by {
            if ids_of(rd).contains(x) {
                let j = choose|j: int| 0 <= j < ids_of(rd).len() && ids_of(rd)[j] == x;
                assert(d.contains(rd[j]));
                let m = choose|m: int| 0 <= m < d.len() && d[m] == rd[j];
                assert(edges[m] == d[m]);
            }
        }
        lemma_without_absent(ids_of(rd), x);
        assert(ids_of(rd).push(x).drop_last() =~= ids_of(rd));
    } else {
        assert(edges.remove(k) =~= d.remove(k).push(last));
        assert(d[k] == edges[k]);
        lemma_edges_at_remove(d, k, e, outgoing);
        assert(d.remove(k).push(last).drop_last() =~= d.remove(k));
        let rdk = edges_at(d.remove(k), e, outgoing);
        assert(ids_of(rdk.push(last)) =~= ids_of(rdk).push(last.id));
        assert(last.id != x);
        assert(ids_of(rd).push(last.id).drop_last() =~= ids_of(rd));
    }
}

/// One entry of a per-entity edge index.
struct IndexEntry {
    entity: EntityId,
    ids: Vec<u64>,
}

/// The index lists, for each entity that ever had an edge at it, the ids of
/// its edges in id order; every edge's endpoint has an entry.
spec fn index_wf(index: Seq<IndexEntry>, edges: Seq<Relationship>, outgoing: bool) -> bool {
    &&& forall|i: int, j: int|
        0 <= i < index.len() && 0 <= j < index.len() && i != j ==> #[trigger] index[i].entity
            != #[trigger] index[j].entity
    &&& forall|i: int|
        0 <= i < index.len() ==> (#[trigger] index[i]).ids@ == ids_of(
            edges_at(edges, index[i].entity, outgoing),
        )
    &&& forall|k: int|
        0 <= k < edges.len() ==> exists|i: int|
            0 <= i < index.len() && (#[trigger] index[i]).entity == endpoint(
                #[trigger] edges[k],
                outgoing,
            )
}

/// A directed graph of entity relationships.
pub struct RelationshipGraph {
    /// All relationships, in increasing id order.
    edges: Vec<Relationship>,
    /// Outgoing edge ids per source entity.
    outgoing: Vec<IndexEntry>,
    /// Incoming edge ids per target entity.
    incoming: Vec<IndexEntry>,
    /// Next relationship id.
    next_id: u64,
}

impl View for RelationshipGraph {
    type V = Seq<Relationship>;

    /// All relationships in increasing id order.
    closed spec fn view(&self) -> Seq<Relationship> {
        self.edges@
    }
}

/// Position of the entry for `e` in an index, if any.
fn find_entry(index: &Vec<IndexEntry>, e: EntityId) -> (r: Option<usize>)
    ensures
        match r {
            Some(i) => i < index@.len() && index@[i as int].entity == e,
            None => forall|i: int| 0 <= i < index@.len() ==> (#[trigger] index@[i]).entity != e,
        },
{
    let mut i: usize = 0;
    while i < index.len()
        invariant
            i <= index@.len(),
            forall|j: int| 0 <= j < i ==> (#[trigger] index@[j]).entity != e,
        decreases index@.len() - i,
    {
        if index[i].entity.0 == e.0 {
            return Some(i);
        }
        i = i + 1;
    }
    None
}

/// `ids` with every occurrence of `x` taken out.
fn retain_ne(ids: &Vec<u64>, x: u64) -> (r: Vec<u64>)
    ensures
        r@ == without(ids@, x),
{
    let mut r: Vec<u64> = Vec::new();
    let mut j: usize = 0;
    while j < ids.len()
        invariant
            j <= ids@.len(),
            r@ == without(ids@.take(j as int), x),
        decreases ids@.len() - j,
    {
        assert(ids@.take(j + 1).drop_last() =~= ids@.take(j as int));
        if ids[j] != x {
            r.push(ids[j]);
        }
        j = j + 1;
    }
    assert(ids@.take(ids@.len() as int) =~= ids@);
    r
}

/// Record edge `r` (just appended to `old_edges`) in an index.
fn index_add(index: &mut Vec<IndexEntry>, Ghost(old_edges): Ghost<Seq<Relationship>>, r: Relationship, outgoing: bool)
    requires
        index_wf(old(index)@, old_edges, outgoing),
    ensures
        index_wf(final(index)@, old_edges.push(r), outgoing),
{
    let e = if outgoing { r.source } else { r.target };
    let ghost new_edges = old_edges.push(r);
    assert(new_edges.drop_last() =~= old_edges);
    assert(new_edges.last() == r);
    assert(forall|f: EntityId| #[trigger] edges_at(new_edges, f, outgoing) == if f == e {
        edges_at(old_edges, f, outgoing).push(r)
    } else {
        edges_at(old_edges, f, outgoing)
    });
    match find_entry(index, e) {
        Some(i) => {
            index[i].ids.push(r.id);
            assert forall|j: int| 0 <= j < index@.len() implies (#[trigger] index@[j]).ids@
                == ids_of(edges_at(new_edges, index@[j].entity, outgoing)) by {
                if j == i {
                    assert(ids_of(edges_at(old_edges, e, outgoing).push(r)) =~= ids_of(
                        edges_at(old_edges, e, outgoing),
                    ).push(r.id));
                }
            }
            assert forall|k: int| 0 <= k < new_edges.len() implies exists|j: int|
                0 <= j < index@.len() && (#[trigger] index@[j]).entity == endpoint(
                    #[trigger] new_edges[k],
                    outgoing,
                ) by {
                if k == new_edges.len() - 1 {
                    assert(index@[i as int].entity == endpoint(new_edges[k], outgoing));
                } else {
                    assert(new_edges[k] == old_edges[k]);
                    let j = choose|j: int|
                        0 <= j < old(index)@.len() && (#[trigger] old(index)@[j]).entity
                            == endpoint(old_edges[k], outgoing);
                    assert(index@[j].entity == old(index)@[j].entity);
                }
            }
        },
        None => {
            let mut ids: Vec<u64> = Vec::new();
            ids.push(r.id);
            proof {
                lemma_edges_at_none(old_edges, e, outgoing);
                assert(ids_of(Seq::<Relationship>::empty().push(r)) =~= ids@);
            }
            index.push(IndexEntry { entity: e, ids });
            assert forall|k: int| 0 <= k < new_edges.len() implies exists|j: int|
                0 <= j < index@.len() && (#[trigger] index@[j]).entity == endpoint(
                    #[trigger] new_edges[k],
                    outgoing,
                ) by {
                if k == new_edges.len() - 1 {
                    assert(index@[index@.len() - 1].entity == endpoint(new_edges[k], outgoing));
                } else {
                    assert(new_edges[k] == old_edges[k]);
                    let j = choose|j: int|
                        0 <= j < old(index)@.len() && (#[trigger] old(index)@[j]).entity
                            == endpoint(old_edges[k], outgoing);
                    assert(index@[j].entity == old(index)@[j].entity);
                }
            }
        },
    }
}


/// The ids at an entity other than the removed edge's endpoint lack its id.
proof fn lemma_id_absent_elsewhere(edges: Seq<Relationship>, k: int, f: EntityId, outgoing: bool)
    requires
        0 <= k < edges.len(),
        ids_increasing(edges),
        endpoint(edges[k], outgoing) != f,
    ensures
        !ids_of(edges_at(edges, f, outgoing)).contains(edges[k].id),
{
    lemma_edges_at_members(edges, f, outgoing);
    let r = edges_at(edges, f, outgoing);
    if ids_of(r).contains(edges[k].id) {
        let j = choose|j: int| 0 <= j < ids_of(r).len() && ids_of(r)[j] == edges[k].id;
        assert(edges.contains(r[j]));
        let m = choose|m: int| 0 <= m < edges.len() && edges[m] == r[j];
        assert(m == k);
    }
}

/// Forget edge `k` of `old_edges` in an index.
fn index_remove(index: &mut Vec<IndexEntry>, Ghost(old_edges): Ghost<Seq<Relationship>>, k: usize, r: Relationship, outgoing: bool)
    requires
        index_wf(old(index)@, old_edges, outgoing),
        ids_increasing(old_edges),
        k < old_edges.len(),
        old_edges[k as int] == r,
    ensures
        index_wf(final(index)@, old_edges.remove(k as int), outgoing),
{
    let e = if outgoing { r.source } else { r.target };
    let ghost new_edges = old_edges.remove(k as int);
    proof {
        assert forall|f: EntityId| #[trigger] ids_of(edges_at(new_edges, f, outgoing)) == without(
            ids_of(edges_at(old_edges, f, outgoing)),
            r.id,
        ) by {
            lemma_edges_at_remove(old_edges, k as int, f, outgoing);
        }
        assert forall|f: EntityId| f != e implies #[trigger] ids_of(edges_at(new_edges, f, outgoing))
            == ids_of(edges_at(old_edges, f, outgoing)) by {
            lemma_id_absent_elsewhere(old_edges, k as int, f, outgoing);
            lemma_without_absent(ids_of(edges_at(old_edges, f, outgoing)), r.id);
        }
    }
    match find_entry(index, e) {
        Some(i) => {
            let kept = retain_ne(&index[i].ids, r.id);
            index[i].ids = kept;
            assert forall|j: int| 0 <= j < index@.len() implies (#[trigger] index@[j]).ids@
                == ids_of(edges_at(new_edges, index@[j].entity, outgoing)) by {
                assert(index@[j].entity == old(index)@[j].entity);
            }
            assert forall|m: int| 0 <= m < new_edges.len() implies exists|j: int|
                0 <= j < index@.len() && (#[trigger] index@[j]).entity == endpoint(
                    #[trigger] new_edges[m],
                    outgoing,
                ) by {
                let m0 = if m < k { m } else { m + 1 };
                assert(new_edges[m] == old_edges[m0]);
                let j = choose|j: int|
                    0 <= j < old(index)@.len() && (#[trigger] old(index)@[j]).entity
                        == endpoint(old_edges[m0], outgoing);
                assert(index@[j].entity == old(index)@[j].entity);
            }
        },
        None => {
            assert(old_edges[k as int] == r);
            assert(false);
        },
    }
}


/// Every edge with endpoint `e` appears among the edges at `e`.
pub proof fn lemma_edges_at_complete(edges: Seq<Relationship>, e: EntityId, outgoing: bool)
    ensures
        forall|k: int|
            0 <= k < edges.len() && endpoint(#[trigger] edges[k], outgoing) == e ==> edges_at(
                edges,
                e,
                outgoing,
            ).contains(edges[k]),
    decreases edges.len(),
{
    if edges.len() > 0 {
        let d = edges.drop_last();
        lemma_edges_at_complete(d, e, outgoing);
        let r = edges_at(edges, e, outgoing);
        let rd = edges_at(d, e, outgoing);
        assert forall|k: int|
            0 <= k < edges.len() && endpoint(#[trigger] edges[k], outgoing) == e implies r.contains(
            edges[k],
        ) by {
            if k == edges.len() - 1 {
                assert(r[r.len() - 1] == edges[k]);
            } else {
                assert(d[k] == edges[k]);
                assert(rd.contains(d[k]));
                let j = choose|j: int| 0 <= j < rd.len() && rd[j] == d[k];
                assert(r[j] == rd[j]);
            }
        }
    }
}

/// Whether `v` holds `x`.
fn contains_entity(v: &Vec<EntityId>, x: EntityId) -> (b: bool)
    ensures
        b == v@.contains(x),
{
    let mut i: usize = 0;
    while i < v.len()
        invariant
            i <= v@.len(),
            forall|j: int| 0 <= j < i ==> v@[j] != x,
        decreases v@.len() - i,
    {
        if v[i].0 == x.0 {
            return true;
        }
        i = i + 1;
    }
    false
}

/// Position of the edge with id `id` in `edges`, if any.
fn find_edge(edges: &Vec<Relationship>, id: u64) -> (r: Option<usize>)
    ensures
        match r {
            Some(k) => k < edges@.len() && edges@[k as int].id == id,
            None => forall|k: int| 0 <= k < edges@.len() ==> (#[trigger] edges@[k]).id != id,
        },
{
    let mut k: usize = 0;
    while k < edges.len()
        invariant
            k <= edges@.len(),
            forall|j: int| 0 <= j < k ==> (#[trigger] edges@[j]).id != id,
        decreases edges@.len() - k,
    {
        if edges[k].id == id {
            return Some(k);
        }
        k = k + 1;
    }
    None
}

impl RelationshipGraph {
    /// The graph's internal invariant: ids increase and lie below the next
    /// id, and both indexes agree with the edges.
    pub closed spec fn wf(&self) -> bool {
        &&& ids_increasing(self.edges@)
        &&& forall|i: int| 0 <= i < self.edges@.len() ==> (#[trigger] self.edges@[i]).id < self.next_id
        &&& index_wf(self.outgoing@, self.edges@, true)
        &&& index_wf(self.incoming@, self.edges@, false)
    }

    /// The id the next added relationship gets.
    pub closed spec fn next_id(&self) -> u64 {
        self.next_id
    }

    /// In a well-formed graph ids strictly increase, so no two edges share one.
    pub proof fn lemma_ids_increasing(&self)
        requires
            self.wf(),
        ensures
            ids_increasing(self@),
            forall|i: int| 0 <= i < self@.len() ==> (#[trigger] self@[i]).id < self.next_id(),
    {
    }

    /// Create an empty relationship graph.
    pub fn new() -> (g: Self)
        ensures
            g.wf(),
            g@ == Seq::<Relationship>::empty(),
            g.next_id() == 1,
    {
        RelationshipGraph { edges: Vec::new(), outgoing: Vec::new(), incoming: Vec::new(), next_id: 1 }
    }

    /// Add a relationship between two entities; returns its id.
    pub fn add(&mut self, source: EntityId, target: EntityId, rel_type: RelationshipType) -> (id: u64)
        requires
            old(self).wf(),
            old(self).next_id() < u64::MAX,
        ensures
            final(self).wf(),
            id == old(self).next_id(),
            forall|i: int| 0 <= i < old(self)@.len() ==> #[trigger] old(self)@[i].id < id,
            final(self).next_id() == old(self).next_id() + 1,
            final(self)@ == old(self)@.push(Relationship { id, source, target, rel_type }),
    {
        let id = self.next_id;
        self.next_id = self.next_id + 1;
        let r = Relationship { id, source, target, rel_type };
        let ghost old_edges = self.edges@;
        index_add(&mut self.outgoing, Ghost(old_edges), r, true);
        index_add(&mut self.incoming, Ghost(old_edges), r, false);
        self.edges.push(r);
        id
    }

    /// Get a relationship by id.
    pub fn get(&self, id: u64) -> (r: Option<&Relationship>)
        requires
            self.wf(),
        ensures
            match r {
                Some(x) => self@.contains(*x) && x.id == id,
                None => forall|i: int| 0 <= i < self@.len() ==> (#[trigger] self@[i]).id != id,
            },
    {
        match find_edge(&self.edges, id) {
            Some(k) => Some(&self.edges[k]),
            None => None,
        }
    }

    /// The edges in `index` for entity `e`, in id order.
    fn edges_in(&self, index: &Vec<IndexEntry>, e: EntityId, Ghost(outgoing): Ghost<bool>) -> (r: Vec<Relationship>)
        requires
            ids_increasing(self.edges@),
            index_wf(index@, self.edges@, outgoing),
        ensures
            r@ == edges_at(self.edges@, e, outgoing),
    {
        let ghost all = self.edges@;
        let mut r: Vec<Relationship> = Vec::new();
        match find_entry(index, e) {
            None => {
                proof {
                    assert forall|k: int| 0 <= k < all.len() implies endpoint(#[trigger] all[k], outgoing) != e by {
                        let j = choose|j: int| 0 <= j < index@.len() && (#[trigger] index@[j]).entity == endpoint(all[k], outgoing);
                    }
                    lemma_edges_at_none(all, e, outgoing);
                }
                assert(r@ =~= edges_at(all, e, outgoing));
            },
            Some(i) => {
                let ids = &index[i].ids;
                let ghost want = edges_at(all, e, outgoing);
                proof {
                    lemma_edges_at_members(all, e, outgoing);
                }
                let mut j: usize = 0;
                while j < ids.len()
                    invariant
                        ids@ == ids_of(want),
                        want == edges_at(all, e, outgoing),
                        all == self.edges@,
                        ids_increasing(all),
                        forall|m: int| 0 <= m < want.len() ==> all.contains(#[trigger] want[m]),
                        j <= ids@.len(),
                        r@ == want.take(j as int),
                    decreases ids@.len() - j,
                {
                    let id = ids[j];
                    match find_edge(&self.edges, id) {
                        Some(k) => {
                            proof {
                                assert(all.contains(want[j as int]));
                                let m = choose|m: int| 0 <= m < all.len() && all[m] == want[j as int];
                                assert(ids_of(want)[j as int] == want[j as int].id);
                                assert(m == k);
                            }
                            r.push(self.edges[k]);
                        },
                        None => {
                            proof {
                                assert(all.contains(want[j as int]));
                                let m = choose|m: int| 0 <= m < all.len() && all[m] == want[j as int];
                                assert(ids_of(want)[j as int] == want[j as int].id);
                                assert(all[m].id != id);
                            }
                        },
                    }
                    assert(r@ =~= want.take(j + 1));
                    j = j + 1;
                }
                assert(want.take(want.len() as int) =~= want);
            },
        }
        r
    }

    /// All relationships originating from `source`, in id order.
    pub fn outgoing_edges(&self, source: EntityId) -> (r: Vec<Relationship>)
        requires
            self.wf(),
        ensures
            r@ == edges_at(self@, source, true),
    {
        self.edges_in(&self.outgoing, source, Ghost(true))
    }

    /// All relationships targeting `target`, in id order.
    pub fn incoming_edges(&self, target: EntityId) -> (r: Vec<Relationship>)
        requires
            self.wf(),
        ensures
            r@ == edges_at(self@, target, false),
    {
        self.edges_in(&self.incoming, target, Ghost(false))
    }

    /// All entities connected to `entity` by a relationship in either
    /// direction, each once.
    pub fn neighbors(&self, entity: EntityId) -> (r: Vec<EntityId>)
        requires
            self.wf(),
        ensures
            r@.no_duplicates(),
            forall|n: EntityId| r@.contains(n) <==> is_neighbor(self@, entity, n),
    {
        let out = self.outgoing_edges(entity);
        let inc = self.incoming_edges(entity);
        let ghost all = self.edges@;
        proof {
            lemma_edges_at_members(all, entity, true);
            lemma_edges_at_members(all, entity, false);
            lemma_edges_at_complete(all, entity, true);
            lemma_edges_at_complete(all, entity, false);
        }
        let mut r: Vec<EntityId> = Vec::new();
        let mut i: usize = 0;
        while i < out.len()
            invariant
                i <= out@.len(),
                r@.no_duplicates(),
                forall|n: EntityId| r@.contains(n) <==> exists|j: int| 0 <= j < i && (#[trigger] out@[j]).target == n,
            decreases out@.len() - i,
        {
            let t = out[i].target;
            let ghost prev = r@;
            if !contains_entity(&r, t) {
                r.push(t);
                assert(r@[r@.len() - 1] == t);
            }
            assert(r@.contains(t));
            assert(r@ == prev || r@ == prev.push(t));
            assert(out@[i as int].target == t);
            assert forall|n: EntityId| r@.contains(n) <==> exists|j: int| 0 <= j < i + 1 && (#[trigger] out@[j]).target == n by {
                if prev.contains(n) {
                    let m = choose|m: int| 0 <= m < prev.len() && prev[m] == n;
                    assert(r@[m] == n);
                }
                if r@.contains(n) && n != t {
                    let m = choose|m: int| 0 <= m < r@.len() && r@[m] == n;
                    assert(m < prev.len());
                    assert(prev[m] == n);
                }
            }
            i = i + 1;
        }
        let mut i: usize = 0;
        while i < inc.len()
            invariant
                i <= inc@.len(),
                r@.no_duplicates(),
                forall|n: EntityId| r@.contains(n) <==> (exists|j: int| 0 <= j < out@.len() && (#[trigger] out@[j]).target == n)
                    || (exists|j: int| 0 <= j < i && (#[trigger] inc@[j]).source == n),
            decreases inc@.len() - i,
        {
            let s = inc[i].source;
            let ghost prev = r@;
            if !contains_entity(&r, s) {
                r.push(s);
                assert(r@[r@.len() - 1] == s);
            }
            assert(r@.contains(s));
            assert(r@ == prev || r@ == prev.push(s));
            assert(inc@[i as int].source == s);
            assert forall|n: EntityId| r@.contains(n) <==> (exists|j: int| 0 <= j < out@.len() && (#[trigger] out@[j]).target == n)
                    || (exists|j: int| 0 <= j < i + 1 && (#[trigger] inc@[j]).source == n) by {
                if prev.contains(n) {
                    let m = choose|m: int| 0 <= m < prev.len() && prev[m] == n;
                    assert(r@[m] == n);
                }
                if r@.contains(n) && n != s {
                    let m = choose|m: int| 0 <= m < r@.len() && r@[m] == n;
                    assert(m < prev.len());
                    assert(prev[m] == n);
                }
            }
            i = i + 1;
        }
        assert forall|n: EntityId| r@.contains(n) <==> is_neighbor(all, entity, n) by {
            if r@.contains(n) {
                if exists|j: int| 0 <= j < out@.len() && (#[trigger] out@[j]).target == n {
                    let j = choose|j: int| 0 <= j < out@.len() && (#[trigger] out@[j]).target == n;
                    assert(all.contains(out@[j]));
                    let k = choose|k: int| 0 <= k < all.len() && all[k] == out@[j];
                    assert(all[k].source == entity && all[k].target == n);
                } else {
                    let j = choose|j: int| 0 <= j < inc@.len() && (#[trigger] inc@[j]).source == n;
                    assert(all.contains(inc@[j]));
                    let k = choose|k: int| 0 <= k < all.len() && all[k] == inc@[j];
                    assert(all[k].target == entity && all[k].source == n);
                }
            }
            if is_neighbor(all, entity, n) {
                let k = choose|k: int| 0 <= k < all.len() && ((all[k].source == entity && all[k].target == n) || (
                    all[k].target == entity && all[k].source == n));
                if all[k].source == entity && all[k].target == n {
                    assert(endpoint(all[k], true) == entity);
                    assert(out@.contains(all[k]));
                    let j = choose|j: int| 0 <= j < out@.len() && out@[j] == all[k];
                    assert(out@[j].target == n);
                } else {
                    assert(endpoint(all[k], false) == entity);
                    assert(inc@.contains(all[k]));
                    let j = choose|j: int| 0 <= j < inc@.len() && inc@[j] == all[k];
                    assert(inc@[j].source == n);
                }
            }
        }
        r
    }

    /// Number of relationships.
    pub fn len(&self) -> (n: usize)
        ensures
            n == self@.len(),
    {
        self.edges.len()
    }

    /// Whether the graph is empty.
    pub fn is_empty(&self) -> (b: bool)
        ensures
            b == (self@.len() == 0),
    {
        self.edges.len() == 0
    }

    /// All relationships, in id order.
    pub fn iter(&self) -> (s: &[Relationship])
        ensures
            s@ == self@,
    {
        self.edges.as_slice()
    }

    /// Remove a relationship by id, returning it; `None` when no
    /// relationship has that id.
    pub fn remove(&mut self, id: u64) -> (r: Option<Relationship>)
        requires
            old(self).wf(),
        ensures
            final(self).wf(),
            final(self).next_id() == old(self).next_id(),
            match r {
                Some(x) => x.id == id && exists|k: int|
                    0 <= k < old(self)@.len() && old(self)@[k] == x && final(self)@ == old(self)@.remove(k),
                None => final(self)@ == old(self)@ && forall|i: int|
                    0 <= i < old(self)@.len() ==> (#[trigger] old(self)@[i]).id != id,
            },
    {
        match find_edge(&self.edges, id) {
            None => None,
            Some(k) => {
                let r = self.edges[k];
                let ghost old_edges = self.edges@;
                index_remove(&mut self.outgoing, Ghost(old_edges), k, r, true);
                index_remove(&mut self.incoming, Ghost(old_edges), k, r, false);
                let removed = self.edges.remove(k);
                assert(ids_increasing(self.edges@)) by {
                    assert forall|i: int, j: int| 0 <= i < j < self.edges@.len() implies self.edges@[i].id < self.edges@[j].id by {
                        let i0 = if i < k { i } else { i + 1 };
                        let j0 = if j < k { j } else { j + 1 };
                        assert(self.edges@[i] == old_edges[i0]);
                        assert(self.edges@[j] == old_edges[j0]);
                    }
                }
                assert forall|i: int| 0 <= i < self.edges@.len() implies (#[trigger] self.edges@[i]).id < self.next_id by {
                    let i0 = if i < k { i } else { i + 1 };
                    assert(self.edges@[i] == old_edges[i0]);
                }
                Some(removed)
            },
        }
    }
}


/// Removing the relationship an `add` just appended gives it back and
/// restores the previous relationships: in a list with increasing ids, the
/// only position holding the new id is the last.
pub proof fn lemma_remove_undoes_add(s: Seq<Relationship>, r: Relationship, k: int)
    requires
        ids_increasing(s.push(r)),
        0 <= k < s.len() + 1,
        s.push(r)[k].id == r.id,
    ensures
        k == s.len(),
        s.push(r)[k] == r,
        s.push(r).remove(k) == s,
{
    if k < s.len() {
        assert(s.push(r)[k].id < s.push(r)[s.len() as int].id);
    }
    assert(s.push(r).remove(k) =~= s);
}

/// Being neighbours is symmetric.
pub proof fn lemma_neighbors_symmetric(edges: Seq<Relationship>, a: EntityId, b: EntityId)
    ensures
        is_neighbor(edges, a, b) <==> is_neighbor(edges, b, a),
{
}

/// The outgoing edges of `source` are exactly the edges with that source.
pub proof fn lemma_outgoing_exact(edges: Seq<Relationship>, source: EntityId, r: Relationship)
    ensures
        edges_at(edges, source, true).contains(r) <==> (edges.contains(r) && r.source == source),
{
    lemma_edges_at_members(edges, source, true);
    lemma_edges_at_complete(edges, source, true);
    if edges.contains(r) && r.source == source {
        let k = choose|k: int| 0 <= k < edges.len() && edges[k] == r;
        assert(endpoint(edges[k], true) == source);
    }
    if edges_at(edges, source, true).contains(r) {
        let j = choose|j: int| 0 <= j < edges_at(edges, source, true).len() && edges_at(edges, source, true)[j] == r;
    }
}

} // verus!
