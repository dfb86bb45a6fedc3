//! Transaction model: recorded changes, commit and rollback.
//!
//! Every mutation to the BIM model is recorded in a [`Transaction`]; the
//! changes are then either committed (applied to the entity graph) or rolled
//! back (undone, newest first).
use vstd::prelude::*;
use vstd::string::*;

use crate::entity::{Entity, EntityCategory, EntityGraph, EntityId};
use crate::text::decimal;

verus! {

/// A single change recorded in a transaction.
#[derive(Debug, Clone)]
pub enum Change<G, V> {
    /// An entity was created.
    EntityCreated(Entity<G, V>),
    /// An entity was updated (previous state kept for rollback).
    EntityUpdated {
        /// Id of the updated entity.
        id: EntityId,
        /// Previous state of the entity.
        previous: Entity<G, V>,
    },
    /// An entity was removed.
    EntityRemoved {
        /// Id of the removed entity.
        id: EntityId,
        /// The removed entity.
        removed: Entity<G, V>,
    },
}

/// The name of a category.
pub open spec fn category_name_spec(c: EntityCategory) -> Seq<char> {
    match c {
        EntityCategory::Wall => "Wall"@,
        EntityCategory::Slab => "Slab"@,
        EntityCategory::Beam => "Beam"@,
        EntityCategory::Column => "Column"@,
        EntityCategory::Door => "Door"@,
        EntityCategory::Window => "Window"@,
    }
}

fn category_name(c: EntityCategory) -> (s: &'static str)
    ensures
        s@ == category_name_spec(c),
{
    match c {
        EntityCategory::Wall => "Wall",
        EntityCategory::Slab => "Slab",
        EntityCategory::Beam => "Beam",
        EntityCategory::Column => "Column",
        EntityCategory::Door => "Door",
        EntityCategory::Window => "Window",
    }
}

impl<G, V> Change<G, V> {
    /// The description of a change.
    pub open spec fn spec_description(&self) -> Seq<char> {
        match self {
            Change::EntityCreated(e) => "created "@ + category_name_spec(e.category) + " ("@ + e.name@
                + ")"@,
            Change::EntityUpdated { id, .. } => "updated "@ + seq!['E'] + decimal(id.0 as nat),
            Change::EntityRemoved { id, .. } => "removed "@ + seq!['E'] + decimal(id.0 as nat),
        }
    }

    /// Human-readable description of the change.
    pub fn description(&self) -> (s: String)
        ensures
            s@ == self.spec_description(),
    {
        match self {
            Change::EntityCreated(e) => {
                let mut s = String::from_str("created ");
                s.append(category_name(e.category));
                s.append(" (");
                s.append(e.name.as_str());
                s.append(")");
                s
            },
            Change::EntityUpdated { id, .. } => {
                let mut s = String::from_str("updated ");
                let d = id.to_string();
                s.append(d.as_str());
                s
            },
            Change::EntityRemoved { id, .. } => {
                let mut s = String::from_str("removed ");
                let d = id.to_string();
                s.append(d.as_str());
                s
            },
        }
    }
}

/// The graph contents after committing one change: creations are inserted,
/// removals removed, updates are already in place.
pub open spec fn commit_step<G, V>(m: Map<u64, Entity<G, V>>, c: Change<G, V>) -> Map<u64, Entity<G, V>> {
    match c {
        Change::EntityCreated(e) => m.insert(e.id.0, e),
        Change::EntityUpdated { .. } => m,
        Change::EntityRemoved { id, .. } => m.remove(id.0),
    }
}

/// The graph contents after committing `cs` in order.
pub open spec fn commit_effect<G, V>(m: Map<u64, Entity<G, V>>, cs: Seq<Change<G, V>>) -> Map<u64, Entity<G, V>>
    decreases cs.len(),
{
    if cs.len() == 0 {
        m
    } else {
        commit_step(commit_effect(m, cs.drop_last()), cs.last())
    }
}

/// The next id after inserting an entity with id `id`.
pub open spec fn bump(n: u64, id: u64) -> u64 {
    if id >= n {
        (id + 1) as u64
    } else {
        n
    }
}

/// The graph's next id after committing `cs` in order.
pub open spec fn commit_next_id<G, V>(n: u64, cs: Seq<Change<G, V>>) -> u64
    decreases cs.len(),
{
    if cs.len() == 0 {
        n
    } else {
        let p = commit_next_id(n, cs.drop_last());
        match cs.last() {
            Change::EntityCreated(e) => bump(p, e.id.0),
            _ => p,
        }
    }
}

/// The graph contents after undoing one change: creations are removed,
/// previous and removed entities are reinserted.
pub open spec fn undo_step<G, V>(m: Map<u64, Entity<G, V>>, c: Change<G, V>) -> Map<u64, Entity<G, V>> {
    match c {
        Change::EntityCreated(e) => m.remove(e.id.0),
        Change::EntityUpdated { previous, .. } => m.insert(previous.id.0, previous),
        Change::EntityRemoved { removed, .. } => m.insert(removed.id.0, removed),
    }
}

/// The graph contents after undoing `cs`, newest change first.
pub open spec fn rollback_effect<G, V>(m: Map<u64, Entity<G, V>>, cs: Seq<Change<G, V>>) -> Map<u64, Entity<G, V>>
    decreases cs.len(),
{
    if cs.len() == 0 {
        m
    } else {
        rollback_effect(undo_step(m, cs.last()), cs.drop_last())
    }
}

/// The graph's next id after undoing `cs`, newest change first.
pub open spec fn rollback_next_id<G, V>(n: u64, cs: Seq<Change<G, V>>) -> u64
    decreases cs.len(),
{
    if cs.len() == 0 {
        n
    } else {
        let p = match cs.last() {
            Change::EntityCreated(_) => n,
            Change::EntityUpdated { previous, .. } => bump(n, previous.id.0),
            Change::EntityRemoved { removed, .. } => bump(n, removed.id.0),
        };
        rollback_next_id(p, cs.drop_last())
    }
}

/// Committing inserts each created entity, which needs its id below the
/// largest `u64`.
pub open spec fn committable<G, V>(cs: Seq<Change<G, V>>) -> bool {
    forall|i: int| 0 <= i < cs.len() ==> match #[trigger] cs[i] {
        Change::EntityCreated(e) => e.id.0 < u64::MAX,
        _ => true,
    }
}

/// Rolling back reinserts previous and removed entities, which needs their
/// ids below the largest `u64`.
pub open spec fn rollbackable<G, V>(cs: Seq<Change<G, V>>) -> bool {
    forall|i: int| 0 <= i < cs.len() ==> match #[trigger] cs[i] {
        Change::EntityCreated(_) => true,
        Change::EntityUpdated { previous, .. } => previous.id.0 < u64::MAX,
        Change::EntityRemoved { removed, .. } => removed.id.0 < u64::MAX,
    }
}

/// Errors that can occur during transaction operations.
#[derive(Debug, Clone, PartialEq, Eq, Structural)]
pub enum TransactionError {
    /// Transaction was already committed or rolled back.
    AlreadyFinalized,
}

impl TransactionError {
    /// Display form of the error.
    pub fn to_string(&self) -> (s: String)
        ensures
            s@ == "transaction already finalized"@,
    {
        String::from_str("transaction already finalized")
    }
}

/// An atomic transaction recording changes to the entity graph.
#[derive(Debug, Clone)]
pub struct Transaction<G, V> {
    changes: Vec<Change<G, V>>,
    committed: bool,
    rolled_back: bool,
}

impl<G, V> Transaction<G, V> {
    /// The transaction is still active: neither committed nor rolled back.
    pub closed spec fn wf(&self) -> bool {
        !self.committed && !self.rolled_back
    }

    /// The recorded changes, oldest first.
    pub closed spec fn changes_view(&self) -> Seq<Change<G, V>> {
        self.changes@
    }

    /// Create a new, empty transaction.
    pub fn new() -> (t: Self)
        ensures
            t.wf(),
            t.changes_view() == Seq::<Change<G, V>>::empty(),
    {
        Transaction { changes: Vec::new(), committed: false, rolled_back: false }
    }

    /// Record that an entity was created.
    pub fn record_create(&mut self, entity: Entity<G, V>)
        requires
            old(self).wf(),
        ensures
            final(self).wf(),
            final(self).changes_view() == old(self).changes_view().push(Change::EntityCreated(entity)),
    {
        self.changes.push(Change::EntityCreated(entity));
    }

    /// Record that an entity was updated, keeping its previous state.
    pub fn record_update(&mut self, id: EntityId, previous: Entity<G, V>)
        requires
            old(self).wf(),
        ensures
            final(self).wf(),
            final(self).changes_view() == old(self).changes_view().push(Change::EntityUpdated { id, previous }),
    {
        self.changes.push(Change::EntityUpdated { id, previous });
    }

    /// Record that an entity was removed.
    pub fn record_remove(&mut self, id: EntityId, removed: Entity<G, V>)
        requires
            old(self).wf(),
        ensures
            final(self).wf(),
            final(self).changes_view() == old(self).changes_view().push(Change::EntityRemoved { id, removed }),
    {
        self.changes.push(Change::EntityRemoved { id, removed });
    }

    /// Commit: apply every change to the graph, oldest first.
    pub fn commit(self, graph: &mut EntityGraph<G, V>) -> (r: Result<(), TransactionError>)
        requires
            self.wf(),
            old(graph).wf(),
            committable(self.changes_view()),
        ensures
            r is Ok,
            final(graph).wf(),
            final(graph)@ == commit_effect(old(graph)@, self.changes_view()),
            final(graph).next_id() == commit_next_id(old(graph).next_id(), self.changes_view()),
    {
        let mut t = self;
        t.committed = true;
        let mut rest = t.changes;
        let ghost all = rest@;
        let ghost m0 = graph@;
        let ghost n0 = graph.next_id();
        let ghost mut k: int = 0;
        while rest.len() > 0
            invariant
                0 <= k <= all.len(),
                rest@ == all.skip(k),
                committable(all),
                graph.wf(),
                graph@ == commit_effect(m0, all.take(k)),
                graph.next_id() == commit_next_id(n0, all.take(k)),
            decreases rest@.len(),
        {
            let c = rest.remove(0);
            proof {
                assert(all[k] == c);
                assert(all.take(k + 1).drop_last() =~= all.take(k));
                assert(all.take(k + 1).last() == c);
            }
            match c {
                Change::EntityCreated(e) => {
                    graph.insert(e);
                },
                Change::EntityUpdated { .. } => {},
                Change::EntityRemoved { id, .. } => {
                    graph.remove(id);
                },
            }
            proof {
                k = k + 1;
                assert(rest@ =~= all.skip(k));
            }
        }
        proof {
            assert(all.take(k) =~= all);
        }
        Ok(())
    }

    /// Roll back: undo every change in the graph, newest first.
    pub fn rollback(self, graph: &mut EntityGraph<G, V>) -> (r: Result<(), TransactionError>)
        requires
            self.wf(),
            old(graph).wf(),
            rollbackable(self.changes_view()),
        ensures
            r is Ok,
            final(graph).wf(),
            final(graph)@ == rollback_effect(old(graph)@, self.changes_view()),
            final(graph).next_id() == rollback_next_id(old(graph).next_id(), self.changes_view()),
    {
        let mut rest = self.changes;
        let ghost all = rest@;
        let ghost m0 = graph@;
        let ghost n0 = graph.next_id();
        while rest.len() > 0
            invariant
                rest@.len() <= all.len(),
                rest@ == all.take(rest@.len() as int),
                rollbackable(all),
                graph.wf(),
                rollback_effect(graph@, rest@) == rollback_effect(m0, all),
                rollback_next_id(graph.next_id(), rest@) == rollback_next_id(n0, all),
            decreases rest@.len(),
        {
            let ghost before = rest@;
            let c = rest.pop().unwrap();
            proof {
                assert(before.last() == c);
                assert(before.drop_last() =~= rest@);
                assert(all[before.len() - 1] == c);
                assert(rest@ =~= all.take(rest@.len() as int));
            }
            match c {
                Change::EntityCreated(e) => {
                    graph.remove(e.id);
                },
                Change::EntityUpdated { previous, .. } => {
                    graph.insert(previous);
                },
                Change::EntityRemoved { removed, .. } => {
                    graph.insert(removed);
                },
            }
        }
        Ok(())
    }

    /// Number of changes recorded.
    pub fn change_count(&self) -> (n: usize)
        ensures
            n == self.changes_view().len(),
    {
        self.changes.len()
    }

    /// The recorded changes, oldest first.
    pub fn changes(&self) -> (s: &[Change<G, V>])
        ensures
            s@ == self.changes_view(),
    {
        self.changes.as_slice()
    }
}


/// `c` was recorded for a graph that went from contents `a` to contents
/// `b`: a creation inserted a fresh entity, an update rewrote the entity
/// whose previous state it kept, a removal took out the entity it kept.
pub open spec fn recorded_step<G, V>(a: Map<u64, Entity<G, V>>, c: Change<G, V>, b: Map<u64, Entity<G, V>>) -> bool {
    match c {
        Change::EntityCreated(e) => !a.contains_key(e.id.0) && b == a.insert(e.id.0, e),
        Change::EntityUpdated { previous, .. } => a.contains_key(previous.id.0) && a[previous.id.0]
            == previous && b == a.insert(previous.id.0, b[previous.id.0]),
        Change::EntityRemoved { id, removed } => removed.id == id && a.contains_key(id.0) && a[id.0]
            == removed && b == a.remove(id.0),
    }
}

/// `ms` are the graph contents before and after each change of `cs`.
pub open spec fn recorded_trace<G, V>(ms: Seq<Map<u64, Entity<G, V>>>, cs: Seq<Change<G, V>>) -> bool {
    &&& ms.len() == cs.len() + 1
    &&& forall|i: int| 0 <= i < cs.len() ==> recorded_step(ms[i], #[trigger] cs[i], ms[i + 1])
}

/// No change of `cs` is an update.
pub open spec fn no_updates<G, V>(cs: Seq<Change<G, V>>) -> bool {
    forall|i: int| 0 <= i < cs.len() ==> !(#[trigger] cs[i] is EntityUpdated)
}

/// Rolling back the recorded changes of a transaction restores the graph
/// contents from before the first change, whatever the updates wrote.
pub proof fn lemma_rollback_restores<G, V>(ms: Seq<Map<u64, Entity<G, V>>>, cs: Seq<Change<G, V>>)
    requires
        recorded_trace(ms, cs),
    ensures
        rollback_effect(ms.last(), cs) == ms[0],
    decreases cs.len(),
{
    if cs.len() > 0 {
        let n = cs.len() as int;
        let a = ms[n - 1];
        let b = ms[n];
        let c = cs[n - 1];
        assert(recorded_step(a, c, b));
        assert(cs.last() == c);
        assert(undo_step(b, c) == a) by {
            match c {
                Change::EntityCreated(e) => {
                    assert(a.insert(e.id.0, e).remove(e.id.0) =~= a);
                },
                Change::EntityUpdated { previous, .. } => {
                    assert(a.insert(previous.id.0, b[previous.id.0]).insert(previous.id.0, previous) =~= a);
                },
                Change::EntityRemoved { id, removed } => {
                    assert(a.remove(id.0).insert(removed.id.0, removed) =~= a);
                },
            }
        }
        let ms2 = ms.drop_last();
        let cs2 = cs.drop_last();
        assert(recorded_trace(ms2, cs2)) by {
            assert forall|i: int| 0 <= i < cs2.len() implies recorded_step(ms2[i], #[trigger] cs2[i], ms2[i + 1]) by {
                assert(cs2[i] == cs[i]);
                assert(recorded_step(ms[i], cs[i], ms[i + 1]));
            }
        }
        lemma_rollback_restores(ms2, cs2);
        assert(ms2.last() == a);
    }
}

/// Committing recorded creations and removals replays them: the graph ends
/// with the contents after the last change.
pub proof fn lemma_commit_replays<G, V>(ms: Seq<Map<u64, Entity<G, V>>>, cs: Seq<Change<G, V>>)
    requires
        recorded_trace(ms, cs),
        no_updates(cs),
    ensures
        commit_effect(ms[0], cs) == ms.last(),
    decreases cs.len(),
{
    if cs.len() > 0 {
        let n = cs.len() as int;
        let ms2 = ms.drop_last();
        let cs2 = cs.drop_last();
        assert(recorded_trace(ms2, cs2)) by {
            assert forall|i: int| 0 <= i < cs2.len() implies recorded_step(ms2[i], #[trigger] cs2[i], ms2[i + 1]) by {
                assert(cs2[i] == cs[i]);
                assert(recorded_step(ms[i], cs[i], ms[i + 1]));
            }
        }
        assert(no_updates(cs2)) by {
            assert forall|i: int| 0 <= i < cs2.len() implies !(#[trigger] cs2[i] is EntityUpdated) by {
                assert(cs2[i] == cs[i]);
            }
        }
        lemma_commit_replays(ms2, cs2);
        assert(recorded_step(ms[n - 1], cs[n - 1], ms[n]));
        assert(!(cs[n - 1] is EntityUpdated));
        assert(cs.last() == cs[n - 1]);
    }
}

/// For a transaction of creations and removals, rolling back what a commit
/// applied gives back the original graph contents.
pub proof fn lemma_rollback_undoes_commit<G, V>(ms: Seq<Map<u64, Entity<G, V>>>, cs: Seq<Change<G, V>>)
    requires
        recorded_trace(ms, cs),
        no_updates(cs),
    ensures
        rollback_effect(commit_effect(ms[0], cs), cs) == ms[0],
{
    lemma_commit_replays(ms, cs);
    lemma_rollback_restores(ms, cs);
}

} // verus!
