//! BIM entity types and the entity graph.
//!
//! Building-domain primitives (walls, slabs, beams, columns, doors,
//! windows), each carrying a geometry payload `G` and user-defined
//! properties with values of type `V`.
use vstd::prelude::*;
use vstd::string::*;

use crate::keyed::{key_views, StrMap, has_key, keys_distinct, lemma_pair_map_index, lemma_pair_map_keys, lemma_pair_map_len, lemma_pair_map_push, lemma_pair_map_remove, lemma_pair_map_update, pair_map};
use crate::text::{decimal, u64_to_decimal};

verus! {

/// A unique identifier for a BIM entity within a model.
#[derive(Debug, Clone, Copy, PartialEq, Eq, Structural, PartialOrd, Ord, Hash)]
pub struct EntityId(pub u64);

impl EntityId {
    /// Display form: `E` followed by the id in decimal.
    pub fn to_string(&self) -> (s: String)
        ensures
            s@ == seq!['E'] + decimal(self.0 as nat),
    {
        let mut s = String::from_str("E");
        proof {
            reveal_strlit("E");
        }
        let d = u64_to_decimal(self.0);
        s.append(d.as_str());
        s
    }
}

/// Top-level category of a BIM entity.
#[derive(Debug, Clone, Copy, PartialEq, Eq, Structural, Hash)]
pub enum EntityCategory {
    /// Wall.
    Wall,
    /// Floor slab.
    Slab,
    /// Beam.
    Beam,
    /// Column.
    Column,
    /// Door.
    Door,
    /// Window.
    Window,
}

/// A key-value property map for an entity.
#[derive(Debug, Clone)]
pub struct Properties<V> {
    map: StrMap<V>,
}

impl<V> View for Properties<V> {
    type V = Map<Seq<char>, V>;

    closed spec fn view(&self) -> Map<Seq<char>, V> {
        self.map@
    }
}

impl<V> Properties<V> {
    /// The underlying map is well formed.
    pub closed spec fn wf(&self) -> bool {
        self.map.wf()
    }

    /// The entries in storage order.
    pub closed spec fn entries(&self) -> Seq<(String, V)> {
        self.map.entries()
    }

    /// Create an empty property set.
    pub fn new() -> (p: Self)
        ensures
            p.wf(),
            p@ == Map::<Seq<char>, V>::empty(),
    {
        Properties { map: StrMap::new() }
    }

    /// Insert a property, replacing any previous value under `key`.
    pub fn insert(&mut self, key: &str, value: V)
        requires
            old(self).wf(),
        ensures
            final(self).wf(),
            final(self)@ == old(self)@.insert(key@, value),
            final(self)@.dom().finite(),
    {
        self.map.insert(String::from_str(key), value);
        proof {
            self.map.lemma_finite();
        }
    }

    /// Get a property by key.
    pub fn get(&self, key: &str) -> (r: Option<&V>)
        requires
            self.wf(),
        ensures
            match r {
                Some(v) => self@.contains_key(key@) && *v == self@[key@],
                None => !self@.contains_key(key@),
            },
    {
        self.map.get(key)
    }

    /// Number of properties.
    pub fn len(&self) -> (n: usize)
        requires
            self.wf(),
        ensures
            n == self@.len(),
            self@.dom().finite(),
    {
        self.map.len()
    }

    /// `true` when empty.
    pub fn is_empty(&self) -> (b: bool)
        requires
            self.wf(),
        ensures
            b == (self@.len() == 0),
    {
        self.map.is_empty()
    }

    /// The key-value pairs, each key once.
    pub fn iter(&self) -> (s: &[(String, V)])
        requires
            self.wf(),
        ensures
            s@ == self.entries(),
            keys_distinct(key_views(s@)),
            pair_map(key_views(s@)) == self@,
    {
        self.map.iter()
    }
}

/// A single BIM entity: a building element with geometry, properties and an
/// optional parent.
#[derive(Debug, Clone)]
pub struct Entity<G, V> {
    /// Unique identifier.
    pub id: EntityId,
    /// Category.
    pub category: EntityCategory,
    /// Display name.
    pub name: String,
    /// Geometry defining the entity's volume.
    pub geometry: G,
    /// User-defined properties.
    pub properties: Properties<V>,
    /// Parent entity id (e.g. the wall containing a door).
    pub parent: Option<EntityId>,
}

impl<G, V> Entity<G, V> {
    /// Create a new entity with no properties and no parent.
    pub fn new(id: EntityId, category: EntityCategory, name: &str, geometry: G) -> (e: Self)
        ensures
            e.id == id,
            e.category == category,
            e.name@ == name@,
            e.geometry == geometry,
            e.properties.wf(),
            e.properties@ == Map::<Seq<char>, V>::empty(),
            e.parent == None::<EntityId>,
    {
        Entity {
            id,
            category,
            name: String::from_str(name),
            geometry,
            properties: Properties::new(),
            parent: None,
        }
    }
}

/// The entities of a keyed sequence, in order.
pub open spec fn entity_values<G, V>(s: Seq<(u64, Entity<G, V>)>) -> Seq<Entity<G, V>> {
    s.map_values(|p: (u64, Entity<G, V>)| p.1)
}

/// The entity graph: all BIM entities of a model, indexed by id.
#[derive(Debug, Clone)]
pub struct EntityGraph<G, V> {
    entities: Vec<(u64, Entity<G, V>)>,
    next_id: u64,
}

impl<G, V> View for EntityGraph<G, V> {
    type V = Map<u64, Entity<G, V>>;

    open spec fn view(&self) -> Map<u64, Entity<G, V>> {
        pair_map(self.entries())
    }
}

impl<G, V> EntityGraph<G, V> {
    /// The `(id, entity)` records in storage order.
    pub closed spec fn entries(&self) -> Seq<(u64, Entity<G, V>)> {
        self.entities@
    }

    /// The id the next created entity gets.
    pub closed spec fn next_id(&self) -> u64 {
        self.next_id
    }

    /// Ids are distinct and lie below the next id.
    pub closed spec fn wf(&self) -> bool {
        &&& keys_distinct(self.entities@)
        &&& forall|i: int| 0 <= i < self.entities@.len() ==> (#[trigger] self.entities@[i]).0 < self.next_id
    }

    /// What well-formedness gives a caller: distinct ids below the next id,
    /// and a map holding exactly the stored records.
    pub proof fn lemma_wf(&self)
        requires
            self.wf(),
        ensures
            keys_distinct(self.entries()),
            self@.dom().finite(),
            self@.len() == self.entries().len(),
            forall|k: u64| #[trigger] self@.contains_key(k) ==> k < self.next_id(),
            forall|k: u64| #[trigger] self@.contains_key(k) <==> has_key(self.entries(), k),
            forall|i: int| 0 <= i < self.entries().len() ==> self@[#[trigger] self.entries()[i].0] == self.entries()[i].1,
    {
        lemma_pair_map_keys(self.entities@);
        lemma_pair_map_len(self.entities@);
        assert forall|k: u64| #[trigger] self@.contains_key(k) implies k < self.next_id() by {
            let i = choose|i: int| 0 <= i < self.entities@.len() && self.entities@[i].0 == k;
        }
    }

    /// Create an empty entity graph.
    pub fn new() -> (g: Self)
        ensures
            g.wf(),
            g@ == Map::<u64, Entity<G, V>>::empty(),
            g.next_id() == 1,
    {
        let g = EntityGraph { entities: Vec::new(), next_id: 1 };
        assert(g@ =~= Map::<u64, Entity<G, V>>::empty());
        g
    }

    /// Position of the record with key `id`, if any.
    fn find(&self, id: u64) -> (r: Option<usize>)
        ensures
            match r {
                Some(i) => i < self.entities@.len() && self.entities@[i as int].0 == id,
                None => !has_key(self.entities@, id),
            },
    {
        let mut i: usize = 0;
        while i < self.entities.len()
            invariant
                i <= self.entities@.len(),
                forall|j: int| 0 <= j < i ==> (#[trigger] self.entities@[j]).0 != id,
            decreases self.entities@.len() - i,
        {
            if self.entities[i].0 == id {
                return Some(i);
            }
            i = i + 1;
        }
        None
    }

    /// Insert an entity under its id, replacing any entity stored there; the
    /// next id moves past it.
    pub fn insert(&mut self, entity: Entity<G, V>)
        requires
            old(self).wf(),
            entity.id.0 < u64::MAX,
        ensures
            final(self).wf(),
            final(self)@ == old(self)@.insert(entity.id.0, entity),
            final(self).next_id() == if entity.id.0 >= old(self).next_id() {
                (entity.id.0 + 1) as u64
            } else {
                old(self).next_id()
            },
    {
        let id = entity.id.0;
        if id >= self.next_id {
            self.next_id = id + 1;
        }
        let ghost old_s = self.entities@;
        match self.find(id) {
            Some(i) => {
                self.entities.set(i, (id, entity));
                proof {
                    lemma_pair_map_update(old_s, i as int, entity);
                    assert(self.entities@ =~= old_s.update(i as int, (old_s[i as int].0, entity)));
                }
            },
            None => {
                self.entities.push((id, entity));
                proof {
                    lemma_pair_map_push(old_s, id, entity);
                }
            },
        }
    }

    /// Create and insert a new entity under the next id; returns that id.
    pub fn create(&mut self, category: EntityCategory, name: &str, geometry: G) -> (id: EntityId)
        requires
            old(self).wf(),
            old(self).next_id() < u64::MAX,
        ensures
            final(self).wf(),
            id.0 == old(self).next_id(),
            final(self).next_id() == old(self).next_id() + 1,
            !old(self)@.contains_key(id.0),
            final(self)@ == old(self)@.insert(id.0, final(self)@[id.0]),
            final(self)@[id.0].id == id,
            final(self)@[id.0].category == category,
            final(self)@[id.0].name@ == name@,
            final(self)@[id.0].geometry == geometry,
            final(self)@[id.0].properties@ == Map::<Seq<char>, V>::empty(),
            final(self)@[id.0].properties.wf(),
            final(self)@[id.0].parent == None::<EntityId>,
    {
        proof {
            self.lemma_wf();
        }
        let id = EntityId(self.next_id);
        self.next_id = self.next_id + 1;
        let e = Entity::new(id, category, name, geometry);
        self.insert(e);
        id
    }

    /// Get an entity by id.
    pub fn get(&self, id: EntityId) -> (r: Option<&Entity<G, V>>)
        requires
            self.wf(),
        ensures
            match r {
                Some(e) => self@.contains_key(id.0) && *e == self@[id.0],
                None => !self@.contains_key(id.0),
            },
    {
        proof {
            lemma_pair_map_keys(self.entities@);
        }
        match self.find(id.0) {
            Some(i) => Some(&self.entities[i].1),
            None => None,
        }
    }

    /// Mutable access to an entity by id.
    pub fn get_mut(&mut self, id: EntityId) -> (r: Option<&mut Entity<G, V>>)
        requires
            old(self).wf(),
        ensures
            final(self).wf(),
            final(self).next_id() == old(self).next_id(),
            match r {
                Some(e) => old(self)@.contains_key(id.0) && *e == old(self)@[id.0] && final(self)@ == old(self)@.insert(
                    id.0,
                    *final(e),
                ),
                None => !old(self)@.contains_key(id.0) && final(self)@ == old(self)@,
            },
    {
        let ghost old_s = self.entities@;
        proof {
            lemma_pair_map_keys(old_s);
        }
        match self.find(id.0) {
            Some(i) => {
                proof {
                    lemma_pair_map_update(old_s, i as int, old_s[i as int].1);
                }
                let r = &mut self.entities[i].1;
                proof {
                    lemma_pair_map_update(old_s, i as int, *final(r));
                }
                Some(r)
            },
            None => None,
        }
    }

    /// Remove an entity by id, returning it.
    pub fn remove(&mut self, id: EntityId) -> (r: Option<Entity<G, V>>)
        requires
            old(self).wf(),
        ensures
            final(self).wf(),
            final(self).next_id() == old(self).next_id(),
            final(self)@ == old(self)@.remove(id.0),
            match r {
                Some(e) => old(self)@.contains_key(id.0) && e == old(self)@[id.0],
                None => !old(self)@.contains_key(id.0),
            },
    {
        let ghost old_s = self.entities@;
        proof {
            lemma_pair_map_keys(old_s);
        }
        match self.find(id.0) {
            Some(i) => {
                proof {
                    lemma_pair_map_remove(old_s, i as int);
                }
                let (_, e) = self.entities.remove(i);
                assert forall|j: int| 0 <= j < self.entities@.len() implies (#[trigger] self.entities@[j]).0 < self.next_id by {
                    let j0 = if j < i { j } else { j + 1 };
                    assert(self.entities@[j] == old_s[j0]);
                }
                Some(e)
            },
            None => {
                assert(old_s == self.entities@);
                assert(pair_map(old_s).remove(id.0) =~= pair_map(old_s));
                None
            },
        }
    }

    /// Number of entities.
    pub fn len(&self) -> (n: usize)
        requires
            self.wf(),
        ensures
            n == self@.len(),
            self@.dom().finite(),
    {
        proof {
            lemma_pair_map_len(self.entities@);
        }
        self.entities.len()
    }

    /// `true` when empty.
    pub fn is_empty(&self) -> (b: bool)
        requires
            self.wf(),
        ensures
            b == (self@.len() == 0),
    {
        proof {
            lemma_pair_map_len(self.entities@);
        }
        self.entities.len() == 0
    }

    /// All entities, in storage order.
    pub fn iter(&self) -> (r: Vec<&Entity<G, V>>)
        ensures
            r@.map_values(|e: &Entity<G, V>| *e) == entity_values(self.entries()),
    {
        let mut r: Vec<&Entity<G, V>> = Vec::new();
        let mut i: usize = 0;
        while i < self.entities.len()
            invariant
                i <= self.entities@.len(),
                r@.len() == i,
                forall|j: int| 0 <= j < i ==> *(#[trigger] r@[j]) == self.entities@[j].1,
            decreases self.entities@.len() - i,
        {
            r.push(&self.entities[i].1);
            i = i + 1;
        }
        assert(r@.map_values(|e: &Entity<G, V>| *e) =~= entity_values(self.entities@));
        r
    }

    /// All entities of a category, in storage order.
    pub fn by_category(&self, category: EntityCategory) -> (r: Vec<&Entity<G, V>>)
        ensures
            r@.map_values(|e: &Entity<G, V>| *e) == entity_values(self.entries()).filter(
                |e: Entity<G, V>| e.category == category,
            ),
    {
        let ghost pred = |e: Entity<G, V>| e.category == category;
        let ghost vals = entity_values(self.entities@);
        let mut r: Vec<&Entity<G, V>> = Vec::new();
        let mut i: usize = 0;
        while i < self.entities.len()
            invariant
                i <= self.entities@.len(),
                vals == entity_values(self.entities@),
                pred == (|e: Entity<G, V>| e.category == category),
                r@.map_values(|e: &Entity<G, V>| *e) == vals.take(i as int).filter(pred),
            decreases self.entities@.len() - i,
        {
            proof {
                assert(vals.take(i + 1) =~= vals.take(i as int).push(vals[i as int]));
                vals.take(i as int).lemma_filter_push(vals[i as int], pred);
            }
            if self.entities[i].1.category == category {
                r.push(&self.entities[i].1);
            }
            assert(r@.map_values(|e: &Entity<G, V>| *e) =~= vals.take(i + 1).filter(pred));
            i = i + 1;
        }
        assert(vals.take(i as int) =~= vals);
        r
    }

    /// All entities whose parent is `parent_id`, in storage order.
    pub fn children(&self, parent_id: EntityId) -> (r: Vec<&Entity<G, V>>)
        ensures
            r@.map_values(|e: &Entity<G, V>| *e) == entity_values(self.entries()).filter(
                |e: Entity<G, V>| e.parent == Some(parent_id),
            ),
    {
        let ghost pred = |e: Entity<G, V>| e.parent == Some(parent_id);
        let ghost vals = entity_values(self.entities@);
        let mut r: Vec<&Entity<G, V>> = Vec::new();
        let mut i: usize = 0;
        while i < self.entities.len()
            invariant
                i <= self.entities@.len(),
                vals == entity_values(self.entities@),
                pred == (|e: Entity<G, V>| e.parent == Some(parent_id)),
                r@.map_values(|e: &Entity<G, V>| *e) == vals.take(i as int).filter(pred),
            decreases self.entities@.len() - i,
        {
            proof {
                assert(vals.take(i + 1) =~= vals.take(i as int).push(vals[i as int]));
                vals.take(i as int).lemma_filter_push(vals[i as int], pred);
            }
            let is_child = match self.entities[i].1.parent {
                Some(p) => p.0 == parent_id.0,
                None => false,
            };
            if is_child {
                r.push(&self.entities[i].1);
            }
            assert(r@.map_values(|e: &Entity<G, V>| *e) =~= vals.take(i + 1).filter(pred));
            i = i + 1;
        }
        assert(vals.take(i as int) =~= vals);
        r
    }
}


/// Reading an id after inserting under it gives the inserted entity, other
/// ids keep their entities, and removing a fresh id after inserting it gives
/// back the previous contents.
pub proof fn lemma_read_after_write<G, V>(m: Map<u64, Entity<G, V>>, k: u64, e: Entity<G, V>, other: u64)
    ensures
        m.insert(k, e).contains_key(k),
        m.insert(k, e)[k] == e,
        other != k ==> m.insert(k, e).contains_key(other) == m.contains_key(other),
        other != k && m.contains_key(other) ==> m.insert(k, e)[other] == m[other],
        !m.remove(k).contains_key(k),
        !m.contains_key(k) ==> m.insert(k, e).remove(k) == m,
{
    assert(!m.contains_key(k) ==> m.insert(k, e).remove(k) =~= m);
}

} // verus!
