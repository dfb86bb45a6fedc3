//! Scene graph: hierarchy of renderable nodes, each with a bounding volume
//! of type `B`, and collection of the visible leaves.
use vstd::prelude::*;
use vstd::string::*;

use crate::keyed::{has_key, lemma_pair_map_keys, pair_map};
use crate::sorted::{lemma_sorted_distinct, SortedIdMap};

verus! {

/// A node in the scene graph.
#[derive(Debug, Clone)]
pub struct SceneNode<B> {
    pub id: u64,
    pub name: String,
    pub bounding_box: B,
    pub visible: bool,
    pub parent: Option<u64>,
    pub children: Vec<u64>,
}

/// The nodes of `m` listed in `ids`, skipping ids with no node, in order.
pub open spec fn present_nodes<B>(m: Map<u64, SceneNode<B>>, ids: Seq<u64>) -> Seq<SceneNode<B>>
    decreases ids.len(),
{
    if ids.len() == 0 {
        Seq::empty()
    } else {
        let p = present_nodes(m, ids.drop_last());
        if m.contains_key(ids.last()) {
            p.push(m[ids.last()])
        } else {
            p
        }
    }
}

/// Whether `n` is drawn for a view whose bounding volume overlaps the nodes
/// listed in `overlapping`: it is visible, overlaps the view, and none of
/// its children is a visible node.
pub open spec fn drawn<B>(m: Map<u64, SceneNode<B>>, n: SceneNode<B>, overlapping: Seq<u64>) -> bool {
    &&& n.visible
    &&& overlapping.contains(n.id)
    &&& forall|i: int|
        0 <= i < n.children@.len() ==> !(m.contains_key(#[trigger] n.children@[i]) && m[n.children@[i]].visible)
}

/// The nodes of a scene, kept in id order.
#[derive(Debug, Clone)]
pub struct SceneGraph<B> {
    nodes: SortedIdMap<SceneNode<B>>,
    next_id: u64,
}

impl<B> View for SceneGraph<B> {
    type V = Map<u64, SceneNode<B>>;

    open spec fn view(&self) -> Map<u64, SceneNode<B>> {
        self.nodes_map()
    }
}

impl<B> Default for SceneGraph<B> {
    fn default() -> (g: Self)
        ensures
            g.wf(),
            g@ == Map::<u64, SceneNode<B>>::empty(),
            g.next_id() == 0,
    {
        SceneGraph { nodes: SortedIdMap::new(), next_id: 0 }
    }
}

impl<B> SceneGraph<B> {
    /// The nodes by id.
    pub closed spec fn nodes_map(&self) -> Map<u64, SceneNode<B>> {
        self.nodes@
    }

    /// The `(id, node)` records in increasing id order.
    pub closed spec fn entries(&self) -> Seq<(u64, SceneNode<B>)> {
        self.nodes.entries()
    }

    /// The id the next node gets.
    pub closed spec fn next_id(&self) -> u64 {
        self.next_id
    }

    /// Records are sorted by id, every id lies below the next id, and each
    /// node is stored under its own id.
    pub closed spec fn wf(&self) -> bool {
        &&& self.nodes.wf()
        &&& forall|k: u64| #[trigger] self.nodes@.contains_key(k) ==> k < self.next_id
        &&& forall|k: u64| #[trigger] self.nodes@.contains_key(k) ==> self.nodes@[k].id == k
    }

    /// What well-formedness gives a caller: the records are in increasing
    /// id order, and the map holds exactly them.
    pub proof fn lemma_wf(&self)
        requires
            self.wf(),
        ensures
            forall|i: int, j: int| 0 <= i < j < self.entries().len() ==> self.entries()[i].0 < self.entries()[j].0,
            self@ == pair_map(self.entries()),
            forall|k: u64| #[trigger] self@.contains_key(k) ==> k < self.next_id(),
            forall|k: u64| #[trigger] self@.contains_key(k) ==> self@[k].id == k,
    {
    }

    /// An empty scene.
    pub fn new() -> (g: Self)
        ensures
            g.wf(),
            g@ == Map::<u64, SceneNode<B>>::empty(),
            g.next_id() == 1,
    {
        SceneGraph { nodes: SortedIdMap::new(), next_id: 1 }
    }

    /// Add a visible root node; returns its id.
    pub fn add_node(&mut self, name: &str, bbox: B) -> (id: u64)
        requires
            old(self).wf(),
            old(self).next_id() < u64::MAX,
        ensures
            final(self).wf(),
            id == old(self).next_id(),
            final(self).next_id() == old(self).next_id() + 1,
            !old(self)@.contains_key(id),
            final(self)@ == old(self)@.insert(id, final(self)@[id]),
            final(self)@[id].id == id,
            final(self)@[id].name@ == name@,
            final(self)@[id].bounding_box == bbox,
            final(self)@[id].visible,
            final(self)@[id].parent is None,
            final(self)@[id].children@.len() == 0,
    {
        let id = self.next_id;
        self.next_id = self.next_id + 1;
        let node = SceneNode {
            id,
            name: String::from_str(name),
            bounding_box: bbox,
            visible: true,
            parent: None,
            children: Vec::new(),
        };
        self.nodes.insert(id, node);
        id
    }

    /// Add a visible node under `parent_id`; `None` (and nothing added)
    /// when there is no such node.
    pub fn add_child(&mut self, name: &str, bbox: B, parent_id: u64) -> (r: Option<u64>)
        requires
            old(self).wf(),
            old(self).next_id() < u64::MAX,
        ensures
            final(self).wf(),
            match r {
                None => !old(self)@.contains_key(parent_id) && final(self)@ == old(self)@ && final(self).next_id() == old(self).next_id(),
                Some(id) => {
                    &&& old(self)@.contains_key(parent_id)
                    &&& id == old(self).next_id()
                    &&& final(self).next_id() == old(self).next_id() + 1
                    &&& !old(self)@.contains_key(id)
                    &&& final(self)@ == old(self)@.insert(id, final(self)@[id]).insert(parent_id, final(self)@[parent_id])
                    &&& final(self)@[id].id == id
                    &&& final(self)@[id].name@ == name@
                    &&& final(self)@[id].bounding_box == bbox
                    &&& final(self)@[id].visible
                    &&& final(self)@[id].parent == Some(parent_id)
                    &&& final(self)@[id].children@.len() == 0
                    &&& final(self)@[parent_id] == (SceneNode { children: final(self)@[parent_id].children, ..old(self)@[parent_id] })
                    &&& final(self)@[parent_id].children@ == old(self)@[parent_id].children@.push(id)
                },
            },
    {
        if !self.nodes.contains(parent_id) {
            return None;
        }
        let id = self.add_node(name, bbox);
        match self.nodes.get_mut(id) {
            Some(node) => {
                node.parent = Some(parent_id);
            },
            None => {},
        }
        match self.nodes.get_mut(parent_id) {
            Some(parent) => {
                parent.children.push(id);
            },
            None => {},
        }
        Some(id)
    }

    /// The node with id `id`.
    pub fn get(&self, id: u64) -> (r: Option<&SceneNode<B>>)
        requires
            self.wf(),
        ensures
            match r {
                Some(n) => self@.contains_key(id) && *n == self@[id],
                None => !self@.contains_key(id),
            },
    {
        self.nodes.get(id)
    }

    /// Number of nodes.
    pub fn len(&self) -> (n: usize)
        requires
            self.wf(),
        ensures
            n == self@.len(),
    {
        self.nodes.len()
    }

    /// Whether the scene has no node.
    pub fn is_empty(&self) -> (b: bool)
        requires
            self.wf(),
        ensures
            b == (self@.len() == 0),
    {
        self.nodes.is_empty()
    }

    /// The children of `parent_id` that exist, in the order they were
    /// added; empty when there is no such node.
    pub fn children(&self, parent_id: u64) -> (r: Vec<&SceneNode<B>>)
        requires
            self.wf(),
        ensures
            r@.map_values(|n: &SceneNode<B>| *n) == if self@.contains_key(parent_id) {
                present_nodes(self@, self@[parent_id].children@)
            } else {
                Seq::empty()
            },
    {
        let mut r: Vec<&SceneNode<B>> = Vec::new();
        match self.nodes.get(parent_id) {
            None => {
                assert(r@.map_values(|n: &SceneNode<B>| *n) =~= Seq::<SceneNode<B>>::empty());
            },
            Some(parent) => {
                let cs = &parent.children;
                let mut i: usize = 0;
                while i < cs.len()
                    invariant
                        self.wf(),
                        i <= cs@.len(),
                        r@.map_values(|n: &SceneNode<B>| *n) == present_nodes(self@, cs@.take(i as int)),
                    decreases cs@.len() - i,
                {
                    proof {
                        assert(cs@.take(i + 1).drop_last() =~= cs@.take(i as int));
                        assert(cs@.take(i + 1).last() == cs@[i as int]);
                    }
                    let ghost before = r@;
                    match self.nodes.get(cs[i]) {
                        Some(n) => {
                            r.push(n);
                            assert(r@.map_values(|n: &SceneNode<B>| *n) =~= before.map_values(|n: &SceneNode<B>| *n).push(*n));
                        },
                        None => {},
                    }
                    i = i + 1;
                }
                assert(cs@.take(i as int) =~= cs@);
            },
        }
        r
    }

    /// The ids `collect_visible` gives for a view meeting the nodes listed in
    /// `overlapping`.
    pub open spec fn visible_ids(&self, overlapping: Seq<u64>) -> Seq<u64> {
        self.entries().filter(|p: (u64, SceneNode<B>)| drawn(self@, p.1, overlapping)).map_values(
            |p: (u64, SceneNode<B>)| p.0,
        )
    }

    /// What is drawn: every id collected is a node of the scene that is
    /// visible, meets the view, and has no child that is present and
    /// visible (a node with a visible child is never drawn, only its
    /// leaves); and every such node is collected.
    pub proof fn lemma_visible_ids(&self, overlapping: Seq<u64>)
        requires
            self.wf(),
        ensures
            forall|i: int|
                0 <= i < self.visible_ids(overlapping).len() ==> {
                    let k = #[trigger] self.visible_ids(overlapping)[i];
                    &&& self@.contains_key(k)
                    &&& self@[k].visible
                    &&& overlapping.contains(k)
                    &&& forall|c: int|
                        0 <= c < self@[k].children@.len() ==> !(self@.contains_key(#[trigger] self@[k].children@[c])
                            && self@[self@[k].children@[c]].visible)
                },
            forall|k: u64|
                #![trigger self@.contains_key(k)]
                self@.contains_key(k) && self@[k].visible && overlapping.contains(k) && (forall|c: int|
                    0 <= c < self@[k].children@.len() ==> !(self@.contains_key(#[trigger] self@[k].children@[c])
                        && self@[self@[k].children@[c]].visible)) ==> self.visible_ids(overlapping).contains(k),
    {
        let es = self.entries();
        let m = self@;
        let pred = |p: (u64, SceneNode<B>)| drawn(m, p.1, overlapping);
        let idf = |p: (u64, SceneNode<B>)| p.0;
        let f = es.filter(pred);
        let v = f.map_values(idf);
        assert(v == self.visible_ids(overlapping));
        lemma_sorted_distinct(es);
        lemma_pair_map_keys(es);
        assert forall|i: int| 0 <= i < v.len() implies {
            let k = #[trigger] v[i];
            &&& m.contains_key(k)
            &&& m[k].visible
            &&& overlapping.contains(k)
            &&& forall|c: int|
                0 <= c < m[k].children@.len() ==> !(m.contains_key(#[trigger] m[k].children@[c]) && m[m[k].children@[c]].visible)
        } by {
            es.lemma_filter_pred(pred, i);
            assert(f.contains(f[i]));
            es.lemma_filter_contains_rev(pred, f[i]);
            let j = choose|j: int| 0 <= j < es.len() && es[j] == f[i];
            assert(has_key(es, es[j].0));
            assert(m[es[j].0] == es[j].1);
        }
        assert forall|k: u64|
            #![trigger m.contains_key(k)]
            m.contains_key(k) && m[k].visible && overlapping.contains(k) && (forall|c: int|
                0 <= c < m[k].children@.len() ==> !(m.contains_key(#[trigger] m[k].children@[c]) && m[m[k].children@[c]].visible))
            implies v.contains(k) by {
            assert(has_key(es, k));
            let j = choose|j: int| 0 <= j < es.len() && es[j].0 == k;
            assert(m[es[j].0] == es[j].1);
            assert(pred(es[j]));
            es.lemma_filter_contains(pred, j);
            let t = choose|t: int| 0 <= t < f.len() && f[t] == es[j];
            assert(v[t] == k);
        }
    }

    /// Ids of the nodes to draw, in increasing order: visible nodes among
    /// `overlapping` (those whose bounding volume meets the view) none of
    /// whose children is visible.
    pub fn collect_visible(&self, overlapping: &[u64]) -> (r: Vec<u64>)
        requires
            self.wf(),
        ensures
            r@ == self.entries().filter(|p: (u64, SceneNode<B>)| drawn(self@, p.1, overlapping@)).map_values(
                |p: (u64, SceneNode<B>)| p.0,
            ),
            forall|i: int, j: int| 0 <= i < j < r@.len() ==> r@[i] < r@[j],
            forall|i: int|
                0 <= i < r@.len() ==> {
                    let k = #[trigger] r@[i];
                    &&& self@.contains_key(k)
                    &&& self@[k].visible
                    &&& overlapping@.contains(k)
                    &&& forall|c: int|
                        0 <= c < self@[k].children@.len() ==> !(self@.contains_key(#[trigger] self@[k].children@[c])
                            && self@[self@[k].children@[c]].visible)
                },
            forall|k: u64|
                #![trigger self@.contains_key(k)]
                self@.contains_key(k) && self@[k].visible && overlapping@.contains(k) && (forall|c: int|
                    0 <= c < self@[k].children@.len() ==> !(self@.contains_key(#[trigger] self@[k].children@[c])
                        && self@[self@[k].children@[c]].visible)) ==> r@.contains(k),
    {
        let items = self.nodes.iter();
        let ghost es = self.entries();
        let ghost m = self@;
        let ghost pred = |p: (u64, SceneNode<B>)| drawn(m, p.1, overlapping@);
        let ghost idf = |p: (u64, SceneNode<B>)| p.0;
        let mut r: Vec<u64> = Vec::new();
        let mut i: usize = 0;
        while i < items.len()
            invariant
                self.wf(),
                items@ == es,
                es == self.entries(),
                m == self@,
                pred == (|p: (u64, SceneNode<B>)| drawn(m, p.1, overlapping@)),
                idf == (|p: (u64, SceneNode<B>)| p.0),
                i <= es.len(),
                r@ == es.take(i as int).filter(pred).map_values(idf),
            decreases es.len() - i,
        {
            proof {
                assert(es.take(i + 1) =~= es.take(i as int).push(es[i as int]));
                es.take(i as int).lemma_filter_push(es[i as int], pred);
            }
            let ghost before = es.take(i as int).filter(pred);
            let node = &items[i].1;
            let mut show = node.visible && slice_contains(overlapping, node.id);
            if show {
                let mut j: usize = 0;
                while j < node.children.len()
                    invariant
                        self.wf(),
                        m == self@,
                        j <= node.children@.len(),
                        show == forall|c: int| 0 <= c < j ==> !(m.contains_key(#[trigger] node.children@[c]) && m[node.children@[c]].visible),
                    decreases node.children@.len() - j,
                {
                    match self.nodes.get(node.children[j]) {
                        Some(c) => {
                            if c.visible {
                                show = false;
                            }
                        },
                        None => {},
                    }
                    j = j + 1;
                }
            }
            proof {
                lemma_sorted_distinct(es);
                lemma_pair_map_keys(es);
                assert(m[es[i as int].0] == es[i as int].1);
            }
            if show {
                r.push(items[i].0);
                assert(before.push(es[i as int]).map_values(idf) =~= before.map_values(idf).push(es[i as int].0));
            }
            i = i + 1;
        }
        assert(es.take(i as int) =~= es);
        proof {
            let f = es.filter(pred);
            assert forall|a: int, b: int| 0 <= a < b < r@.len() implies r@[a] < r@[b] by {
                lemma_filter_keeps_order(es, pred, a, b);
            }
            self.lemma_visible_ids(overlapping@);
            assert(r@ == self.visible_ids(overlapping@));
        }
        r
    }
}

/// Whether `s` holds `x`.
fn slice_contains(s: &[u64], x: u64) -> (b: bool)
    ensures
        b == s@.contains(x),
{
    let mut i: usize = 0;
    while i < s.len()
        invariant
            i <= s@.len(),
            forall|j: int| 0 <= j < i ==> s@[j] != x,
        decreases s@.len() - i,
    {
        if s[i] == x {
            return true;
        }
        i = i + 1;
    }
    false
}

/// Filtering a sequence with increasing ids keeps the ids increasing.
proof fn lemma_filter_keeps_order<B>(es: Seq<(u64, SceneNode<B>)>, pred: spec_fn((u64, SceneNode<B>)) -> bool, a: int, b: int)
    requires
        forall|i: int, j: int| 0 <= i < j < es.len() ==> es[i].0 < es[j].0,
        0 <= a < b < es.filter(pred).len(),
    ensures
        es.filter(pred)[a].0 < es.filter(pred)[b].0,
    decreases es.len(),
{
    reveal(Seq::filter);
    let d = es.drop_last();
    let fd = d.filter(pred);
    assert forall|i: int, j: int| 0 <= i < j < d.len() implies d[i].0 < d[j].0 by {
        assert(d[i] == es[i] && d[j] == es[j]);
    }
    if pred(es.last()) {
        if b < fd.len() {
            lemma_filter_keeps_order(d, pred, a, b);
        } else {
            assert(es.filter(pred)[b] == es.last());
            assert(fd.contains(fd[a]));
            d.lemma_filter_contains_rev(pred, fd[a]);
            let k = choose|k: int| 0 <= k < d.len() && d[k] == fd[a];
            assert(es[k] == d[k]);
            assert(es[es.len() - 1] == es.last());
        }
    } else {
        lemma_filter_keeps_order(d, pred, a, b);
    }
}

} // verus!
