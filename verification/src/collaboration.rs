//! Collaboration: threaded comments and review states.
use vstd::prelude::*;
use vstd::string::*;

verus! {

/// A comment, possibly a reply to another comment.
#[derive(Debug, Clone)]
pub struct Comment {
    pub id: u64,
    pub author_id: String,
    pub text: String,
    pub resolved: bool,
    pub parent_id: Option<u64>,
    pub created_at: u64,
}

/// Review state for a model version.
#[derive(Debug, Clone, Copy, PartialEq, Eq, Structural)]
pub enum ReviewState {
    Draft,
    InReview,
    Approved,
    Rejected,
}

impl Default for ReviewState {
    fn default() -> (s: Self)
        ensures
            s == ReviewState::Draft,
    {
        ReviewState::Draft
    }
}

impl ReviewState {
    /// The label of each state.
    pub open spec fn spec_label(self) -> Seq<char> {
        match self {
            ReviewState::Draft => "draft"@,
            ReviewState::InReview => "in_review"@,
            ReviewState::Approved => "approved"@,
            ReviewState::Rejected => "rejected"@,
        }
    }

    /// Human-readable label.
    pub fn label(&self) -> (s: &'static str)
        ensures
            s@ == self.spec_label(),
    {
        match self {
            ReviewState::Draft => "draft",
            ReviewState::InReview => "in_review",
            ReviewState::Approved => "approved",
            ReviewState::Rejected => "rejected",
        }
    }
}

/// The ids of the comments of `cs`, taken in order, that belong to the
/// thread rooted at `root`: a comment belongs when it is the root or replies
/// to a comment that belongs.
pub open spec fn thread_ids(cs: Seq<Comment>, root: u64) -> Set<u64>
    decreases cs.len(),
{
    if cs.len() == 0 {
        Set::empty()
    } else {
        let s = thread_ids(cs.drop_last(), root);
        let c = cs.last();
        if c.id == root || (c.parent_id matches Some(p) && s.contains(p)) {
            s.insert(c.id)
        } else {
            s
        }
    }
}

/// Whether the `i`-th comment of `cs` belongs to the thread rooted at
/// `root`: it is the root, or its parent is an earlier comment of the thread.
/// Replies are only ever made to existing comments, so every parent comes
/// before its replies, and this holds exactly when the comment's chain of
/// parents reaches the root.
pub open spec fn in_thread(cs: Seq<Comment>, i: int, root: u64) -> bool {
    cs[i].id == root || (cs[i].parent_id matches Some(p) && thread_ids(cs.take(i), root).contains(p))
}

/// Ids strictly increase along the comments.
pub open spec fn ids_increasing(cs: Seq<Comment>) -> bool {
    forall|i: int, j: int| 0 <= i < j < cs.len() ==> cs[i].id < cs[j].id
}

/// Every id lies below `n`.
pub open spec fn ids_below(cs: Seq<Comment>, n: u64) -> bool {
    forall|i: int| 0 <= i < cs.len() ==> (#[trigger] cs[i]).id < n
}

/// Every reply comes after a comment with its parent's id.
pub open spec fn replies_follow_parents(cs: Seq<Comment>) -> bool {
    forall|i: int|
        0 <= i < cs.len() && (#[trigger] cs[i]).parent_id is Some ==> exists|j: int|
            0 <= j < i && (#[trigger] cs[j]).id == cs[i].parent_id->0
}

/// Whether some comment has id `id`.
pub open spec fn has_comment(cs: Seq<Comment>, id: u64) -> bool {
    exists|i: int| 0 <= i < cs.len() && (#[trigger] cs[i]).id == id
}

/// A new unresolved comment.
pub open spec fn fresh_comment(c: Comment, id: u64, author_id: Seq<char>, text: Seq<char>, parent_id: Option<u64>) -> bool {
    &&& c.id == id
    &&& c.author_id@ == author_id
    &&& c.text@ == text
    &&& !c.resolved
    &&& c.parent_id == parent_id
    &&& c.created_at == 0
}

/// A collaboration session: comments and a review state.
#[derive(Debug)]
pub struct CollaborationSession {
    comments: Vec<Comment>,
    next_id: u64,
    review_state: ReviewState,
}

impl Default for CollaborationSession {
    fn default() -> (s: Self)
        ensures
            s.comments() == Seq::<Comment>::empty(),
            s.next_id() == 0,
            s.state() == ReviewState::Draft,
            s.wf(),
    {
        CollaborationSession { comments: Vec::new(), next_id: 0, review_state: ReviewState::Draft }
    }
}

impl CollaborationSession {
    /// The comments in the order they were made.
    pub closed spec fn comments(&self) -> Seq<Comment> {
        self.comments@
    }

    /// The id the next comment gets.
    pub closed spec fn next_id(&self) -> u64 {
        self.next_id
    }

    /// The current review state.
    pub closed spec fn state(&self) -> ReviewState {
        self.review_state
    }

    /// The session's invariant: ids increase and lie below the next id, and
    /// every reply follows its parent.
    pub open spec fn wf(&self) -> bool {
        &&& ids_increasing(self.comments())
        &&& ids_below(self.comments(), self.next_id())
        &&& replies_follow_parents(self.comments())
    }

    /// An empty draft session.
    pub fn new() -> (s: Self)
        ensures
            s.comments() == Seq::<Comment>::empty(),
            s.next_id() == 1,
            s.state() == ReviewState::Draft,
            s.wf(),
    {
        CollaborationSession { comments: Vec::new(), next_id: 1, review_state: ReviewState::Draft }
    }

    /// Add a top-level comment; returns its id.
    pub fn add_comment(&mut self, author_id: &str, text: &str) -> (id: u64)
        requires
            old(self).wf(),
            old(self).next_id() < u64::MAX,
        ensures
            final(self).wf(),
            forall|i: int| 0 <= i < old(self).comments().len() ==> #[trigger] old(self).comments()[i].id < id,
            id == old(self).next_id(),
            final(self).next_id() == old(self).next_id() + 1,
            final(self).state() == old(self).state(),
            final(self).comments().len() == old(self).comments().len() + 1,
            final(self).comments().drop_last() == old(self).comments(),
            fresh_comment(final(self).comments().last(), id, author_id@, text@, None),
    {
        let id = self.next_id;
        self.next_id = self.next_id + 1;
        self.comments.push(
            Comment {
                id,
                author_id: String::from_str(author_id),
                text: String::from_str(text),
                resolved: false,
                parent_id: None,
                created_at: 0,
            },
        );
        assert(self.comments@.drop_last() =~= old(self).comments@);
        proof {
            let cs = self.comments@;
            let n = cs.len() - 1;
            assert forall|i: int| 0 <= i < cs.len() && (#[trigger] cs[i]).parent_id is Some implies exists|j: int|
                0 <= j < i && (#[trigger] cs[j]).id == cs[i].parent_id->0 by {
                assert(i < n);
                assert(cs[i] == old(self).comments@[i]);
                let j = choose|j: int| 0 <= j < i && (#[trigger] old(self).comments@[j]).id == cs[i].parent_id->0;
                assert(cs[j] == old(self).comments@[j]);
            }
            assert forall|i: int| 0 <= i < cs.len() implies (#[trigger] cs[i]).id < self.next_id by {
                if i < n {
                    assert(cs[i] == old(self).comments@[i]);
                }
            }
            assert forall|i: int, j: int| 0 <= i < j < cs.len() implies cs[i].id < cs[j].id by {
                assert(cs[i] == old(self).comments@[i]);
                if j < n {
                    assert(cs[j] == old(self).comments@[j]);
                } else {
                    assert(old(self).comments@[i].id < old(self).next_id);
                }
            }
        }
        id
    }

    /// Reply to comment `parent_id`; `None` (and nothing added) when no
    /// comment has that id.
    pub fn reply_to(&mut self, parent_id: u64, author_id: &str, text: &str) -> (r: Option<u64>)
        requires
            old(self).wf(),
            old(self).next_id() < u64::MAX,
        ensures
            final(self).wf(),
            final(self).state() == old(self).state(),
            match r {
                Some(id) => {
                    &&& has_comment(old(self).comments(), parent_id)
                    &&& forall|i: int| 0 <= i < old(self).comments().len() ==> #[trigger] old(self).comments()[i].id < id
                    &&& id == old(self).next_id()
                    &&& final(self).next_id() == old(self).next_id() + 1
                    &&& final(self).comments().len() == old(self).comments().len() + 1
                    &&& final(self).comments().drop_last() == old(self).comments()
                    &&& fresh_comment(final(self).comments().last(), id, author_id@, text@, Some(parent_id))
                },
                None => {
                    &&& !has_comment(old(self).comments(), parent_id)
                    &&& final(self).comments() == old(self).comments()
                    &&& final(self).next_id() == old(self).next_id()
                },
            },
    {
        let mut found = false;
        let mut i: usize = 0;
        while i < self.comments.len()
            invariant
                i <= self.comments@.len(),
                found == exists|j: int| 0 <= j < i && (#[trigger] self.comments@[j]).id == parent_id,
            decreases self.comments@.len() - i,
        {
            if self.comments[i].id == parent_id {
                found = true;
            }
            i = i + 1;
        }
        if !found {
            return None;
        }
        let id = self.next_id;
        self.next_id = self.next_id + 1;
        self.comments.push(
            Comment {
                id,
                author_id: String::from_str(author_id),
                text: String::from_str(text),
                resolved: false,
                parent_id: Some(parent_id),
                created_at: 0,
            },
        );
        assert(self.comments@.drop_last() =~= old(self).comments@);
        proof {
            let cs = self.comments@;
            let n = cs.len() - 1;
            assert forall|i: int| 0 <= i < cs.len() && (#[trigger] cs[i]).parent_id is Some implies exists|j: int|
                0 <= j < i && (#[trigger] cs[j]).id == cs[i].parent_id->0 by {
                if i < n {
                    assert(cs[i] == old(self).comments@[i]);
                    let j = choose|j: int| 0 <= j < i && (#[trigger] old(self).comments@[j]).id == cs[i].parent_id->0;
                    assert(cs[j] == old(self).comments@[j]);
                } else {
                    let j = choose|j: int| 0 <= j < n && (#[trigger] old(self).comments@[j]).id == parent_id;
                    assert(cs[j] == old(self).comments@[j]);
                }
            }
            assert forall|i: int| 0 <= i < cs.len() implies (#[trigger] cs[i]).id < self.next_id by {
                if i < n {
                    assert(cs[i] == old(self).comments@[i]);
                }
            }
            assert forall|i: int, j: int| 0 <= i < j < cs.len() implies cs[i].id < cs[j].id by {
                assert(cs[i] == old(self).comments@[i]);
                if j < n {
                    assert(cs[j] == old(self).comments@[j]);
                } else {
                    assert(old(self).comments@[i].id < old(self).next_id);
                }
            }
        }
        Some(id)
    }

    /// Resolve a thread: the root comment and all of its replies, replies
    /// to replies included.
    pub fn resolve_thread(&mut self, root_id: u64)
        requires
            old(self).wf(),
        ensures
            final(self).wf(),
            final(self).next_id() == old(self).next_id(),
            final(self).state() == old(self).state(),
            final(self).comments() == resolved_thread(old(self).comments(), root_id),
    {
        let ghost cs0 = self.comments@;
        let mut ids: Vec<u64> = Vec::new();
        let mut i: usize = 0;
        assert(cs0.take(0) =~= Seq::<Comment>::empty());
        while i < self.comments.len()
            invariant
                i <= self.comments@.len(),
                cs0 == old(self).comments@,
                self.comments@.len() == cs0.len(),
                self.next_id == old(self).next_id,
                self.review_state == old(self).review_state,
                forall|x: u64| ids@.contains(x) <==> thread_ids(cs0.take(i as int), root_id).contains(x),
                forall|j: int|
                    0 <= j < i ==> #[trigger] self.comments@[j] == (Comment {
                        resolved: cs0[j].resolved || in_thread(cs0, j, root_id),
                        ..cs0[j]
                    }),
                forall|j: int| i <= j < self.comments@.len() ==> #[trigger] self.comments@[j] == cs0[j],
            decreases self.comments@.len() - i,
        {
            let id = self.comments[i].id;
            let hit = id == root_id || match self.comments[i].parent_id {
                Some(p) => contains_id(&ids, p),
                None => false,
            };
            proof {
                assert(cs0.take(i + 1).drop_last() =~= cs0.take(i as int));
                assert(cs0.take(i + 1).last() == cs0[i as int]);
                assert(hit == in_thread(cs0, i as int, root_id));
            }
            let ghost before = ids@;
            if hit {
                self.comments[i].resolved = true;
                ids.push(id);
            }
            proof {
                let t = thread_ids(cs0.take(i as int), root_id);
                let t2 = thread_ids(cs0.take(i + 1), root_id);
                assert(t2 == if hit { t.insert(id) } else { t });
                assert forall|x: u64| ids@.contains(x) <==> t2.contains(x) by {
                    if hit {
                        assert(ids@ == before.push(id));
                        if before.contains(x) {
                            let m = choose|m: int| 0 <= m < before.len() && before[m] == x;
                            assert(ids@[m] == x);
                        }
                        if ids@.contains(x) && x != id {
                            let m = choose|m: int| 0 <= m < ids@.len() && ids@[m] == x;
                            assert(m < before.len());
                            assert(before[m] == x);
                        }
                        assert(ids@[before.len() as int] == id);
                    }
                }
            }
            i = i + 1;
        }
        assert(self.comments@ =~= resolved_thread(cs0, root_id));
        proof {
            let cs = self.comments@;
            assert forall|k: int| 0 <= k < cs.len() implies #[trigger] cs[k].id == cs0[k].id && cs[k].parent_id == cs0[k].parent_id by {}
            assert forall|k: int| 0 <= k < cs.len() && (#[trigger] cs[k]).parent_id is Some implies exists|j: int|
                0 <= j < k && (#[trigger] cs[j]).id == cs[k].parent_id->0 by {
                assert(cs0[k].parent_id is Some);
                let j = choose|j: int| 0 <= j < k && (#[trigger] cs0[j]).id == cs0[k].parent_id->0;
                assert(cs[j].id == cs0[j].id);
            }
            assert forall|k: int| 0 <= k < cs.len() implies (#[trigger] cs[k]).id < self.next_id by {
                assert(cs0[k].id < old(self).next_id);
            }
            assert forall|a: int, b: int| 0 <= a < b < cs.len() implies cs[a].id < cs[b].id by {
                assert(cs[a].id == cs0[a].id);
                assert(cs[b].id == cs0[b].id);
            }
        }
    }

    /// Set the review state.
    pub fn set_review_state(&mut self, state: ReviewState)
        ensures
            final(self).state() == state,
            final(self).comments() == old(self).comments(),
            final(self).next_id() == old(self).next_id(),
    {
        self.review_state = state;
    }

    /// The current review state.
    pub fn review_state(&self) -> (s: ReviewState)
        ensures
            s == self.state(),
    {
        self.review_state
    }

    /// Total number of comments.
    pub fn comment_count(&self) -> (n: usize)
        ensures
            n == self.comments().len(),
    {
        self.comments.len()
    }

    /// Number of unresolved comments.
    pub fn unresolved_count(&self) -> (n: usize)
        ensures
            n == self.comments().filter(|c: Comment| !c.resolved).len(),
    {
        let ghost pred = |c: Comment| !c.resolved;
        let mut n: usize = 0;
        let mut i: usize = 0;
        while i < self.comments.len()
            invariant
                i <= self.comments@.len(),
                pred == (|c: Comment| !c.resolved),
                n == self.comments@.take(i as int).filter(pred).len(),
                n <= i,
            decreases self.comments@.len() - i,
        {
            proof {
                assert(self.comments@.take(i + 1) =~= self.comments@.take(i as int).push(self.comments@[i as int]));
                self.comments@.take(i as int).lemma_filter_push(self.comments@[i as int], pred);
            }
            if !self.comments[i].resolved {
                n = n + 1;
            }
            i = i + 1;
        }
        assert(self.comments@.take(i as int) =~= self.comments@);
        n
    }

    /// The comments that reply to nothing, in order.
    pub fn top_level_comments(&self) -> (r: Vec<&Comment>)
        ensures
            r@.map_values(|c: &Comment| *c) == self.comments().filter(|c: Comment| c.parent_id is None),
    {
        let ghost pred = |c: Comment| c.parent_id is None;
        let ghost cs = self.comments@;
        let mut r: Vec<&Comment> = Vec::new();
        let mut i: usize = 0;
        while i < self.comments.len()
            invariant
                i <= self.comments@.len(),
                cs == self.comments@,
                pred == (|c: Comment| c.parent_id is None),
                r@.map_values(|c: &Comment| *c) == cs.take(i as int).filter(pred),
            decreases self.comments@.len() - i,
        {
            proof {
                assert(cs.take(i + 1) =~= cs.take(i as int).push(cs[i as int]));
                cs.take(i as int).lemma_filter_push(cs[i as int], pred);
            }
            if self.comments[i].parent_id.is_none() {
                r.push(&self.comments[i]);
            }
            assert(r@.map_values(|c: &Comment| *c) =~= cs.take(i + 1).filter(pred));
            i = i + 1;
        }
        assert(cs.take(i as int) =~= cs);
        r
    }
}


/// Whether `v` holds `x`.
fn contains_id(v: &Vec<u64>, x: u64) -> (b: bool)
    ensures
        b == v@.contains(x),
{
    let mut i: usize = 0;
    while i < v.len()
        invariant
            i <= v@.len(),
            forall|j: int| 0 <= j < i ==> v@[j] != x,
        decreases v@.len() - i,
    {
        if v[i] == x {
            return true;
        }
        i = i + 1;
    }
    false
}

/// The comments after resolving the thread rooted at `root`: each comment of
/// the thread is resolved, the others are unchanged.
pub open spec fn resolved_thread(cs: Seq<Comment>, root: u64) -> Seq<Comment> {
    Seq::new(cs.len(), |i: int| Comment { resolved: cs[i].resolved || in_thread(cs, i, root), ..cs[i] })
}

/// A comment of a thread stays in the thread's ids as more comments follow.
proof fn lemma_thread_ids_keep(cs: Seq<Comment>, j: int, k: int, root: u64)
    requires
        0 <= j < k <= cs.len(),
        in_thread(cs, j, root),
    ensures
        thread_ids(cs.take(k), root).contains(cs[j].id),
    decreases k - j,
{
    assert(cs.take(k).drop_last() =~= cs.take(k - 1));
    if k == j + 1 {
        assert(cs.take(k).last() == cs[j]);
    } else {
        lemma_thread_ids_keep(cs, j, k - 1, root);
    }
}

/// Replies join their parent's thread: a comment replying to an earlier
/// comment of the thread rooted at `root` belongs to that thread too, however
/// deep the parent lies.
pub proof fn lemma_reply_joins_thread(cs: Seq<Comment>, i: int, j: int, root: u64)
    requires
        0 <= j < i < cs.len(),
        cs[i].parent_id == Some(cs[j].id),
        in_thread(cs, j, root),
    ensures
        in_thread(cs, i, root),
{
    lemma_thread_ids_keep(cs, j, i, root);
}

/// After resolving a thread, none of its comments is unresolved, and the
/// number of unresolved comments has not grown.
pub proof fn lemma_resolve_thread(cs: Seq<Comment>, root: u64)
    ensures
        forall|i: int| 0 <= i < cs.len() && in_thread(cs, i, root) ==> (#[trigger] resolved_thread(cs, root)[i]).resolved,
        resolved_thread(cs, root).filter(|c: Comment| !c.resolved).len() <= cs.filter(|c: Comment| !c.resolved).len(),
    decreases cs.len(),
{
    let pred = |c: Comment| !c.resolved;
    if cs.len() > 0 {
        let d = cs.drop_last();
        lemma_resolve_thread(d, root);
        let r = resolved_thread(cs, root);
        assert forall|i: int| 0 <= i < d.len() implies in_thread(d, i, root) == in_thread(cs, i, root) by {
            assert(d.take(i) =~= cs.take(i));
        }
        assert(r =~= resolved_thread(d, root).push(r.last()));
        assert(cs =~= d.push(cs.last()));
        resolved_thread(d, root).lemma_filter_push(r.last(), pred);
        d.lemma_filter_push(cs.last(), pred);
    }
}

} // verus!
