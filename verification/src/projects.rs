//! Cloud project service: projects, model versions and access control.
use vstd::prelude::*;
use vstd::string::*;

use crate::auth::UserIdentity;
use crate::keyed::StrMap;
use crate::text::{contains_str, decimal, str_eq, strs, u64_to_decimal, vec_contains_str};

verus! {

/// A model version within a project.
#[derive(Debug, Clone)]
pub struct ModelVersion {
    pub id: u64,
    pub label: String,
    pub timestamp: u64,
    pub entity_count: usize,
    pub description: String,
}

/// A cloud project with versioned models.
#[derive(Debug, Clone)]
pub struct Project {
    pub id: String,
    pub name: String,
    pub owner: String,
    pub versions: Vec<ModelVersion>,
    pub collaborators: Vec<String>,
}

impl Project {
    /// Append a version numbered one past the current count.
    pub fn add_version(&mut self, label: &str, entity_count: usize, desc: &str)
        requires
            old(self).versions@.len() < u64::MAX,
        ensures
            final(self).id == old(self).id,
            final(self).name == old(self).name,
            final(self).owner == old(self).owner,
            final(self).collaborators == old(self).collaborators,
            final(self).versions@.len() == old(self).versions@.len() + 1,
            final(self).versions@.drop_last() == old(self).versions@,
            final(self).versions@.last().id == old(self).versions@.len() + 1,
            final(self).versions@.last().label@ == label@,
            final(self).versions@.last().timestamp == 0,
            final(self).versions@.last().entity_count == entity_count,
            final(self).versions@.last().description@ == desc@,
    {
        let id = self.versions.len() as u64 + 1;
        self.versions.push(
            ModelVersion {
                id,
                label: String::from_str(label),
                timestamp: 0,
                entity_count,
                description: String::from_str(desc),
            },
        );
        assert(self.versions@.drop_last() =~= old(self).versions@);
    }

    /// The most recently added version.
    pub fn latest_version(&self) -> (r: Option<&ModelVersion>)
        ensures
            match r {
                Some(v) => self.versions@.len() > 0 && *v == self.versions@.last(),
                None => self.versions@.len() == 0,
            },
    {
        if self.versions.len() == 0 {
            None
        } else {
            Some(&self.versions[self.versions.len() - 1])
        }
    }
}

/// The id given to the project created when `n` projects exist.
pub open spec fn project_id(n: nat) -> Seq<char> {
    "p"@ + decimal(n + 1)
}

/// The first project with id `id` is at `k`.
pub open spec fn is_first_project(ps: Seq<Project>, id: Seq<char>, k: int) -> bool {
    &&& 0 <= k < ps.len()
    &&& ps[k].id@ == id
    &&& forall|i: int| 0 <= i < k ==> (#[trigger] ps[i]).id@ != id
}

/// No project has id `id`.
pub open spec fn no_project(ps: Seq<Project>, id: Seq<char>) -> bool {
    forall|i: int| 0 <= i < ps.len() ==> (#[trigger] ps[i]).id@ != id
}

/// Whether `user_id` is listed for project `pid` in the access table.
pub open spec fn has_access(access: Map<Seq<char>, Vec<String>>, pid: Seq<char>, user_id: Seq<char>) -> bool {
    access.contains_key(pid) && contains_str(access[pid]@, user_id)
}

/// No access list names a user twice.
pub open spec fn lists_distinct(access: Map<Seq<char>, Vec<String>>) -> bool {
    forall|k: Seq<char>| #[trigger] access.contains_key(k) ==> strs(access[k]@).no_duplicates()
}

/// Project service with access control.
#[derive(Debug)]
pub struct ProjectService {
    projects: Vec<Project>,
    access: StrMap<Vec<String>>,
}

impl Default for ProjectService {
    fn default() -> (s: Self)
        ensures
            s.wf(),
            s.projects() == Seq::<Project>::empty(),
            s.access() == Map::<Seq<char>, Vec<String>>::empty(),
    {
        ProjectService::new()
    }
}

impl ProjectService {
    /// The access table is well formed and no access list names a user
    /// twice.
    pub closed spec fn wf(&self) -> bool {
        self.access.wf() && lists_distinct(self.access@)
    }

    /// What well-formedness gives a caller.
    pub proof fn lemma_wf(&self)
        requires
            self.wf(),
        ensures
            self.access().dom().finite(),
            lists_distinct(self.access()),
    {
        self.access.lemma_finite();
    }

    /// The projects, in creation order.
    pub closed spec fn projects(&self) -> Seq<Project> {
        self.projects@
    }

    /// The users allowed on each project id.
    pub closed spec fn access(&self) -> Map<Seq<char>, Vec<String>> {
        self.access@
    }

    /// An empty service.
    pub fn new() -> (s: Self)
        ensures
            s.wf(),
            s.projects() == Seq::<Project>::empty(),
            s.access() == Map::<Seq<char>, Vec<String>>::empty(),
    {
        ProjectService { projects: Vec::new(), access: StrMap::new() }
    }

    /// Create a project owned by `owner`, who becomes its first collaborator
    /// and its only user with access; returns its id `p<n>`.
    pub fn create(&mut self, name: &str, owner: &UserIdentity) -> (id: String)
        requires
            old(self).wf(),
            old(self).projects().len() + 1 < u64::MAX,
        ensures
            final(self).wf(),
            id@ == project_id(old(self).projects().len()),
            final(self).projects().len() == old(self).projects().len() + 1,
            final(self).projects().drop_last() == old(self).projects(),
            final(self).projects().last().id@ == id@,
            final(self).projects().last().name@ == name@,
            final(self).projects().last().owner@ == owner.id@,
            final(self).projects().last().versions@ == Seq::<ModelVersion>::empty(),
            strs(final(self).projects().last().collaborators@) == seq![owner.id@],
            final(self).access() == old(self).access().insert(id@, final(self).access()[id@]),
            strs(final(self).access()[id@]@) == seq![owner.id@],
            has_access(final(self).access(), id@, owner.id@),
    {
        let n = self.projects.len();
        let mut id = String::from_str("p");
        let d = u64_to_decimal(n as u64 + 1);
        id.append(d.as_str());
        let mut collaborators: Vec<String> = Vec::new();
        collaborators.push(owner.id.clone());
        self.projects.push(
            Project {
                id: id.clone(),
                name: String::from_str(name),
                owner: owner.id.clone(),
                versions: Vec::new(),
                collaborators,
            },
        );
        let mut users: Vec<String> = Vec::new();
        users.push(owner.id.clone());
        assert(strs(users@) =~= seq![owner.id@]);
        self.access.insert(id.clone(), users);
        assert(self.projects@.drop_last() =~= old(self).projects@);
        assert(strs(self.projects@.last().collaborators@) =~= seq![owner.id@]);
        assert(self.access@[id@]@[0]@ == owner.id@);
        proof {
            let a = self.access@;
            assert forall|k: Seq<char>| #[trigger] a.contains_key(k) implies strs(a[k]@).no_duplicates() by {
                if k != id@ {
                    assert(old(self).access@.contains_key(k));
                }
            }
        }
        id
    }

    /// Position of the first project with id `id`.
    fn find(&self, id: &str) -> (r: Option<usize>)
        ensures
            match r {
                Some(k) => is_first_project(self.projects@, id@, k as int),
                None => no_project(self.projects@, id@),
            },
    {
        let mut i: usize = 0;
        while i < self.projects.len()
            invariant
                i <= self.projects@.len(),
                forall|m: int| 0 <= m < i ==> (#[trigger] self.projects@[m]).id@ != id@,
            decreases self.projects@.len() - i,
        {
            if str_eq(self.projects[i].id.as_str(), id) {
                return Some(i);
            }
            i = i + 1;
        }
        None
    }

    /// The first project with id `id`.
    pub fn get(&self, id: &str) -> (r: Option<&Project>)
        ensures
            match r {
                Some(p) => exists|k: int| is_first_project(self.projects(), id@, k) && *p == self.projects()[k],
                None => no_project(self.projects(), id@),
            },
    {
        match self.find(id) {
            Some(k) => {
                assert(is_first_project(self.projects(), id@, k as int));
                Some(&self.projects[k])
            },
            None => None,
        }
    }

    /// Mutable access to the first project with id `id`.
    pub fn get_mut(&mut self, id: &str) -> (r: Option<&mut Project>)
        ensures
            final(self).wf() == old(self).wf(),
            final(self).access() == old(self).access(),
            match r {
                Some(p) => exists|k: int|
                    is_first_project(old(self).projects(), id@, k) && *p == old(self).projects()[k]
                        && final(self).projects() == old(self).projects().update(k, *final(p)),
                None => no_project(old(self).projects(), id@) && final(self).projects() == old(
                    self,
                ).projects(),
            },
    {
        match self.find(id) {
            Some(k) => {
                assert(is_first_project(old(self).projects(), id@, k as int));
                Some(&mut self.projects[k])
            },
            None => None,
        }
    }

    /// Whether `user` is listed with access to project `project_id`.
    pub fn can_access(&self, project_id: &str, user: &UserIdentity) -> (b: bool)
        requires
            self.wf(),
        ensures
            b == has_access(self.access(), project_id@, user.id@),
    {
        match self.access.get(project_id) {
            Some(users) => vec_contains_str(users, user.id.as_str()),
            None => false,
        }
    }

    /// Give `user_id` access to project `project_id` and list them as a
    /// collaborator of the first project with that id; each list gains the
    /// user only if it lacks them.
    pub fn add_collaborator(&mut self, project_id: &str, user_id: &str)
        requires
            old(self).wf(),
        ensures
            final(self).wf(),
            if old(self).access().contains_key(project_id@) && !contains_str(
                old(self).access()[project_id@]@,
                user_id@,
            ) {
                &&& final(self).access() == old(self).access().insert(
                    project_id@,
                    final(self).access()[project_id@],
                )
                &&& strs(final(self).access()[project_id@]@) == strs(
                    old(self).access()[project_id@]@,
                ).push(user_id@)
            } else {
                final(self).access() == old(self).access()
            },
            old(self).access().contains_key(project_id@) ==> has_access(final(self).access(), project_id@, user_id@),
            old(self).access().contains_key(project_id@) ==> strs(final(self).access()[project_id@]@).no_duplicates(),
            forall|k: int|
                is_first_project(old(self).projects(), project_id@, k) && strs(
                    old(self).projects()[k].collaborators@,
                ).no_duplicates() ==> {
                    &&& strs((#[trigger] final(self).projects()[k]).collaborators@).no_duplicates()
                    &&& contains_str(final(self).projects()[k].collaborators@, user_id@)
                },
            forall|p: Seq<char>, u: Seq<char>|
                has_access(old(self).access(), p, u) ==> #[trigger] has_access(final(self).access(), p, u),
            final(self).projects().len() == old(self).projects().len(),
            forall|k: int|
                0 <= k < old(self).projects().len() && !(is_first_project(
                    old(self).projects(),
                    project_id@,
                    k,
                ) && !contains_str(old(self).projects()[k].collaborators@, user_id@))
                    ==> #[trigger] final(self).projects()[k] == old(self).projects()[k],
            forall|k: int|
                is_first_project(old(self).projects(), project_id@, k) && !contains_str(
                    old(self).projects()[k].collaborators@,
                    user_id@,
                ) ==> {
                    let p = #[trigger] final(self).projects()[k];
                    let q = old(self).projects()[k];
                    &&& p.id == q.id
                    &&& p.name == q.name
                    &&& p.owner == q.owner
                    &&& p.versions == q.versions
                    &&& strs(p.collaborators@) == strs(q.collaborators@).push(user_id@)
                },
    {
        match self.access.get_mut(project_id) {
            Some(users) => {
                if !vec_contains_str(users, user_id) {
                    let ghost before = users@;
                    users.push(String::from_str(user_id));
                    assert(strs(users@) =~= strs(before).push(user_id@));
                    assert(users@[before.len() as int]@ == user_id@);
                    proof {
                        lemma_push_distinct(before, user_id@);
                    }
                }
            },
            None => {},
        }
        match self.find(project_id) {
            Some(k) => {
                if !vec_contains_str(&self.projects[k].collaborators, user_id) {
                    let ghost before = self.projects@[k as int].collaborators@;
                    self.projects[k].collaborators.push(String::from_str(user_id));
                    assert(strs(self.projects@[k as int].collaborators@) =~= strs(before).push(
                        user_id@,
                    ));
                    assert(self.projects@[k as int].collaborators@[before.len() as int]@ == user_id@);
                    proof {
                        if strs(before).no_duplicates() {
                            lemma_push_distinct(before, user_id@);
                        }
                    }
                }
            },
            None => {},
        }
        proof {
            let a0 = old(self).access();
            let a1 = self.access();
            assert forall|k: Seq<char>| #[trigger] a1.contains_key(k) implies strs(a1[k]@).no_duplicates() by {
                assert(a0.contains_key(k));
            }
            assert forall|p: Seq<char>, u: Seq<char>| has_access(a0, p, u) implies #[trigger] has_access(a1, p, u) by {
                let i = choose|i: int| 0 <= i < a0[p]@.len() && (#[trigger] a0[p]@[i])@ == u;
                if a0.contains_key(project_id@) && !contains_str(a0[project_id@]@, user_id@) && p == project_id@ {
                    assert(strs(a1[p]@)[i] == strs(a0[p]@)[i]);
                    assert(a1[p]@[i]@ == u);
                }
            }
        }
    }

    /// The projects owned by `owner_id`, in creation order.
    pub fn by_owner(&self, owner_id: &str) -> (r: Vec<&Project>)
        ensures
            r@.map_values(|p: &Project| *p) == self.projects().filter(|p: Project| p.owner@ == owner_id@),
    {
        let ghost pred = |p: Project| p.owner@ == owner_id@;
        let ghost ps = self.projects@;
        let mut r: Vec<&Project> = Vec::new();
        let mut i: usize = 0;
        while i < self.projects.len()
            invariant
                i <= self.projects@.len(),
                ps == self.projects@,
                pred == (|p: Project| p.owner@ == owner_id@),
                r@.map_values(|p: &Project| *p) == ps.take(i as int).filter(pred),
            decreases self.projects@.len() - i,
        {
            proof {
                assert(ps.take(i + 1) =~= ps.take(i as int).push(ps[i as int]));
                ps.take(i as int).lemma_filter_push(ps[i as int], pred);
            }
            if str_eq(self.projects[i].owner.as_str(), owner_id) {
                r.push(&self.projects[i]);
            }
            assert(r@.map_values(|p: &Project| *p) =~= ps.take(i + 1).filter(pred));
            i = i + 1;
        }
        assert(ps.take(i as int) =~= ps);
        r
    }

    /// Number of projects.
    pub fn len(&self) -> (n: usize)
        ensures
            n == self.projects().len(),
    {
        self.projects.len()
    }

    /// Whether there is no project.
    pub fn is_empty(&self) -> (b: bool)
        ensures
            b == (self.projects().len() == 0),
    {
        self.projects.len() == 0
    }
}

/// Appending a string that a list of distinct strings lacks keeps them
/// distinct.
proof fn lemma_push_distinct(v: Seq<String>, u: Seq<char>)
    requires
        strs(v).no_duplicates(),
        !contains_str(v, u),
    ensures
        strs(v).push(u).no_duplicates(),
{
    let w = strs(v).push(u);
    assert forall|i: int, j: int| 0 <= i < w.len() && 0 <= j < w.len() && i != j implies w[i] != w[j] by {
        if i < v.len() && j < v.len() {
            assert(w[i] == strs(v)[i]);
            assert(w[j] == strs(v)[j]);
        } else if i < v.len() {
            assert(w[i] == v[i]@);
        } else {
            assert(w[j] == v[j]@);
        }
    }
}

} // verus!
