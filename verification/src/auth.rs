//! Identity and access: role hierarchy, permission checks and sessions.
use vstd::prelude::*;
use vstd::string::*;

use crate::keyed::StrMap;
use crate::text::{contains_str, decimal, u64_to_decimal, vec_contains_str};

verus! {

/// Pre-defined role levels, from least to most privileged.
#[derive(Debug, Clone, Copy, PartialEq, Eq, Structural, PartialOrd, Ord)]
pub enum Role {
    /// Read-only access.
    Viewer,
    /// Can create and modify content.
    Editor,
    /// Full administrative access.
    Admin,
}

/// A user identity with role names.
#[derive(Debug, Clone)]
pub struct UserIdentity {
    pub id: String,
    pub email: String,
    pub roles: Vec<String>,
}

/// The highest role among `roles`: admin over editor over viewer.
pub open spec fn highest_role_of(roles: Seq<String>) -> Role {
    if contains_str(roles, "admin"@) {
        Role::Admin
    } else if contains_str(roles, "editor"@) {
        Role::Editor
    } else {
        Role::Viewer
    }
}

/// The highest role is the greatest role held, ranking viewer below editor
/// below admin: a user holding "admin" is an admin whatever else they hold;
/// one holding "editor" but not "admin" is an editor; any other user is a
/// viewer.
pub proof fn lemma_highest_role(roles: Seq<String>)
    ensures
        (exists|i: int| 0 <= i < roles.len() && roles[i]@ == "admin"@) ==> highest_role_of(roles) == Role::Admin,
        !(exists|i: int| 0 <= i < roles.len() && roles[i]@ == "admin"@) && (exists|i: int|
            0 <= i < roles.len() && roles[i]@ == "editor"@) ==> highest_role_of(roles) == Role::Editor,
        !(exists|i: int| 0 <= i < roles.len() && roles[i]@ == "admin"@) && !(exists|i: int|
            0 <= i < roles.len() && roles[i]@ == "editor"@) ==> highest_role_of(roles) == Role::Viewer,
{
    if exists|i: int| 0 <= i < roles.len() && roles[i]@ == "admin"@ {
        let i = choose|i: int| 0 <= i < roles.len() && roles[i]@ == "admin"@;
        assert(contains_str(roles, "admin"@));
    }
    if exists|i: int| 0 <= i < roles.len() && roles[i]@ == "editor"@ {
        let i = choose|i: int| 0 <= i < roles.len() && roles[i]@ == "editor"@;
        assert(contains_str(roles, "editor"@));
    }
}

impl UserIdentity {
    /// Whether the user has the role named `role`.
    pub fn has_role(&self, role: &str) -> (b: bool)
        ensures
            b == contains_str(self.roles@, role@),
    {
        vec_contains_str(&self.roles, role)
    }

    /// The highest role the user holds; viewer when none is recognised.
    pub fn highest_role(&self) -> (r: Role)
        ensures
            r == highest_role_of(self.roles@),
            (exists|i: int| 0 <= i < self.roles@.len() && self.roles@[i]@ == "admin"@) ==> r == Role::Admin,
            (exists|i: int| 0 <= i < self.roles@.len() && self.roles@[i]@ == "editor"@) ==> r != Role::Viewer,
    {
        proof {
            lemma_highest_role(self.roles@);
        }
        if vec_contains_str(&self.roles, "admin") {
            Role::Admin
        } else if vec_contains_str(&self.roles, "editor") {
            Role::Editor
        } else {
            Role::Viewer
        }
    }

    /// Whether the user can edit: editor or admin.
    pub fn can_edit(&self) -> (b: bool)
        ensures
            b == (highest_role_of(self.roles@) == Role::Editor || highest_role_of(self.roles@)
                == Role::Admin),
    {
        match self.highest_role() {
            Role::Editor | Role::Admin => true,
            Role::Viewer => false,
        }
    }

    /// Whether the user is an admin.
    pub fn is_admin(&self) -> (b: bool)
        ensures
            b == (highest_role_of(self.roles@) == Role::Admin),
            b <==> exists|i: int| 0 <= i < self.roles@.len() && self.roles@[i]@ == "admin"@,
    {
        proof {
            lemma_highest_role(self.roles@);
        }
        self.highest_role() == Role::Admin
    }
}

/// A session token for an authenticated user.
#[derive(Debug, Clone)]
pub struct Session {
    pub token: String,
    pub user_id: String,
    pub expires_at: u64,
    pub refresh_token: Option<String>,
}

/// The token of the session created for user `user_id` when `n` sessions
/// exist: `tok_`, the user id, `_`, and `n` in decimal.
pub open spec fn session_token(user_id: Seq<char>, n: nat) -> Seq<char> {
    "tok_"@ + user_id + "_"@ + decimal(n)
}

/// The expiry stamp given to new sessions.
pub const SESSION_EXPIRY: u64 = 9999999999;

/// In-memory session store keyed by token.
#[derive(Debug)]
pub struct SessionStore {
    sessions: StrMap<Session>,
}

impl View for SessionStore {
    type V = Map<Seq<char>, Session>;

    closed spec fn view(&self) -> Map<Seq<char>, Session> {
        self.sessions@
    }
}

impl Default for SessionStore {
    fn default() -> (s: Self)
        ensures
            s.wf(),
            s@ == Map::<Seq<char>, Session>::empty(),
    {
        SessionStore::new()
    }
}

impl SessionStore {
    /// The underlying map is well formed.
    pub closed spec fn wf(&self) -> bool {
        self.sessions.wf()
    }

    /// An empty store.
    pub fn new() -> (s: Self)
        ensures
            s.wf(),
            s@ == Map::<Seq<char>, Session>::empty(),
    {
        SessionStore { sessions: StrMap::new() }
    }

    /// Create a session for `user` and return it.
    pub fn create_session(&mut self, user: &UserIdentity) -> (s: &Session)
        requires
            old(self).wf(),
        ensures
            final(self).wf(),
            s.token@ == session_token(user.id@, old(self)@.len()),
            s.user_id@ == user.id@,
            s.expires_at == SESSION_EXPIRY,
            s.refresh_token is None,
            final(self)@ == old(self)@.insert(s.token@, *s),
            final(self)@.dom().finite(),
    {
        let n = self.sessions.len();
        let mut token = String::from_str("tok_");
        token.append(user.id.as_str());
        token.append("_");
        let d = u64_to_decimal(n as u64);
        token.append(d.as_str());
        let session = Session {
            token: token.clone(),
            user_id: user.id.clone(),
            expires_at: SESSION_EXPIRY,
            refresh_token: None,
        };
        let key = token.clone();
        self.sessions.insert(key, session);
        proof {
            self.sessions.lemma_finite();
        }
        let r = self.sessions.get(token.as_str());
        r.unwrap()
    }

    /// The session with token `token`.
    pub fn get(&self, token: &str) -> (r: Option<&Session>)
        requires
            self.wf(),
        ensures
            match r {
                Some(s) => self@.contains_key(token@) && *s == self@[token@],
                None => !self@.contains_key(token@),
            },
    {
        self.sessions.get(token)
    }

    /// Number of sessions.
    pub fn len(&self) -> (n: usize)
        requires
            self.wf(),
        ensures
            n == self@.len(),
            self@.dom().finite(),
    {
        self.sessions.len()
    }

    /// Whether the store holds no session.
    pub fn is_empty(&self) -> (b: bool)
        requires
            self.wf(),
        ensures
            b == (self@.len() == 0),
    {
        self.sessions.is_empty()
    }
}


/// Every session token starts with `tok_`.
pub proof fn lemma_token_prefix(user_id: Seq<char>, n: nat)
    ensures
        session_token(user_id, n).take(4) == "tok_"@,
{
    reveal_strlit("tok_");
    assert(session_token(user_id, n).take(4) =~= "tok_"@);
}

} // verus!
