use vstd::prelude::*;

use crate::session::{decode_session, decoded_id};
use crate::table::DbTable;
use crate::user::UserDb;
use vstd::string::StringSliceAdditionalSpecFns;

verus! {

/// The identifier of the administrator when no other set is configured.
pub const ADMIN_ID: u64 = 44269255;

/// A request's authenticated identity: a read-only projection of a stored
/// user.
#[derive(Debug)]
pub struct ConnectedUser {
    id: u64,
    name: String,
    avatar: Option<String>,
}

/// An authenticated identity that also holds administrative rights.
#[derive(Debug)]
pub struct ConnectedAdministrator {
    user: ConnectedUser,
}

/// The name shown for a user: its display name where set, else its login.
pub open spec fn display_name(u: UserDb) -> Seq<char> {
    match u.name {
        Some(n) => n@,
        None => u.login@,
    }
}

/// The avatar of a user, as text.
pub open spec fn avatar_of(u: UserDb) -> Option<Seq<char>> {
    match u.avatar {
        Some(a) => Some(a@),
        None => None,
    }
}

/// The user identifier that a request's session token holds, if any.
pub open spec fn token_id(token: Option<&str>) -> Option<u64> {
    match token {
        Some(t) => decoded_id(t.spec_bytes()),
        None => None,
    }
}

/// Whether an identifier belongs to the configured administrators.
pub open spec fn is_admin(admins: Seq<u64>, id: u64) -> bool {
    admins.contains(id)
}

impl ConnectedUser {
    pub closed spec fn spec_id(&self) -> u64 {
        self.id
    }

    pub closed spec fn spec_name(&self) -> Seq<char> {
        self.name@
    }

    pub closed spec fn spec_avatar(&self) -> Option<Seq<char>> {
        match self.avatar {
            Some(a) => Some(a@),
            None => None,
        }
    }

    /// The principal that a stored user projects to.
    pub fn from_user(u: &UserDb) -> (r: Self)
        ensures
            r.spec_id() == u.id,
            r.spec_name() == display_name(*u),
            r.spec_avatar() == avatar_of(*u),
    {
        let name = match &u.name {
            Some(n) => n.clone(),
            None => u.login.clone(),
        };
        let avatar = match &u.avatar {
            Some(a) => Some(a.clone()),
            None => None,
        };
        ConnectedUser { id: u.id, name, avatar }
    }

    /// Resolves a session to a principal. `session` is the user identifier
    /// that the session carries, or `None` where the request has none or it
    /// does not decode. `None` comes back, for the caller to fall through,
    /// where there is no identifier or no user stored under it.
    pub fn from_session(session: Option<u64>, users: &DbTable<UserDb>) -> (r: Option<Self>)
        requires
            users.wf(),
        ensures
            r is Some <==> session is Some && !users.spec_poisoned() && users@.contains_key(
                session->Some_0,
            ),
            r is Some ==> r->Some_0.spec_id() == users@[session->Some_0].id && r->Some_0.spec_name()
                == display_name(users@[session->Some_0]) && r->Some_0.spec_avatar() == avatar_of(
                users@[session->Some_0],
            ),
    {
        match session {
            None => None,
            Some(id) => match users.get(id) {
                None => None,
                Some(u) => Some(Self::from_user(u)),
            },
        }
    }

    /// Resolves a request's session token, if it has one, to a principal:
    /// the token is decoded to a user identifier, which is then resolved as
    /// by `from_session`.
    pub fn from_token(token: Option<&str>, users: &DbTable<UserDb>) -> (r: Option<Self>)
        requires
            users.wf(),
        ensures
            r is Some <==> token_id(token) is Some && !users.spec_poisoned() && users@.contains_key(
                token_id(token)->Some_0,
            ),
            r is Some ==> r->Some_0.spec_id() == users@[token_id(token)->Some_0].id
                && r->Some_0.spec_name() == display_name(users@[token_id(token)->Some_0])
                && r->Some_0.spec_avatar() == avatar_of(users@[token_id(token)->Some_0]),
    {
        let session = match token {
            Some(t) => decode_session(t),
            None => None,
        };
        Self::from_session(session, users)
    }

    pub fn id(&self) -> (r: u64)
        ensures
            r == self.spec_id(),
    {
        self.id
    }

    pub fn name(&self) -> (r: &str)
        ensures
            r@ == self.spec_name(),
    {
        self.name.as_str()
    }

    pub fn avatar(&self) -> (r: Option<&String>)
        ensures
            match r {
                Some(a) => self.spec_avatar() == Some(a@),
                None => self.spec_avatar() is None,
            },
    {
        match &self.avatar {
            Some(a) => Some(a),
            None => None,
        }
    }
}

/// The administrators when nothing else is configured: the one default
/// identifier.
pub fn default_admins() -> (r: Vec<u64>)
    ensures
        r@ == seq![ADMIN_ID],
        forall|id: u64| is_admin(r@, id) <==> id == ADMIN_ID,
{
    let r = vec![ADMIN_ID];
    assert(r@ =~= seq![ADMIN_ID]);
    assert forall|id: u64| is_admin(r@, id) <==> id == ADMIN_ID by {
        law_default_escalation(id);
    }
    r
}

impl ConnectedAdministrator {
    pub closed spec fn spec_user(&self) -> ConnectedUser {
        self.user
    }

    /// Escalates a principal whose identifier is among `admins`; hands any
    /// other principal back unchanged, for the caller to proceed without
    /// elevated rights.
    pub fn escalate(user: ConnectedUser, admins: &Vec<u64>) -> (r: Result<
        Self,
        ConnectedUser,
    >)
        ensures
            r is Ok <==> is_admin(admins@, user.spec_id()),
            r is Ok ==> r->Ok_0.spec_user() == user,
            r is Err ==> r->Err_0 == user,
    {
        let mut i: usize = 0;
        while i < admins.len()
            invariant
                i <= admins@.len(),
                forall|j: int| 0 <= j < i ==> admins@[j] != user.id,
            decreases admins@.len() - i,
        {
            if admins[i] == user.id {
                assert(admins@[i as int] == user.spec_id());
                return Ok(ConnectedAdministrator { user });
            }
            i = i + 1;
        }
        Err(user)
    }

    /// The administrator's own identity.
    pub fn user(&self) -> (r: &ConnectedUser)
        ensures
            *r == self.spec_user(),
    {
        &self.user
    }
}

/// A principal escalates under the default configuration exactly when its
/// identifier is the default administrator identifier.
pub proof fn law_default_escalation(id: u64)
    ensures
        is_admin(seq![ADMIN_ID], id) <==> id == ADMIN_ID,
{
    assert(seq![ADMIN_ID][0] == ADMIN_ID);
}

} // verus!
