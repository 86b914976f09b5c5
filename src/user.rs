use vstd::prelude::*;

use crate::error::DbError;
use crate::table::DbTable;

verus! {

/// A user as stored: its provider-assigned identifier, login handle, avatar
/// URL and display name where the provider gave them, and the posts it
/// liked.
#[derive(Clone, Debug, PartialEq, Eq)]
pub struct UserDb {
    pub id: u64,
    pub login: String,
    pub avatar: Option<String>,
    pub name: Option<String>,
    pub liked_posts: Vec<u64>,
}

/// The store of users, keyed by identifier.
pub type Db = DbTable<UserDb>;

/// The store after an upsert: the user replaces whatever stood at its
/// identifier.
pub open spec fn upserted(m: Map<u64, UserDb>, user: UserDb) -> Map<u64, UserDb> {
    m.insert(user.id, user)
}

impl DbTable<UserDb> {
    /// Stores the user at its identifier, overwriting any earlier record
    /// whole: the last writer wins.
    pub fn insert_user(&mut self, user: UserDb) -> (r: Result<(), DbError>)
        requires
            old(self).wf(),
        ensures
            final(self).wf(),
            final(self).spec_path() == old(self).spec_path(),
            final(self).spec_poisoned() == old(self).spec_poisoned(),
            old(self).spec_poisoned() ==> r == Err::<(), DbError>(DbError::Poisoned) && final(self)@ == old(self)@,
            !old(self).spec_poisoned() ==> r == Ok::<(), DbError>(()) && final(self)@ == upserted(old(self)@, user),
    {
        let id = user.id;
        self.write(id, user)
    }
}

/// A second upsert under the same identifier leaves exactly the second
/// record: nothing of the first survives.
pub proof fn law_upsert_overwrites(m: Map<u64, UserDb>, u1: UserDb, u2: UserDb)
    requires
        u1.id == u2.id,
    ensures
        upserted(upserted(m, u1), u2) == upserted(m, u2),
        upserted(upserted(m, u1), u2)[u2.id] == u2,
{
    assert(upserted(upserted(m, u1), u2) =~= upserted(m, u2));
}

} // verus!
