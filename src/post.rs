use vstd::prelude::*;

use crate::auth::ConnectedUser;
use crate::error::DbError;
use crate::table::{entries_map, lemma_entries_map_dom, DbTable};

verus! {

/// A post as stored: its identifier, its author's identifier, its text, the
/// path of its stored image if it has one, and its like counter, which has no
/// floor.
#[derive(Clone, Debug, PartialEq, Eq)]
pub struct Post {
    pub id: u64,
    pub author: u64,
    pub text: String,
    pub image_path: Option<String>,
    pub likes: i32,
}

/// The store of posts, keyed by identifier.
pub type Db = DbTable<Post>;

/// `id` is the identifier that a new post gets: one more than the largest
/// identifier present, or 1 in an empty store.
pub open spec fn is_next_id(m: Map<u64, Post>, id: u64) -> bool {
    if m.dom().is_empty() {
        id == 1
    } else {
        1 <= id && m.contains_key((id - 1) as u64) && forall|k: u64| #[trigger]
            m.contains_key(k) ==> k < id
    }
}

/// The store after its like counter at `id` moved by `delta`; unchanged where
/// no post stands at `id`.
pub open spec fn adjusted(m: Map<u64, Post>, id: u64, delta: int) -> Map<u64, Post> {
    if m.contains_key(id) {
        m.insert(id, Post { likes: (m[id].likes + delta) as i32, ..m[id] })
    } else {
        m
    }
}

/// The post that `create_post` stores.
pub open spec fn new_post(id: u64, author: u64, text: String, image_path: Option<String>) -> Post {
    Post { id, author, text, image_path, likes: 0 }
}

impl Post {
    /// The same post with its counter set to `likes`.
    pub fn with_likes(&self, likes: i32) -> (r: Post)
        ensures
            r == (Post { likes, ..*self }),
    {
        let image_path = match &self.image_path {
            Some(p) => Some(p.clone()),
            None => None,
        };
        Post { id: self.id, author: self.author, text: self.text.clone(), image_path, likes }
    }
}

impl DbTable<Post> {
    /// The identifier that the next post gets.
    pub fn next_post_id(&self) -> (r: Result<u64, DbError>)
        requires
            self.wf(),
            !self@.contains_key(u64::MAX),
        ensures
            self.spec_poisoned() <==> r is Err,
            r is Err ==> r->Err_0 == DbError::Poisoned,
            r is Ok ==> is_next_id(self@, r->Ok_0),
    {
        let entries = match self.read() {
            Err(e) => return Err(e),
            Ok(entries) => entries,
        };
        let ghost s = entries@;
        let mut max: u64 = 0;
        let mut i: usize = 0;
        while i < entries.len()
            invariant
                s == entries@,
                entries_map(s) == self@,
                !self@.contains_key(u64::MAX),
                i <= s.len(),
                forall|j: int| 0 <= j < i ==> #[trigger] s[j].0 <= max,
                i > 0 ==> exists|j: int| 0 <= j < i && #[trigger] s[j].0 == max,
                i == 0 ==> max == 0,
            decreases s.len() - i,
        {
            if entries[i].0 > max || i == 0 {
                max = entries[i].0;
            }
            i = i + 1;
        }
        proof {
            if s.len() > 0 {
                let j = choose|j: int| 0 <= j < s.len() && #[trigger] s[j].0 == max;
                lemma_entries_map_dom(s, max);
                assert(self@.contains_key(max));
                assert forall|k: u64| #[trigger] self@.contains_key(k) implies k < max + 1 by {
                    lemma_entries_map_dom(s, k);
                    let j = choose|j: int| 0 <= j < s.len() && #[trigger] s[j].0 == k;
                }
                assert(!self@.dom().is_empty());
            } else {
                assert forall|k: u64| !#[trigger] self@.contains_key(k) by {
                    lemma_entries_map_dom(s, k);
                }
                assert(self@.dom() =~= Set::empty());
            }
        }
        Ok(max + 1)
    }

    /// Stores a new post by `user` under the next identifier and returns that
    /// identifier. `image_path` is where the post's image was stored, if it
    /// has one.
    pub fn create_post(&mut self, user: &ConnectedUser, text: String, image_path: Option<String>) -> (r: Result<u64, DbError>)
        requires
            old(self).wf(),
            !old(self)@.contains_key(u64::MAX),
        ensures
            final(self).wf(),
            final(self).spec_path() == old(self).spec_path(),
            final(self).spec_poisoned() == old(self).spec_poisoned(),
            old(self).spec_poisoned() <==> r is Err,
            r is Err ==> r->Err_0 == DbError::Poisoned,
            old(self).spec_poisoned() ==> final(self)@ == old(self)@,
            r is Ok ==> is_next_id(old(self)@, r->Ok_0) && final(self)@ == old(self)@.insert(
                r->Ok_0,
                new_post(r->Ok_0, user.spec_id(), text, image_path),
            ),
    {
        let id = match self.next_post_id() {
            Err(e) => return Err(e),
            Ok(id) => id,
        };
        let post = Post { id, author: user.id(), text, image_path, likes: 0 };
        match self.write(id, post) {
            Err(e) => Err(e),
            Ok(()) => Ok(id),
        }
    }

    fn adjust_like(&mut self, post_id: u64, delta: i32) -> (r: Result<(), DbError>)
        requires
            old(self).wf(),
            delta == 1 || delta == -1,
            old(self)@.contains_key(post_id) ==> i32::MIN <= old(self)@[post_id].likes + delta
                <= i32::MAX,
        ensures
            final(self).wf(),
            final(self).spec_path() == old(self).spec_path(),
            final(self).spec_poisoned() == old(self).spec_poisoned(),
            old(self).spec_poisoned() ==> r == Err::<(), DbError>(DbError::Poisoned) && final(self)@ == old(self)@,
            !old(self).spec_poisoned() ==> r == Ok::<(), DbError>(()) && final(self)@ == adjusted(old(self)@, post_id, delta as int),
    {
        if self.is_poisoned() {
            return Err(DbError::Poisoned);
        }
        let updated = match self.get(post_id) {
            None => return Ok(()),
            Some(p) => p.with_likes(p.likes + delta),
        };
        self.write(post_id, updated)
    }

    /// Adds one like to the post at `post_id`; does nothing where there is
    /// none.
    pub fn add_like(&mut self, _user: &ConnectedUser, post_id: u64) -> (r: Result<(), DbError>)
        requires
            old(self).wf(),
            old(self)@.contains_key(post_id) ==> old(self)@[post_id].likes < i32::MAX,
        ensures
            final(self).wf(),
            final(self).spec_path() == old(self).spec_path(),
            final(self).spec_poisoned() == old(self).spec_poisoned(),
            old(self).spec_poisoned() ==> r == Err::<(), DbError>(DbError::Poisoned) && final(self)@ == old(self)@,
            !old(self).spec_poisoned() ==> r == Ok::<(), DbError>(()) && final(self)@ == adjusted(old(self)@, post_id, 1),
    {
        self.adjust_like(post_id, 1)
    }

    /// Takes one like from the post at `post_id`, below zero too; does
    /// nothing where there is none.
    pub fn del_like(&mut self, _user: &ConnectedUser, post_id: u64) -> (r: Result<(), DbError>)
        requires
            old(self).wf(),
            old(self)@.contains_key(post_id) ==> old(self)@[post_id].likes > i32::MIN,
        ensures
            final(self).wf(),
            final(self).spec_path() == old(self).spec_path(),
            final(self).spec_poisoned() == old(self).spec_poisoned(),
            old(self).spec_poisoned() ==> r == Err::<(), DbError>(DbError::Poisoned) && final(self)@ == old(self)@,
            !old(self).spec_poisoned() ==> r == Ok::<(), DbError>(()) && final(self)@ == adjusted(old(self)@, post_id, -1),
    {
        self.adjust_like(post_id, -1)
    }
}

/// Taking a like from a post at zero leaves it at minus one: the counter has
/// no floor.
pub proof fn law_like_counter_has_no_floor(m: Map<u64, Post>, id: u64)
    requires
        m.contains_key(id),
        m[id].likes == 0,
    ensures
        adjusted(m, id, -1)[id].likes == -1,
{
}

} // verus!
