use vstd::prelude::*;

use crate::auth::ConnectedAdministrator;
use crate::error::DbError;

verus! {

/// The mapping that a sequence of entries describes: a later entry for a key
/// replaces an earlier one.
pub open spec fn entries_map<V>(s: Seq<(u64, V)>) -> Map<u64, V>
    decreases s.len(),
{
    if s.len() == 0 {
        Map::empty()
    } else {
        entries_map(s.drop_last()).insert(s.last().0, s.last().1)
    }
}

/// No key occurs twice among the entries.
pub open spec fn keys_unique<V>(s: Seq<(u64, V)>) -> bool {
    forall|i: int, j: int|
        0 <= i < s.len() && 0 <= j < s.len() && i != j ==> #[trigger] s[i].0 != #[trigger] s[j].0
}

/// The table that loading yields: nothing readable gives an empty table.
pub open spec fn loaded_map<V>(parsed: Option<Seq<(u64, V)>>) -> Map<u64, V> {
    match parsed {
        Some(s) => entries_map(s),
        None => Map::empty(),
    }
}

/// The table after `create(key, value)`: the value goes in only where the key
/// is absent.
pub open spec fn created_map<V>(m: Map<u64, V>, key: u64, value: V) -> Map<u64, V> {
    if m.contains_key(key) {
        m
    } else {
        m.insert(key, value)
    }
}

pub(crate) proof fn lemma_entries_map_dom<V>(s: Seq<(u64, V)>, k: u64)
    ensures
        entries_map(s).contains_key(k) <==> exists|i: int| 0 <= i < s.len() && #[trigger] s[i].0 == k,
    decreases s.len(),
{
    if s.len() > 0 {
        lemma_entries_map_dom(s.drop_last(), k);
        if entries_map(s.drop_last()).contains_key(k) {
            let i = choose|i: int| 0 <= i < s.drop_last().len() && #[trigger] s.drop_last()[i].0 == k;
            assert(s[i].0 == k);
        }
        if exists|i: int| 0 <= i < s.len() && #[trigger] s[i].0 == k {
            let i = choose|i: int| 0 <= i < s.len() && #[trigger] s[i].0 == k;
            if i < s.len() - 1 {
                assert(s.drop_last()[i].0 == k);
            }
        }
    }
}

proof fn lemma_entries_map_index<V>(s: Seq<(u64, V)>, i: int)
    requires
        keys_unique(s),
        0 <= i < s.len(),
    ensures
        entries_map(s).contains_key(s[i].0),
        entries_map(s)[s[i].0] == s[i].1,
    decreases s.len(),
{
    if i < s.len() - 1 {
        let t = s.drop_last();
        assert(keys_unique(t)) by {
            assert forall|a: int, b: int| 0 <= a < t.len() && 0 <= b < t.len() && a != b implies
                #[trigger] t[a].0 != #[trigger] t[b].0 by {
                assert(t[a] == s[a] && t[b] == s[b]);
            }
        }
        assert(t[i] == s[i]);
        lemma_entries_map_index(t, i);
        assert(s[i].0 != s[s.len() - 1].0);
    }
}

proof fn lemma_entries_map_empty<V>(s: Seq<(u64, V)>)
    requires
        s.len() == 0,
    ensures
        entries_map(s) == Map::<u64, V>::empty(),
{
}

proof fn lemma_entries_map_push<V>(s: Seq<(u64, V)>, k: u64, v: V)
    ensures
        entries_map(s.push((k, v))) == entries_map(s).insert(k, v),
{
    assert(s.push((k, v)).drop_last() =~= s);
}

proof fn lemma_entries_map_update<V>(s: Seq<(u64, V)>, i: int, v: V)
    requires
        keys_unique(s),
        0 <= i < s.len(),
    ensures
        keys_unique(s.update(i, (s[i].0, v))),
        entries_map(s.update(i, (s[i].0, v))) == entries_map(s).insert(s[i].0, v),
{
    let k = s[i].0;
    let t = s.update(i, (k, v));
    assert(keys_unique(t)) by {
        assert forall|a: int, b: int| 0 <= a < t.len() && 0 <= b < t.len() && a != b implies
            #[trigger] t[a].0 != #[trigger] t[b].0 by {
            assert(t[a].0 == s[a].0 && t[b].0 == s[b].0);
        }
    }
    let m = entries_map(s).insert(k, v);
    assert forall|x: u64| #[trigger] entries_map(t).contains_key(x) == m.contains_key(x) by {
        lemma_entries_map_dom(t, x);
        lemma_entries_map_dom(s, x);
        if exists|j: int| 0 <= j < s.len() && #[trigger] s[j].0 == x {
            let j = choose|j: int| 0 <= j < s.len() && #[trigger] s[j].0 == x;
            assert(t[j].0 == x);
        }
        if exists|j: int| 0 <= j < t.len() && #[trigger] t[j].0 == x {
            let j = choose|j: int| 0 <= j < t.len() && #[trigger] t[j].0 == x;
            assert(s[j].0 == x);
        }
    }
    assert forall|x: u64| #[trigger] entries_map(t).contains_key(x) implies entries_map(t)[x]
        == m[x] by {
        lemma_entries_map_dom(t, x);
        let j = choose|j: int| 0 <= j < t.len() && #[trigger] t[j].0 == x;
        lemma_entries_map_index(t, j);
        lemma_entries_map_index(s, j);
    }
    assert(entries_map(t) =~= m);
}

/// A keyed table held in memory, with the path of the file that mirrors it.
///
/// The entries keep their keys unique; a table whose writer failed while it
/// held exclusive access is poisoned and refuses every later access.
pub struct DbTable<V> {
    path: String,
    entries: Vec<(u64, V)>,
    poisoned: bool,
}

impl<V> View for DbTable<V> {
    type V = Map<u64, V>;

    closed spec fn view(&self) -> Map<u64, V> {
        entries_map(self.entries@)
    }
}

impl<V> DbTable<V> {
    pub closed spec fn wf(&self) -> bool {
        keys_unique(self.entries@)
    }

    pub closed spec fn spec_path(&self) -> Seq<char> {
        self.path@
    }

    /// The entries as they stand, each key once.
    pub closed spec fn spec_entries(&self) -> Seq<(u64, V)> {
        self.entries@
    }

    pub closed spec fn spec_poisoned(&self) -> bool {
        self.poisoned
    }

    /// An empty table mirrored at `path`.
    pub fn new(path: String) -> (r: Self)
        ensures
            r.wf(),
            r@ == Map::<u64, V>::empty(),
            r.spec_path() == path@,
            !r.spec_poisoned(),
    {
        let r = DbTable { path, entries: Vec::new(), poisoned: false };
        proof {
            lemma_entries_map_empty(r.entries@);
        }
        r
    }

    /// The table read from the file at `path`, where `parsed` holds the
    /// entries that the file decoded to, or `None` where the file is missing
    /// or malformed: then the table starts empty.
    pub fn load(path: String, parsed: Option<Vec<(u64, V)>>) -> (r: Self)
        ensures
            r.wf(),
            r@ == loaded_map(
                match parsed {
                    Some(v) => Some(v@),
                    None => None,
                },
            ),
            r.spec_path() == path@,
            !r.spec_poisoned(),
    {
        let mut r = DbTable::new(path);
        match parsed {
            None => r,
            Some(v) => {
                let ghost s = v@;
                let mut v = v;
                // From the last entry back: the first one met for a key is the
                // one that stands.
                while v.len() > 0
                    invariant
                        r.wf(),
                        !r.poisoned,
                        r.path@ == path@,
                        entries_map(s) == entries_map(v@).union_prefer_right(r@),
                    decreases v.len(),
                {
                    let ghost before = v@;
                    let (k, x) = v.pop().unwrap();
                    proof {
                        assert(before =~= v@.push((k, x)));
                        lemma_entries_map_push(v@, k, x);
                        assert(entries_map(v@).insert(k, x).union_prefer_right(r@)
                            =~= entries_map(v@).union_prefer_right(created_map(r@, k, x)));
                    }
                    match r.position(k) {
                        Some(i) => {
                            proof {
                                assert(r.entries@[i as int].0 == k);
                                lemma_entries_map_dom(r.entries@, k);
                            }
                        },
                        None => {
                            proof {
                                lemma_entries_map_dom(r.entries@, k);
                            }
                            r.put(k, x);
                        },
                    }
                }
                proof {
                    lemma_entries_map_empty(v@);
                    assert(entries_map(v@).union_prefer_right(r@) =~= r@);
                }
                r
            },
        }
    }

    /// Where the key stands among the entries, if anywhere.
    fn position(&self, key: u64) -> (r: Option<usize>)
        ensures
            match r {
                Some(i) => i < self.entries@.len() && self.entries@[i as int].0 == key,
                None => forall|i: int|
                    0 <= i < self.entries@.len() ==> #[trigger] self.entries@[i].0 != key,
            },
    {
        let mut i: usize = 0;
        while i < self.entries.len()
            invariant
                i <= self.entries@.len(),
                forall|j: int| 0 <= j < i ==> #[trigger] self.entries@[j].0 != key,
            decreases self.entries@.len() - i,
        {
            if self.entries[i].0 == key {
                return Some(i);
            }
            i = i + 1;
        }
        None
    }

    /// Sets the value at `key`, whether or not the key was present.
    fn put(&mut self, key: u64, value: V)
        requires
            old(self).wf(),
        ensures
            final(self).wf(),
            final(self)@ == old(self)@.insert(key, value),
            final(self).path == old(self).path,
            final(self).poisoned == old(self).poisoned,
    {
        match self.position(key) {
            Some(i) => {
                proof {
                    lemma_entries_map_update(self.entries@, i as int, value);
                }
                self.entries.set(i, (key, value));
            },
            None => {
                proof {
                    lemma_entries_map_push(self.entries@, key, value);
                    assert(keys_unique(self.entries@.push((key, value)))) by {
                        let t = self.entries@.push((key, value));
                        assert forall|a: int, b: int|
                            0 <= a < t.len() && 0 <= b < t.len() && a != b implies
                            #[trigger] t[a].0 != #[trigger] t[b].0 by {
                            if a < t.len() - 1 {
                                assert(t[a] == self.entries@[a]);
                            }
                            if b < t.len() - 1 {
                                assert(t[b] == self.entries@[b]);
                            }
                        }
                    }
                }
                self.entries.push((key, value));
            },
        }
    }

    /// The path of the file that mirrors the table.
    pub fn path(&self) -> (r: &String)
        ensures
            r@ == self.spec_path(),
    {
        &self.path
    }

    /// Whether a writer failed while it held exclusive access.
    pub fn is_poisoned(&self) -> (r: bool)
        ensures
            r == self.spec_poisoned(),
    {
        self.poisoned
    }

    /// Records that a writer failed while it held exclusive access: from now
    /// on every access fails with `Poisoned`.
    pub fn poison(&mut self)
        ensures
            final(self).spec_poisoned(),
            final(self)@ == old(self)@,
            final(self).wf() == old(self).wf(),
            final(self).spec_path() == old(self).spec_path(),
    {
        self.poisoned = true;
    }

    /// Shared access to the entries, each key once, in no particular order.
    pub fn read(&self) -> (r: Result<&Vec<(u64, V)>, DbError>)
        requires
            self.wf(),
        ensures
            self.spec_poisoned() <==> r is Err,
            r is Err ==> r->Err_0 == DbError::Poisoned,
            r is Ok ==> r->Ok_0@ == self.spec_entries() && keys_unique(r->Ok_0@) && entries_map(
                r->Ok_0@,
            ) == self@,
    {
        if self.poisoned {
            Err(DbError::Poisoned)
        } else {
            Ok(&self.entries)
        }
    }

    /// Whether the key is present.
    pub fn contains_key(&self, key: u64) -> (r: Result<bool, DbError>)
        requires
            self.wf(),
        ensures
            self.spec_poisoned() ==> r == Err::<bool, DbError>(DbError::Poisoned),
            !self.spec_poisoned() ==> r == Ok::<bool, DbError>(self@.contains_key(key)),
    {
        if self.poisoned {
            return Err(DbError::Poisoned);
        }
        let p = self.position(key);
        proof {
            lemma_entries_map_dom(self.entries@, key);
            if let Some(i) = p {
                assert(self.entries@[i as int].0 == key);
            }
        }
        Ok(p.is_some())
    }

    /// Exclusive access: sets the value at `key`, replacing any value there.
    pub fn write(&mut self, key: u64, value: V) -> (r: Result<(), DbError>)
        requires
            old(self).wf(),
        ensures
            final(self).wf(),
            final(self).spec_path() == old(self).spec_path(),
            final(self).spec_poisoned() == old(self).spec_poisoned(),
            old(self).spec_poisoned() ==> r == Err::<(), DbError>(DbError::Poisoned) && final(self)@ == old(self)@,
            !old(self).spec_poisoned() ==> r == Ok::<(), DbError>(()) && final(self)@ == old(self)@.insert(key, value),
    {
        if self.poisoned {
            return Err(DbError::Poisoned);
        }
        self.put(key, value);
        Ok(())
    }

    /// Inserts the value only where the key is absent; tells whether it did.
    pub fn create(&mut self, key: u64, value: V) -> (r: Result<bool, DbError>)
        requires
            old(self).wf(),
        ensures
            final(self).wf(),
            final(self).spec_path() == old(self).spec_path(),
            final(self).spec_poisoned() == old(self).spec_poisoned(),
            old(self).spec_poisoned() ==> r == Err::<bool, DbError>(DbError::Poisoned) && final(self)@ == old(self)@,
            !old(self).spec_poisoned() ==> r == Ok::<bool, DbError>(!old(self)@.contains_key(key))
                && final(self)@ == created_map(old(self)@, key, value),
    {
        let present = self.contains_key(key);
        match present {
            Err(e) => Err(e),
            Ok(true) => Ok(false),
            Ok(false) => {
                self.put(key, value);
                Ok(true)
            },
        }
    }

    /// Empties the table; only an administrator may.
    pub fn clear(&mut self, _admin: &ConnectedAdministrator) -> (r: Result<(), DbError>)
        requires
            old(self).wf(),
        ensures
            final(self).wf(),
            final(self).spec_path() == old(self).spec_path(),
            final(self).spec_poisoned() == old(self).spec_poisoned(),
            old(self).spec_poisoned() ==> r == Err::<(), DbError>(DbError::Poisoned) && final(self)@ == old(self)@,
            !old(self).spec_poisoned() ==> r == Ok::<(), DbError>(()) && final(self)@ == Map::<u64, V>::empty(),
    {
        if self.poisoned {
            return Err(DbError::Poisoned);
        }
        self.entries = Vec::new();
        proof {
            lemma_entries_map_empty(self.entries@);
        }
        Ok(())
    }
}

impl<V> DbTable<V> {
    /// The value at `key`; nothing where the key is absent or the table is
    /// poisoned.
    pub fn get(&self, key: u64) -> (r: Option<&V>)
        requires
            self.wf(),
        ensures
            r is Some <==> !self.spec_poisoned() && self@.contains_key(key),
            r is Some ==> *r->Some_0 == self@[key],
    {
        if self.poisoned {
            return None;
        }
        match self.position(key) {
            Some(i) => {
                proof {
                    lemma_entries_map_index(self.entries@, i as int);
                }
                Some(&self.entries[i].1)
            },
            None => {
                proof {
                    lemma_entries_map_dom(self.entries@, key);
                }
                None
            },
        }
    }
}

/// Creating twice under one key keeps the first value, and the second call
/// reports that nothing was inserted.
pub proof fn law_create_keeps_first<V>(m: Map<u64, V>, key: u64, v1: V, v2: V)
    ensures
        created_map(created_map(m, key, v1), key, v2) == created_map(m, key, v1),
        created_map(m, key, v1).contains_key(key),
        !m.contains_key(key) ==> created_map(m, key, v1)[key] == v1,
{
}

/// Loading the entries that `read` hands out, as saving writes them,
/// reproduces the table.
pub proof fn law_save_load_round_trip<V>(t: DbTable<V>)
    requires
        t.wf(),
    ensures
        loaded_map(Some(t.spec_entries())) == t@,
{
}

/// Loading from a missing or malformed file yields an empty table.
pub proof fn law_unreadable_loads_empty<V>()
    ensures
        loaded_map::<V>(None) == Map::<u64, V>::empty(),
{
}

} // verus!
