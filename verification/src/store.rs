//! The storage model: the behaviour the relational store is relied on for,
//! stated over an in-memory users table.
//!
//! Rows carry unique, monotonically assigned ids. Updating or deleting an
//! absent id is a silent no-op, and neither ever creates a row.

use vstd::prelude::*;

verus! {

/// One row of the users table.
pub struct User {
    pub id: i64,
    pub name: String,
}

/// The table after an update: every row keeps its id, the row whose id
/// matches takes the new name, every other row is untouched.
pub open spec fn spec_update(users: Seq<User>, id: i64, name: String) -> Seq<User> {
    Seq::new(
        users.len(),
        |i: int|
            if users[i].id == id {
                User { id: users[i].id, name }
            } else {
                users[i]
            },
    )
}

/// The table after a delete: the rows whose id differs, in their order.
pub open spec fn spec_delete(users: Seq<User>, id: i64) -> Seq<User> {
    users.filter(|u: User| u.id != id)
}

/// The users table, with the id the store will assign next.
pub struct UserStore {
    pub users: Vec<User>,
    pub next_id: i64,
}

impl UserStore {
    /// Well-formedness: ids are at least 1, all below the next id, and
    /// strictly increasing in insertion order (hence unique).
    pub open spec fn wf(&self) -> bool {
        &&& 1 <= self.next_id
        &&& forall|i: int|
            0 <= i < self.users@.len() ==> 1 <= (#[trigger] self.users@[i]).id < self.next_id
        &&& forall|i: int, j: int|
            0 <= i < j < self.users@.len() ==> (#[trigger] self.users@[i]).id
                < (#[trigger] self.users@[j]).id
    }

    /// Whether one more id can still be assigned.
    pub open spec fn can_insert(&self) -> bool {
        self.next_id < i64::MAX
    }

    /// An empty table whose first id will be 1.
    pub fn new() -> (s: Self)
        ensures
            s.wf(),
            s.users@ == Seq::<User>::empty(),
            s.next_id == 1,
    {
        let s = UserStore { users: Vec::new(), next_id: 1 };
        proof {
            assert(s.users@ =~= Seq::<User>::empty());
        }
        s
    }

    /// Inserts a row: the new row takes the next id and stands last; no
    /// other row moves or changes.
    pub fn insert(&mut self, name: String)
        requires
            old(self).wf(),
            old(self).can_insert(),
        ensures
            final(self).wf(),
            final(self).users@ == old(self).users@.push(
                User { id: old(self).next_id, name },
            ),
            final(self).next_id == old(self).next_id + 1,
    {
        let id = self.next_id;
        self.next_id = self.next_id + 1;
        self.users.push(User { id, name });
    }

    /// All rows, in insertion order.
    pub fn list_all(&self) -> (r: &Vec<User>)
        ensures
            r@ == self.users@,
    {
        &self.users
    }

    /// The position of the row whose id is `id`, if such a row exists.
    fn find_index(&self, id: i64) -> (r: Option<usize>)
        ensures
            match r {
                Some(j) => j < self.users@.len() && self.users@[j as int].id == id,
                None => forall|k: int| 0 <= k < self.users@.len() ==> self.users@[k].id != id,
            },
    {
        let n = self.users.len();
        let mut i: usize = 0;
        while i < n
            invariant
                i <= n,
                n == self.users@.len(),
                forall|k: int| 0 <= k < i ==> self.users@[k].id != id,
            decreases n - i,
        {
            if self.users[i].id == id {
                return Some(i);
            }
            i = i + 1;
        }
        None
    }

    /// Renames the row whose id matches; an absent id changes nothing, and
    /// no row is ever added or removed.
    pub fn update_name(&mut self, id: i64, name: String)
        requires
            old(self).wf(),
        ensures
            final(self).wf(),
            final(self).users@ == spec_update(old(self).users@, id, name),
            final(self).next_id == old(self).next_id,
    {
        let ghost users0 = self.users@;
        match self.find_index(id) {
            None => {
                proof {
                    assert(self.users@ =~= spec_update(users0, id, name));
                }
            },
            Some(j) => {
                self.users.remove(j);
                self.users.insert(j, User { id, name });
                proof {
                    assert forall|i: int| 0 <= i < users0.len() implies self.users@[i]
                        == spec_update(users0, id, name)[i] by {
                        if i != j {
                            assert(users0[i].id != id);
                        }
                    }
                    assert(self.users@ =~= spec_update(users0, id, name));
                }
            },
        }
    }

    /// Removes the row whose id matches; an absent id changes nothing, and
    /// deleting twice is as deleting once.
    pub fn delete_by_id(&mut self, id: i64)
        requires
            old(self).wf(),
        ensures
            final(self).wf(),
            final(self).users@ == spec_delete(old(self).users@, id),
            final(self).next_id == old(self).next_id,
    {
        let ghost users0 = self.users@;
        match self.find_index(id) {
            None => {
                proof {
                    lemma_filter_keeps_all(users0, |u: User| u.id != id);
                }
            },
            Some(j) => {
                self.users.remove(j);
                proof {
                    lemma_filter_drops_one(users0, |u: User| u.id != id, j as int);
                    assert(self.users@ =~= spec_delete(users0, id));
                }
            },
        }
    }
}

/// Filtering keeps a sequence whole when every element passes.
pub proof fn lemma_filter_keeps_all<A>(s: Seq<A>, pred: spec_fn(A) -> bool)
    requires
        forall|i: int| 0 <= i < s.len() ==> pred(#[trigger] s[i]),
    ensures
        s.filter(pred) == s,
    decreases s.len(),
{
    reveal(Seq::filter);
    if s.len() > 0 {
        assert forall|i: int| 0 <= i < s.drop_last().len() implies pred(
            #[trigger] s.drop_last()[i],
        ) by {
            assert(s.drop_last()[i] == s[i]);
        }
        lemma_filter_keeps_all(s.drop_last(), pred);
        assert(s.filter(pred) =~= s);
    } else {
        assert(s.filter(pred) =~= s);
    }
}

/// Filtering removes exactly the one failing element.
pub proof fn lemma_filter_drops_one<A>(s: Seq<A>, pred: spec_fn(A) -> bool, j: int)
    requires
        0 <= j < s.len(),
        !pred(s[j]),
        forall|i: int| 0 <= i < s.len() && i != j ==> pred(#[trigger] s[i]),
    ensures
        s.filter(pred) == s.remove(j),
    decreases s.len(),
{
    reveal(Seq::filter);
    if j == s.len() - 1 {
        assert forall|i: int| 0 <= i < s.drop_last().len() implies pred(
            #[trigger] s.drop_last()[i],
        ) by {
            assert(s.drop_last()[i] == s[i]);
        }
        lemma_filter_keeps_all(s.drop_last(), pred);
        assert(s.filter(pred) =~= s.remove(j));
    } else {
        assert(s.drop_last()[j] == s[j]);
        assert forall|i: int| 0 <= i < s.drop_last().len() && i != j implies pred(
            #[trigger] s.drop_last()[i],
        ) by {
            assert(s.drop_last()[i] == s[i]);
        }
        lemma_filter_drops_one(s.drop_last(), pred, j);
        assert(pred(s.last()));
        assert(s.filter(pred) =~= s.remove(j));
    }
}

} // verus!
