use vstd::prelude::*;

use crate::auth::{Conflict, User, UserView};

verus! {

/// The user records, keyed by identifier, each identifier at most once.
pub struct CredentialStore {
    users: Vec<User>,
    contents: Ghost<Map<Seq<char>, UserView>>,
}

impl View for CredentialStore {
    type V = Map<Seq<char>, UserView>;

    closed spec fn view(&self) -> Map<Seq<char>, UserView> {
        self.contents@
    }
}

/// The record of `id` with its token version one higher.
pub open spec fn with_next_version(users: Map<Seq<char>, UserView>, id: Seq<char>) -> Map<
    Seq<char>,
    UserView,
> {
    users.insert(id, UserView { version: users[id].version + 1, ..users[id] })
}

impl CredentialStore {
    /// The vector holds exactly the records of the view, each identifier once.
    pub closed spec fn wf(&self) -> bool {
        &&& forall|i: int, j: int|
            0 <= i < j < self.users.len() ==> self.users[i].id@ != self.users[j].id@
        &&& forall|i: int|
            0 <= i < self.users.len() ==> self@.contains_key(#[trigger] self.users[i].id@)
                && self@[self.users[i].id@] == self.users[i]@
        &&& forall|k: Seq<char>|
            #[trigger] self@.contains_key(k) ==> exists|i: int|
                0 <= i < self.users.len() && self.users[i].id@ == k
    }

    pub fn new() -> (r: Self)
        ensures
            r.wf(),
            r@ == Map::<Seq<char>, UserView>::empty(),
    {
        CredentialStore { users: Vec::new(), contents: Ghost(Map::empty()) }
    }

    fn position(&self, id: &String) -> (r: Option<usize>)
        requires
            self.wf(),
        ensures
            match r {
                Some(i) => i < self.users.len() && self.users[i as int].id@ == id@,
                None => !self@.contains_key(id@),
            },
    {
        let mut i: usize = 0;
        while i < self.users.len()
            invariant
                self.wf(),
                i <= self.users.len(),
                forall|j: int| 0 <= j < i ==> self.users[j].id@ != id@,
            decreases self.users.len() - i,
        {
            if self.users[i].id == *id {
                return Some(i);
            }
            i = i + 1;
        }
        None
    }

    /// The record of `id`, if there is one.
    pub fn find(&self, id: &String) -> (r: Option<&User>)
        requires
            self.wf(),
        ensures
            match r {
                Some(u) => self@.contains_key(id@) && u@ == self@[id@] && u.id@ == id@,
                None => !self@.contains_key(id@),
            },
    {
        match self.position(id) {
            Some(i) => Some(&self.users[i]),
            None => None,
        }
    }

    /// Adds a record whose identifier is not yet present.
    pub fn insert(&mut self, user: User) -> (r: Result<(), Conflict>)
        requires
            old(self).wf(),
        ensures
            final(self).wf(),
            r is Ok <==> !old(self)@.contains_key(user.id@),
            r is Ok ==> final(self)@ == old(self)@.insert(user.id@, user@),
            r is Err ==> final(self)@ == old(self)@,
    {
        if self.position(&user.id).is_some() {
            return Err(Conflict);
        }
        let ghost pre = self@;
        let ghost key = user.id@;
        let ghost value = user@;
        self.users.push(user);
        self.contents = Ghost(pre.insert(key, value));
        let ghost n = self.users.len() - 1;
        assert forall|k: Seq<char>| #[trigger] self@.contains_key(k) implies exists|j: int|
            0 <= j < self.users.len() && self.users[j].id@ == k by {
            if k != key {
                let j = choose|j: int| 0 <= j < old(self).users.len() && old(self).users[j].id@ == k;
                assert(self.users[j].id@ == k);
            } else {
                assert(self.users[n].id@ == k);
            }
        }
        Ok(())
    }

    /// Raises the token version of `id` by one, which revokes every token
    /// issued to it so far. Refused when there is no such user or the version
    /// is at its largest value.
    pub fn bump_version(&mut self, id: &String) -> (r: bool)
        requires
            old(self).wf(),
        ensures
            final(self).wf(),
            r == (old(self)@.contains_key(id@) && old(self)@[id@].version < i32::MAX),
            r ==> final(self)@ == with_next_version(old(self)@, id@),
            !r ==> final(self)@ == old(self)@,
    {
        match self.position(id) {
            None => false,
            Some(i) => {
                if self.users[i].version == i32::MAX {
                    return false;
                }
                let ghost pre = self@;
                let mut user = self.users[i].duplicate();
                user.version = user.version + 1;
                self.users.set(i, user);
                self.contents = Ghost(with_next_version(pre, id@));
                assert forall|k: Seq<char>| #[trigger] self@.contains_key(k) implies exists|j: int|
                    0 <= j < self.users.len() && self.users[j].id@ == k by {
                    let j = choose|j: int|
                        0 <= j < old(self).users.len() && old(self).users[j].id@ == k;
                    assert(self.users[j].id@ == k);
                }
                true
            },
        }
    }
}

} // verus!
