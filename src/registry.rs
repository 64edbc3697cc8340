//! The verifier's store: registered users with their public commitments, and
//! the challenges issued and not yet answered.

use crate::bignum::BigNum;
use crate::table::{
    keyed_map, keys_unique, lemma_keyed_map_domain, lemma_keyed_map_index, lemma_keyed_map_push,
    lemma_keyed_map_remove, lemma_keyed_map_update,
};
use vstd::prelude::*;

verus! {

/// A registered user and the public commitment `(y1, y2)`.
#[derive(Clone, Debug)]
pub struct UserRecord {
    pub name: String,
    pub y1: BigNum,
    pub y2: BigNum,
}

/// An issued challenge awaiting its answer: the user, the round commitment
/// `(r1, r2)`, the user's commitment `(y1, y2)` as registered when the
/// challenge was issued, and the challenge `c`.
#[derive(Clone, Debug)]
pub struct PendingChallenge {
    pub auth_id: String,
    pub user: String,
    pub r1: BigNum,
    pub r2: BigNum,
    pub y1: BigNum,
    pub y2: BigNum,
    pub c: BigNum,
}

/// What a pending challenge holds, as numbers.
pub struct ChallengeView {
    pub user: Seq<char>,
    pub r1: nat,
    pub r2: nat,
    pub y1: nat,
    pub y2: nat,
    pub c: nat,
}

/// A user record as a key and its commitment.
pub open spec fn user_entry(u: UserRecord) -> (Seq<char>, (nat, nat)) {
    (u.name@, (u.y1@, u.y2@))
}

/// A pending challenge as its authentication id and contents.
pub open spec fn pending_entry(e: PendingChallenge) -> (Seq<char>, ChallengeView) {
    (
        e.auth_id@,
        ChallengeView { user: e.user@, r1: e.r1@, r2: e.r2@, y1: e.y1@, y2: e.y2@, c: e.c@ },
    )
}

/// Registered users and pending challenges, each keyed by a string.
pub struct SessionRegistry {
    users: Vec<UserRecord>,
    pending: Vec<PendingChallenge>,
}

impl SessionRegistry {
    closed spec fn user_entries(&self) -> Seq<(Seq<char>, (nat, nat))> {
        self.users@.map_values(|u: UserRecord| user_entry(u))
    }

    closed spec fn pending_entries(&self) -> Seq<(Seq<char>, ChallengeView)> {
        self.pending@.map_values(|e: PendingChallenge| pending_entry(e))
    }

    /// Each registered username and its commitment `(y1, y2)`.
    pub closed spec fn users(&self) -> Map<Seq<char>, (nat, nat)> {
        keyed_map(self.user_entries())
    }

    /// Each pending authentication id and its challenge.
    pub closed spec fn pending(&self) -> Map<Seq<char>, ChallengeView> {
        keyed_map(self.pending_entries())
    }

    /// Usernames and authentication ids are each stored once.
    pub closed spec fn wf(&self) -> bool {
        keys_unique(self.user_entries()) && keys_unique(self.pending_entries())
    }

    /// An empty registry.
    pub fn new() -> (r: SessionRegistry)
        ensures
            r.wf(),
            r.users() == Map::<Seq<char>, (nat, nat)>::empty(),
            r.pending() == Map::<Seq<char>, ChallengeView>::empty(),
    {
        let r = SessionRegistry { users: Vec::new(), pending: Vec::new() };
        assert(r.user_entries() =~= Seq::empty());
        assert(r.pending_entries() =~= Seq::empty());
        r
    }

    /// The position of the record of `name`, if any.
    fn find_user(&self, name: &String) -> (r: Option<usize>)
        ensures
            match r {
                Some(i) => i < self.users@.len() && self.users@[i as int].name@ == name@,
                None => forall|j: int|
                    0 <= j < self.users@.len() ==> #[trigger] self.users@[j].name@ != name@,
            },
    {
        let mut i: usize = 0;
        while i < self.users.len()
            invariant
                i <= self.users@.len(),
                forall|j: int| 0 <= j < i ==> #[trigger] self.users@[j].name@ != name@,
            decreases self.users@.len() - i,
        {
            if self.users[i].name == *name {
                return Some(i);
            }
            i = i + 1;
        }
        None
    }

    /// The position of the pending challenge `auth_id`, if any.
    fn find_pending(&self, auth_id: &String) -> (r: Option<usize>)
        ensures
            match r {
                Some(i) => i < self.pending@.len() && self.pending@[i as int].auth_id@ == auth_id@,
                None => forall|j: int|
                    0 <= j < self.pending@.len() ==> #[trigger] self.pending@[j].auth_id@
                        != auth_id@,
            },
    {
        let mut i: usize = 0;
        while i < self.pending.len()
            invariant
                i <= self.pending@.len(),
                forall|j: int| 0 <= j < i ==> #[trigger] self.pending@[j].auth_id@ != auth_id@,
            decreases self.pending@.len() - i,
        {
            if self.pending[i].auth_id == *auth_id {
                return Some(i);
            }
            i = i + 1;
        }
        None
    }

    proof fn lemma_user_absent(&self, name: Seq<char>)
        requires
            forall|j: int| 0 <= j < self.users@.len() ==> #[trigger] self.users@[j].name@ != name,
        ensures
            !self.users().contains_key(name),
    {
        lemma_keyed_map_domain(self.user_entries(), name);
        if self.users().contains_key(name) {
            let j = choose|j: int|
                0 <= j < self.user_entries().len() && #[trigger] self.user_entries()[j].0 == name;
            assert(self.users@[j].name@ == name);
        }
    }

    proof fn lemma_pending_absent(&self, id: Seq<char>)
        requires
            forall|j: int|
                0 <= j < self.pending@.len() ==> #[trigger] self.pending@[j].auth_id@ != id,
        ensures
            !self.pending().contains_key(id),
    {
        lemma_keyed_map_domain(self.pending_entries(), id);
        if self.pending().contains_key(id) {
            let j = choose|j: int|
                0 <= j < self.pending_entries().len() && #[trigger] self.pending_entries()[j].0
                    == id;
            assert(self.pending@[j].auth_id@ == id);
        }
    }

    /// The commitment registered for `name`, if any.
    pub fn lookup(&self, name: &String) -> (r: Option<(BigNum, BigNum)>)
        requires
            self.wf(),
        ensures
            r is Some <==> self.users().contains_key(name@),
            r matches Some((y1, y2)) ==> self.users()[name@] == (y1@, y2@),
    {
        match self.find_user(name) {
            Some(i) => {
                proof {
                    lemma_keyed_map_index(self.user_entries(), i as int);
                }
                Some((self.users[i].y1.copied(), self.users[i].y2.copied()))
            },
            None => {
                proof {
                    self.lemma_user_absent(name@);
                }
                None
            },
        }
    }

    /// Records the commitment of `name`, replacing any earlier one.
    pub fn register(&mut self, name: String, y1: BigNum, y2: BigNum)
        requires
            old(self).wf(),
        ensures
            final(self).wf(),
            final(self).users() == old(self).users().insert(name@, (y1@, y2@)),
            final(self).pending() == old(self).pending(),
    {
        let record = UserRecord { name, y1, y2 };
        let ghost entries = self.user_entries();
        match self.find_user(&record.name) {
            Some(i) => {
                self.users.set(i, record);
                proof {
                    lemma_keyed_map_update(entries, i as int, (y1@, y2@));
                    assert(self.user_entries() =~= entries.update(
                        i as int,
                        (entries[i as int].0, (y1@, y2@)),
                    ));
                }
            },
            None => {
                proof {
                    self.lemma_user_absent(record.name@);
                    lemma_keyed_map_push(entries, user_entry(record));
                }
                self.users.push(record);
                proof {
                    assert(self.user_entries() =~= entries.push(user_entry(record)));
                }
            },
        }
        proof {
            assert(self.pending_entries() =~= old(self).pending_entries());
        }
    }

    /// Whether `auth_id` names a pending challenge.
    pub fn has_challenge(&self, auth_id: &String) -> (r: bool)
        requires
            self.wf(),
        ensures
            r == self.pending().contains_key(auth_id@),
    {
        match self.find_pending(auth_id) {
            Some(i) => {
                proof {
                    lemma_keyed_map_index(self.pending_entries(), i as int);
                }
                true
            },
            None => {
                proof {
                    self.lemma_pending_absent(auth_id@);
                }
                false
            },
        }
    }

    /// Stores a challenge under an authentication id not yet in use.
    pub fn insert_challenge(&mut self, challenge: PendingChallenge)
        requires
            old(self).wf(),
            !old(self).pending().contains_key(challenge.auth_id@),
        ensures
            final(self).wf(),
            final(self).pending() == old(self).pending().insert(
                challenge.auth_id@,
                pending_entry(challenge).1,
            ),
            final(self).users() == old(self).users(),
    {
        let ghost entries = self.pending_entries();
        proof {
            lemma_keyed_map_push(entries, pending_entry(challenge));
        }
        self.pending.push(challenge);
        proof {
            assert(self.pending_entries() =~= entries.push(pending_entry(challenge)));
            assert(self.user_entries() =~= old(self).user_entries());
        }
    }

    /// Removes the challenge `auth_id` and hands it back, if it is pending.
    pub fn take_challenge(&mut self, auth_id: &String) -> (r: Option<PendingChallenge>)
        requires
            old(self).wf(),
        ensures
            final(self).wf(),
            final(self).users() == old(self).users(),
            final(self).pending() == old(self).pending().remove(auth_id@),
            r is Some <==> old(self).pending().contains_key(auth_id@),
            r matches Some(e) ==> pending_entry(e) == (auth_id@, old(self).pending()[auth_id@]),
    {
        let ghost entries = self.pending_entries();
        match self.find_pending(auth_id) {
            Some(i) => {
                proof {
                    lemma_keyed_map_index(entries, i as int);
                    lemma_keyed_map_remove(entries, i as int);
                }
                let e = self.pending.remove(i);
                proof {
                    assert(self.pending_entries() =~= entries.remove(i as int));
                    assert(self.user_entries() =~= old(self).user_entries());
                }
                Some(e)
            },
            None => {
                proof {
                    self.lemma_pending_absent(auth_id@);
                    assert(self.pending() =~= old(self).pending().remove(auth_id@));
                }
                None
            },
        }
    }
}

} // verus!
