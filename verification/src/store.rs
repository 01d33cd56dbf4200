//! The lookup table of voters: from a voter's identity to its two vote
//! magnitudes.

use vstd::prelude::*;
use crate::account::AccountId;
use crate::account_map::{as_map, keys_unique, AccountMap};
use crate::types::{Error, Voter};

verus! {

/// The voters that are admitted, each with its magnitudes.
pub struct VoterStore {
    voters: AccountMap<Voter>,
}

impl View for VoterStore {
    type V = Map<AccountId, Voter>;

    closed spec fn view(&self) -> Map<AccountId, Voter> {
        self.voters@
    }
}

impl VoterStore {
    /// The table holds each voter once.
    pub closed spec fn wf(&self) -> bool {
        self.voters.wf()
    }

    /// A table without voters.
    pub fn new() -> (store: Self)
        ensures
            store.wf(),
            store@ == Map::<AccountId, Voter>::empty(),
    {
        VoterStore { voters: AccountMap::new() }
    }

    /// Whether the voter is admitted.
    pub fn contains(&self, id: AccountId) -> (r: bool)
        requires
            self.wf(),
        ensures
            r == self@.contains_key(id),
    {
        self.voters.contains(id)
    }

    /// Admits a voter with no votes yet. A voter that is there already is
    /// refused and the table stays as it is.
    pub fn register(&mut self, id: AccountId) -> (r: Result<(), Error>)
        requires
            old(self).wf(),
        ensures
            final(self).wf(),
            old(self)@.contains_key(id) ==> r == Err::<(), Error>(Error::VoterAlreadyExists)
                && final(self)@ == old(self)@,
            !old(self)@.contains_key(id) ==> r == Ok::<(), Error>(()) && final(self)@ == old(
                self,
            )@.insert(id, Voter { upvotes: 0, downvotes: 0 }),
    {
        if self.voters.contains(id) {
            return Err(Error::VoterAlreadyExists);
        }
        self.voters.insert(id, Voter { upvotes: 0, downvotes: 0 });
        Ok(())
    }

    /// The voter's magnitudes, if it is admitted.
    pub fn lookup(&self, id: AccountId) -> (r: Option<Voter>)
        requires
            self.wf(),
        ensures
            r == (if self@.contains_key(id) {
                Some(self@[id])
            } else {
                None
            }),
    {
        self.voters.get(id)
    }

    /// Overwrites the magnitudes of an admitted voter. For a voter that is
    /// not admitted nothing changes.
    pub fn update(&mut self, id: AccountId, voter: Voter)
        requires
            old(self).wf(),
        ensures
            final(self).wf(),
            final(self)@ == (if old(self)@.contains_key(id) {
                old(self)@.insert(id, voter)
            } else {
                old(self)@
            }),
    {
        if self.voters.contains(id) {
            self.voters.insert(id, voter);
        }
    }

    /// Takes a voter out. A voter that is not admitted is reported and the
    /// table stays as it is.
    pub fn remove(&mut self, id: AccountId) -> (r: Result<(), Error>)
        requires
            old(self).wf(),
        ensures
            final(self).wf(),
            old(self)@.contains_key(id) ==> r == Ok::<(), Error>(()) && final(self)@ == old(
                self,
            )@.remove(id),
            !old(self)@.contains_key(id) ==> r == Err::<(), Error>(Error::VoterNotExist)
                && final(self)@ == old(self)@,
    {
        if !self.voters.contains(id) {
            return Err(Error::VoterNotExist);
        }
        self.voters.remove(id);
        Ok(())
    }

    /// The table that a list of voters stands for, where no voter occurs
    /// twice in it.
    pub fn from_entries(entries: Vec<(AccountId, Voter)>) -> (r: Option<Self>)
        ensures
            r is Some <==> keys_unique(entries@),
            r is Some ==> r->0.wf() && r->0@ == as_map(entries@),
    {
        match AccountMap::from_entries(entries) {
            Some(voters) => Some(VoterStore { voters }),
            None => None,
        }
    }

    /// The voters, copied out: a list with each voter once that stands for
    /// the table.
    pub fn entries(&self) -> (out: Vec<(AccountId, Voter)>)
        requires
            self.wf(),
        ensures
            keys_unique(out@),
            as_map(out@) == self@,
    {
        self.voters.entries()
    }
}

} // verus!
