//! Identities and the credentials a call carries.

use vstd::prelude::*;

verus! {

/// An account or contract, known by its number. Two identities are the same
/// exactly when their numbers are.
#[derive(Clone, Copy, Debug, PartialEq, Eq, Structural, Hash)]
pub struct Identity(pub u64);

/// The identities whose authorization the host has verified for one call.
#[derive(Debug)]
pub struct Credentials {
    signers: Vec<Identity>,
}

impl View for Credentials {
    type V = Set<Identity>;

    closed spec fn view(&self) -> Set<Identity> {
        self.signers@.to_set()
    }
}

impl Credentials {
    /// The credentials of a call that nobody authorized.
    pub fn none() -> (creds: Credentials)
        ensures
            creds@ == Set::<Identity>::empty(),
    {
        let creds = Credentials { signers: Vec::new() };
        assert(creds.signers@.to_set() =~= Set::<Identity>::empty());
        creds
    }

    /// The credentials of a call authorized by `who` alone.
    pub fn of(who: Identity) -> (creds: Credentials)
        ensures
            creds@ == Set::<Identity>::empty().insert(who),
    {
        let mut creds = Credentials::none();
        creds.grant(who);
        creds
    }

    /// Adds the authorization of `who`.
    pub fn grant(&mut self, who: Identity)
        ensures
            final(self)@ == old(self)@.insert(who),
    {
        self.signers.push(who);
        assert(self.signers@.to_set() =~= old(self).signers@.to_set().insert(who)) by {
            assert forall|x: Identity|
                self.signers@.to_set().contains(x) == old(self).signers@.to_set().insert(
                    who,
                ).contains(x) by {
                if old(self).signers@.contains(x) {
                    let i = choose|i: int| 0 <= i < old(self).signers@.len() && old(self).signers@[i] == x;
                    assert(self.signers@[i] == x);
                }
                if x == who {
                    assert(self.signers@[self.signers@.len() - 1] == x);
                }
            }
        }
    }

    /// Whether the call is authorized by `who`.
    pub fn authorizes(&self, who: Identity) -> (yes: bool)
        ensures
            yes == self@.contains(who),
    {
        let mut i: usize = 0;
        while i < self.signers.len()
            invariant
                i <= self.signers.len(),
                forall|j: int| 0 <= j < i ==> self.signers@[j] != who,
            decreases self.signers.len() - i,
        {
            if self.signers[i] == who {
                return true;
            }
            i += 1;
        }
        false
    }
}

} // verus!
