//! The plan: what would bring the system into conformance with a declaration.

use vstd::prelude::*;

verus! {

/// One step of a plan.
#[derive(Debug, PartialEq, Eq)]
pub enum Action {
    /// Create the named account.
    Create(String),
    /// Change the named account.
    Update {
        /// The account.
        name: String,
    },
    /// Delete the named account.
    Delete {
        /// The account.
        name: String,
    },
}

/// The steps that would bring the system into conformance.
#[derive(Debug, PartialEq, Eq)]
pub struct Plan {
    /// The steps, in order.
    pub actions: Vec<Action>,
}

/// How many steps create an account.
pub open spec fn creates(actions: Seq<Action>) -> nat
    decreases actions.len(),
{
    if actions.len() == 0 {
        0
    } else {
        creates(actions.drop_last()) + if actions.last() is Create {
            1nat
        } else {
            0
        }
    }
}

/// How many steps change an account.
pub open spec fn updates(actions: Seq<Action>) -> nat
    decreases actions.len(),
{
    if actions.len() == 0 {
        0
    } else {
        updates(actions.drop_last()) + if actions.last() is Update {
            1nat
        } else {
            0
        }
    }
}

/// How many steps delete an account.
pub open spec fn deletes(actions: Seq<Action>) -> nat
    decreases actions.len(),
{
    if actions.len() == 0 {
        0
    } else {
        deletes(actions.drop_last()) + if actions.last() is Delete {
            1nat
        } else {
            0
        }
    }
}

/// How many steps of each kind a plan has.
#[derive(Debug, Clone, Copy, PartialEq, Eq, Structural)]
pub struct ActionCounts {
    /// Accounts to create.
    pub creates: u64,
    /// Accounts to change.
    pub updates: u64,
    /// Accounts to delete.
    pub deletes: u64,
}

impl Plan {
    /// Whether the system is in conformance already.
    pub fn is_empty(&self) -> (r: bool)
        ensures
            r == (self.actions@.len() == 0),
    {
        self.actions.len() == 0
    }

    /// Count the steps of each kind.
    pub fn counts(&self) -> (r: ActionCounts)
        ensures
            r.creates == creates(self.actions@),
            r.updates == updates(self.actions@),
            r.deletes == deletes(self.actions@),
    {
        let mut r = ActionCounts { creates: 0, updates: 0, deletes: 0 };
        let mut i: usize = 0;
        while i < self.actions.len()
            invariant
                i <= self.actions@.len(),
                r.creates == creates(self.actions@.take(i as int)),
                r.updates == updates(self.actions@.take(i as int)),
                r.deletes == deletes(self.actions@.take(i as int)),
                r.creates <= i,
                r.updates <= i,
                r.deletes <= i,
            decreases self.actions@.len() - i,
        {
            proof {
                assert(self.actions@.take(i + 1).drop_last() =~= self.actions@.take(i as int));
                assert(self.actions@.take(i + 1).last() == self.actions@[i as int]);
            }
            match &self.actions[i] {
                Action::Create(_) => {
                    r.creates = r.creates + 1;
                },
                Action::Update { .. } => {
                    r.updates = r.updates + 1;
                },
                Action::Delete { .. } => {
                    r.deletes = r.deletes + 1;
                },
            }
            i += 1;
        }
        proof {
            assert(self.actions@.take(i as int) =~= self.actions@);
        }
        r
    }
}

// ---------------------------------------------------------------------------
// Laws
// ---------------------------------------------------------------------------

/// Every step counts once, under its own kind: what a step more adds is one, whatever
/// stands before it.
pub proof fn every_step_counts_once(actions: Seq<Action>, step: Action)
    ensures
        creates(Seq::<Action>::empty()) == 0,
        updates(Seq::<Action>::empty()) == 0,
        deletes(Seq::<Action>::empty()) == 0,
        step is Create ==> creates(actions.push(step)) == creates(actions) + 1,
        !(step is Create) ==> creates(actions.push(step)) == creates(actions),
        step is Update ==> updates(actions.push(step)) == updates(actions) + 1,
        !(step is Update) ==> updates(actions.push(step)) == updates(actions),
        step is Delete ==> deletes(actions.push(step)) == deletes(actions) + 1,
        !(step is Delete) ==> deletes(actions.push(step)) == deletes(actions),
{
    assert(actions.push(step).drop_last() =~= actions);
}

} // verus!
