//! The execution budget of a call tree.

use vstd::prelude::*;

verus! {

/// The gas budget shared by a root call and all of its sub-calls.
///
/// There is one meter for a call tree: it is handed on, never copied. The
/// meter counts what was spent against a fixed limit. What the
/// operations of a contract cost is the business of whoever charges it.
#[derive(Debug, PartialEq, Eq)]
pub struct GasMeter {
    held: u64,
    limit: u64,
}

impl GasMeter {
    /// The limit the meter was made with.
    pub closed spec fn spec_limit(&self) -> nat {
        self.limit as nat
    }

    /// What has been spent.
    pub closed spec fn spec_spent(&self) -> nat {
        self.held as nat
    }

    /// A meter that has spent nothing of `limit`.
    pub fn with_limit(limit: u64) -> (m: Self)
        ensures
            m.spec_limit() == limit,
            m.spec_spent() == 0,
    {
        GasMeter { held: 0, limit }
    }

    /// What has been spent.
    pub fn spent(&self) -> (n: u64)
        ensures
            n == self.spec_spent(),
    {
        self.held
    }

    /// What is left: the limit less what was spent, and nothing once the
    /// limit was passed.
    pub fn left(&self) -> (n: u64)
        ensures
            n == if self.spec_spent() <= self.spec_limit() {
                self.spec_limit() - self.spec_spent()
            } else {
                0
            },
    {
        if self.held <= self.limit {
            self.limit - self.held
        } else {
            0
        }
    }

    /// Spends `amount`. Gives `false`, and counts the budget as used up,
    /// where less than `amount` was left.
    pub fn charge(&mut self, amount: u64) -> (ok: bool)
        ensures
            final(self).spec_limit() == old(self).spec_limit(),
            ok == (old(self).spec_spent() + amount <= old(self).spec_limit()),
            ok ==> final(self).spec_spent() == old(self).spec_spent() + amount,
            !ok ==> final(self).spec_spent() == if old(self).spec_spent() > old(self).spec_limit() {
                old(self).spec_spent()
            } else {
                old(self).spec_limit()
            },
    {
        if self.held <= self.limit && amount <= self.limit - self.held {
            self.held = self.held + amount;
            true
        } else {
            if self.held < self.limit {
                self.held = self.limit;
            }
            false
        }
    }
}

} // verus!
