//! Ownership transfer and operator list management.
//!
//! These entry points require a confirmation deposit of exactly one minimal
//! value unit attached, as an anti-spam intent signal.

use vstd::prelude::*;

use crate::{AccountId, Contract, Error};

verus! {

impl Contract {
    /// The operator list, in insertion order.
    pub fn operators(&self) -> (r: Vec<AccountId>)
        ensures
            r@ == self.operators@,
    {
        let mut r: Vec<AccountId> = Vec::new();
        let mut i: usize = 0;
        while i < self.operators.len()
            invariant
                i <= self.operators@.len(),
                r@ =~= self.operators@.take(i as int),
            decreases self.operators@.len() - i,
        {
            r.push(self.operators[i]);
            proof {
                assert(r@ =~= self.operators@.take(i + 1));
            }
            i = i + 1;
        }
        proof {
            assert(self.operators@.take(self.operators@.len() as int) =~= self.operators@);
        }
        r
    }

    /// Transfers ownership; owner only, confirmation deposit required.
    pub fn set_owner(
        &mut self,
        caller: AccountId,
        deposit: u128,
        new_owner_id: AccountId,
    ) -> (r: Result<(), Error>)
        requires
            old(self).wf(),
        ensures
            final(self).wf(),
            r is Err <==> deposit != 1 || caller != old(self).owner_id,
            r is Err ==> *final(self) == *old(self) && r->Err_0 == Error::Authorization,
            r is Ok ==> *final(self) == (Contract { owner_id: new_owner_id, ..*old(self) }),
    {
        if deposit != 1 {
            return Err(Error::Authorization);
        }
        if caller != self.owner_id {
            return Err(Error::Authorization);
        }
        self.owner_id = new_owner_id;
        Ok(())
    }

    /// Adds each account not yet an operator, in the order given; owner
    /// only, confirmation deposit required.
    pub fn extend_operators(
        &mut self,
        caller: AccountId,
        deposit: u128,
        operators: Vec<AccountId>,
    ) -> (r: Result<(), Error>)
        requires
            old(self).wf(),
        ensures
            final(self).wf(),
            r is Err <==> deposit != 1 || caller != old(self).owner_id,
            r is Err ==> *final(self) == *old(self) && r->Err_0 == Error::Authorization,
            r is Ok ==> *final(self) == (Contract {
                operators: final(self).operators,
                ..*old(self)
            }) && old(self).operators@.is_prefix_of(final(self).operators@) && forall|a: AccountId|
                final(self).operators@.contains(a) <==> (old(self).operators@.contains(a)
                    || operators@.contains(a)),
    {
        if deposit != 1 {
            return Err(Error::Authorization);
        }
        if caller != self.owner_id {
            return Err(Error::Authorization);
        }
        let mut i: usize = 0;
        while i < operators.len()
            invariant
                i <= operators@.len(),
                self.wf(),
                *self == (Contract { operators: self.operators, ..*old(self) }),
                old(self).operators@.is_prefix_of(self.operators@),
                forall|a: AccountId|
                    self.operators@.contains(a) <==> (old(self).operators@.contains(a)
                        || operators@.take(i as int).contains(a)),
            decreases operators@.len() - i,
        {
            let candidate = operators[i];
            let ghost prev = self.operators@;
            if !contains_account(&self.operators, candidate) {
                self.operators.push(candidate);
            }
            proof {
                assert(operators@.take(i + 1) =~= operators@.take(i as int).push(candidate));
                assert forall|a: AccountId|
                    self.operators@.contains(a) <==> (old(self).operators@.contains(a)
                        || operators@.take(i + 1).contains(a)) by {
                    lemma_push_contains(operators@.take(i as int), candidate, a);
                    if !prev.contains(candidate) {
                        lemma_push_contains(prev, candidate, a);
                    }
                }
            }
            i = i + 1;
        }
        proof {
            assert(operators@.take(operators@.len() as int) =~= operators@);
        }
        Ok(())
    }

    /// Removes each listed account from the operator list; owner only,
    /// confirmation deposit required. The remaining operators keep their
    /// relative order.
    pub fn remove_operators(
        &mut self,
        caller: AccountId,
        deposit: u128,
        operators: Vec<AccountId>,
    ) -> (r: Result<(), Error>)
        requires
            old(self).wf(),
        ensures
            final(self).wf(),
            r is Err <==> deposit != 1 || caller != old(self).owner_id,
            r is Err ==> *final(self) == *old(self) && r->Err_0 == Error::Authorization,
            r is Ok ==> *final(self) == (Contract {
                operators: final(self).operators,
                ..*old(self)
            }) && forall|a: AccountId|
                final(self).operators@.contains(a) <==> (old(self).operators@.contains(a)
                    && !operators@.contains(a)),
    {
        if deposit != 1 {
            return Err(Error::Authorization);
        }
        if caller != self.owner_id {
            return Err(Error::Authorization);
        }
        let mut i: usize = 0;
        while i < operators.len()
            invariant
                i <= operators@.len(),
                self.wf(),
                *self == (Contract { operators: self.operators, ..*old(self) }),
                forall|a: AccountId|
                    self.operators@.contains(a) <==> (old(self).operators@.contains(a)
                        && !operators@.take(i as int).contains(a)),
            decreases operators@.len() - i,
        {
            let target = operators[i];
            remove_account(&mut self.operators, target);
            proof {
                assert(operators@.take(i + 1) =~= operators@.take(i as int).push(target));
                assert forall|a: AccountId|
                    self.operators@.contains(a) <==> (old(self).operators@.contains(a)
                        && !operators@.take(i + 1).contains(a)) by {
                    lemma_push_contains(operators@.take(i as int), target, a);
                }
            }
            i = i + 1;
        }
        proof {
            assert(operators@.take(operators@.len() as int) =~= operators@);
        }
        Ok(())
    }
}

/// Membership in a sequence extended by one element.
proof fn lemma_push_contains(s: Seq<AccountId>, e: AccountId, x: AccountId)
    ensures
        s.push(e).contains(x) <==> (s.contains(x) || x == e),
{
    assert(s.push(e)[s.len() as int] == e);
    if s.contains(x) {
        let k = choose|k: int| 0 <= k < s.len() && #[trigger] s[k] == x;
        assert(s.push(e)[k] == x);
    }
    if s.push(e).contains(x) && x != e {
        let k = choose|k: int| 0 <= k < s.push(e).len() && #[trigger] s.push(e)[k] == x;
        assert(k < s.len());
        assert(s[k] == x);
    }
}

/// Whether the account list contains the account.
fn contains_account(v: &Vec<AccountId>, a: AccountId) -> (b: bool)
    ensures
        b == v@.contains(a),
{
    let mut i: usize = 0;
    while i < v.len()
        invariant
            i <= v@.len(),
            forall|j: int| 0 <= j < i ==> v@[j] != a,
        decreases v@.len() - i,
    {
        if v[i] == a {
            return true;
        }
        i = i + 1;
    }
    false
}

/// The predicate that keeps every account other than `a`.
spec fn other_than(a: AccountId) -> spec_fn(AccountId) -> bool {
    |x: AccountId| x != a
}

/// Removes every occurrence of the account, keeping the order of the rest.
fn remove_account(v: &mut Vec<AccountId>, a: AccountId)
    ensures
        forall|x: AccountId|
            final(v)@.contains(x) <==> ((*old(v))@.contains(x) && x != a),
{
    let ghost keep = other_than(a);
    let mut out: Vec<AccountId> = Vec::new();
    let mut i: usize = 0;
    proof {
        assert(v@.take(0).filter(keep) =~= Seq::<AccountId>::empty()) by {
            reveal(Seq::filter);
        }
    }
    while i < v.len()
        invariant
            i <= v@.len(),
            out@ =~= v@.take(i as int).filter(keep),
            keep == other_than(a),
        decreases v@.len() - i,
    {
        let e = v[i];
        if e != a {
            out.push(e);
        }
        proof {
            assert(v@.take(i + 1).drop_last() =~= v@.take(i as int));
            assert(v@.take(i + 1).last() == v@[i as int]);
            assert(v@.take(i + 1).filter(keep) =~= if keep(v@[i as int]) {
                v@.take(i as int).filter(keep).push(v@[i as int])
            } else {
                v@.take(i as int).filter(keep)
            }) by {
                reveal(Seq::filter);
            }
        }
        i = i + 1;
    }
    proof {
        assert(v@.take(v@.len() as int) =~= v@);
    }
    *v = out;
    proof {
        let s = (*old(v))@;
        assert forall|x: AccountId| s.filter(keep).contains(x) <==> (s.contains(x) && x != a) by {
            if s.contains(x) && x != a {
                let k = choose|k: int| 0 <= k < s.len() && s[k] == x;
                s.lemma_filter_contains(keep, k);
            }
            if s.filter(keep).contains(x) {
                let k = choose|k: int| 0 <= k < s.filter(keep).len() && s.filter(keep)[k] == x;
                s.lemma_filter_pred(keep, k);
                lemma_filter_member_of_source(s, keep, x);
            }
        }
    }
}

/// An element of a filtered sequence occurs in the sequence it was filtered
/// from.
proof fn lemma_filter_member_of_source(
    s: Seq<AccountId>,
    pred: spec_fn(AccountId) -> bool,
    x: AccountId,
)
    requires
        s.filter(pred).contains(x),
    ensures
        s.contains(x),
    decreases s.len(),
{
    reveal(Seq::filter);
    if s.len() > 0 {
        if s.last() == x {
            assert(s[s.len() - 1] == x);
        } else {
            assert(s.drop_last().filter(pred).contains(x));
            lemma_filter_member_of_source(s.drop_last(), pred, x);
            let k = choose|k: int| 0 <= k < s.drop_last().len() && s.drop_last()[k] == x;
            assert(s[k] == x);
        }
    }
}

} // verus!
