//! What a token holds, as mathematics: a finite map from owners to what
//! they own, the total supply, and the three operations on them.

use vstd::prelude::*;
use crate::principal::Principal;
use crate::types::Error;

verus! {

/// The sum of all balances in `balances`.
pub open spec fn total(balances: Map<Principal, u64>) -> nat
    decreases balances.dom().len(),
    when balances.dom().finite()
    via total_decreases
{
    if balances.dom().len() == 0 {
        0
    } else {
        let owner = balances.dom().choose();
        balances[owner] as nat + total(balances.remove(owner))
    }
}

#[via_fn]
proof fn total_decreases(balances: Map<Principal, u64>) {
    if balances.dom().len() != 0 {
        let owner = balances.dom().choose();
        assert(balances.remove(owner).dom() =~= balances.dom().remove(owner));
    }
}

/// What `owner` holds: the entry of `owner`, or 0 where there is none.
pub open spec fn balance(balances: Map<Principal, u64>, owner: Principal) -> u64 {
    if balances.dom().contains(owner) {
        balances[owner]
    } else {
        0
    }
}

/// `balances` with `owner` holding `amount`; an owner of nothing has no
/// entry.
pub open spec fn with_balance(balances: Map<Principal, u64>, owner: Principal, amount: u64) -> Map<
    Principal,
    u64,
> {
    if amount == 0 {
        balances.remove(owner)
    } else {
        balances.insert(owner, amount)
    }
}

/// `balances` with `qty` more for `owner`.
pub open spec fn credited(balances: Map<Principal, u64>, owner: Principal, qty: u64) -> Map<
    Principal,
    u64,
> {
    with_balance(balances, owner, (balance(balances, owner) + qty) as u64)
}

/// `balances` with `qty` less for `owner`.
pub open spec fn debited(balances: Map<Principal, u64>, owner: Principal, qty: u64) -> Map<
    Principal,
    u64,
> {
    with_balance(balances, owner, (balance(balances, owner) - qty) as u64)
}

/// The sum is the balance of any one owner plus the sum of the rest.
pub proof fn lemma_total_split(balances: Map<Principal, u64>, owner: Principal)
    requires
        balances.dom().finite(),
        balances.dom().contains(owner),
    ensures
        total(balances) == balances[owner] + total(balances.remove(owner)),
    decreases balances.dom().len(),
{
    let first = balances.dom().choose();
    assert(balances.dom().len() != 0);
    if first != owner {
        let without_first = balances.remove(first);
        let without_owner = balances.remove(owner);
        assert(without_first.dom() =~= balances.dom().remove(first));
        assert(without_owner.dom() =~= balances.dom().remove(owner));
        lemma_total_split(without_first, owner);
        lemma_total_split(without_owner, first);
        assert(without_first.remove(owner) =~= without_owner.remove(first));
    }
}

/// Setting one balance changes the sum by the difference.
pub proof fn lemma_total_with_balance(balances: Map<Principal, u64>, owner: Principal, amount: u64)
    requires
        balances.dom().finite(),
    ensures
        with_balance(balances, owner, amount).dom().finite(),
        total(with_balance(balances, owner, amount)) == total(balances) - balance(balances, owner)
            + amount,
{
    let rest = balances.remove(owner);
    assert(rest.dom() =~= balances.dom().remove(owner));
    if balances.dom().contains(owner) {
        lemma_total_split(balances, owner);
    } else {
        assert(rest =~= balances);
    }
    if amount != 0 {
        let changed = balances.insert(owner, amount);
        assert(changed.dom() =~= balances.dom().insert(owner));
        lemma_total_split(changed, owner);
        assert(changed.remove(owner) =~= rest);
    }
}

/// No owner holds more than there is.
pub proof fn lemma_balance_within_total(balances: Map<Principal, u64>, owner: Principal)
    requires
        balances.dom().finite(),
    ensures
        balance(balances, owner) <= total(balances),
{
    if balances.dom().contains(owner) {
        lemma_total_split(balances, owner);
    }
}

/// Two owners together hold no more than there is.
pub proof fn lemma_two_balances_within_total(
    balances: Map<Principal, u64>,
    one: Principal,
    other: Principal,
)
    requires
        balances.dom().finite(),
        one != other,
    ensures
        balance(balances, one) + balance(balances, other) <= total(balances),
{
    if balances.dom().contains(one) {
        lemma_total_split(balances, one);
        let rest = balances.remove(one);
        assert(rest.dom() =~= balances.dom().remove(one));
        lemma_balance_within_total(rest, other);
    } else {
        lemma_balance_within_total(balances, other);
    }
}

/// One operation on a token.
pub enum Operation {
    Mint { to: Principal, qty: u64 },
    Transfer { from: Principal, to: Principal, qty: u64 },
    Burn { from: Principal, qty: u64 },
}

/// The balances of a token and its total supply.
pub struct Holdings {
    pub balances: Map<Principal, u64>,
    pub total_supply: u64,
}

impl Holdings {
    /// A token of which nothing exists yet.
    pub open spec fn empty() -> Holdings {
        Holdings { balances: Map::empty(), total_supply: 0 }
    }

    /// The balances are finitely many, none of them is 0, and the total
    /// supply is their sum.
    pub open spec fn consistent(self) -> bool {
        &&& self.balances.dom().finite()
        &&& forall|owner: Principal| #[trigger]
            self.balances.dom().contains(owner) ==> self.balances[owner] > 0
        &&& self.total_supply == total(self.balances)
    }

    /// Whether the operation is carried out, and if not, why.
    pub open spec fn verdict(self, op: Operation) -> Result<(), Error> {
        match op {
            Operation::Mint { to, qty } => if qty == 0 {
                Err(Error::ZeroQuantity)
            } else {
                Ok(())
            },
            Operation::Transfer { from, to, qty } => if qty == 0 {
                Err(Error::ZeroQuantity)
            } else if balance(self.balances, from) < qty {
                Err(Error::InsufficientBalance)
            } else {
                Ok(())
            },
            Operation::Burn { from, qty } => if qty == 0 {
                Err(Error::ZeroQuantity)
            } else if balance(self.balances, from) < qty {
                Err(Error::InsufficientBalance)
            } else {
                Ok(())
            },
        }
    }

    /// Whether the total supply after the operation still fits in 64 bits.
    pub open spec fn fits(self, op: Operation) -> bool {
        op matches Operation::Mint { qty, .. } ==> self.total_supply + qty <= u64::MAX
    }

    /// The holdings after the operation; a refused operation changes
    /// nothing. A transfer takes from the sender first and gives to the
    /// receiver then, so that a transfer to oneself changes nothing.
    pub open spec fn after(self, op: Operation) -> Holdings {
        if self.verdict(op) is Err {
            self
        } else {
            match op {
                Operation::Mint { to, qty } => Holdings {
                    balances: credited(self.balances, to, qty),
                    total_supply: (self.total_supply + qty) as u64,
                },
                Operation::Transfer { from, to, qty } => Holdings {
                    balances: credited(debited(self.balances, from, qty), to, qty),
                    total_supply: self.total_supply,
                },
                Operation::Burn { from, qty } => Holdings {
                    balances: debited(self.balances, from, qty),
                    total_supply: (self.total_supply - qty) as u64,
                },
            }
        }
    }

    /// The holdings after `ops`, carried out from first to last.
    pub open spec fn after_all(self, ops: Seq<Operation>) -> Holdings
        decreases ops.len(),
    {
        if ops.len() == 0 {
            self
        } else {
            self.after_all(ops.drop_last()).after(ops.last())
        }
    }

    /// Whether each of `ops` fits at the point where it is carried out.
    pub open spec fn all_fit(self, ops: Seq<Operation>) -> bool {
        forall|i: int| 0 <= i < ops.len() ==> #[trigger] self.after_all(ops.take(i)).fits(ops[i])
    }

    /// One operation keeps consistent holdings consistent: the total supply
    /// stays the sum of the balances and no balance of 0 is kept.
    pub proof fn lemma_step_consistent(self, op: Operation)
        requires
            self.consistent(),
            self.fits(op),
        ensures
            self.after(op).consistent(),
    {
        if self.verdict(op) is Ok {
            match op {
                Operation::Mint { to, qty } => {
                    lemma_balance_within_total(self.balances, to);
                    lemma_total_with_balance(
                        self.balances,
                        to,
                        (balance(self.balances, to) + qty) as u64,
                    );
                },
                Operation::Transfer { from, to, qty } => {
                    let left = (balance(self.balances, from) - qty) as u64;
                    let mid = debited(self.balances, from, qty);
                    lemma_balance_within_total(self.balances, from);
                    lemma_total_with_balance(self.balances, from, left);
                    lemma_balance_within_total(mid, to);
                    lemma_total_with_balance(mid, to, (balance(mid, to) + qty) as u64);
                },
                Operation::Burn { from, qty } => {
                    lemma_balance_within_total(self.balances, from);
                    lemma_total_with_balance(
                        self.balances,
                        from,
                        (balance(self.balances, from) - qty) as u64,
                    );
                },
            }
        }
    }

    /// Whatever operations are carried out on consistent holdings, in
    /// whatever order, the holdings are consistent after each of them.
    pub proof fn lemma_always_consistent(self, ops: Seq<Operation>)
        requires
            self.consistent(),
            self.all_fit(ops),
        ensures
            forall|i: int| 0 <= i <= ops.len() ==> #[trigger] self.after_all(ops.take(i)).consistent(),
        decreases ops.len(),
    {
        if ops.len() == 0 {
            assert forall|i: int| 0 <= i <= ops.len() implies #[trigger] self.after_all(
                ops.take(i),
            ).consistent() by {
                assert(ops.take(i) =~= ops);
            }
        } else {
            let before = ops.drop_last();
            assert forall|i: int| 0 <= i < before.len() implies #[trigger] self.after_all(
                before.take(i),
            ).fits(before[i]) by {
                assert(before.take(i) =~= ops.take(i));
                assert(self.after_all(ops.take(i)).fits(ops[i]));
            }
            self.lemma_always_consistent(before);
            assert forall|i: int| 0 <= i <= ops.len() implies #[trigger] self.after_all(
                ops.take(i),
            ).consistent() by {
                if i < ops.len() {
                    assert(ops.take(i) =~= before.take(i));
                } else {
                    assert(ops.take(i) =~= ops);
                    assert(before.take(before.len() as int) =~= before);
                    assert(self.after_all(before.take(before.len() as int)).consistent());
                    assert(ops.take(ops.len() - 1) =~= before);
                    assert(self.after_all(ops.take(ops.len() - 1)).fits(ops[ops.len() - 1]));
                    self.after_all(before).lemma_step_consistent(ops.last());
                }
            }
        }
    }

    /// A refused operation leaves the holdings as they were.
    pub proof fn lemma_refused_changes_nothing(self, op: Operation)
        requires
            self.verdict(op) is Err,
        ensures
            self.after(op) == self,
    {
    }

    /// A transfer to oneself that is carried out changes nothing.
    pub proof fn lemma_transfer_to_self(self, owner: Principal, qty: u64)
        requires
            self.consistent(),
            self.verdict(Operation::Transfer { from: owner, to: owner, qty }) is Ok,
        ensures
            self.after(Operation::Transfer { from: owner, to: owner, qty }) == self,
    {
        assert(self.after(Operation::Transfer { from: owner, to: owner, qty }).balances
            =~= self.balances);
    }

    /// A transfer between two owners moves `qty` from one to the other and
    /// touches nobody else.
    pub proof fn lemma_transfer_moves(self, from: Principal, to: Principal, qty: u64, other: Principal)
        requires
            self.consistent(),
            from != to,
            self.verdict(Operation::Transfer { from, to, qty }) is Ok,
        ensures
            ({
                let next = self.after(Operation::Transfer { from, to, qty });
                &&& balance(next.balances, from) == balance(self.balances, from) - qty
                &&& balance(next.balances, to) == balance(self.balances, to) + qty
                &&& other != from && other != to ==> balance(next.balances, other) == balance(
                    self.balances,
                    other,
                )
                &&& next.total_supply == self.total_supply
            }),
    {
        lemma_two_balances_within_total(self.balances, from, to);
    }
}

} // verus!
