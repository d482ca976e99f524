//! The token: who holds how much, and mint, transfer and burn.

use vstd::prelude::*;
use crate::holdings::{balance, lemma_balance_within_total, lemma_total_with_balance, with_balance, Holdings, Operation};
use crate::principal::Principal;
use crate::types::{Error, TokenInfo};

verus! {

/// The identities that may mint.
pub type Controllers = Vec<Principal>;

/// What one owner holds.
#[derive(Clone, Copy, Debug)]
struct Account {
    owner: Principal,
    amount: u64,
}

/// No owner has two accounts.
spec fn distinct(accounts: Seq<Account>) -> bool {
    forall|i: int, j: int|
        0 <= i < j < accounts.len() ==> (#[trigger] accounts[i]).owner != (
        #[trigger] accounts[j]).owner
}

/// The accounts as a map from owner to amount.
spec fn as_map(accounts: Seq<Account>) -> Map<Principal, u64>
    decreases accounts.len(),
{
    if accounts.len() == 0 {
        Map::empty()
    } else {
        as_map(accounts.drop_last()).insert(accounts.last().owner, accounts.last().amount)
    }
}

proof fn lemma_as_map(accounts: Seq<Account>)
    requires
        distinct(accounts),
    ensures
        as_map(accounts).dom().finite(),
        as_map(accounts).dom().len() == accounts.len(),
        forall|i: int|
            0 <= i < accounts.len() ==> as_map(accounts).dom().contains(
                (#[trigger] accounts[i]).owner,
            ) && as_map(accounts)[accounts[i].owner] == accounts[i].amount,
        forall|owner: Principal| #[trigger]
            as_map(accounts).dom().contains(owner) ==> exists|i: int|
                0 <= i < accounts.len() && (#[trigger] accounts[i]).owner == owner,
    decreases accounts.len(),
{
    if accounts.len() > 0 {
        let front = accounts.drop_last();
        let last = accounts.last();
        lemma_as_map(front);
        assert(!as_map(front).dom().contains(last.owner)) by {
            if as_map(front).dom().contains(last.owner) {
                let i = choose|i: int| 0 <= i < front.len() && (#[trigger] front[i]).owner == last.owner;
                assert(accounts[i].owner == accounts[accounts.len() - 1].owner);
            }
        }
        assert forall|i: int| 0 <= i < accounts.len() implies as_map(accounts).dom().contains(
            (#[trigger] accounts[i]).owner,
        ) && as_map(accounts)[accounts[i].owner] == accounts[i].amount by {
            if i < front.len() {
                assert(front[i] == accounts[i]);
            }
        }
        assert forall|owner: Principal| #[trigger]
            as_map(accounts).dom().contains(owner) implies exists|i: int|
            0 <= i < accounts.len() && (#[trigger] accounts[i]).owner == owner by {
            if owner == last.owner {
                assert(accounts[accounts.len() - 1].owner == owner);
            } else {
                let i = choose|i: int| 0 <= i < front.len() && (#[trigger] front[i]).owner == owner;
                assert(accounts[i].owner == owner);
            }
        }
    }
}

/// Where `owner` has its account, if it has one.
fn position(accounts: &Vec<Account>, owner: &Principal) -> (r: Option<usize>)
    ensures
        match r {
            Some(i) => i < accounts@.len() && accounts@[i as int].owner == *owner,
            None => forall|i: int| 0 <= i < accounts@.len() ==> (#[trigger] accounts@[i]).owner != *owner,
        },
{
    let mut i: usize = 0;
    while i < accounts.len()
        invariant
            i <= accounts@.len(),
            forall|j: int| 0 <= j < i ==> (#[trigger] accounts@[j]).owner != *owner,
        decreases accounts@.len() - i,
    {
        if accounts[i].owner == *owner {
            return Some(i);
        }
        i += 1;
    }
    None
}

/// What `owner` holds in `accounts`.
fn lookup(accounts: &Vec<Account>, owner: &Principal) -> (amount: u64)
    requires
        distinct(accounts@),
    ensures
        amount == balance(as_map(accounts@), *owner),
{
    proof {
        lemma_as_map(accounts@);
    }
    match position(accounts, owner) {
        None => 0,
        Some(i) => accounts[i].amount,
    }
}

/// Makes `owner` hold `amount`, dropping the account of an owner of
/// nothing.
fn store(accounts: &mut Vec<Account>, owner: Principal, amount: u64)
    requires
        distinct(old(accounts)@),
    ensures
        distinct(final(accounts)@),
        as_map(final(accounts)@) == with_balance(as_map(old(accounts)@), owner, amount),
{
    let ghost before = accounts@;
    proof {
        lemma_as_map(before);
    }
    match position(accounts, &owner) {
        Some(i) => {
            if amount == 0 {
                accounts.remove(i);
                proof {
                    let now = accounts@;
                    assert forall|a: int, b: int| 0 <= a < b < now.len() implies (#[trigger] now[a]).owner
                        != (#[trigger] now[b]).owner by {
                        let a0 = if a < i { a } else { a + 1 };
                        let b0 = if b < i { b } else { b + 1 };
                        assert(now[a] == before[a0] && now[b] == before[b0]);
                    }
                    lemma_as_map(now);
                    assert forall|p: Principal| as_map(now).dom().contains(p) <==> as_map(
                        before,
                    ).remove(owner).dom().contains(p) by {
                        if as_map(now).dom().contains(p) {
                            let a = choose|a: int| 0 <= a < now.len() && (#[trigger] now[a]).owner == p;
                            let a0 = if a < i { a } else { a + 1 };
                            assert(before[a0].owner == p);
                            assert(before[i as int].owner == owner);
                        }
                        if as_map(before).remove(owner).dom().contains(p) {
                            let a0 = choose|a0: int| 0 <= a0 < before.len() && (#[trigger] before[a0]).owner == p;
                            let a = if a0 < i { a0 } else { a0 - 1 };
                            assert(now[a].owner == p);
                        }
                    }
                    assert forall|p: Principal| as_map(now).dom().contains(p) implies as_map(now)[p]
                        == as_map(before).remove(owner)[p] by {
                        let a = choose|a: int| 0 <= a < now.len() && (#[trigger] now[a]).owner == p;
                        let a0 = if a < i { a } else { a + 1 };
                        assert(before[a0].owner == p);
                    }
                    assert(as_map(now) =~= as_map(before).remove(owner));
                }
            } else {
                accounts.set(i, Account { owner, amount });
                proof {
                    let now = accounts@;
                    assert forall|a: int, b: int| 0 <= a < b < now.len() implies (#[trigger] now[a]).owner
                        != (#[trigger] now[b]).owner by {
                        assert(now[a].owner == before[a].owner && now[b].owner == before[b].owner);
                    }
                    lemma_as_map(now);
                    assert forall|p: Principal| as_map(now).dom().contains(p) <==> as_map(
                        before,
                    ).insert(owner, amount).dom().contains(p) by {
                        if as_map(now).dom().contains(p) {
                            let a = choose|a: int| 0 <= a < now.len() && (#[trigger] now[a]).owner == p;
                            assert(before[a].owner == p);
                        }
                        if as_map(before).dom().contains(p) {
                            let a = choose|a: int| 0 <= a < before.len() && (#[trigger] before[a]).owner == p;
                            assert(now[a].owner == p);
                        }
                        if p == owner {
                            assert(now[i as int].owner == p);
                        }
                    }
                    assert forall|p: Principal| as_map(now).dom().contains(p) implies as_map(now)[p]
                        == as_map(before).insert(owner, amount)[p] by {
                        let a = choose|a: int| 0 <= a < now.len() && (#[trigger] now[a]).owner == p;
                        assert(before[a].owner == p);
                    }
                    assert(as_map(now) =~= as_map(before).insert(owner, amount));
                }
            }
        },
        None => {
            if amount != 0 {
                accounts.push(Account { owner, amount });
                proof {
                    let now = accounts@;
                    assert(now.drop_last() =~= before);
                    assert forall|a: int, b: int| 0 <= a < b < now.len() implies (#[trigger] now[a]).owner
                        != (#[trigger] now[b]).owner by {
                        assert(now[a] == before[a]);
                        if b < before.len() {
                            assert(now[b] == before[b]);
                        }
                    }
                }
            } else {
                assert(as_map(before).remove(owner) =~= as_map(before));
            }
        },
    }
}

/// A fungible token: its balances, its total supply, what it says of itself
/// and who may mint.
#[derive(Debug)]
pub struct CurrencyToken {
    balances: Vec<Account>,
    total_supply: u64,
    info: TokenInfo,
    controllers: Controllers,
}

impl View for CurrencyToken {
    type V = Holdings;

    closed spec fn view(&self) -> Holdings {
        Holdings { balances: as_map(self.balances@), total_supply: self.total_supply }
    }
}

impl CurrencyToken {
    /// What the token says of itself.
    pub closed spec fn info_view(&self) -> TokenInfo {
        self.info
    }

    /// The identities that may mint, in the order in which they were given.
    pub closed spec fn controllers_view(&self) -> Seq<Principal> {
        self.controllers@
    }

    /// The token is sound: its holdings are consistent, which is to say
    /// that the total supply is the sum of the balances and that no balance
    /// of 0 is kept.
    pub closed spec fn wf(&self) -> bool {
        &&& distinct(self.balances@)
        &&& self@.consistent()
    }

    /// Brings to light what `wf` holds.
    pub proof fn lemma_wf_is_consistent(&self)
        requires
            self.wf(),
        ensures
            self@.consistent(),
    {
    }

    /// A token of which nothing exists yet, with `controller` as its only
    /// controller.
    pub fn new(controller: Principal, info: TokenInfo) -> (token: CurrencyToken)
        ensures
            token.wf(),
            token@.consistent(),
            token@ == Holdings::empty(),
            token.info_view() == info,
            token.controllers_view() == seq![controller],
    {
        let mut controllers: Vec<Principal> = Vec::new();
        controllers.push(controller);
        let token = CurrencyToken { balances: Vec::new(), total_supply: 0, info, controllers };
        assert(token@.balances =~= Map::<Principal, u64>::empty());
        assert(token.controllers@ =~= seq![controller]);
        token
    }

    /// Creates `qty` for `to`. Nothing is created with `ZeroQuantity`.
    pub fn mint(&mut self, to: Principal, qty: u64) -> (r: Result<(), Error>)
        requires
            old(self).wf(),
            old(self)@.fits(Operation::Mint { to, qty }),
        ensures
            final(self).wf(),
            final(self)@.consistent(),
            r == old(self)@.verdict(Operation::Mint { to, qty }),
            final(self)@ == old(self)@.after(Operation::Mint { to, qty }),
            final(self).info_view() == old(self).info_view(),
            final(self).controllers_view() == old(self).controllers_view(),
    {
        if qty == 0 {
            return Err(Error::ZeroQuantity);
        }
        proof {
            lemma_balance_within_total(self@.balances, to);
            old(self)@.lemma_step_consistent(Operation::Mint { to, qty });
        }
        let prev_balance = lookup(&self.balances, &to);
        let new_balance = prev_balance + qty;

        self.total_supply += qty;
        store(&mut self.balances, to, new_balance);

        Ok(())
    }

    /// Moves `qty` from `from` to `to`. Nothing moves with `ZeroQuantity`,
    /// nor with `InsufficientBalance` where `from` holds less than `qty`.
    pub fn transfer(&mut self, from: Principal, to: Principal, qty: u64) -> (r: Result<(), Error>)
        requires
            old(self).wf(),
        ensures
            final(self).wf(),
            final(self)@.consistent(),
            r == old(self)@.verdict(Operation::Transfer { from, to, qty }),
            final(self)@ == old(self)@.after(Operation::Transfer { from, to, qty }),
            final(self).info_view() == old(self).info_view(),
            final(self).controllers_view() == old(self).controllers_view(),
    {
        if qty == 0 {
            return Err(Error::ZeroQuantity);
        }
        let prev_from_balance = lookup(&self.balances, &from);

        if prev_from_balance < qty {
            return Err(Error::InsufficientBalance);
        }
        proof {
            old(self)@.lemma_step_consistent(Operation::Transfer { from, to, qty });
        }
        let new_from_balance = prev_from_balance - qty;
        store(&mut self.balances, from, new_from_balance);

        let prev_to_balance = lookup(&self.balances, &to);
        proof {
            lemma_balance_within_total(old(self)@.balances, from);
            lemma_total_with_balance(old(self)@.balances, from, new_from_balance);
            lemma_balance_within_total(self@.balances, to);
        }
        let new_to_balance = prev_to_balance + qty;
        store(&mut self.balances, to, new_to_balance);

        Ok(())
    }

    /// Destroys `qty` out of what `from` holds. Nothing is destroyed with
    /// `ZeroQuantity`, nor with `InsufficientBalance` where `from` holds
    /// less than `qty`.
    pub fn burn(&mut self, from: Principal, qty: u64) -> (r: Result<(), Error>)
        requires
            old(self).wf(),
        ensures
            final(self).wf(),
            final(self)@.consistent(),
            r == old(self)@.verdict(Operation::Burn { from, qty }),
            final(self)@ == old(self)@.after(Operation::Burn { from, qty }),
            final(self).info_view() == old(self).info_view(),
            final(self).controllers_view() == old(self).controllers_view(),
    {
        if qty == 0 {
            return Err(Error::ZeroQuantity);
        }
        let prev_balance = lookup(&self.balances, &from);

        if prev_balance < qty {
            return Err(Error::InsufficientBalance);
        }
        proof {
            lemma_balance_within_total(self@.balances, from);
            old(self)@.lemma_step_consistent(Operation::Burn { from, qty });
        }
        let new_balance = prev_balance - qty;
        store(&mut self.balances, from, new_balance);

        self.total_supply -= qty;

        Ok(())
    }

    /// What `account_owner` holds: 0 for an owner without an entry.
    pub fn balance_of(&self, account_owner: &Principal) -> (amount: u64)
        requires
            self.wf(),
        ensures
            amount == balance(self@.balances, *account_owner),
    {
        lookup(&self.balances, account_owner)
    }

    /// Whether `account_owner` holds anything.
    pub fn is_holder(&self, account_owner: &Principal) -> (holds: bool)
        requires
            self.wf(),
        ensures
            holds == self@.balances.dom().contains(*account_owner),
    {
        proof {
            lemma_as_map(self.balances@);
        }
        position(&self.balances, account_owner).is_some()
    }

    /// How much of the token exists.
    pub fn total_supply(&self) -> (supply: u64)
        ensures
            supply == self@.total_supply,
    {
        self.total_supply
    }

    /// What the token says of itself.
    pub fn info(&self) -> (info: &TokenInfo)
        ensures
            *info == self.info_view(),
    {
        &self.info
    }

    /// The identities that may mint.
    pub fn controllers(&self) -> (controllers: &Controllers)
        ensures
            controllers@ == self.controllers_view(),
    {
        &self.controllers
    }

    /// How many owners hold anything.
    pub fn holders(&self) -> (count: usize)
        requires
            self.wf(),
        ensures
            count == self@.balances.dom().len(),
    {
        proof {
            lemma_as_map(self.balances@);
        }
        self.balances.len()
    }
}

} // verus!
