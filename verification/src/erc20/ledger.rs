//! An in-memory model of the fungible-token ledger.
//!
//! The real ledger is an external collaborator: the dispatcher needs only
//! its operations' signatures and outcome shapes. This model pins each
//! operation down with an exact contract over a mathematical view.
//!
//! The model's own contract, where the protocol leaves room: the token is
//! created at most once, and a second creation is rejected with
//! `AlreadyCreated`; a transfer that draws on an allowance spends the
//! allowance granted by `from` to the recipient; a plain transfer moves
//! balance alone.

use vstd::prelude::*;
use crate::account::AccountId;
use crate::LedgerError;

verus! {

/// The mathematical state of the fungible-token ledger. The maps are
/// total: a balance or allowance never granted is zero.
#[verifier::ext_equal]
pub struct Erc20View {
    pub created: bool,
    pub total_supply: u128,
    pub balances: Map<Seq<u8>, u128>,
    pub allowances: Map<(Seq<u8>, Seq<u8>), u128>,
}

struct BalanceEntry {
    owner: AccountId,
    amount: u128,
}

struct AllowanceEntry {
    owner: AccountId,
    spender: AccountId,
    amount: u128,
}

spec fn bal_in(s: Seq<BalanceEntry>, owner: Seq<u8>) -> u128
    decreases s.len(),
{
    if s.len() == 0 {
        0
    } else if s[0].owner@ == owner {
        s[0].amount
    } else {
        bal_in(s.skip(1), owner)
    }
}

spec fn allow_in(s: Seq<AllowanceEntry>, owner: Seq<u8>, spender: Seq<u8>) -> u128
    decreases s.len(),
{
    if s.len() == 0 {
        0
    } else if s[0].owner@ == owner && s[0].spender@ == spender {
        s[0].amount
    } else {
        allow_in(s.skip(1), owner, spender)
    }
}

/// The fungible-token ledger, held as association lists read front-first.
pub struct Erc20Ledger {
    created: bool,
    supply: u128,
    balances: Vec<BalanceEntry>,
    allowances: Vec<AllowanceEntry>,
}

impl View for Erc20Ledger {
    type V = Erc20View;

    closed spec fn view(&self) -> Erc20View {
        Erc20View {
            created: self.created,
            total_supply: self.supply,
            balances: Map::new(|k: Seq<u8>| true, |k: Seq<u8>| bal_in(self.balances@, k)),
            allowances: Map::new(
                |k: (Seq<u8>, Seq<u8>)| true,
                |k: (Seq<u8>, Seq<u8>)| allow_in(self.allowances@, k.0, k.1),
            ),
        }
    }
}

// ---- what each operation does, stated over the view ----

/// Creation hands the whole initial supply to the caller; it is permitted
/// exactly once.
pub open spec fn spec_create(v: Erc20View, caller: Seq<u8>, total_supply: u128) -> Result<
    Erc20View,
    LedgerError,
> {
    if v.created {
        Err(LedgerError::AlreadyCreated)
    } else {
        Ok(
            Erc20View {
                created: true,
                total_supply: total_supply,
                balances: v.balances.insert(caller, total_supply),
                ..v
            },
        )
    }
}

pub open spec fn spec_approve(v: Erc20View, owner: Seq<u8>, spender: Seq<u8>, value: u128)
    -> Erc20View {
    Erc20View { allowances: v.allowances.insert((owner, spender), value), ..v }
}

/// A plain balance move: enough balance at `from`, no overflow at `to`.
pub open spec fn spec_transfer_help(v: Erc20View, from: Seq<u8>, to: Seq<u8>, value: u128)
    -> Result<Erc20View, LedgerError> {
    if v.balances[from] < value {
        Err(LedgerError::InsufficientBalance)
    } else {
        let v1 = Erc20View {
            balances: v.balances.insert(from, (v.balances[from] - value) as u128),
            ..v
        };
        if v1.balances[to] + value > u128::MAX {
            Err(LedgerError::BalanceOverflow)
        } else {
            Ok(
                Erc20View {
                    balances: v1.balances.insert(to, (v1.balances[to] + value) as u128),
                    ..v1
                },
            )
        }
    }
}

/// A transfer that draws on the allowance `from` granted to the
/// recipient: the allowance is spent, then the balance moves.
pub open spec fn spec_transfer_from(v: Erc20View, from: Seq<u8>, to: Seq<u8>, value: u128)
    -> Result<Erc20View, LedgerError> {
    if v.allowances[(from, to)] < value {
        Err(LedgerError::InsufficientAllowance)
    } else {
        let v1 = Erc20View {
            allowances: v.allowances.insert(
                (from, to),
                (v.allowances[(from, to)] - value) as u128,
            ),
            ..v
        };
        spec_transfer_help(v1, from, to, value)
    }
}

impl Erc20Ledger {
    /// A ledger with no created token, no balances, and no allowances.
    pub fn new() -> (r: Erc20Ledger)
        ensures
            !r@.created,
            r@.total_supply == 0,
            forall|o: Seq<u8>| r@.balances[o] == 0,
            forall|o: Seq<u8>, s: Seq<u8>| r@.allowances[(o, s)] == 0,
    {
        Erc20Ledger { created: false, supply: 0, balances: Vec::new(), allowances: Vec::new() }
    }

    /// The total supply fixed at creation; zero before it.
    pub fn total_supply(&self) -> (r: u128)
        ensures
            r == self@.total_supply,
    {
        self.supply
    }

    /// Whether the token has been created.
    pub fn is_created(&self) -> (r: bool)
        ensures
            r == self@.created,
    {
        self.created
    }

    /// An owner's balance; zero when never credited.
    pub fn balance_of(&self, owner: &AccountId) -> (r: u128)
        ensures
            r == self@.balances[owner@],
    {
        let mut i: usize = 0;
        proof {
            assert(self.balances@.skip(0) =~= self.balances@);
        }
        while i < self.balances.len()
            invariant
                i <= self.balances@.len(),
                bal_in(self.balances@, owner@) == bal_in(self.balances@.skip(i as int), owner@),
            decreases self.balances@.len() - i,
        {
            proof {
                assert(self.balances@.skip(i as int)[0] == self.balances@[i as int]);
                assert(self.balances@.skip(i as int).skip(1) =~= self.balances@.skip(i + 1));
            }
            let e = &self.balances[i];
            if e.owner.eq_account(owner) {
                return e.amount;
            }
            i = i + 1;
        }
        proof {
            assert(self.balances@.skip(self.balances@.len() as int)
                =~= Seq::<BalanceEntry>::empty());
        }
        0
    }

    /// What `spender` may still draw from `owner`; zero when never set.
    pub fn allowance_of(&self, owner: &AccountId, spender: &AccountId) -> (r: u128)
        ensures
            r == self@.allowances[(owner@, spender@)],
    {
        let mut i: usize = 0;
        proof {
            assert(self.allowances@.skip(0) =~= self.allowances@);
        }
        while i < self.allowances.len()
            invariant
                i <= self.allowances@.len(),
                allow_in(self.allowances@, owner@, spender@) == allow_in(
                    self.allowances@.skip(i as int),
                    owner@,
                    spender@,
                ),
            decreases self.allowances@.len() - i,
        {
            proof {
                assert(self.allowances@.skip(i as int)[0] == self.allowances@[i as int]);
                assert(self.allowances@.skip(i as int).skip(1) =~= self.allowances@.skip(i + 1));
            }
            let e = &self.allowances[i];
            if e.owner.eq_account(owner) && e.spender.eq_account(spender) {
                return e.amount;
            }
            i = i + 1;
        }
        proof {
            assert(self.allowances@.skip(self.allowances@.len() as int)
                =~= Seq::<AllowanceEntry>::empty());
        }
        0
    }

    fn set_balance(&mut self, owner: &AccountId, amount: u128)
        ensures
            final(self)@ == (Erc20View {
                balances: old(self)@.balances.insert(owner@, amount),
                ..old(self)@
            }),
    {
        let entry = BalanceEntry { owner: owner.duplicate(), amount };
        let ghost ge = entry;
        self.balances.insert(0, entry);
        proof {
            assert(self.balances@ =~= seq![ge] + old(self).balances@);
            assert((seq![ge] + old(self).balances@).skip(1) =~= old(self).balances@);
            assert forall|k: Seq<u8>| #[trigger] self@.balances[k] == old(self)@.balances.insert(
                owner@,
                amount,
            )[k] by {
                assert(bal_in(self.balances@, k) == (if k == owner@ {
                    amount
                } else {
                    bal_in(old(self).balances@, k)
                }));
            }
            assert(self@.balances =~= old(self)@.balances.insert(owner@, amount));
            assert(self@.allowances =~= old(self)@.allowances);
            assert(self@ =~= (Erc20View {
                balances: old(self)@.balances.insert(owner@, amount),
                ..old(self)@
            }));
        }
    }

    fn set_allowance(&mut self, owner: &AccountId, spender: &AccountId, amount: u128)
        ensures
            final(self)@ == spec_approve(old(self)@, owner@, spender@, amount),
    {
        let entry = AllowanceEntry { owner: owner.duplicate(), spender: spender.duplicate(), amount };
        let ghost ge = entry;
        self.allowances.insert(0, entry);
        proof {
            assert(self.allowances@ =~= seq![ge] + old(self).allowances@);
            assert((seq![ge] + old(self).allowances@).skip(1) =~= old(self).allowances@);
            assert forall|k: (Seq<u8>, Seq<u8>)| #[trigger] self@.allowances[k] == old(
                self,
            )@.allowances.insert((owner@, spender@), amount)[k] by {
                assert(allow_in(self.allowances@, k.0, k.1) == (if k.0 == owner@ && k.1
                    == spender@ {
                    amount
                } else {
                    allow_in(old(self).allowances@, k.0, k.1)
                }));
            }
            assert(self@.allowances =~= old(self)@.allowances.insert((owner@, spender@), amount));
            assert(self@.balances =~= old(self)@.balances);
            assert(self@ =~= spec_approve(old(self)@, owner@, spender@, amount));
        }
    }

    /// Creates the token, handing the whole supply to the caller; a second
    /// creation is rejected and changes nothing.
    pub fn create(&mut self, caller: &AccountId, total_supply: u128) -> (r: Result<
        (),
        LedgerError,
    >)
        ensures
            match r {
                Ok(_) => spec_create(old(self)@, caller@, total_supply) == Ok::<
                    Erc20View,
                    LedgerError,
                >(final(self)@),
                Err(e) => spec_create(old(self)@, caller@, total_supply) == Err::<
                    Erc20View,
                    LedgerError,
                >(e) && final(self)@ == old(self)@,
            },
    {
        if self.created {
            return Err(LedgerError::AlreadyCreated);
        }
        self.created = true;
        self.supply = total_supply;
        proof {
            assert(self@.balances =~= old(self)@.balances);
            assert(self@.allowances =~= old(self)@.allowances);
            assert(self@ =~= (Erc20View {
                created: true,
                total_supply: total_supply,
                ..old(self)@
            }));
        }
        self.set_balance(caller, total_supply);
        proof {
            assert(self@ =~= spec_create(old(self)@, caller@, total_supply).unwrap());
        }
        Ok(())
    }

    /// Sets what `spender` may draw from `owner`.
    pub fn do_allowance(&mut self, owner: &AccountId, spender: &AccountId, value: u128) -> (r:
        Result<(), LedgerError>)
        ensures
            r is Ok,
            final(self)@ == spec_approve(old(self)@, owner@, spender@, value),
    {
        self.set_allowance(owner, spender, value);
        Ok(())
    }

    /// Moves `value` from `from` to `to` by balance alone.
    pub fn transfer_help(&mut self, from: &AccountId, to: &AccountId, value: u128) -> (r: Result<
        (),
        LedgerError,
    >)
        ensures
            match r {
                Ok(_) => spec_transfer_help(old(self)@, from@, to@, value) == Ok::<
                    Erc20View,
                    LedgerError,
                >(final(self)@),
                Err(e) => spec_transfer_help(old(self)@, from@, to@, value) == Err::<
                    Erc20View,
                    LedgerError,
                >(e) && final(self)@ == old(self)@,
            },
    {
        let bal_from = self.balance_of(from);
        if bal_from < value {
            return Err(LedgerError::InsufficientBalance);
        }
        let debited = bal_from - value;
        let bal_to = if from.eq_account(to) {
            debited
        } else {
            self.balance_of(to)
        };
        if value > u128::MAX - bal_to {
            return Err(LedgerError::BalanceOverflow);
        }
        self.set_balance(from, debited);
        self.set_balance(to, bal_to + value);
        Ok(())
    }

    /// Moves `value` from `from` to `to`, spending the allowance that
    /// `from` granted to `to`.
    pub fn do_transfer_from(&mut self, from: &AccountId, to: &AccountId, value: u128) -> (r:
        Result<(), LedgerError>)
        ensures
            match r {
                Ok(_) => spec_transfer_from(old(self)@, from@, to@, value) == Ok::<
                    Erc20View,
                    LedgerError,
                >(final(self)@),
                Err(e) => spec_transfer_from(old(self)@, from@, to@, value) == Err::<
                    Erc20View,
                    LedgerError,
                >(e) && final(self)@ == old(self)@,
            },
    {
        let allow = self.allowance_of(from, to);
        if allow < value {
            return Err(LedgerError::InsufficientAllowance);
        }
        let bal_from = self.balance_of(from);
        if bal_from < value {
            return Err(LedgerError::InsufficientBalance);
        }
        let debited = bal_from - value;
        let bal_to = if from.eq_account(to) {
            debited
        } else {
            self.balance_of(to)
        };
        if value > u128::MAX - bal_to {
            return Err(LedgerError::BalanceOverflow);
        }
        self.set_allowance(from, to, allow - value);
        self.set_balance(from, debited);
        self.set_balance(to, bal_to + value);
        Ok(())
    }
}

} // verus!
