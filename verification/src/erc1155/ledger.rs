//! An in-memory model of the token-collection ledger.
//!
//! The real ledger is an external collaborator: the dispatcher needs only
//! its operations' signatures and outcome shapes. This model gives those
//! operations exact contracts over a mathematical view, so every property
//! of the dispatcher that depends on what a handler does to the ledger is
//! proved, and a test can observe the state the dispatcher mutates.
//!
//! Batch operations are all-or-nothing: either every element applies, in
//! order, or the ledger is left exactly as it was.

use vstd::prelude::*;
use crate::account::AccountId;
use crate::LedgerError;

verus! {

/// The mathematical state of the collection ledger. All maps are total:
/// a balance never credited is zero, an approval never granted is false,
/// and a token never registered is `None`.
#[verifier::ext_equal]
pub struct Erc1155View {
    pub balances: Map<(Seq<u8>, u128), u128>,
    pub approvals: Map<(Seq<u8>, Seq<u8>), bool>,
    pub tokens: Map<u128, Option<bool>>,
}

struct BalanceEntry {
    owner: AccountId,
    id: u128,
    amount: u128,
}

struct ApprovalEntry {
    owner: AccountId,
    operator: AccountId,
    approved: bool,
}

struct TokenEntry {
    id: u128,
    nf: bool,
}

spec fn bal_in(s: Seq<BalanceEntry>, owner: Seq<u8>, id: u128) -> u128
    decreases s.len(),
{
    if s.len() == 0 {
        0
    } else if s[0].owner@ == owner && s[0].id == id {
        s[0].amount
    } else {
        bal_in(s.skip(1), owner, id)
    }
}

spec fn appr_in(s: Seq<ApprovalEntry>, owner: Seq<u8>, operator: Seq<u8>) -> bool
    decreases s.len(),
{
    if s.len() == 0 {
        false
    } else if s[0].owner@ == owner && s[0].operator@ == operator {
        s[0].approved
    } else {
        appr_in(s.skip(1), owner, operator)
    }
}

spec fn token_in(s: Seq<TokenEntry>, id: u128) -> Option<bool>
    decreases s.len(),
{
    if s.len() == 0 {
        None
    } else if s[0].id == id {
        Some(s[0].nf)
    } else {
        token_in(s.skip(1), id)
    }
}

/// The collection ledger, held as association lists read front-first.
pub struct Erc1155Ledger {
    balances: Vec<BalanceEntry>,
    approvals: Vec<ApprovalEntry>,
    tokens: Vec<TokenEntry>,
}

impl View for Erc1155Ledger {
    type V = Erc1155View;

    closed spec fn view(&self) -> Erc1155View {
        Erc1155View {
            balances: Map::new(
                |k: (Seq<u8>, u128)| true,
                |k: (Seq<u8>, u128)| bal_in(self.balances@, k.0, k.1),
            ),
            approvals: Map::new(
                |k: (Seq<u8>, Seq<u8>)| true,
                |k: (Seq<u8>, Seq<u8>)| appr_in(self.approvals@, k.0, k.1),
            ),
            tokens: Map::new(|k: u128| true, |k: u128| token_in(self.tokens@, k)),
        }
    }
}

// ---- what each operation does, stated over the view ----

pub open spec fn spec_set_approval(
    v: Erc1155View,
    owner: Seq<u8>,
    operator: Seq<u8>,
    approved: bool,
) -> Erc1155View {
    Erc1155View { approvals: v.approvals.insert((owner, operator), approved), ..v }
}

pub open spec fn spec_mint(v: Erc1155View, to: Seq<u8>, id: u128, amount: u128) -> Result<
    Erc1155View,
    LedgerError,
> {
    if v.balances[(to, id)] + amount > u128::MAX {
        Err(LedgerError::BalanceOverflow)
    } else {
        Ok(
            Erc1155View {
                balances: v.balances.insert((to, id), (v.balances[(to, id)] + amount) as u128),
                ..v
            },
        )
    }
}

pub open spec fn spec_burn(v: Erc1155View, from: Seq<u8>, id: u128, amount: u128) -> Result<
    Erc1155View,
    LedgerError,
> {
    if v.balances[(from, id)] < amount {
        Err(LedgerError::InsufficientBalance)
    } else {
        Ok(
            Erc1155View {
                balances: v.balances.insert((from, id), (v.balances[(from, id)] - amount) as u128),
                ..v
            },
        )
    }
}

pub open spec fn spec_transfer(
    v: Erc1155View,
    from: Seq<u8>,
    to: Seq<u8>,
    id: u128,
    amount: u128,
) -> Result<Erc1155View, LedgerError> {
    if v.balances[(from, id)] < amount {
        Err(LedgerError::InsufficientBalance)
    } else {
        let v1 = Erc1155View {
            balances: v.balances.insert((from, id), (v.balances[(from, id)] - amount) as u128),
            ..v
        };
        if v1.balances[(to, id)] + amount > u128::MAX {
            Err(LedgerError::BalanceOverflow)
        } else {
            Ok(
                Erc1155View {
                    balances: v1.balances.insert(
                        (to, id),
                        (v1.balances[(to, id)] + amount) as u128,
                    ),
                    ..v1
                },
            )
        }
    }
}

pub open spec fn spec_register_token(v: Erc1155View, id: u128, nf: bool) -> Result<
    Erc1155View,
    LedgerError,
> {
    if v.tokens[id] is Some {
        Err(LedgerError::AlreadyCreated)
    } else {
        Ok(Erc1155View { tokens: v.tokens.insert(id, Some(nf)), ..v })
    }
}

/// Batch minting applies each element in order; the first failing element
/// decides the error, and mismatched sequence lengths are an error before
/// any element is considered.
pub open spec fn spec_batch_mint(
    v: Erc1155View,
    to: Seq<u8>,
    ids: Seq<u128>,
    amounts: Seq<u128>,
) -> Result<Erc1155View, LedgerError>
    decreases ids.len(),
{
    if ids.len() != amounts.len() {
        Err(LedgerError::LengthMismatch)
    } else if ids.len() == 0 {
        Ok(v)
    } else {
        match spec_mint(v, to, ids[0], amounts[0]) {
            Err(e) => Err(e),
            Ok(v1) => spec_batch_mint(v1, to, ids.skip(1), amounts.skip(1)),
        }
    }
}

pub open spec fn spec_batch_burn(
    v: Erc1155View,
    from: Seq<u8>,
    ids: Seq<u128>,
    amounts: Seq<u128>,
) -> Result<Erc1155View, LedgerError>
    decreases ids.len(),
{
    if ids.len() != amounts.len() {
        Err(LedgerError::LengthMismatch)
    } else if ids.len() == 0 {
        Ok(v)
    } else {
        match spec_burn(v, from, ids[0], amounts[0]) {
            Err(e) => Err(e),
            Ok(v1) => spec_batch_burn(v1, from, ids.skip(1), amounts.skip(1)),
        }
    }
}

pub open spec fn spec_batch_transfer(
    v: Erc1155View,
    from: Seq<u8>,
    to: Seq<u8>,
    ids: Seq<u128>,
    amounts: Seq<u128>,
) -> Result<Erc1155View, LedgerError>
    decreases ids.len(),
{
    if ids.len() != amounts.len() {
        Err(LedgerError::LengthMismatch)
    } else if ids.len() == 0 {
        Ok(v)
    } else {
        match spec_transfer(v, from, to, ids[0], amounts[0]) {
            Err(e) => Err(e),
            Ok(v1) => spec_batch_transfer(v1, from, to, ids.skip(1), amounts.skip(1)),
        }
    }
}

/// `who` may act on `account`'s tokens: they are the same account, or
/// `account` has approved `who` as an operator.
pub open spec fn spec_approved_or_owner(v: Erc1155View, who: Seq<u8>, account: Seq<u8>) -> bool {
    who == account || v.approvals[(account, who)]
}


impl Erc1155Ledger {
    /// A ledger with no balances, no approvals, and no registered tokens.
    pub fn new() -> (r: Erc1155Ledger)
        ensures
            forall|o: Seq<u8>, i: u128| r@.balances[(o, i)] == 0,
            forall|o: Seq<u8>, p: Seq<u8>| !r@.approvals[(o, p)],
            forall|i: u128| r@.tokens[i] is None,
    {
        Erc1155Ledger { balances: Vec::new(), approvals: Vec::new(), tokens: Vec::new() }
    }

    /// The balance of one token held by an owner; zero when never touched.
    pub fn balance_of(&self, owner: &AccountId, id: u128) -> (r: u128)
        ensures
            r == self@.balances[(owner@, id)],
    {
        let mut i: usize = 0;
        proof {
            assert(self.balances@.skip(0) =~= self.balances@);
        }
        while i < self.balances.len()
            invariant
                i <= self.balances@.len(),
                bal_in(self.balances@, owner@, id) == bal_in(
                    self.balances@.skip(i as int),
                    owner@,
                    id,
                ),
            decreases self.balances@.len() - i,
        {
            proof {
                assert(self.balances@.skip(i as int)[0] == self.balances@[i as int]);
                assert(self.balances@.skip(i as int).skip(1) =~= self.balances@.skip(i + 1));
            }
            let e = &self.balances[i];
            if e.owner.eq_account(owner) && e.id == id {
                return e.amount;
            }
            i = i + 1;
        }
        proof {
            assert(self.balances@.skip(self.balances@.len() as int)
                =~= Seq::<BalanceEntry>::empty());
        }
        0
    }

    /// Whether an operator is approved for all of an owner's tokens.
    pub fn is_approved_for_all(&self, owner: &AccountId, operator: &AccountId) -> (r: bool)
        ensures
            r == self@.approvals[(owner@, operator@)],
    {
        let mut i: usize = 0;
        proof {
            assert(self.approvals@.skip(0) =~= self.approvals@);
        }
        while i < self.approvals.len()
            invariant
                i <= self.approvals@.len(),
                appr_in(self.approvals@, owner@, operator@) == appr_in(
                    self.approvals@.skip(i as int),
                    owner@,
                    operator@,
                ),
            decreases self.approvals@.len() - i,
        {
            proof {
                assert(self.approvals@.skip(i as int)[0] == self.approvals@[i as int]);
                assert(self.approvals@.skip(i as int).skip(1) =~= self.approvals@.skip(i + 1));
            }
            let e = &self.approvals[i];
            if e.owner.eq_account(owner) && e.operator.eq_account(operator) {
                return e.approved;
            }
            i = i + 1;
        }
        proof {
            assert(self.approvals@.skip(self.approvals@.len() as int)
                =~= Seq::<ApprovalEntry>::empty());
        }
        false
    }

    /// Whether a registered token id is non-fungible; unknown ids are an
    /// error.
    pub fn is_nf(&self, id: u128) -> (r: Result<bool, LedgerError>)
        ensures
            match self@.tokens[id] {
                Some(nf) => r == Ok::<bool, LedgerError>(nf),
                None => r == Err::<bool, LedgerError>(LedgerError::UnknownToken),
            },
    {
        let mut i: usize = 0;
        proof {
            assert(self.tokens@.skip(0) =~= self.tokens@);
        }
        while i < self.tokens.len()
            invariant
                i <= self.tokens@.len(),
                token_in(self.tokens@, id) == token_in(self.tokens@.skip(i as int), id),
            decreases self.tokens@.len() - i,
        {
            proof {
                assert(self.tokens@.skip(i as int)[0] == self.tokens@[i as int]);
                assert(self.tokens@.skip(i as int).skip(1) =~= self.tokens@.skip(i + 1));
            }
            let e = &self.tokens[i];
            if e.id == id {
                return Ok(e.nf);
            }
            i = i + 1;
        }
        proof {
            assert(self.tokens@.skip(self.tokens@.len() as int) =~= Seq::<TokenEntry>::empty());
        }
        Err(LedgerError::UnknownToken)
    }

    /// Whether `who` may act on `account`'s tokens.
    pub fn approved_or_owner(&self, who: &AccountId, account: &AccountId) -> (r: bool)
        ensures
            r == spec_approved_or_owner(self@, who@, account@),
    {
        if who.eq_account(account) {
            true
        } else {
            self.is_approved_for_all(account, who)
        }
    }

    fn set_balance(&mut self, owner: &AccountId, id: u128, amount: u128)
        ensures
            final(self)@ == (Erc1155View {
                balances: old(self)@.balances.insert((owner@, id), amount),
                ..old(self)@
            }),
    {
        let entry = BalanceEntry { owner: owner.duplicate(), id, amount };
        let ghost ge = entry;
        self.balances.insert(0, entry);
        proof {
            assert(self.balances@ =~= seq![ge] + old(self).balances@);
            assert((seq![ge] + old(self).balances@).skip(1) =~= old(self).balances@);
            assert forall|k: (Seq<u8>, u128)| #[trigger] self@.balances[k] == old(
                self,
            )@.balances.insert((owner@, id), amount)[k] by {
                assert(bal_in(self.balances@, k.0, k.1) == (if k.0 == owner@ && k.1 == id {
                    amount
                } else {
                    bal_in(old(self).balances@, k.0, k.1)
                }));
            }
            assert(self@.balances =~= old(self)@.balances.insert((owner@, id), amount));
            assert(self@.approvals =~= old(self)@.approvals);
            assert(self@.tokens =~= old(self)@.tokens);
            assert(self@ =~= (Erc1155View {
                balances: old(self)@.balances.insert((owner@, id), amount),
                ..old(self)@
            }));
        }
    }

    fn set_approval(&mut self, owner: &AccountId, operator: &AccountId, approved: bool)
        ensures
            final(self)@ == spec_set_approval(old(self)@, owner@, operator@, approved),
    {
        let entry = ApprovalEntry {
            owner: owner.duplicate(),
            operator: operator.duplicate(),
            approved,
        };
        let ghost ge = entry;
        self.approvals.insert(0, entry);
        proof {
            assert(self.approvals@ =~= seq![ge] + old(self).approvals@);
            assert((seq![ge] + old(self).approvals@).skip(1) =~= old(self).approvals@);
            assert forall|k: (Seq<u8>, Seq<u8>)| #[trigger] self@.approvals[k] == old(
                self,
            )@.approvals.insert((owner@, operator@), approved)[k] by {
                assert(appr_in(self.approvals@, k.0, k.1) == (if k.0 == owner@ && k.1 == operator@ {
                    approved
                } else {
                    appr_in(old(self).approvals@, k.0, k.1)
                }));
            }
            assert(self@.approvals =~= old(self)@.approvals.insert((owner@, operator@), approved));
            assert(self@.balances =~= old(self)@.balances);
            assert(self@.tokens =~= old(self)@.tokens);
            assert(self@ =~= spec_set_approval(old(self)@, owner@, operator@, approved));
        }
    }

    fn set_token(&mut self, id: u128, nf: bool)
        ensures
            final(self)@ == (Erc1155View {
                tokens: old(self)@.tokens.insert(id, Some(nf)),
                ..old(self)@
            }),
    {
        let entry = TokenEntry { id, nf };
        let ghost ge = entry;
        self.tokens.insert(0, entry);
        proof {
            assert(self.tokens@ =~= seq![ge] + old(self).tokens@);
            assert((seq![ge] + old(self).tokens@).skip(1) =~= old(self).tokens@);
            assert forall|k: u128| #[trigger] self@.tokens[k] == old(self)@.tokens.insert(
                id,
                Some(nf),
            )[k] by {
                assert(token_in(self.tokens@, k) == (if k == id {
                    Some(nf)
                } else {
                    token_in(old(self).tokens@, k)
                }));
            }
            assert(self@.tokens =~= old(self)@.tokens.insert(id, Some(nf)));
            assert(self@.balances =~= old(self)@.balances);
            assert(self@.approvals =~= old(self)@.approvals);
            assert(self@ =~= (Erc1155View {
                tokens: old(self)@.tokens.insert(id, Some(nf)),
                ..old(self)@
            }));
        }
    }
}


impl Erc1155Ledger {
    /// Sets whether `operator` may act on all of `owner`'s tokens.
    pub fn do_set_approval_for_all(
        &mut self,
        owner: &AccountId,
        operator: &AccountId,
        approved: bool,
    ) -> (r: Result<(), LedgerError>)
        ensures
            r is Ok,
            final(self)@ == spec_set_approval(old(self)@, owner@, operator@, approved),
    {
        self.set_approval(owner, operator, approved);
        Ok(())
    }

    /// Credits `amount` of token `id` to `to`.
    pub fn do_mint(&mut self, to: &AccountId, id: u128, amount: u128) -> (r: Result<
        (),
        LedgerError,
    >)
        ensures
            match r {
                Ok(_) => spec_mint(old(self)@, to@, id, amount) == Ok::<Erc1155View, LedgerError>(
                    final(self)@,
                ),
                Err(e) => spec_mint(old(self)@, to@, id, amount) == Err::<
                    Erc1155View,
                    LedgerError,
                >(e) && final(self)@ == old(self)@,
            },
    {
        let bal = self.balance_of(to, id);
        if amount > u128::MAX - bal {
            return Err(LedgerError::BalanceOverflow);
        }
        self.set_balance(to, id, bal + amount);
        Ok(())
    }

    /// Debits `amount` of token `id` from `from`.
    pub fn do_burn(&mut self, from: &AccountId, id: u128, amount: u128) -> (r: Result<
        (),
        LedgerError,
    >)
        ensures
            match r {
                Ok(_) => spec_burn(old(self)@, from@, id, amount) == Ok::<Erc1155View, LedgerError>(
                    final(self)@,
                ),
                Err(e) => spec_burn(old(self)@, from@, id, amount) == Err::<
                    Erc1155View,
                    LedgerError,
                >(e) && final(self)@ == old(self)@,
            },
    {
        let bal = self.balance_of(from, id);
        if bal < amount {
            return Err(LedgerError::InsufficientBalance);
        }
        self.set_balance(from, id, bal - amount);
        Ok(())
    }

    /// Moves `amount` of token `id` from `from` to `to`.
    pub fn do_transfer_from(&mut self, from: &AccountId, to: &AccountId, id: u128, amount: u128)
        -> (r: Result<(), LedgerError>)
        ensures
            match r {
                Ok(_) => spec_transfer(old(self)@, from@, to@, id, amount) == Ok::<
                    Erc1155View,
                    LedgerError,
                >(final(self)@),
                Err(e) => spec_transfer(old(self)@, from@, to@, id, amount) == Err::<
                    Erc1155View,
                    LedgerError,
                >(e) && final(self)@ == old(self)@,
            },
    {
        let bal_from = self.balance_of(from, id);
        if bal_from < amount {
            return Err(LedgerError::InsufficientBalance);
        }
        let debited = bal_from - amount;
        let bal_to = if from.eq_account(to) {
            debited
        } else {
            self.balance_of(to, id)
        };
        if amount > u128::MAX - bal_to {
            return Err(LedgerError::BalanceOverflow);
        }
        self.set_balance(from, id, debited);
        self.set_balance(to, id, bal_to + amount);
        Ok(())
    }

    /// Registers a token id with its fungibility flag; an id can be
    /// registered only once.
    pub fn register_token(&mut self, id: u128, nf: bool) -> (r: Result<(), LedgerError>)
        ensures
            match r {
                Ok(_) => spec_register_token(old(self)@, id, nf) == Ok::<Erc1155View, LedgerError>(
                    final(self)@,
                ),
                Err(e) => spec_register_token(old(self)@, id, nf) == Err::<
                    Erc1155View,
                    LedgerError,
                >(e) && final(self)@ == old(self)@,
            },
    {
        match self.is_nf(id) {
            Ok(_) => Err(LedgerError::AlreadyCreated),
            Err(_) => {
                self.set_token(id, nf);
                Ok(())
            },
        }
    }

    fn snapshot_balances(&self) -> (r: Vec<BalanceEntry>)
        ensures
            r@.len() == self.balances@.len(),
            forall|j: int|
                0 <= j < r@.len() ==> (#[trigger] r@[j]).owner@ == self.balances@[j].owner@
                    && r@[j].id == self.balances@[j].id && r@[j].amount
                    == self.balances@[j].amount,
    {
        let mut out: Vec<BalanceEntry> = Vec::new();
        let mut i: usize = 0;
        while i < self.balances.len()
            invariant
                i <= self.balances@.len(),
                out@.len() == i,
                forall|j: int|
                    0 <= j < i ==> (#[trigger] out@[j]).owner@ == self.balances@[j].owner@
                        && out@[j].id == self.balances@[j].id && out@[j].amount
                        == self.balances@[j].amount,
            decreases self.balances@.len() - i,
        {
            let e = &self.balances[i];
            out.push(BalanceEntry { owner: e.owner.duplicate(), id: e.id, amount: e.amount });
            i = i + 1;
        }
        out
    }

    fn restore_balances(&mut self, saved: Vec<BalanceEntry>)
        ensures
            forall|k: (Seq<u8>, u128)| #[trigger] final(self)@.balances[k] == bal_in(
                saved@,
                k.0,
                k.1,
            ),
            final(self)@.approvals == old(self)@.approvals,
            final(self)@.tokens == old(self)@.tokens,
    {
        self.balances = saved;
        proof {
            assert(self@.approvals =~= old(self)@.approvals);
            assert(self@.tokens =~= old(self)@.tokens);
        }
    }

    /// Applies every element in order, or leaves the ledger exactly as it
    /// was: the first failing element decides the error.
    pub fn do_batch_mint(&mut self, to: &AccountId, ids: &Vec<u128>, amounts: Vec<u128>) -> (r:
        Result<(), LedgerError>)
        ensures
            match r {
                Ok(_) => spec_batch_mint(old(self)@, to@, ids@, amounts@)
                    == Ok::<Erc1155View, LedgerError>(final(self)@),
                Err(e) => spec_batch_mint(old(self)@, to@, ids@, amounts@)
                    == Err::<Erc1155View, LedgerError>(e) && final(self)@ == old(self)@,
            },
    {
        if ids.len() != amounts.len() {
            return Err(LedgerError::LengthMismatch);
        }
        let saved = self.snapshot_balances();
        let mut i: usize = 0;
        proof {
            assert(ids@.take(0) =~= Seq::<u128>::empty());
            assert(amounts@.take(0) =~= Seq::<u128>::empty());
        }
        while i < ids.len()
            invariant
                i <= ids@.len(),
                ids@.len() == amounts@.len(),
                spec_batch_mint(old(self)@, to@, ids@.take(i as int), amounts@.take(i as int))
                    == Ok::<Erc1155View, LedgerError>(self@),
                self@.approvals == old(self)@.approvals,
                self@.tokens == old(self)@.tokens,
                saved@.len() == old(self).balances@.len(),
                forall|j: int|
                    0 <= j < saved@.len() ==> (#[trigger] saved@[j]).owner@ == old(
                        self,
                    ).balances@[j].owner@ && saved@[j].id == old(self).balances@[j].id
                        && saved@[j].amount == old(self).balances@[j].amount,
            decreases ids@.len() - i,
        {
            proof {
                lemma_batch_mint_split(
                    old(self)@,
                    to@,
                    ids@.take(i + 1),
                    amounts@.take(i + 1),
                    i as int,
                );
                assert(ids@.take(i + 1).take(i as int) =~= ids@.take(i as int));
                assert(amounts@.take(i + 1).take(i as int) =~= amounts@.take(i as int));
                assert(ids@.take(i + 1).skip(i as int) =~= seq![ids@[i as int]]);
                assert(amounts@.take(i + 1).skip(i as int) =~= seq![amounts@[i as int]]);
                assert(seq![ids@[i as int]].skip(1) =~= Seq::<u128>::empty());
                assert(seq![amounts@[i as int]].skip(1) =~= Seq::<u128>::empty());
                lemma_batch_mint_split(old(self)@, to@, ids@, amounts@, i as int);
                assert(ids@.skip(i as int)[0] == ids@[i as int]);
                assert(amounts@.skip(i as int)[0] == amounts@[i as int]);
            }
            match self.do_mint(to, ids[i], amounts[i]) {
                Ok(_) => {
                    proof {
                        assert(spec_batch_mint(
                            self@,
                            to@,
                            Seq::<u128>::empty(),
                            Seq::<u128>::empty(),
                        ) == Ok::<Erc1155View, LedgerError>(self@));
                        assert(spec_batch_mint(
                            old(self)@,
                            to@,
                            ids@.take(i + 1),
                            amounts@.take(i + 1),
                        ) == Ok::<Erc1155View, LedgerError>(self@));
                    }
                },
                Err(e) => {
                    proof {
                        assert(spec_batch_mint(old(self)@, to@, ids@, amounts@)
                            == Err::<Erc1155View, LedgerError>(e));
                    }
                    self.restore_balances(saved);
                    proof {
                        assert forall|k: (Seq<u8>, u128)| #[trigger] self@.balances[k] == old(
                            self,
                        )@.balances[k] by {
                            lemma_bal_in_equiv(saved@, old(self).balances@, k.0, k.1);
                        }
                        assert(self@.balances =~= old(self)@.balances);
                        assert(self@ =~= old(self)@);
                    }
                    return Err(e);
                },
            }
            i = i + 1;
        }
        proof {
            assert(ids@.take(ids@.len() as int) =~= ids@);
            assert(amounts@.take(amounts@.len() as int) =~= amounts@);
        }
        Ok(())
    }

    /// Applies every element in order, or leaves the ledger exactly as it
    /// was: the first failing element decides the error.
    pub fn do_batch_burn(&mut self, from: &AccountId, ids: &Vec<u128>, amounts: Vec<u128>) -> (r:
        Result<(), LedgerError>)
        ensures
            match r {
                Ok(_) => spec_batch_burn(old(self)@, from@, ids@, amounts@)
                    == Ok::<Erc1155View, LedgerError>(final(self)@),
                Err(e) => spec_batch_burn(old(self)@, from@, ids@, amounts@)
                    == Err::<Erc1155View, LedgerError>(e) && final(self)@ == old(self)@,
            },
    {
        if ids.len() != amounts.len() {
            return Err(LedgerError::LengthMismatch);
        }
        let saved = self.snapshot_balances();
        let mut i: usize = 0;
        proof {
            assert(ids@.take(0) =~= Seq::<u128>::empty());
            assert(amounts@.take(0) =~= Seq::<u128>::empty());
        }
        while i < ids.len()
            invariant
                i <= ids@.len(),
                ids@.len() == amounts@.len(),
                spec_batch_burn(old(self)@, from@, ids@.take(i as int), amounts@.take(i as int))
                    == Ok::<Erc1155View, LedgerError>(self@),
                self@.approvals == old(self)@.approvals,
                self@.tokens == old(self)@.tokens,
                saved@.len() == old(self).balances@.len(),
                forall|j: int|
                    0 <= j < saved@.len() ==> (#[trigger] saved@[j]).owner@ == old(
                        self,
                    ).balances@[j].owner@ && saved@[j].id == old(self).balances@[j].id
                        && saved@[j].amount == old(self).balances@[j].amount,
            decreases ids@.len() - i,
        {
            proof {
                lemma_batch_burn_split(
                    old(self)@,
                    from@,
                    ids@.take(i + 1),
                    amounts@.take(i + 1),
                    i as int,
                );
                assert(ids@.take(i + 1).take(i as int) =~= ids@.take(i as int));
                assert(amounts@.take(i + 1).take(i as int) =~= amounts@.take(i as int));
                assert(ids@.take(i + 1).skip(i as int) =~= seq![ids@[i as int]]);
                assert(amounts@.take(i + 1).skip(i as int) =~= seq![amounts@[i as int]]);
                assert(seq![ids@[i as int]].skip(1) =~= Seq::<u128>::empty());
                assert(seq![amounts@[i as int]].skip(1) =~= Seq::<u128>::empty());
                lemma_batch_burn_split(old(self)@, from@, ids@, amounts@, i as int);
                assert(ids@.skip(i as int)[0] == ids@[i as int]);
                assert(amounts@.skip(i as int)[0] == amounts@[i as int]);
            }
            match self.do_burn(from, ids[i], amounts[i]) {
                Ok(_) => {
                    proof {
                        assert(spec_batch_burn(
                            self@,
                            from@,
                            Seq::<u128>::empty(),
                            Seq::<u128>::empty(),
                        ) == Ok::<Erc1155View, LedgerError>(self@));
                        assert(spec_batch_burn(
                            old(self)@,
                            from@,
                            ids@.take(i + 1),
                            amounts@.take(i + 1),
                        ) == Ok::<Erc1155View, LedgerError>(self@));
                    }
                },
                Err(e) => {
                    proof {
                        assert(spec_batch_burn(old(self)@, from@, ids@, amounts@)
                            == Err::<Erc1155View, LedgerError>(e));
                    }
                    self.restore_balances(saved);
                    proof {
                        assert forall|k: (Seq<u8>, u128)| #[trigger] self@.balances[k] == old(
                            self,
                        )@.balances[k] by {
                            lemma_bal_in_equiv(saved@, old(self).balances@, k.0, k.1);
                        }
                        assert(self@.balances =~= old(self)@.balances);
                        assert(self@ =~= old(self)@);
                    }
                    return Err(e);
                },
            }
            i = i + 1;
        }
        proof {
            assert(ids@.take(ids@.len() as int) =~= ids@);
            assert(amounts@.take(amounts@.len() as int) =~= amounts@);
        }
        Ok(())
    }

    /// Applies every element in order, or leaves the ledger exactly as it
    /// was: the first failing element decides the error.
    pub fn do_batch_transfer_from(&mut self, from: &AccountId, to: &AccountId, ids: &Vec<u128>, amounts: Vec<u128>) -> (r:
        Result<(), LedgerError>)
        ensures
            match r {
                Ok(_) => spec_batch_transfer(old(self)@, from@, to@, ids@, amounts@)
                    == Ok::<Erc1155View, LedgerError>(final(self)@),
                Err(e) => spec_batch_transfer(old(self)@, from@, to@, ids@, amounts@)
                    == Err::<Erc1155View, LedgerError>(e) && final(self)@ == old(self)@,
            },
    {
        if ids.len() != amounts.len() {
            return Err(LedgerError::LengthMismatch);
        }
        let saved = self.snapshot_balances();
        let mut i: usize = 0;
        proof {
            assert(ids@.take(0) =~= Seq::<u128>::empty());
            assert(amounts@.take(0) =~= Seq::<u128>::empty());
        }
        while i < ids.len()
            invariant
                i <= ids@.len(),
                ids@.len() == amounts@.len(),
                spec_batch_transfer(old(self)@, from@, to@, ids@.take(i as int), amounts@.take(i as int))
                    == Ok::<Erc1155View, LedgerError>(self@),
                self@.approvals == old(self)@.approvals,
                self@.tokens == old(self)@.tokens,
                saved@.len() == old(self).balances@.len(),
                forall|j: int|
                    0 <= j < saved@.len() ==> (#[trigger] saved@[j]).owner@ == old(
                        self,
                    ).balances@[j].owner@ && saved@[j].id == old(self).balances@[j].id
                        && saved@[j].amount == old(self).balances@[j].amount,
            decreases ids@.len() - i,
        {
            proof {
                lemma_batch_transfer_split(
                    old(self)@,
                    from@, to@,
                    ids@.take(i + 1),
                    amounts@.take(i + 1),
                    i as int,
                );
                assert(ids@.take(i + 1).take(i as int) =~= ids@.take(i as int));
                assert(amounts@.take(i + 1).take(i as int) =~= amounts@.take(i as int));
                assert(ids@.take(i + 1).skip(i as int) =~= seq![ids@[i as int]]);
                assert(amounts@.take(i + 1).skip(i as int) =~= seq![amounts@[i as int]]);
                assert(seq![ids@[i as int]].skip(1) =~= Seq::<u128>::empty());
                assert(seq![amounts@[i as int]].skip(1) =~= Seq::<u128>::empty());
                lemma_batch_transfer_split(old(self)@, from@, to@, ids@, amounts@, i as int);
                assert(ids@.skip(i as int)[0] == ids@[i as int]);
                assert(amounts@.skip(i as int)[0] == amounts@[i as int]);
            }
            match self.do_transfer_from(from, to, ids[i], amounts[i]) {
                Ok(_) => {
                    proof {
                        assert(spec_batch_transfer(
                            self@,
                            from@, to@,
                            Seq::<u128>::empty(),
                            Seq::<u128>::empty(),
                        ) == Ok::<Erc1155View, LedgerError>(self@));
                        assert(spec_batch_transfer(
                            old(self)@,
                            from@, to@,
                            ids@.take(i + 1),
                            amounts@.take(i + 1),
                        ) == Ok::<Erc1155View, LedgerError>(self@));
                    }
                },
                Err(e) => {
                    proof {
                        assert(spec_batch_transfer(old(self)@, from@, to@, ids@, amounts@)
                            == Err::<Erc1155View, LedgerError>(e));
                    }
                    self.restore_balances(saved);
                    proof {
                        assert forall|k: (Seq<u8>, u128)| #[trigger] self@.balances[k] == old(
                            self,
                        )@.balances[k] by {
                            lemma_bal_in_equiv(saved@, old(self).balances@, k.0, k.1);
                        }
                        assert(self@.balances =~= old(self)@.balances);
                        assert(self@ =~= old(self)@);
                    }
                    return Err(e);
                },
            }
            i = i + 1;
        }
        proof {
            assert(ids@.take(ids@.len() as int) =~= ids@);
            assert(amounts@.take(amounts@.len() as int) =~= amounts@);
        }
        Ok(())
    }
}

proof fn lemma_batch_mint_split(v: Erc1155View, to: Seq<u8>, ids: Seq<u128>, amounts: Seq<u128>, i: int)
    requires
        ids.len() == amounts.len(),
        0 <= i <= ids.len(),
    ensures
        spec_batch_mint(v, to, ids, amounts) == (match spec_batch_mint(
            v,
            to,
            ids.take(i),
            amounts.take(i),
        ) {
            Ok(vi) => spec_batch_mint(vi, to, ids.skip(i), amounts.skip(i)),
            Err(e) => Err::<Erc1155View, LedgerError>(e),
        }),
    decreases i,
{
    if i == 0 {
        assert(ids.take(0) =~= Seq::<u128>::empty());
        assert(amounts.take(0) =~= Seq::<u128>::empty());
        assert(ids.skip(0) =~= ids);
        assert(amounts.skip(0) =~= amounts);
    } else {
        assert(ids.take(i)[0] == ids[0]);
        assert(amounts.take(i)[0] == amounts[0]);
        if spec_mint(v, to, ids[0], amounts[0]) is Ok {
            let v1 = spec_mint(v, to, ids[0], amounts[0]).unwrap();
            assert(ids.take(i).skip(1) =~= ids.skip(1).take(i - 1));
            assert(amounts.take(i).skip(1) =~= amounts.skip(1).take(i - 1));
            assert(ids.skip(1).skip(i - 1) =~= ids.skip(i));
            assert(amounts.skip(1).skip(i - 1) =~= amounts.skip(i));
            lemma_batch_mint_split(v1, to, ids.skip(1), amounts.skip(1), i - 1);
        }
    }
}

proof fn lemma_batch_burn_split(v: Erc1155View, from: Seq<u8>, ids: Seq<u128>, amounts: Seq<u128>, i: int)
    requires
        ids.len() == amounts.len(),
        0 <= i <= ids.len(),
    ensures
        spec_batch_burn(v, from, ids, amounts) == (match spec_batch_burn(
            v,
            from,
            ids.take(i),
            amounts.take(i),
        ) {
            Ok(vi) => spec_batch_burn(vi, from, ids.skip(i), amounts.skip(i)),
            Err(e) => Err::<Erc1155View, LedgerError>(e),
        }),
    decreases i,
{
    if i == 0 {
        assert(ids.take(0) =~= Seq::<u128>::empty());
        assert(amounts.take(0) =~= Seq::<u128>::empty());
        assert(ids.skip(0) =~= ids);
        assert(amounts.skip(0) =~= amounts);
    } else {
        assert(ids.take(i)[0] == ids[0]);
        assert(amounts.take(i)[0] == amounts[0]);
        if spec_burn(v, from, ids[0], amounts[0]) is Ok {
            let v1 = spec_burn(v, from, ids[0], amounts[0]).unwrap();
            assert(ids.take(i).skip(1) =~= ids.skip(1).take(i - 1));
            assert(amounts.take(i).skip(1) =~= amounts.skip(1).take(i - 1));
            assert(ids.skip(1).skip(i - 1) =~= ids.skip(i));
            assert(amounts.skip(1).skip(i - 1) =~= amounts.skip(i));
            lemma_batch_burn_split(v1, from, ids.skip(1), amounts.skip(1), i - 1);
        }
    }
}

proof fn lemma_batch_transfer_split(v: Erc1155View, from: Seq<u8>, to: Seq<u8>, ids: Seq<u128>, amounts: Seq<u128>, i: int)
    requires
        ids.len() == amounts.len(),
        0 <= i <= ids.len(),
    ensures
        spec_batch_transfer(v, from, to, ids, amounts) == (match spec_batch_transfer(
            v,
            from, to,
            ids.take(i),
            amounts.take(i),
        ) {
            Ok(vi) => spec_batch_transfer(vi, from, to, ids.skip(i), amounts.skip(i)),
            Err(e) => Err::<Erc1155View, LedgerError>(e),
        }),
    decreases i,
{
    if i == 0 {
        assert(ids.take(0) =~= Seq::<u128>::empty());
        assert(amounts.take(0) =~= Seq::<u128>::empty());
        assert(ids.skip(0) =~= ids);
        assert(amounts.skip(0) =~= amounts);
    } else {
        assert(ids.take(i)[0] == ids[0]);
        assert(amounts.take(i)[0] == amounts[0]);
        if spec_transfer(v, from, to, ids[0], amounts[0]) is Ok {
            let v1 = spec_transfer(v, from, to, ids[0], amounts[0]).unwrap();
            assert(ids.take(i).skip(1) =~= ids.skip(1).take(i - 1));
            assert(amounts.take(i).skip(1) =~= amounts.skip(1).take(i - 1));
            assert(ids.skip(1).skip(i - 1) =~= ids.skip(i));
            assert(amounts.skip(1).skip(i - 1) =~= amounts.skip(i));
            lemma_batch_transfer_split(v1, from, to, ids.skip(1), amounts.skip(1), i - 1);
        }
    }
}

proof fn lemma_bal_in_equiv(s1: Seq<BalanceEntry>, s2: Seq<BalanceEntry>, owner: Seq<u8>, id: u128)
    requires
        s1.len() == s2.len(),
        forall|j: int|
            0 <= j < s1.len() ==> (#[trigger] s1[j]).owner@ == s2[j].owner@ && s1[j].id == s2[j].id
                && s1[j].amount == s2[j].amount,
    ensures
        bal_in(s1, owner, id) == bal_in(s2, owner, id),
    decreases s1.len(),
{
    if s1.len() > 0 {
        assert(forall|j: int|
            0 <= j < s1.skip(1).len() ==> #[trigger] s1.skip(1)[j] == s1[j + 1] && s2.skip(1)[j]
                == s2[j + 1]);
        lemma_bal_in_equiv(s1.skip(1), s2.skip(1), owner, id);
    }
}


/// Granting an approval a second time, identically, changes nothing: the
/// ledger after the second grant is the ledger after the first.
pub proof fn lemma_set_approval_idempotent(
    v: Erc1155View,
    owner: Seq<u8>,
    operator: Seq<u8>,
    approved: bool,
)
    ensures
        spec_set_approval(
            spec_set_approval(v, owner, operator, approved),
            owner,
            operator,
            approved,
        ) == spec_set_approval(v, owner, operator, approved),
{
    let v1 = spec_set_approval(v, owner, operator, approved);
    let v2 = spec_set_approval(v1, owner, operator, approved);
    assert(v2.approvals =~= v1.approvals);
    assert(v2 =~= v1);
}

} // verus!
