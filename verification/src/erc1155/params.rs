//! Parameter records of the token-collection extension.
//!
//! One record per selector, with the field order fixed by the wire
//! protocol. `decode` accepts a payload exactly when it is the record's
//! encoding (the spec-level parser in `payload` is the authority), and
//! `encode` produces that encoding.

use vstd::prelude::*;
use crate::account::{AccountId, read_account, write_account, read_account_vec, write_accounts,
    views_of};
use crate::codec::{read_u128_le, read_bool, read_u128_vec, write_u128_le, write_bool,
    write_u128_vec, lemma_dec_account_vec_sound, all_accounts};
use crate::payload::{dec_acct_acct_bool, enc_acct_acct_bool, dec_acct_u128_u128,
    enc_acct_u128_u128, dec_acct_vecs, enc_acct_vecs, dec_acct_acct_u128_u128,
    enc_acct_acct_u128_u128, dec_acct_acct_vecs, enc_acct_acct_vecs, dec_acct_acct,
    enc_acct_acct, dec_one_u128, enc_u128, dec_acct_u128, enc_acct_u128, dec_accts_vec,
    enc_accts_vec};

verus! {

/// Selector 1001: grant or revoke an operator over all of an owner's tokens.
pub struct SetApprovalForAllInputParam {
    pub owner: AccountId,
    pub operator: AccountId,
    pub approved: bool,
}

impl SetApprovalForAllInputParam {
    pub open spec fn wf(&self) -> bool {
        self.owner.wf() && self.operator.wf()
    }

    /// The record's exact wire encoding.
    pub open spec fn spec_enc(&self) -> Seq<u8> {
        enc_acct_acct_bool(self.owner@, self.operator@, self.approved)
    }

    /// Decodes a payload that is exactly the record's encoding.
    pub fn decode(payload: &[u8]) -> (r: Option<Self>)
        ensures
            match r {
                Some(m) => m.wf() && dec_acct_acct_bool(payload@) == Some((m.owner@, m.operator@, m.approved)),
                None => dec_acct_acct_bool(payload@) is None,
            },
    {
        let (owner, o1) = match read_account(payload, 0) {
            None => {
                return None;
            },
            Some(p) => p,
        };
        let (operator, o2) = match read_account(payload, o1) {
            None => {
                return None;
            },
            Some(p) => p,
        };
        let (approved, o3) = match read_bool(payload, o2) {
            None => {
                return None;
            },
            Some(p) => p,
        };
        if o3 != payload.len() {
            return None;
        }
        Some(SetApprovalForAllInputParam { owner, operator, approved })
    }

    /// The record's wire bytes.
    pub fn encode(&self) -> (r: Vec<u8>)
        requires
            self.wf(),
        ensures
            r@ == self.spec_enc(),
    {
        let mut out: Vec<u8> = Vec::new();
        write_account(&mut out, &self.owner);
        write_account(&mut out, &self.operator);
        write_bool(&mut out, self.approved);
        proof {
            assert(out@ =~= self.spec_enc());
        }
        out
    }
}

/// Selector 1002: mint an amount of one token to an account.
pub struct MintInputParam {
    pub to: AccountId,
    pub id: u128,
    pub amount: u128,
}

impl MintInputParam {
    pub open spec fn wf(&self) -> bool {
        self.to.wf()
    }

    /// The record's exact wire encoding.
    pub open spec fn spec_enc(&self) -> Seq<u8> {
        enc_acct_u128_u128(self.to@, self.id, self.amount)
    }

    /// Decodes a payload that is exactly the record's encoding.
    pub fn decode(payload: &[u8]) -> (r: Option<Self>)
        ensures
            match r {
                Some(m) => m.wf() && dec_acct_u128_u128(payload@) == Some((m.to@, m.id, m.amount)),
                None => dec_acct_u128_u128(payload@) is None,
            },
    {
        let (to, o1) = match read_account(payload, 0) {
            None => {
                return None;
            },
            Some(p) => p,
        };
        let (id, o2) = match read_u128_le(payload, o1) {
            None => {
                return None;
            },
            Some(p) => p,
        };
        let (amount, o3) = match read_u128_le(payload, o2) {
            None => {
                return None;
            },
            Some(p) => p,
        };
        if o3 != payload.len() {
            return None;
        }
        Some(MintInputParam { to, id, amount })
    }

    /// The record's wire bytes.
    pub fn encode(&self) -> (r: Vec<u8>)
        requires
            self.wf(),
        ensures
            r@ == self.spec_enc(),
    {
        let mut out: Vec<u8> = Vec::new();
        write_account(&mut out, &self.to);
        write_u128_le(&mut out, self.id);
        write_u128_le(&mut out, self.amount);
        proof {
            assert(out@ =~= self.spec_enc());
        }
        out
    }
}

/// Selector 1003: mint several tokens to one account in a single call.
pub struct BatchMintParam {
    pub to: AccountId,
    pub ids: Vec<u128>,
    pub amounts: Vec<u128>,
}

impl BatchMintParam {
    pub open spec fn wf(&self) -> bool {
        self.to.wf() && self.ids@.len() < 0x4000_0000 && self.amounts@.len() < 0x4000_0000
    }

    /// The record's exact wire encoding.
    pub open spec fn spec_enc(&self) -> Seq<u8> {
        enc_acct_vecs(self.to@, self.ids@, self.amounts@)
    }

    /// Decodes a payload that is exactly the record's encoding.
    pub fn decode(payload: &[u8]) -> (r: Option<Self>)
        ensures
            match r {
                Some(m) => m.wf() && dec_acct_vecs(payload@) == Some((m.to@, m.ids@, m.amounts@)),
                None => dec_acct_vecs(payload@) is None,
            },
    {
        let (to, o1) = match read_account(payload, 0) {
            None => {
                return None;
            },
            Some(p) => p,
        };
        let (ids, o2) = match read_u128_vec(payload, o1) {
            None => {
                return None;
            },
            Some(p) => p,
        };
        let (amounts, o3) = match read_u128_vec(payload, o2) {
            None => {
                return None;
            },
            Some(p) => p,
        };
        if o3 != payload.len() {
            return None;
        }
        Some(BatchMintParam { to, ids, amounts })
    }

    /// The record's wire bytes.
    pub fn encode(&self) -> (r: Vec<u8>)
        requires
            self.wf(),
        ensures
            r@ == self.spec_enc(),
    {
        let mut out: Vec<u8> = Vec::new();
        write_account(&mut out, &self.to);
        write_u128_vec(&mut out, &self.ids);
        write_u128_vec(&mut out, &self.amounts);
        proof {
            assert(out@ =~= self.spec_enc());
        }
        out
    }
}

/// Selector 1004: burn an amount of one token from an account.
pub struct BurnInputParam {
    pub from: AccountId,
    /// The token id to burn; the wire protocol fixed this field's name
    /// along with its position.
    pub to: u128,
    pub amount: u128,
}

impl BurnInputParam {
    pub open spec fn wf(&self) -> bool {
        self.from.wf()
    }

    /// The record's exact wire encoding.
    pub open spec fn spec_enc(&self) -> Seq<u8> {
        enc_acct_u128_u128(self.from@, self.to, self.amount)
    }

    /// Decodes a payload that is exactly the record's encoding.
    pub fn decode(payload: &[u8]) -> (r: Option<Self>)
        ensures
            match r {
                Some(m) => m.wf() && dec_acct_u128_u128(payload@) == Some((m.from@, m.to, m.amount)),
                None => dec_acct_u128_u128(payload@) is None,
            },
    {
        let (from, o1) = match read_account(payload, 0) {
            None => {
                return None;
            },
            Some(p) => p,
        };
        let (to, o2) = match read_u128_le(payload, o1) {
            None => {
                return None;
            },
            Some(p) => p,
        };
        let (amount, o3) = match read_u128_le(payload, o2) {
            None => {
                return None;
            },
            Some(p) => p,
        };
        if o3 != payload.len() {
            return None;
        }
        Some(BurnInputParam { from, to, amount })
    }

    /// The record's wire bytes.
    pub fn encode(&self) -> (r: Vec<u8>)
        requires
            self.wf(),
        ensures
            r@ == self.spec_enc(),
    {
        let mut out: Vec<u8> = Vec::new();
        write_account(&mut out, &self.from);
        write_u128_le(&mut out, self.to);
        write_u128_le(&mut out, self.amount);
        proof {
            assert(out@ =~= self.spec_enc());
        }
        out
    }
}

/// Selector 1005: burn several tokens from one account in a single call.
pub struct BatchBurnInputParam {
    pub from: AccountId,
    pub ids: Vec<u128>,
    pub amounts: Vec<u128>,
}

impl BatchBurnInputParam {
    pub open spec fn wf(&self) -> bool {
        self.from.wf() && self.ids@.len() < 0x4000_0000 && self.amounts@.len() < 0x4000_0000
    }

    /// The record's exact wire encoding.
    pub open spec fn spec_enc(&self) -> Seq<u8> {
        enc_acct_vecs(self.from@, self.ids@, self.amounts@)
    }

    /// Decodes a payload that is exactly the record's encoding.
    pub fn decode(payload: &[u8]) -> (r: Option<Self>)
        ensures
            match r {
                Some(m) => m.wf() && dec_acct_vecs(payload@) == Some((m.from@, m.ids@, m.amounts@)),
                None => dec_acct_vecs(payload@) is None,
            },
    {
        let (from, o1) = match read_account(payload, 0) {
            None => {
                return None;
            },
            Some(p) => p,
        };
        let (ids, o2) = match read_u128_vec(payload, o1) {
            None => {
                return None;
            },
            Some(p) => p,
        };
        let (amounts, o3) = match read_u128_vec(payload, o2) {
            None => {
                return None;
            },
            Some(p) => p,
        };
        if o3 != payload.len() {
            return None;
        }
        Some(BatchBurnInputParam { from, ids, amounts })
    }

    /// The record's wire bytes.
    pub fn encode(&self) -> (r: Vec<u8>)
        requires
            self.wf(),
        ensures
            r@ == self.spec_enc(),
    {
        let mut out: Vec<u8> = Vec::new();
        write_account(&mut out, &self.from);
        write_u128_vec(&mut out, &self.ids);
        write_u128_vec(&mut out, &self.amounts);
        proof {
            assert(out@ =~= self.spec_enc());
        }
        out
    }
}

/// Selector 1006: move an amount of one token between accounts.
pub struct TransferFromInputParam {
    pub from: AccountId,
    pub to: AccountId,
    pub id: u128,
    pub amount: u128,
}

impl TransferFromInputParam {
    pub open spec fn wf(&self) -> bool {
        self.from.wf() && self.to.wf()
    }

    /// The record's exact wire encoding.
    pub open spec fn spec_enc(&self) -> Seq<u8> {
        enc_acct_acct_u128_u128(self.from@, self.to@, self.id, self.amount)
    }

    /// Decodes a payload that is exactly the record's encoding.
    pub fn decode(payload: &[u8]) -> (r: Option<Self>)
        ensures
            match r {
                Some(m) => m.wf() && dec_acct_acct_u128_u128(payload@) == Some((m.from@, m.to@, m.id, m.amount)),
                None => dec_acct_acct_u128_u128(payload@) is None,
            },
    {
        let (from, o1) = match read_account(payload, 0) {
            None => {
                return None;
            },
            Some(p) => p,
        };
        let (to, o2) = match read_account(payload, o1) {
            None => {
                return None;
            },
            Some(p) => p,
        };
        let (id, o3) = match read_u128_le(payload, o2) {
            None => {
                return None;
            },
            Some(p) => p,
        };
        let (amount, o4) = match read_u128_le(payload, o3) {
            None => {
                return None;
            },
            Some(p) => p,
        };
        if o4 != payload.len() {
            return None;
        }
        Some(TransferFromInputParam { from, to, id, amount })
    }

    /// The record's wire bytes.
    pub fn encode(&self) -> (r: Vec<u8>)
        requires
            self.wf(),
        ensures
            r@ == self.spec_enc(),
    {
        let mut out: Vec<u8> = Vec::new();
        write_account(&mut out, &self.from);
        write_account(&mut out, &self.to);
        write_u128_le(&mut out, self.id);
        write_u128_le(&mut out, self.amount);
        proof {
            assert(out@ =~= self.spec_enc());
        }
        out
    }
}

/// Selector 1007: move several tokens between two accounts in a single call.
pub struct BatchTransferInputParam {
    pub from: AccountId,
    pub to: AccountId,
    pub ids: Vec<u128>,
    pub amounts: Vec<u128>,
}

impl BatchTransferInputParam {
    pub open spec fn wf(&self) -> bool {
        self.from.wf() && self.to.wf() && self.ids@.len() < 0x4000_0000 && self.amounts@.len() < 0x4000_0000
    }

    /// The record's exact wire encoding.
    pub open spec fn spec_enc(&self) -> Seq<u8> {
        enc_acct_acct_vecs(self.from@, self.to@, self.ids@, self.amounts@)
    }

    /// Decodes a payload that is exactly the record's encoding.
    pub fn decode(payload: &[u8]) -> (r: Option<Self>)
        ensures
            match r {
                Some(m) => m.wf() && dec_acct_acct_vecs(payload@) == Some((m.from@, m.to@, m.ids@, m.amounts@)),
                None => dec_acct_acct_vecs(payload@) is None,
            },
    {
        let (from, o1) = match read_account(payload, 0) {
            None => {
                return None;
            },
            Some(p) => p,
        };
        let (to, o2) = match read_account(payload, o1) {
            None => {
                return None;
            },
            Some(p) => p,
        };
        let (ids, o3) = match read_u128_vec(payload, o2) {
            None => {
                return None;
            },
            Some(p) => p,
        };
        let (amounts, o4) = match read_u128_vec(payload, o3) {
            None => {
                return None;
            },
            Some(p) => p,
        };
        if o4 != payload.len() {
            return None;
        }
        Some(BatchTransferInputParam { from, to, ids, amounts })
    }

    /// The record's wire bytes.
    pub fn encode(&self) -> (r: Vec<u8>)
        requires
            self.wf(),
        ensures
            r@ == self.spec_enc(),
    {
        let mut out: Vec<u8> = Vec::new();
        write_account(&mut out, &self.from);
        write_account(&mut out, &self.to);
        write_u128_vec(&mut out, &self.ids);
        write_u128_vec(&mut out, &self.amounts);
        proof {
            assert(out@ =~= self.spec_enc());
        }
        out
    }
}

/// Selector 1008: ask whether `who` owns or is approved for `account`.
pub struct ApprovedOrOwnerInputParam {
    pub who: AccountId,
    pub account: AccountId,
}

impl ApprovedOrOwnerInputParam {
    pub open spec fn wf(&self) -> bool {
        self.who.wf() && self.account.wf()
    }

    /// The record's exact wire encoding.
    pub open spec fn spec_enc(&self) -> Seq<u8> {
        enc_acct_acct(self.who@, self.account@)
    }

    /// Decodes a payload that is exactly the record's encoding.
    pub fn decode(payload: &[u8]) -> (r: Option<Self>)
        ensures
            match r {
                Some(m) => m.wf() && dec_acct_acct(payload@) == Some((m.who@, m.account@)),
                None => dec_acct_acct(payload@) is None,
            },
    {
        let (who, o1) = match read_account(payload, 0) {
            None => {
                return None;
            },
            Some(p) => p,
        };
        let (account, o2) = match read_account(payload, o1) {
            None => {
                return None;
            },
            Some(p) => p,
        };
        if o2 != payload.len() {
            return None;
        }
        Some(ApprovedOrOwnerInputParam { who, account })
    }

    /// The record's wire bytes.
    pub fn encode(&self) -> (r: Vec<u8>)
        requires
            self.wf(),
        ensures
            r@ == self.spec_enc(),
    {
        let mut out: Vec<u8> = Vec::new();
        write_account(&mut out, &self.who);
        write_account(&mut out, &self.account);
        proof {
            assert(out@ =~= self.spec_enc());
        }
        out
    }
}

/// Selector 1009: ask whether a token id is non-fungible.
pub struct IsNfInputParam {
    pub id: u128,
}

impl IsNfInputParam {
    pub open spec fn wf(&self) -> bool {
        true
    }

    /// The record's exact wire encoding.
    pub open spec fn spec_enc(&self) -> Seq<u8> {
        enc_u128(self.id)
    }

    /// Decodes a payload that is exactly the record's encoding.
    pub fn decode(payload: &[u8]) -> (r: Option<Self>)
        ensures
            match r {
                Some(m) => m.wf() && dec_one_u128(payload@) == Some(m.id),
                None => dec_one_u128(payload@) is None,
            },
    {
        let (id, o1) = match read_u128_le(payload, 0) {
            None => {
                return None;
            },
            Some(p) => p,
        };
        if o1 != payload.len() {
            return None;
        }
        Some(IsNfInputParam { id })
    }

    /// The record's wire bytes.
    pub fn encode(&self) -> (r: Vec<u8>)
        requires
            self.wf(),
        ensures
            r@ == self.spec_enc(),
    {
        let mut out: Vec<u8> = Vec::new();
        write_u128_le(&mut out, self.id);
        proof {
            assert(out@ =~= self.spec_enc());
        }
        out
    }
}

/// Selector 1010: ask whether an operator is approved for an owner.
pub struct IsApprovedForAllInputParam {
    pub owner: AccountId,
    pub operator: AccountId,
}

impl IsApprovedForAllInputParam {
    pub open spec fn wf(&self) -> bool {
        self.owner.wf() && self.operator.wf()
    }

    /// The record's exact wire encoding.
    pub open spec fn spec_enc(&self) -> Seq<u8> {
        enc_acct_acct(self.owner@, self.operator@)
    }

    /// Decodes a payload that is exactly the record's encoding.
    pub fn decode(payload: &[u8]) -> (r: Option<Self>)
        ensures
            match r {
                Some(m) => m.wf() && dec_acct_acct(payload@) == Some((m.owner@, m.operator@)),
                None => dec_acct_acct(payload@) is None,
            },
    {
        let (owner, o1) = match read_account(payload, 0) {
            None => {
                return None;
            },
            Some(p) => p,
        };
        let (operator, o2) = match read_account(payload, o1) {
            None => {
                return None;
            },
            Some(p) => p,
        };
        if o2 != payload.len() {
            return None;
        }
        Some(IsApprovedForAllInputParam { owner, operator })
    }

    /// The record's wire bytes.
    pub fn encode(&self) -> (r: Vec<u8>)
        requires
            self.wf(),
        ensures
            r@ == self.spec_enc(),
    {
        let mut out: Vec<u8> = Vec::new();
        write_account(&mut out, &self.owner);
        write_account(&mut out, &self.operator);
        proof {
            assert(out@ =~= self.spec_enc());
        }
        out
    }
}

/// Selector 1011: ask for the balance of one token held by an owner.
pub struct BalanceOfInputParam {
    pub owner: AccountId,
    pub id: u128,
}

impl BalanceOfInputParam {
    pub open spec fn wf(&self) -> bool {
        self.owner.wf()
    }

    /// The record's exact wire encoding.
    pub open spec fn spec_enc(&self) -> Seq<u8> {
        enc_acct_u128(self.owner@, self.id)
    }

    /// Decodes a payload that is exactly the record's encoding.
    pub fn decode(payload: &[u8]) -> (r: Option<Self>)
        ensures
            match r {
                Some(m) => m.wf() && dec_acct_u128(payload@) == Some((m.owner@, m.id)),
                None => dec_acct_u128(payload@) is None,
            },
    {
        let (owner, o1) = match read_account(payload, 0) {
            None => {
                return None;
            },
            Some(p) => p,
        };
        let (id, o2) = match read_u128_le(payload, o1) {
            None => {
                return None;
            },
            Some(p) => p,
        };
        if o2 != payload.len() {
            return None;
        }
        Some(BalanceOfInputParam { owner, id })
    }

    /// The record's wire bytes.
    pub fn encode(&self) -> (r: Vec<u8>)
        requires
            self.wf(),
        ensures
            r@ == self.spec_enc(),
    {
        let mut out: Vec<u8> = Vec::new();
        write_account(&mut out, &self.owner);
        write_u128_le(&mut out, self.id);
        proof {
            assert(out@ =~= self.spec_enc());
        }
        out
    }
}

/// Selector 1012 (reserved, not wired to a handler): ask for several balances at once.
pub struct BalanceOfBatchInputParam {
    pub owners: Vec<AccountId>,
    pub ids: Vec<u128>,
}

impl BalanceOfBatchInputParam {
    pub open spec fn wf(&self) -> bool {
        all_accounts(views_of(self.owners@)) && self.owners@.len() < 0x4000_0000 && self.ids@.len() < 0x4000_0000
    }

    /// The record's exact wire encoding.
    pub open spec fn spec_enc(&self) -> Seq<u8> {
        enc_accts_vec(views_of(self.owners@), self.ids@)
    }

    /// Decodes a payload that is exactly the record's encoding.
    pub fn decode(payload: &[u8]) -> (r: Option<Self>)
        ensures
            match r {
                Some(m) => m.wf() && dec_accts_vec(payload@) == Some((views_of(m.owners@), m.ids@)),
                None => dec_accts_vec(payload@) is None,
            },
    {
        let (owners, o1) = match read_account_vec(payload, 0) {
            None => {
                return None;
            },
            Some(p) => p,
        };
        let (ids, o2) = match read_u128_vec(payload, o1) {
            None => {
                return None;
            },
            Some(p) => p,
        };
        if o2 != payload.len() {
            return None;
        }
        proof {
            lemma_dec_account_vec_sound(payload@, 0 as int, views_of(owners@), o1 as int);
        }
        Some(BalanceOfBatchInputParam { owners, ids })
    }

    /// The record's wire bytes.
    pub fn encode(&self) -> (r: Vec<u8>)
        requires
            self.wf(),
        ensures
            r@ == self.spec_enc(),
    {
        let mut out: Vec<u8> = Vec::new();
        write_accounts(&mut out, &self.owners);
        write_u128_vec(&mut out, &self.ids);
        proof {
            assert(out@ =~= self.spec_enc());
        }
        out
    }
}

} // verus!
