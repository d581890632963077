//! Parameter records of the fungible-token extension.
//!
//! One record per selector, with the field order fixed by the wire
//! protocol. `decode` accepts a payload exactly when it is the record's
//! encoding (the spec-level parser in `payload` is the authority), and
//! `encode` produces that encoding.

use vstd::prelude::*;
use crate::account::{AccountId, read_account, write_account};
use crate::codec::{read_u128_le, write_u128_le};
use crate::payload::{dec_one_u128, enc_u128, dec_acct, enc_acct, dec_acct_acct, enc_acct_acct,
    dec_acct_u128, enc_acct_u128, dec_acct_acct_u128, enc_acct_acct_u128};

verus! {

/// Selector 1102: create the token with an initial total supply owned by the caller.
pub struct NewInputParam {
    pub total_supply: u128,
}

impl NewInputParam {
    pub open spec fn wf(&self) -> bool {
        true
    }

    /// The record's exact wire encoding.
    pub open spec fn spec_enc(&self) -> Seq<u8> {
        enc_u128(self.total_supply)
    }

    /// Decodes a payload that is exactly the record's encoding.
    pub fn decode(payload: &[u8]) -> (r: Option<Self>)
        ensures
            match r {
                Some(m) => m.wf() && dec_one_u128(payload@) == Some(m.total_supply),
                None => dec_one_u128(payload@) is None,
            },
    {
        let (total_supply, o1) = match read_u128_le(payload, 0) {
            None => {
                return None;
            },
            Some(p) => p,
        };
        if o1 != payload.len() {
            return None;
        }
        Some(NewInputParam { total_supply })
    }

    /// The record's wire bytes.
    pub fn encode(&self) -> (r: Vec<u8>)
        requires
            self.wf(),
        ensures
            r@ == self.spec_enc(),
    {
        let mut out: Vec<u8> = Vec::new();
        write_u128_le(&mut out, self.total_supply);
        proof {
            assert(out@ =~= self.spec_enc());
        }
        out
    }
}

/// Selector 1104: ask for an owner's balance.
pub struct BalanceOfInputParam {
    pub owner: AccountId,
}

impl BalanceOfInputParam {
    pub open spec fn wf(&self) -> bool {
        self.owner.wf()
    }

    /// The record's exact wire encoding.
    pub open spec fn spec_enc(&self) -> Seq<u8> {
        enc_acct(self.owner@)
    }

    /// Decodes a payload that is exactly the record's encoding.
    pub fn decode(payload: &[u8]) -> (r: Option<Self>)
        ensures
            match r {
                Some(m) => m.wf() && dec_acct(payload@) == Some(m.owner@),
                None => dec_acct(payload@) is None,
            },
    {
        let (owner, o1) = match read_account(payload, 0) {
            None => {
                return None;
            },
            Some(p) => p,
        };
        if o1 != payload.len() {
            return None;
        }
        Some(BalanceOfInputParam { owner })
    }

    /// The record's wire bytes.
    pub fn encode(&self) -> (r: Vec<u8>)
        requires
            self.wf(),
        ensures
            r@ == self.spec_enc(),
    {
        let mut out: Vec<u8> = Vec::new();
        write_account(&mut out, &self.owner);
        proof {
            assert(out@ =~= self.spec_enc());
        }
        out
    }
}

/// Selector 1105: ask what a spender may still draw from an owner.
pub struct AllowanceOfInputParam {
    pub owner: AccountId,
    pub spender: AccountId,
}

impl AllowanceOfInputParam {
    pub open spec fn wf(&self) -> bool {
        self.owner.wf() && self.spender.wf()
    }

    /// The record's exact wire encoding.
    pub open spec fn spec_enc(&self) -> Seq<u8> {
        enc_acct_acct(self.owner@, self.spender@)
    }

    /// Decodes a payload that is exactly the record's encoding.
    pub fn decode(payload: &[u8]) -> (r: Option<Self>)
        ensures
            match r {
                Some(m) => m.wf() && dec_acct_acct(payload@) == Some((m.owner@, m.spender@)),
                None => dec_acct_acct(payload@) is None,
            },
    {
        let (owner, o1) = match read_account(payload, 0) {
            None => {
                return None;
            },
            Some(p) => p,
        };
        let (spender, o2) = match read_account(payload, o1) {
            None => {
                return None;
            },
            Some(p) => p,
        };
        if o2 != payload.len() {
            return None;
        }
        Some(AllowanceOfInputParam { owner, spender })
    }

    /// The record's wire bytes.
    pub fn encode(&self) -> (r: Vec<u8>)
        requires
            self.wf(),
        ensures
            r@ == self.spec_enc(),
    {
        let mut out: Vec<u8> = Vec::new();
        write_account(&mut out, &self.owner);
        write_account(&mut out, &self.spender);
        proof {
            assert(out@ =~= self.spec_enc());
        }
        out
    }
}

/// A simple transfer record; present in the wire vocabulary but not routed by any selector.
pub struct TransferInputParam {
    pub to: AccountId,
    pub value: u128,
}

impl TransferInputParam {
    pub open spec fn wf(&self) -> bool {
        self.to.wf()
    }

    /// The record's exact wire encoding.
    pub open spec fn spec_enc(&self) -> Seq<u8> {
        enc_acct_u128(self.to@, self.value)
    }

    /// Decodes a payload that is exactly the record's encoding.
    pub fn decode(payload: &[u8]) -> (r: Option<Self>)
        ensures
            match r {
                Some(m) => m.wf() && dec_acct_u128(payload@) == Some((m.to@, m.value)),
                None => dec_acct_u128(payload@) is None,
            },
    {
        let (to, o1) = match read_account(payload, 0) {
            None => {
                return None;
            },
            Some(p) => p,
        };
        let (value, o2) = match read_u128_le(payload, o1) {
            None => {
                return None;
            },
            Some(p) => p,
        };
        if o2 != payload.len() {
            return None;
        }
        Some(TransferInputParam { to, value })
    }

    /// The record's wire bytes.
    pub fn encode(&self) -> (r: Vec<u8>)
        requires
            self.wf(),
        ensures
            r@ == self.spec_enc(),
    {
        let mut out: Vec<u8> = Vec::new();
        write_account(&mut out, &self.to);
        write_u128_le(&mut out, self.value);
        proof {
            assert(out@ =~= self.spec_enc());
        }
        out
    }
}

/// Selector 1108: set what a spender may draw from an owner.
pub struct AllowanceInputParam {
    pub owner: AccountId,
    pub spender: AccountId,
    pub value: u128,
}

impl AllowanceInputParam {
    pub open spec fn wf(&self) -> bool {
        self.owner.wf() && self.spender.wf()
    }

    /// The record's exact wire encoding.
    pub open spec fn spec_enc(&self) -> Seq<u8> {
        enc_acct_acct_u128(self.owner@, self.spender@, self.value)
    }

    /// Decodes a payload that is exactly the record's encoding.
    pub fn decode(payload: &[u8]) -> (r: Option<Self>)
        ensures
            match r {
                Some(m) => m.wf() && dec_acct_acct_u128(payload@) == Some((m.owner@, m.spender@, m.value)),
                None => dec_acct_acct_u128(payload@) is None,
            },
    {
        let (owner, o1) = match read_account(payload, 0) {
            None => {
                return None;
            },
            Some(p) => p,
        };
        let (spender, o2) = match read_account(payload, o1) {
            None => {
                return None;
            },
            Some(p) => p,
        };
        let (value, o3) = match read_u128_le(payload, o2) {
            None => {
                return None;
            },
            Some(p) => p,
        };
        if o3 != payload.len() {
            return None;
        }
        Some(AllowanceInputParam { owner, spender, value })
    }

    /// The record's wire bytes.
    pub fn encode(&self) -> (r: Vec<u8>)
        requires
            self.wf(),
        ensures
            r@ == self.spec_enc(),
    {
        let mut out: Vec<u8> = Vec::new();
        write_account(&mut out, &self.owner);
        write_account(&mut out, &self.spender);
        write_u128_le(&mut out, self.value);
        proof {
            assert(out@ =~= self.spec_enc());
        }
        out
    }
}

/// Selector 1106: move value between accounts, drawing on the recipient's allowance.
pub struct TransferFromInputParam {
    pub from: AccountId,
    pub to: AccountId,
    pub value: u128,
}

impl TransferFromInputParam {
    pub open spec fn wf(&self) -> bool {
        self.from.wf() && self.to.wf()
    }

    /// The record's exact wire encoding.
    pub open spec fn spec_enc(&self) -> Seq<u8> {
        enc_acct_acct_u128(self.from@, self.to@, self.value)
    }

    /// Decodes a payload that is exactly the record's encoding.
    pub fn decode(payload: &[u8]) -> (r: Option<Self>)
        ensures
            match r {
                Some(m) => m.wf() && dec_acct_acct_u128(payload@) == Some((m.from@, m.to@, m.value)),
                None => dec_acct_acct_u128(payload@) is None,
            },
    {
        let (from, o1) = match read_account(payload, 0) {
            None => {
                return None;
            },
            Some(p) => p,
        };
        let (to, o2) = match read_account(payload, o1) {
            None => {
                return None;
            },
            Some(p) => p,
        };
        let (value, o3) = match read_u128_le(payload, o2) {
            None => {
                return None;
            },
            Some(p) => p,
        };
        if o3 != payload.len() {
            return None;
        }
        Some(TransferFromInputParam { from, to, value })
    }

    /// The record's wire bytes.
    pub fn encode(&self) -> (r: Vec<u8>)
        requires
            self.wf(),
        ensures
            r@ == self.spec_enc(),
    {
        let mut out: Vec<u8> = Vec::new();
        write_account(&mut out, &self.from);
        write_account(&mut out, &self.to);
        write_u128_le(&mut out, self.value);
        proof {
            assert(out@ =~= self.spec_enc());
        }
        out
    }
}

/// Selector 1107: move value between accounts by balance alone.
pub struct TransferHelpInputParam {
    pub from: AccountId,
    pub to: AccountId,
    pub value: u128,
}

impl TransferHelpInputParam {
    pub open spec fn wf(&self) -> bool {
        self.from.wf() && self.to.wf()
    }

    /// The record's exact wire encoding.
    pub open spec fn spec_enc(&self) -> Seq<u8> {
        enc_acct_acct_u128(self.from@, self.to@, self.value)
    }

    /// Decodes a payload that is exactly the record's encoding.
    pub fn decode(payload: &[u8]) -> (r: Option<Self>)
        ensures
            match r {
                Some(m) => m.wf() && dec_acct_acct_u128(payload@) == Some((m.from@, m.to@, m.value)),
                None => dec_acct_acct_u128(payload@) is None,
            },
    {
        let (from, o1) = match read_account(payload, 0) {
            None => {
                return None;
            },
            Some(p) => p,
        };
        let (to, o2) = match read_account(payload, o1) {
            None => {
                return None;
            },
            Some(p) => p,
        };
        let (value, o3) = match read_u128_le(payload, o2) {
            None => {
                return None;
            },
            Some(p) => p,
        };
        if o3 != payload.len() {
            return None;
        }
        Some(TransferHelpInputParam { from, to, value })
    }

    /// The record's wire bytes.
    pub fn encode(&self) -> (r: Vec<u8>)
        requires
            self.wf(),
        ensures
            r@ == self.spec_enc(),
    {
        let mut out: Vec<u8> = Vec::new();
        write_account(&mut out, &self.from);
        write_account(&mut out, &self.to);
        write_u128_le(&mut out, self.value);
        proof {
            assert(out@ =~= self.spec_enc());
        }
        out
    }
}

} // verus!
