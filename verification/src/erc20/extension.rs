//! The dispatch router of the fungible-token extension.
//!
//! One call comes in as an untrusted selector and an untrusted payload,
//! plus the caller's identity, a random seed, and a resource budget, all
//! supplied per call by the surrounding execution context. The router
//! owns the selector table: selectors 1101 through 1108. Unknown
//! selectors are rejected without decoding, metering, or touching the
//! ledger. Every handler that mutates the ledger charges the flat
//! operation cost before the mutation; the pure queries are free.

use vstd::prelude::*;
use crate::account::AccountId;
use crate::metering::{Budget, OP_COST};
use crate::{CallError, CallOutput, CONVERGING};
use crate::codec::{be_bytes, write_u128_be, write_bytes};
use crate::erc20::ledger::{Erc20Ledger, Erc20View, spec_create, spec_approve, spec_transfer_help,
    spec_transfer_from};
use crate::erc20::params::{NewInputParam, BalanceOfInputParam, AllowanceOfInputParam,
    AllowanceInputParam, TransferFromInputParam, TransferHelpInputParam};
use crate::payload::{dec_one_u128, dec_acct, dec_acct_acct, dec_acct_acct_u128, lemma_u128_exact,
    lemma_acct_exact, lemma_acct_acct_exact, lemma_acct_acct_u128_exact};

verus! {

/// The selectors this router dispatches.
pub open spec fn known_selector(s: u32) -> bool {
    1101 <= s <= 1108
}

/// The selectors whose handler may mutate the ledger.
pub open spec fn mutating_selector(s: u32) -> bool {
    s == 1102 || 1106 <= s <= 1108
}

/// The metering cost of each selector: the flat operation cost for every
/// mutating handler, zero for the randomness echo and the pure queries.
pub open spec fn cost_of(s: u32) -> u64 {
    if mutating_selector(s) {
        OP_COST
    } else {
        0
    }
}

/// Every selector that can mutate the ledger has a positive cost, so a
/// zero budget stops every mutation before it starts.
pub proof fn lemma_mutating_selector_has_cost(s: u32)
    ensures
        mutating_selector(s) ==> cost_of(s) > 0,
{
}

/// Whether a payload is the exact encoding of the selector's record.
/// Selectors without a record accept any payload and ignore it.
pub open spec fn payload_decodes(s: u32, p: Seq<u8>) -> bool {
    if s == 1102 {
        dec_one_u128(p) is Some
    } else if s == 1104 {
        dec_acct(p) is Some
    } else if s == 1105 {
        dec_acct_acct(p) is Some
    } else if s == 1106 || s == 1107 || s == 1108 {
        dec_acct_acct_u128(p) is Some
    } else {
        true
    }
}

/// The least payload length a selector's record can decode from.
pub open spec fn min_payload_len(s: u32) -> nat {
    if s == 1102 {
        16
    } else if s == 1104 {
        32
    } else if s == 1105 {
        64
    } else if s == 1106 || s == 1107 || s == 1108 {
        80
    } else {
        0
    }
}

/// A payload shorter than the selector's record is never decoded into
/// anything: the router reports a decode failure instead of reading out
/// of bounds.
pub proof fn lemma_short_payload_rejected(s: u32, p: Seq<u8>)
    requires
        p.len() < min_payload_len(s),
    ensures
        !payload_decodes(s, p),
{
    if s == 1102 {
        if dec_one_u128(p) is Some {
            let x = dec_one_u128(p).unwrap();
            lemma_u128_exact(p, x);
        }
    } else if s == 1104 {
        if dec_acct(p) is Some {
            let a = dec_acct(p).unwrap();
            lemma_acct_exact(p, a);
        }
    } else if s == 1105 {
        if dec_acct_acct(p) is Some {
            let (a, b) = dec_acct_acct(p).unwrap();
            lemma_acct_acct_exact(p, a, b);
        }
    } else if s == 1106 || s == 1107 || s == 1108 {
        if dec_acct_acct_u128(p) is Some {
            let (a, b, x) = dec_acct_acct_u128(p).unwrap();
            lemma_acct_acct_u128_exact(p, a, b, x);
        }
    }
}

/// The chain extension bridging the caller sandbox to the fungible-token
/// ledger.
pub struct FetchRandomExtension;

impl FetchRandomExtension {
    /// The extension is always enabled.
    pub fn enabled() -> (r: bool)
        ensures
            r,
    {
        true
    }

    /// Dispatches one call: route by selector, decode the payload, charge
    /// the cost, invoke one ledger operation, encode the outcome.
    ///
    /// The caller identity is read once at the boundary and handed to the
    /// one handler that needs it, the creation of the token.
    pub fn call(
        selector: u32,
        payload: &[u8],
        caller: &AccountId,
        random_seed: &[u8],
        budget: &mut Budget,
        ledger: &mut Erc20Ledger,
    ) -> (r: Result<CallOutput, CallError>)
        ensures
            !known_selector(selector) ==> r == Err::<CallOutput, CallError>(
                CallError::UnknownSelector,
            ) && final(ledger)@ == old(ledger)@ && final(budget).remaining == old(
                budget,
            ).remaining,
            known_selector(selector) && !payload_decodes(selector, payload@) ==> r == Err::<
                CallOutput,
                CallError,
            >(CallError::DecodeError) && final(ledger)@ == old(ledger)@ && final(budget).remaining
                == old(budget).remaining,
            known_selector(selector) && payload_decodes(selector, payload@) && old(
                budget,
            ).remaining < cost_of(selector) ==> r == Err::<CallOutput, CallError>(
                CallError::BudgetExceeded,
            ) && final(ledger)@ == old(ledger)@ && final(budget).remaining == old(
                budget,
            ).remaining,
            known_selector(selector) && payload_decodes(selector, payload@) && old(
                budget,
            ).remaining >= cost_of(selector) ==> final(budget).remaining == old(budget).remaining
                - cost_of(selector),
            !mutating_selector(selector) ==> final(ledger)@ == old(ledger)@,
            selector == 1101 ==> (r matches Ok(out) && out.data@ == random_seed@ && out.status
                == CONVERGING),
            selector == 1102 ==> (match dec_one_u128(payload@) {
                None => true,
                Some(total_supply) => old(budget).remaining >= OP_COST ==> (match spec_create(
                    old(ledger)@,
                    caller@,
                    total_supply,
                ) {
                    Ok(v) => final(ledger)@ == v && (r matches Ok(out) && out.data@
                        == Seq::<u8>::empty() && out.status == CONVERGING),
                    Err(e) => final(ledger)@ == old(ledger)@ && r == Err::<CallOutput, CallError>(
                        CallError::Ledger(e),
                    ),
                }),
            }),
            selector == 1103 ==> (r matches Ok(out) && out.data@ == be_bytes(
                old(ledger)@.total_supply as nat,
                16,
            ) && out.status == CONVERGING),
            selector == 1104 ==> (match dec_acct(payload@) {
                None => true,
                Some(owner) => r matches Ok(out) && out.data@ == be_bytes(
                    old(ledger)@.balances[owner] as nat,
                    16,
                ) && out.status == CONVERGING,
            }),
            selector == 1105 ==> (match dec_acct_acct(payload@) {
                None => true,
                Some((owner, spender)) => r matches Ok(out) && out.data@ == be_bytes(
                    old(ledger)@.allowances[(owner, spender)] as nat,
                    16,
                ) && out.status == CONVERGING,
            }),
            selector == 1106 ==> (match dec_acct_acct_u128(payload@) {
                None => true,
                Some((from, to, value)) => old(budget).remaining >= OP_COST ==> (match
                    spec_transfer_from(old(ledger)@, from, to, value) {
                    Ok(v) => final(ledger)@ == v && (r matches Ok(out) && out.data@
                        == Seq::<u8>::empty() && out.status == CONVERGING),
                    Err(e) => final(ledger)@ == old(ledger)@ && r == Err::<CallOutput, CallError>(
                        CallError::Ledger(e),
                    ),
                }),
            }),
            selector == 1107 ==> (match dec_acct_acct_u128(payload@) {
                None => true,
                Some((from, to, value)) => old(budget).remaining >= OP_COST ==> (match
                    spec_transfer_help(old(ledger)@, from, to, value) {
                    Ok(v) => final(ledger)@ == v && (r matches Ok(out) && out.data@
                        == Seq::<u8>::empty() && out.status == CONVERGING),
                    Err(e) => final(ledger)@ == old(ledger)@ && r == Err::<CallOutput, CallError>(
                        CallError::Ledger(e),
                    ),
                }),
            }),
            selector == 1108 ==> (match dec_acct_acct_u128(payload@) {
                None => true,
                Some((owner, spender, value)) => old(budget).remaining >= OP_COST ==> {
                    &&& final(ledger)@ == spec_approve(old(ledger)@, owner, spender, value)
                    &&& (r matches Ok(out) && out.data@ == Seq::<u8>::empty() && out.status
                        == CONVERGING)
                },
            }),
    {
        match selector {
            1101u32 => {
                let mut data: Vec<u8> = Vec::new();
                write_bytes(&mut data, random_seed);
                proof {
                    assert(data@ =~= random_seed@);
                }
                Ok(CallOutput { data, status: CONVERGING })
            },
            1102u32 => {
                let input = match NewInputParam::decode(payload) {
                    None => {
                        return Err(CallError::DecodeError);
                    },
                    Some(v) => v,
                };
                if !budget.charge(OP_COST) {
                    return Err(CallError::BudgetExceeded);
                }
                match ledger.create(caller, input.total_supply) {
                    Ok(_) => Ok(CallOutput { data: Vec::new(), status: CONVERGING }),
                    Err(e) => Err(CallError::Ledger(e)),
                }
            },
            1103u32 => {
                let supply = ledger.total_supply();
                let mut data: Vec<u8> = Vec::new();
                write_u128_be(&mut data, supply);
                proof {
                    assert(data@ =~= be_bytes(supply as nat, 16));
                }
                Ok(CallOutput { data, status: CONVERGING })
            },
            1104u32 => {
                let input = match BalanceOfInputParam::decode(payload) {
                    None => {
                        return Err(CallError::DecodeError);
                    },
                    Some(v) => v,
                };
                let bal = ledger.balance_of(&input.owner);
                let mut data: Vec<u8> = Vec::new();
                write_u128_be(&mut data, bal);
                proof {
                    assert(data@ =~= be_bytes(bal as nat, 16));
                }
                Ok(CallOutput { data, status: CONVERGING })
            },
            1105u32 => {
                let input = match AllowanceOfInputParam::decode(payload) {
                    None => {
                        return Err(CallError::DecodeError);
                    },
                    Some(v) => v,
                };
                let allow = ledger.allowance_of(&input.owner, &input.spender);
                let mut data: Vec<u8> = Vec::new();
                write_u128_be(&mut data, allow);
                proof {
                    assert(data@ =~= be_bytes(allow as nat, 16));
                }
                Ok(CallOutput { data, status: CONVERGING })
            },
            1106u32 => {
                let input = match TransferFromInputParam::decode(payload) {
                    None => {
                        return Err(CallError::DecodeError);
                    },
                    Some(v) => v,
                };
                if !budget.charge(OP_COST) {
                    return Err(CallError::BudgetExceeded);
                }
                match ledger.do_transfer_from(&input.from, &input.to, input.value) {
                    Ok(_) => Ok(CallOutput { data: Vec::new(), status: CONVERGING }),
                    Err(e) => Err(CallError::Ledger(e)),
                }
            },
            1107u32 => {
                let input = match TransferHelpInputParam::decode(payload) {
                    None => {
                        return Err(CallError::DecodeError);
                    },
                    Some(v) => v,
                };
                if !budget.charge(OP_COST) {
                    return Err(CallError::BudgetExceeded);
                }
                match ledger.transfer_help(&input.from, &input.to, input.value) {
                    Ok(_) => Ok(CallOutput { data: Vec::new(), status: CONVERGING }),
                    Err(e) => Err(CallError::Ledger(e)),
                }
            },
            1108u32 => {
                let input = match AllowanceInputParam::decode(payload) {
                    None => {
                        return Err(CallError::DecodeError);
                    },
                    Some(v) => v,
                };
                if !budget.charge(OP_COST) {
                    return Err(CallError::BudgetExceeded);
                }
                match ledger.do_allowance(&input.owner, &input.spender, input.value) {
                    Ok(_) => Ok(CallOutput { data: Vec::new(), status: CONVERGING }),
                    Err(e) => Err(CallError::Ledger(e)),
                }
            },
            _ => Err(CallError::UnknownSelector),
        }
    }
}

} // verus!
