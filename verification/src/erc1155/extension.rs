//! The dispatch router of the token-collection extension.
//!
//! One call comes in as an untrusted selector and an untrusted payload,
//! plus a per-call random seed and resource budget supplied by the
//! surrounding execution context. The router owns the selector table:
//! selectors 1000 through 1011. Unknown selectors — the reserved 1012 and
//! 1013 among them — are rejected without decoding, metering, or touching
//! the ledger. For a known selector the payload is decoded first, the
//! cost is charged next, and only then does exactly one ledger operation
//! run, whose outcome is encoded back or forwarded as an error.

use vstd::prelude::*;
use crate::account::AccountId;
use crate::metering::{Budget, OP_COST};
use crate::{CallError, CallOutput, CONVERGING};
use crate::codec::{be_bytes, bool_byte, write_u128_be, write_bool, write_bytes,
    lemma_compact_bytes_len, lemma_u128s_bytes_len, vec_u128_bytes};
use crate::erc1155::ledger::{Erc1155Ledger, Erc1155View, spec_set_approval, spec_mint, spec_burn,
    spec_transfer, spec_batch_mint, spec_batch_burn, spec_batch_transfer, spec_approved_or_owner};
use crate::erc1155::params::{SetApprovalForAllInputParam, MintInputParam, BatchMintParam,
    BurnInputParam, BatchBurnInputParam, TransferFromInputParam, BatchTransferInputParam,
    ApprovedOrOwnerInputParam, IsNfInputParam, IsApprovedForAllInputParam, BalanceOfInputParam};
use crate::payload::{dec_acct_acct_bool, dec_acct_u128_u128, dec_acct_vecs,
    dec_acct_acct_u128_u128, dec_acct_acct_vecs, dec_acct_acct, dec_one_u128, dec_acct_u128,
    lemma_acct_acct_bool_exact, lemma_acct_u128_u128_exact, lemma_acct_vecs_exact,
    lemma_acct_acct_u128_u128_exact, lemma_acct_acct_vecs_exact, lemma_acct_acct_exact,
    lemma_u128_exact, lemma_acct_u128_exact};

verus! {

/// The selectors this router dispatches.
pub open spec fn known_selector(s: u32) -> bool {
    1000 <= s <= 1011
}

/// The selectors whose handler may mutate the ledger.
pub open spec fn mutating_selector(s: u32) -> bool {
    1001 <= s <= 1007
}

/// The metering cost of each selector: the flat operation cost for every
/// handler that reaches the ledger's books, zero for the randomness echo
/// and the plain balance query.
pub open spec fn cost_of(s: u32) -> u64 {
    if 1001 <= s <= 1010 {
        OP_COST
    } else {
        0
    }
}

/// Every selector that can mutate the ledger has a positive cost, so a
/// zero budget stops every mutation before it starts.
pub proof fn lemma_mutating_selector_has_cost(s: u32)
    ensures
        mutating_selector(s) ==> cost_of(s) > 0,
{
}

/// Whether a payload is the exact encoding of the selector's record.
/// Selectors without a record accept any payload and ignore it.
pub open spec fn payload_decodes(s: u32, p: Seq<u8>) -> bool {
    if s == 1001 {
        dec_acct_acct_bool(p) is Some
    } else if s == 1002 || s == 1004 {
        dec_acct_u128_u128(p) is Some
    } else if s == 1003 || s == 1005 {
        dec_acct_vecs(p) is Some
    } else if s == 1006 {
        dec_acct_acct_u128_u128(p) is Some
    } else if s == 1007 {
        dec_acct_acct_vecs(p) is Some
    } else if s == 1008 || s == 1010 {
        dec_acct_acct(p) is Some
    } else if s == 1009 {
        dec_one_u128(p) is Some
    } else if s == 1011 {
        dec_acct_u128(p) is Some
    } else {
        true
    }
}

/// The least payload length a selector's record can decode from.
pub open spec fn min_payload_len(s: u32) -> nat {
    if s == 1001 {
        65
    } else if s == 1002 || s == 1004 {
        64
    } else if s == 1003 || s == 1005 {
        34
    } else if s == 1006 {
        96
    } else if s == 1007 {
        66
    } else if s == 1008 || s == 1010 {
        64
    } else if s == 1009 {
        16
    } else if s == 1011 {
        48
    } else {
        0
    }
}

/// A payload shorter than the selector's record is never decoded into
/// anything: the router reports a decode failure instead of reading out
/// of bounds.
pub proof fn lemma_short_payload_rejected(s: u32, p: Seq<u8>)
    requires
        p.len() < min_payload_len(s),
    ensures
        !payload_decodes(s, p),
{
    if s == 1001 {
        if dec_acct_acct_bool(p) is Some {
            let (a, b, v) = dec_acct_acct_bool(p).unwrap();
            lemma_acct_acct_bool_exact(p, a, b, v);
        }
    } else if s == 1002 || s == 1004 {
        if dec_acct_u128_u128(p) is Some {
            let (a, x, y) = dec_acct_u128_u128(p).unwrap();
            lemma_acct_u128_u128_exact(p, a, x, y);
        }
    } else if s == 1003 || s == 1005 {
        if dec_acct_vecs(p) is Some {
            let (a, ids, amounts) = dec_acct_vecs(p).unwrap();
            lemma_acct_vecs_exact(p, a, ids, amounts);
            lemma_compact_bytes_len(ids.len());
            lemma_u128s_bytes_len(ids);
            lemma_compact_bytes_len(amounts.len());
            lemma_u128s_bytes_len(amounts);
            assert(vec_u128_bytes(ids).len() >= 1);
            assert(vec_u128_bytes(amounts).len() >= 1);
        }
    } else if s == 1006 {
        if dec_acct_acct_u128_u128(p) is Some {
            let (a, b, x, y) = dec_acct_acct_u128_u128(p).unwrap();
            lemma_acct_acct_u128_u128_exact(p, a, b, x, y);
        }
    } else if s == 1007 {
        if dec_acct_acct_vecs(p) is Some {
            let (a, b, ids, amounts) = dec_acct_acct_vecs(p).unwrap();
            lemma_acct_acct_vecs_exact(p, a, b, ids, amounts);
            lemma_compact_bytes_len(ids.len());
            lemma_u128s_bytes_len(ids);
            lemma_compact_bytes_len(amounts.len());
            lemma_u128s_bytes_len(amounts);
            assert(vec_u128_bytes(ids).len() >= 1);
            assert(vec_u128_bytes(amounts).len() >= 1);
        }
    } else if s == 1008 || s == 1010 {
        if dec_acct_acct(p) is Some {
            let (a, b) = dec_acct_acct(p).unwrap();
            lemma_acct_acct_exact(p, a, b);
        }
    } else if s == 1009 {
        if dec_one_u128(p) is Some {
            let x = dec_one_u128(p).unwrap();
            lemma_u128_exact(p, x);
        }
    } else if s == 1011 {
        if dec_acct_u128(p) is Some {
            let (a, x) = dec_acct_u128(p).unwrap();
            lemma_acct_u128_exact(p, a, x);
        }
    }
}

/// The chain extension bridging the caller sandbox to the
/// token-collection ledger.
pub struct SgcChainExtension;

impl SgcChainExtension {
    /// The extension is always enabled.
    pub fn enabled() -> (r: bool)
        ensures
            r,
    {
        true
    }

    /// Dispatches one call: route by selector, decode the payload, charge
    /// the cost, invoke one ledger operation, encode the outcome.
    ///
    /// The contract walks the selector table clause by clause; in every
    /// rejected path the ledger and the budget are exactly as they were.
    pub fn call(
        selector: u32,
        payload: &[u8],
        random_seed: &[u8],
        budget: &mut Budget,
        ledger: &mut Erc1155Ledger,
    ) -> (r: Result<CallOutput, CallError>)
        ensures
            !known_selector(selector) ==> r == Err::<CallOutput, CallError>(
                CallError::UnknownSelector,
            ) && final(ledger)@ == old(ledger)@ && final(budget).remaining == old(
                budget,
            ).remaining,
            known_selector(selector) && !payload_decodes(selector, payload@) ==> r == Err::<
                CallOutput,
                CallError,
            >(CallError::DecodeError) && final(ledger)@ == old(ledger)@ && final(budget).remaining
                == old(budget).remaining,
            known_selector(selector) && payload_decodes(selector, payload@) && old(
                budget,
            ).remaining < cost_of(selector) ==> r == Err::<CallOutput, CallError>(
                CallError::BudgetExceeded,
            ) && final(ledger)@ == old(ledger)@ && final(budget).remaining == old(
                budget,
            ).remaining,
            known_selector(selector) && payload_decodes(selector, payload@) && old(
                budget,
            ).remaining >= cost_of(selector) ==> final(budget).remaining == old(budget).remaining
                - cost_of(selector),
            !mutating_selector(selector) ==> final(ledger)@ == old(ledger)@,
            selector == 1000 ==> (r matches Ok(out) && out.data@ == random_seed@ && out.status
                == CONVERGING),
            selector == 1001 ==> (match dec_acct_acct_bool(payload@) {
                None => true,
                Some((owner, operator, approved)) => old(budget).remaining >= OP_COST ==> {
                    &&& final(ledger)@ == spec_set_approval(old(ledger)@, owner, operator, approved)
                    &&& (r matches Ok(out) && out.data@ == Seq::<u8>::empty() && out.status
                        == CONVERGING)
                },
            }),
            selector == 1002 ==> (match dec_acct_u128_u128(payload@) {
                None => true,
                Some((to, id, amount)) => old(budget).remaining >= OP_COST ==> (match spec_mint(
                    old(ledger)@,
                    to,
                    id,
                    amount,
                ) {
                    Ok(v) => final(ledger)@ == v && (r matches Ok(out) && out.data@
                        == Seq::<u8>::empty() && out.status == CONVERGING),
                    Err(e) => final(ledger)@ == old(ledger)@ && r == Err::<CallOutput, CallError>(
                        CallError::Ledger(e),
                    ),
                }),
            }),
            selector == 1003 ==> (match dec_acct_vecs(payload@) {
                None => true,
                Some((to, ids, amounts)) => old(budget).remaining >= OP_COST ==> (match
                    spec_batch_mint(old(ledger)@, to, ids, amounts) {
                    Ok(v) => final(ledger)@ == v && (r matches Ok(out) && out.data@
                        == Seq::<u8>::empty() && out.status == CONVERGING),
                    Err(e) => final(ledger)@ == old(ledger)@ && r == Err::<CallOutput, CallError>(
                        CallError::Ledger(e),
                    ),
                }),
            }),
            selector == 1004 ==> (match dec_acct_u128_u128(payload@) {
                None => true,
                Some((from, id, amount)) => old(budget).remaining >= OP_COST ==> (match spec_burn(
                    old(ledger)@,
                    from,
                    id,
                    amount,
                ) {
                    Ok(v) => final(ledger)@ == v && (r matches Ok(out) && out.data@
                        == Seq::<u8>::empty() && out.status == CONVERGING),
                    Err(e) => final(ledger)@ == old(ledger)@ && r == Err::<CallOutput, CallError>(
                        CallError::Ledger(e),
                    ),
                }),
            }),
            selector == 1005 ==> (match dec_acct_vecs(payload@) {
                None => true,
                Some((from, ids, amounts)) => old(budget).remaining >= OP_COST ==> (match
                    spec_batch_burn(old(ledger)@, from, ids, amounts) {
                    Ok(v) => final(ledger)@ == v && (r matches Ok(out) && out.data@
                        == Seq::<u8>::empty() && out.status == CONVERGING),
                    Err(e) => final(ledger)@ == old(ledger)@ && r == Err::<CallOutput, CallError>(
                        CallError::Ledger(e),
                    ),
                }),
            }),
            selector == 1006 ==> (match dec_acct_acct_u128_u128(payload@) {
                None => true,
                Some((from, to, id, amount)) => old(budget).remaining >= OP_COST ==> (match
                    spec_transfer(old(ledger)@, from, to, id, amount) {
                    Ok(v) => final(ledger)@ == v && (r matches Ok(out) && out.data@
                        == Seq::<u8>::empty() && out.status == CONVERGING),
                    Err(e) => final(ledger)@ == old(ledger)@ && r == Err::<CallOutput, CallError>(
                        CallError::Ledger(e),
                    ),
                }),
            }),
            selector == 1007 ==> (match dec_acct_acct_vecs(payload@) {
                None => true,
                Some((from, to, ids, amounts)) => old(budget).remaining >= OP_COST ==> (match
                    spec_batch_transfer(old(ledger)@, from, to, ids, amounts) {
                    Ok(v) => final(ledger)@ == v && (r matches Ok(out) && out.data@
                        == Seq::<u8>::empty() && out.status == CONVERGING),
                    Err(e) => final(ledger)@ == old(ledger)@ && r == Err::<CallOutput, CallError>(
                        CallError::Ledger(e),
                    ),
                }),
            }),
            selector == 1008 ==> (match dec_acct_acct(payload@) {
                None => true,
                Some((who, account)) => old(budget).remaining >= OP_COST ==> (r matches Ok(out)
                    && out.data@ == bool_byte(spec_approved_or_owner(old(ledger)@, who, account))
                    && out.status == CONVERGING),
            }),
            selector == 1009 ==> (match dec_one_u128(payload@) {
                None => true,
                Some(id) => old(budget).remaining >= OP_COST ==> (match old(ledger)@.tokens[id] {
                    Some(nf) => r matches Ok(out) && out.data@ == bool_byte(nf) && out.status
                        == CONVERGING,
                    None => r == Err::<CallOutput, CallError>(
                        CallError::Ledger(crate::LedgerError::UnknownToken),
                    ),
                }),
            }),
            selector == 1010 ==> (match dec_acct_acct(payload@) {
                None => true,
                Some((owner, operator)) => old(budget).remaining >= OP_COST ==> (r matches Ok(out)
                    && out.data@ == bool_byte(old(ledger)@.approvals[(owner, operator)])
                    && out.status == CONVERGING),
            }),
            selector == 1011 ==> (match dec_acct_u128(payload@) {
                None => true,
                Some((owner, id)) => r matches Ok(out) && out.data@ == be_bytes(
                    old(ledger)@.balances[(owner, id)] as nat,
                    16,
                ) && out.status == CONVERGING,
            }),
    {
        match selector {
            1000u32 => {
                let mut data: Vec<u8> = Vec::new();
                write_bytes(&mut data, random_seed);
                proof {
                    assert(data@ =~= random_seed@);
                }
                Ok(CallOutput { data, status: CONVERGING })
            },
            1001u32 => {
                let input = match SetApprovalForAllInputParam::decode(payload) {
                    None => {
                        return Err(CallError::DecodeError);
                    },
                    Some(v) => v,
                };
                if !budget.charge(OP_COST) {
                    return Err(CallError::BudgetExceeded);
                }
                match ledger.do_set_approval_for_all(&input.owner, &input.operator, input.approved)
                {
                    Ok(_) => Ok(CallOutput { data: Vec::new(), status: CONVERGING }),
                    Err(e) => Err(CallError::Ledger(e)),
                }
            },
            1002u32 => {
                let input = match MintInputParam::decode(payload) {
                    None => {
                        return Err(CallError::DecodeError);
                    },
                    Some(v) => v,
                };
                if !budget.charge(OP_COST) {
                    return Err(CallError::BudgetExceeded);
                }
                match ledger.do_mint(&input.to, input.id, input.amount) {
                    Ok(_) => Ok(CallOutput { data: Vec::new(), status: CONVERGING }),
                    Err(e) => Err(CallError::Ledger(e)),
                }
            },
            1003u32 => {
                let input = match BatchMintParam::decode(payload) {
                    None => {
                        return Err(CallError::DecodeError);
                    },
                    Some(v) => v,
                };
                if !budget.charge(OP_COST) {
                    return Err(CallError::BudgetExceeded);
                }
                match ledger.do_batch_mint(&input.to, &input.ids, input.amounts) {
                    Ok(_) => Ok(CallOutput { data: Vec::new(), status: CONVERGING }),
                    Err(e) => Err(CallError::Ledger(e)),
                }
            },
            1004u32 => {
                let input = match BurnInputParam::decode(payload) {
                    None => {
                        return Err(CallError::DecodeError);
                    },
                    Some(v) => v,
                };
                if !budget.charge(OP_COST) {
                    return Err(CallError::BudgetExceeded);
                }
                match ledger.do_burn(&input.from, input.to, input.amount) {
                    Ok(_) => Ok(CallOutput { data: Vec::new(), status: CONVERGING }),
                    Err(e) => Err(CallError::Ledger(e)),
                }
            },
            1005u32 => {
                let input = match BatchBurnInputParam::decode(payload) {
                    None => {
                        return Err(CallError::DecodeError);
                    },
                    Some(v) => v,
                };
                if !budget.charge(OP_COST) {
                    return Err(CallError::BudgetExceeded);
                }
                match ledger.do_batch_burn(&input.from, &input.ids, input.amounts) {
                    Ok(_) => Ok(CallOutput { data: Vec::new(), status: CONVERGING }),
                    Err(e) => Err(CallError::Ledger(e)),
                }
            },
            1006u32 => {
                let input = match TransferFromInputParam::decode(payload) {
                    None => {
                        return Err(CallError::DecodeError);
                    },
                    Some(v) => v,
                };
                if !budget.charge(OP_COST) {
                    return Err(CallError::BudgetExceeded);
                }
                match ledger.do_transfer_from(&input.from, &input.to, input.id, input.amount) {
                    Ok(_) => Ok(CallOutput { data: Vec::new(), status: CONVERGING }),
                    Err(e) => Err(CallError::Ledger(e)),
                }
            },
            1007u32 => {
                let input = match BatchTransferInputParam::decode(payload) {
                    None => {
                        return Err(CallError::DecodeError);
                    },
                    Some(v) => v,
                };
                if !budget.charge(OP_COST) {
                    return Err(CallError::BudgetExceeded);
                }
                match ledger.do_batch_transfer_from(&input.from, &input.to, &input.ids,
                    input.amounts) {
                    Ok(_) => Ok(CallOutput { data: Vec::new(), status: CONVERGING }),
                    Err(e) => Err(CallError::Ledger(e)),
                }
            },
            1008u32 => {
                let input = match ApprovedOrOwnerInputParam::decode(payload) {
                    None => {
                        return Err(CallError::DecodeError);
                    },
                    Some(v) => v,
                };
                if !budget.charge(OP_COST) {
                    return Err(CallError::BudgetExceeded);
                }
                let ret = ledger.approved_or_owner(&input.who, &input.account);
                let mut data: Vec<u8> = Vec::new();
                write_bool(&mut data, ret);
                proof {
                    assert(data@ =~= bool_byte(ret));
                }
                Ok(CallOutput { data, status: CONVERGING })
            },
            1009u32 => {
                let input = match IsNfInputParam::decode(payload) {
                    None => {
                        return Err(CallError::DecodeError);
                    },
                    Some(v) => v,
                };
                if !budget.charge(OP_COST) {
                    return Err(CallError::BudgetExceeded);
                }
                match ledger.is_nf(input.id) {
                    Ok(nf) => {
                        let mut data: Vec<u8> = Vec::new();
                        write_bool(&mut data, nf);
                        proof {
                            assert(data@ =~= bool_byte(nf));
                        }
                        Ok(CallOutput { data, status: CONVERGING })
                    },
                    Err(e) => Err(CallError::Ledger(e)),
                }
            },
            1010u32 => {
                let input = match IsApprovedForAllInputParam::decode(payload) {
                    None => {
                        return Err(CallError::DecodeError);
                    },
                    Some(v) => v,
                };
                if !budget.charge(OP_COST) {
                    return Err(CallError::BudgetExceeded);
                }
                let ret = ledger.is_approved_for_all(&input.owner, &input.operator);
                let mut data: Vec<u8> = Vec::new();
                write_bool(&mut data, ret);
                proof {
                    assert(data@ =~= bool_byte(ret));
                }
                Ok(CallOutput { data, status: CONVERGING })
            },
            1011u32 => {
                let input = match BalanceOfInputParam::decode(payload) {
                    None => {
                        return Err(CallError::DecodeError);
                    },
                    Some(v) => v,
                };
                let bal = ledger.balance_of(&input.owner, input.id);
                let mut data: Vec<u8> = Vec::new();
                write_u128_be(&mut data, bal);
                proof {
                    assert(data@ =~= be_bytes(bal as nat, 16));
                }
                Ok(CallOutput { data, status: CONVERGING })
            },
            _ => Err(CallError::UnknownSelector),
        }
    }
}

} // verus!
