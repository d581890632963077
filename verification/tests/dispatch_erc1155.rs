//! Dispatcher tests for the token-collection extension: routing, decode
//! failures, metering, batch atomicity, and the output encodings.

use chain_extension::account::AccountId;
use chain_extension::erc1155::extension::SgcChainExtension;
use chain_extension::erc1155::ledger::Erc1155Ledger;
use chain_extension::erc1155::params::{
    ApprovedOrOwnerInputParam, BalanceOfInputParam, BatchBurnInputParam, BatchMintParam,
    BatchTransferInputParam, BurnInputParam, IsApprovedForAllInputParam, IsNfInputParam,
    MintInputParam, SetApprovalForAllInputParam, TransferFromInputParam,
};
use chain_extension::metering::Budget;
use chain_extension::{CallError, LedgerError};

fn acct(tag: u8) -> AccountId {
    AccountId::from_bytes(vec![tag; 32]).expect("32 bytes make an account")
}

fn rich_budget() -> Budget {
    Budget::new(10_000_000)
}

fn balance(ledger: &mut Erc1155Ledger, owner: u8, id: u128) -> u128 {
    let payload = BalanceOfInputParam { owner: acct(owner), id }.encode();
    let mut budget = rich_budget();
    let out = SgcChainExtension::call(1011, &payload, &[], &mut budget, ledger)
        .expect("balance query succeeds");
    u128::from_be_bytes(out.data.try_into().expect("sixteen bytes"))
}

fn approved(ledger: &mut Erc1155Ledger, owner: u8, operator: u8) -> Vec<u8> {
    let payload =
        IsApprovedForAllInputParam { owner: acct(owner), operator: acct(operator) }.encode();
    let mut budget = rich_budget();
    let out = SgcChainExtension::call(1010, &payload, &[], &mut budget, ledger)
        .expect("approval query succeeds");
    out.data
}

#[test]
fn randomness_selector_echoes_the_seed() {
    let mut ledger = Erc1155Ledger::new();
    let mut budget = rich_budget();
    let seed = [7u8; 32];
    let out = SgcChainExtension::call(1000, &[], &seed, &mut budget, &mut ledger).unwrap();
    assert_eq!(out.data, seed.to_vec());
    assert_eq!(out.status, 0);
    assert_eq!(budget.remaining, 10_000_000);
}

#[test]
fn unknown_selectors_are_rejected_without_effect() {
    let mut ledger = Erc1155Ledger::new();
    for selector in [0u32, 999, 1012, 1013, 1112, u32::MAX] {
        let mut budget = rich_budget();
        let r = SgcChainExtension::call(selector, &[1, 2, 3], &[], &mut budget, &mut ledger);
        assert_eq!(r.unwrap_err(), CallError::UnknownSelector);
        assert_eq!(budget.remaining, 10_000_000);
    }
    assert_eq!(balance(&mut ledger, 1, 1), 0);
}

#[test]
fn short_payloads_yield_decode_error() {
    let mut ledger = Erc1155Ledger::new();
    for selector in 1001u32..=1011 {
        let mut budget = rich_budget();
        let r = SgcChainExtension::call(selector, &[0, 1, 2], &[], &mut budget, &mut ledger);
        assert_eq!(r.unwrap_err(), CallError::DecodeError);
        assert_eq!(budget.remaining, 10_000_000);
    }
}

#[test]
fn mint_then_balance_query_returns_big_endian_amount() {
    let mut ledger = Erc1155Ledger::new();
    let mut budget = rich_budget();
    let payload = MintInputParam { to: acct(0xA), id: 7, amount: 42 }.encode();
    SgcChainExtension::call(1002, &payload, &[], &mut budget, &mut ledger).unwrap();
    assert_eq!(budget.remaining, 10_000_000 - 100_000);

    let query = BalanceOfInputParam { owner: acct(0xA), id: 7 }.encode();
    let mut budget2 = rich_budget();
    let out = SgcChainExtension::call(1011, &query, &[], &mut budget2, &mut ledger).unwrap();
    assert_eq!(out.data, 42u128.to_be_bytes().to_vec());
    assert_eq!(out.data.len(), 16);
    assert_eq!(budget2.remaining, 10_000_000);
}

#[test]
fn approval_flips_and_is_idempotent() {
    let mut ledger = Erc1155Ledger::new();
    assert_eq!(approved(&mut ledger, 0xA, 0xB), vec![0x00]);

    let payload =
        SetApprovalForAllInputParam { owner: acct(0xA), operator: acct(0xB), approved: true }
            .encode();
    let mut budget = rich_budget();
    let out1 = SgcChainExtension::call(1001, &payload, &[], &mut budget, &mut ledger).unwrap();
    assert_eq!(out1.data, Vec::<u8>::new());
    assert_eq!(approved(&mut ledger, 0xA, 0xB), vec![0x01]);

    let mut budget2 = rich_budget();
    let out2 = SgcChainExtension::call(1001, &payload, &[], &mut budget2, &mut ledger).unwrap();
    assert_eq!(out2.data, Vec::<u8>::new());
    assert_eq!(out2.status, out1.status);
    assert_eq!(approved(&mut ledger, 0xA, 0xB), vec![0x01]);
}

#[test]
fn zero_budget_blocks_every_mutating_selector() {
    let mut ledger = Erc1155Ledger::new();
    let payloads: Vec<(u32, Vec<u8>)> = vec![
        (
            1001,
            SetApprovalForAllInputParam { owner: acct(1), operator: acct(2), approved: true }
                .encode(),
        ),
        (1002, MintInputParam { to: acct(1), id: 1, amount: 5 }.encode()),
        (1003, BatchMintParam { to: acct(1), ids: vec![1], amounts: vec![5] }.encode()),
        (1004, BurnInputParam { from: acct(1), to: 1, amount: 5 }.encode()),
        (1005, BatchBurnInputParam { from: acct(1), ids: vec![1], amounts: vec![5] }.encode()),
        (
            1006,
            TransferFromInputParam { from: acct(1), to: acct(2), id: 1, amount: 5 }.encode(),
        ),
        (
            1007,
            BatchTransferInputParam { from: acct(1), to: acct(2), ids: vec![1], amounts: vec![5] }
                .encode(),
        ),
    ];
    for (selector, payload) in payloads {
        let mut budget = Budget::new(0);
        let r = SgcChainExtension::call(selector, &payload, &[], &mut budget, &mut ledger);
        assert_eq!(r.unwrap_err(), CallError::BudgetExceeded);
        assert_eq!(budget.remaining, 0);
    }
    // No mutation reached the ledger.
    assert_eq!(balance(&mut ledger, 1, 1), 0);
    assert_eq!(balance(&mut ledger, 2, 1), 0);
    assert_eq!(approved(&mut ledger, 1, 2), vec![0x00]);
}

#[test]
fn mismatched_batch_lengths_are_rejected_whole() {
    let mut ledger = Erc1155Ledger::new();
    let mut budget = rich_budget();
    let payload =
        BatchMintParam { to: acct(1), ids: vec![1, 2], amounts: vec![5] }.encode();
    let r = SgcChainExtension::call(1003, &payload, &[], &mut budget, &mut ledger);
    assert_eq!(r.unwrap_err(), CallError::Ledger(LedgerError::LengthMismatch));
    assert_eq!(balance(&mut ledger, 1, 1), 0);
    assert_eq!(balance(&mut ledger, 1, 2), 0);
}

#[test]
fn failing_batch_applies_no_element() {
    let mut ledger = Erc1155Ledger::new();
    let mut budget = rich_budget();
    let mint = MintInputParam { to: acct(1), id: 1, amount: 10 }.encode();
    SgcChainExtension::call(1002, &mint, &[], &mut budget, &mut ledger).unwrap();

    // The first element could burn, the second cannot: nothing happens.
    let payload =
        BatchBurnInputParam { from: acct(1), ids: vec![1, 2], amounts: vec![5, 1] }.encode();
    let r = SgcChainExtension::call(1005, &payload, &[], &mut budget, &mut ledger);
    assert_eq!(r.unwrap_err(), CallError::Ledger(LedgerError::InsufficientBalance));
    assert_eq!(balance(&mut ledger, 1, 1), 10);
    assert_eq!(balance(&mut ledger, 1, 2), 0);
}

#[test]
fn batch_transfer_moves_every_element() {
    let mut ledger = Erc1155Ledger::new();
    let mut budget = rich_budget();
    let mint =
        BatchMintParam { to: acct(1), ids: vec![1, 2], amounts: vec![10, 20] }.encode();
    SgcChainExtension::call(1003, &mint, &[], &mut budget, &mut ledger).unwrap();

    let transfer = BatchTransferInputParam {
        from: acct(1),
        to: acct(2),
        ids: vec![1, 2],
        amounts: vec![4, 6],
    }
    .encode();
    SgcChainExtension::call(1007, &transfer, &[], &mut budget, &mut ledger).unwrap();
    assert_eq!(balance(&mut ledger, 1, 1), 6);
    assert_eq!(balance(&mut ledger, 1, 2), 14);
    assert_eq!(balance(&mut ledger, 2, 1), 4);
    assert_eq!(balance(&mut ledger, 2, 2), 6);
}

#[test]
fn boolean_queries_encode_one_exact_byte() {
    let mut ledger = Erc1155Ledger::new();
    // 1008: an account owns itself.
    let own = ApprovedOrOwnerInputParam { who: acct(1), account: acct(1) }.encode();
    let mut budget = rich_budget();
    let out = SgcChainExtension::call(1008, &own, &[], &mut budget, &mut ledger).unwrap();
    assert_eq!(out.data, vec![0x01]);

    let other = ApprovedOrOwnerInputParam { who: acct(1), account: acct(2) }.encode();
    let out = SgcChainExtension::call(1008, &other, &[], &mut budget, &mut ledger).unwrap();
    assert_eq!(out.data, vec![0x00]);

    // 1009: a registered non-fungible id answers with one byte.
    ledger.register_token(5, true).unwrap();
    ledger.register_token(6, false).unwrap();
    let nf = IsNfInputParam { id: 5 }.encode();
    let out = SgcChainExtension::call(1009, &nf, &[], &mut budget, &mut ledger).unwrap();
    assert_eq!(out.data, vec![0x01]);
    let fungible = IsNfInputParam { id: 6 }.encode();
    let out = SgcChainExtension::call(1009, &fungible, &[], &mut budget, &mut ledger).unwrap();
    assert_eq!(out.data, vec![0x00]);

    // 1009 on an unknown id forwards the ledger's error.
    let unknown = IsNfInputParam { id: 77 }.encode();
    let r = SgcChainExtension::call(1009, &unknown, &[], &mut budget, &mut ledger);
    assert_eq!(r.unwrap_err(), CallError::Ledger(LedgerError::UnknownToken));
}

#[test]
fn transfer_and_burn_update_balances() {
    let mut ledger = Erc1155Ledger::new();
    let mut budget = rich_budget();
    let mint = MintInputParam { to: acct(1), id: 9, amount: 100 }.encode();
    SgcChainExtension::call(1002, &mint, &[], &mut budget, &mut ledger).unwrap();

    let transfer =
        TransferFromInputParam { from: acct(1), to: acct(2), id: 9, amount: 30 }.encode();
    SgcChainExtension::call(1006, &transfer, &[], &mut budget, &mut ledger).unwrap();
    assert_eq!(balance(&mut ledger, 1, 9), 70);
    assert_eq!(balance(&mut ledger, 2, 9), 30);

    let burn = BurnInputParam { from: acct(2), to: 9, amount: 30 }.encode();
    SgcChainExtension::call(1004, &burn, &[], &mut budget, &mut ledger).unwrap();
    assert_eq!(balance(&mut ledger, 2, 9), 0);

    // Burning more than the balance is the ledger's error, forwarded.
    let too_much = BurnInputParam { from: acct(2), to: 9, amount: 1 }.encode();
    let r = SgcChainExtension::call(1004, &too_much, &[], &mut budget, &mut ledger);
    assert_eq!(r.unwrap_err(), CallError::Ledger(LedgerError::InsufficientBalance));
}

#[test]
fn mint_overflow_is_rejected() {
    let mut ledger = Erc1155Ledger::new();
    let mut budget = rich_budget();
    let mint = MintInputParam { to: acct(1), id: 1, amount: u128::MAX }.encode();
    SgcChainExtension::call(1002, &mint, &[], &mut budget, &mut ledger).unwrap();
    let one_more = MintInputParam { to: acct(1), id: 1, amount: 1 }.encode();
    let r = SgcChainExtension::call(1002, &one_more, &[], &mut budget, &mut ledger);
    assert_eq!(r.unwrap_err(), CallError::Ledger(LedgerError::BalanceOverflow));
    assert_eq!(balance(&mut ledger, 1, 1), u128::MAX);
}

#[test]
fn extension_is_enabled() {
    assert!(SgcChainExtension::enabled());
}

#[test]
fn queries_with_a_record_charge_the_flat_cost() {
    let mut ledger = Erc1155Ledger::new();
    let payload = IsApprovedForAllInputParam { owner: acct(1), operator: acct(2) }.encode();
    let mut budget = rich_budget();
    SgcChainExtension::call(1010, &payload, &[], &mut budget, &mut ledger).unwrap();
    assert_eq!(budget.remaining, 10_000_000 - 100_000);

    // The plain balance query is free.
    let query = BalanceOfInputParam { owner: acct(1), id: 1 }.encode();
    let mut budget2 = rich_budget();
    SgcChainExtension::call(1011, &query, &[], &mut budget2, &mut ledger).unwrap();
    assert_eq!(budget2.remaining, 10_000_000);
}

#[test]
fn every_failure_collapses_to_one_wire_marker() {
    let mut ledger = Erc1155Ledger::new();
    let mut budget = Budget::new(0);
    let unknown =
        SgcChainExtension::call(1013, &[], &[], &mut budget, &mut ledger).unwrap_err();
    let undecodable =
        SgcChainExtension::call(1002, &[1], &[], &mut budget, &mut ledger).unwrap_err();
    let mint = MintInputParam { to: acct(1), id: 1, amount: 5 }.encode();
    let unpaid =
        SgcChainExtension::call(1002, &mint, &[], &mut budget, &mut ledger).unwrap_err();
    assert_ne!(unknown, undecodable);
    assert_ne!(undecodable, unpaid);
    assert_eq!(unknown.wire_marker(), undecodable.wire_marker());
    assert_eq!(undecodable.wire_marker(), unpaid.wire_marker());
}
