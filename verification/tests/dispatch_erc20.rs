//! Dispatcher tests for the fungible-token extension: creation, queries,
//! transfers, allowances, metering, and routing failures.

use chain_extension::account::AccountId;
use chain_extension::erc20::extension::FetchRandomExtension;
use chain_extension::erc20::ledger::Erc20Ledger;
use chain_extension::erc20::params::{
    AllowanceInputParam, AllowanceOfInputParam, BalanceOfInputParam, NewInputParam,
    TransferFromInputParam, TransferHelpInputParam,
};
use chain_extension::metering::Budget;
use chain_extension::{CallError, LedgerError};

fn acct(tag: u8) -> AccountId {
    AccountId::from_bytes(vec![tag; 32]).expect("32 bytes make an account")
}

fn rich_budget() -> Budget {
    Budget::new(10_000_000)
}

fn call(
    ledger: &mut Erc20Ledger,
    caller: u8,
    selector: u32,
    payload: &[u8],
) -> Result<Vec<u8>, CallError> {
    let mut budget = rich_budget();
    FetchRandomExtension::call(selector, payload, &acct(caller), &[], &mut budget, ledger)
        .map(|out| out.data)
}

fn balance(ledger: &mut Erc20Ledger, owner: u8) -> u128 {
    let payload = BalanceOfInputParam { owner: acct(owner) }.encode();
    let data = call(ledger, 0, 1104, &payload).expect("balance query succeeds");
    u128::from_be_bytes(data.try_into().expect("sixteen bytes"))
}

fn allowance(ledger: &mut Erc20Ledger, owner: u8, spender: u8) -> u128 {
    let payload = AllowanceOfInputParam { owner: acct(owner), spender: acct(spender) }.encode();
    let data = call(ledger, 0, 1105, &payload).expect("allowance query succeeds");
    u128::from_be_bytes(data.try_into().expect("sixteen bytes"))
}

fn total_supply(ledger: &mut Erc20Ledger) -> u128 {
    let data = call(ledger, 0, 1103, &[]).expect("supply query succeeds");
    u128::from_be_bytes(data.try_into().expect("sixteen bytes"))
}

#[test]
fn erc20_randomness_selector_echoes_the_seed() {
    let mut ledger = Erc20Ledger::new();
    let mut budget = rich_budget();
    let seed = [9u8; 32];
    let out =
        FetchRandomExtension::call(1101, &[], &acct(1), &seed, &mut budget, &mut ledger).unwrap();
    assert_eq!(out.data, seed.to_vec());
    assert_eq!(out.status, 0);
}

#[test]
fn creation_is_not_idempotent() {
    let mut ledger = Erc20Ledger::new();
    assert_eq!(total_supply(&mut ledger), 0);

    let first = NewInputParam { total_supply: 1000 }.encode();
    call(&mut ledger, 0xA, 1102, &first).expect("first creation succeeds");
    assert_eq!(total_supply(&mut ledger), 1000);
    assert_eq!(balance(&mut ledger, 0xA), 1000);

    // A second creation, even by the same caller with another supply, is
    // the ledger's decision to reject; the dispatcher forwards it.
    let second = NewInputParam { total_supply: 5 }.encode();
    let r = call(&mut ledger, 0xA, 1102, &second);
    assert_eq!(r.unwrap_err(), CallError::Ledger(LedgerError::AlreadyCreated));
    assert_eq!(total_supply(&mut ledger), 1000);
    assert_eq!(balance(&mut ledger, 0xA), 1000);
}

#[test]
fn transfer_help_moves_balance() {
    let mut ledger = Erc20Ledger::new();
    let create = NewInputParam { total_supply: 500 }.encode();
    call(&mut ledger, 1, 1102, &create).unwrap();

    let payload = TransferHelpInputParam { from: acct(1), to: acct(2), value: 120 }.encode();
    call(&mut ledger, 9, 1107, &payload).unwrap();
    assert_eq!(balance(&mut ledger, 1), 380);
    assert_eq!(balance(&mut ledger, 2), 120);

    let too_much = TransferHelpInputParam { from: acct(2), to: acct(1), value: 121 }.encode();
    let r = call(&mut ledger, 9, 1107, &too_much);
    assert_eq!(r.unwrap_err(), CallError::Ledger(LedgerError::InsufficientBalance));
    assert_eq!(balance(&mut ledger, 1), 380);
    assert_eq!(balance(&mut ledger, 2), 120);
}

#[test]
fn allowance_gates_transfer_from() {
    let mut ledger = Erc20Ledger::new();
    let create = NewInputParam { total_supply: 1000 }.encode();
    call(&mut ledger, 1, 1102, &create).unwrap();

    // Without an allowance the transfer is rejected untouched.
    let transfer = TransferFromInputParam { from: acct(1), to: acct(2), value: 30 }.encode();
    let r = call(&mut ledger, 9, 1106, &transfer);
    assert_eq!(r.unwrap_err(), CallError::Ledger(LedgerError::InsufficientAllowance));

    // Grant 50 to account 2, then move 30 of it.
    let approve = AllowanceInputParam { owner: acct(1), spender: acct(2), value: 50 }.encode();
    call(&mut ledger, 1, 1108, &approve).unwrap();
    assert_eq!(allowance(&mut ledger, 1, 2), 50);

    call(&mut ledger, 9, 1106, &transfer).expect("allowance covers the transfer");
    assert_eq!(balance(&mut ledger, 1), 970);
    assert_eq!(balance(&mut ledger, 2), 30);
    assert_eq!(allowance(&mut ledger, 1, 2), 20);

    // The remaining allowance no longer covers another 30.
    let r = call(&mut ledger, 9, 1106, &transfer);
    assert_eq!(r.unwrap_err(), CallError::Ledger(LedgerError::InsufficientAllowance));
    assert_eq!(balance(&mut ledger, 1), 970);
    assert_eq!(allowance(&mut ledger, 1, 2), 20);
}

#[test]
fn erc20_zero_budget_blocks_every_mutating_selector() {
    let mut ledger = Erc20Ledger::new();
    let payloads: Vec<(u32, Vec<u8>)> = vec![
        (1102, NewInputParam { total_supply: 7 }.encode()),
        (1106, TransferFromInputParam { from: acct(1), to: acct(2), value: 1 }.encode()),
        (1107, TransferHelpInputParam { from: acct(1), to: acct(2), value: 1 }.encode()),
        (1108, AllowanceInputParam { owner: acct(1), spender: acct(2), value: 1 }.encode()),
    ];
    for (selector, payload) in payloads {
        let mut budget = Budget::new(0);
        let r = FetchRandomExtension::call(
            selector,
            &payload,
            &acct(1),
            &[],
            &mut budget,
            &mut ledger,
        );
        assert_eq!(r.unwrap_err(), CallError::BudgetExceeded);
        assert_eq!(budget.remaining, 0);
    }
    assert_eq!(total_supply(&mut ledger), 0);
    assert_eq!(balance(&mut ledger, 1), 0);
    assert_eq!(allowance(&mut ledger, 1, 2), 0);
}

#[test]
fn erc20_unknown_selectors_are_rejected_without_effect() {
    let mut ledger = Erc20Ledger::new();
    for selector in [0u32, 1000, 1013, 1100, 1109, u32::MAX] {
        let r = call(&mut ledger, 1, selector, &[1, 2, 3]);
        assert_eq!(r.unwrap_err(), CallError::UnknownSelector);
    }
    assert_eq!(total_supply(&mut ledger), 0);
}

#[test]
fn erc20_short_payloads_yield_decode_error() {
    let mut ledger = Erc20Ledger::new();
    for selector in [1102u32, 1104, 1105, 1106, 1107, 1108] {
        let r = call(&mut ledger, 1, selector, &[0, 1, 2]);
        assert_eq!(r.unwrap_err(), CallError::DecodeError);
    }
}

#[test]
fn queries_charge_nothing_and_mutations_charge_the_flat_cost() {
    let mut ledger = Erc20Ledger::new();
    let create = NewInputParam { total_supply: 9 }.encode();
    let mut budget = rich_budget();
    FetchRandomExtension::call(1102, &create, &acct(1), &[], &mut budget, &mut ledger).unwrap();
    assert_eq!(budget.remaining, 10_000_000 - 100_000);

    let query = BalanceOfInputParam { owner: acct(1) }.encode();
    let mut budget2 = rich_budget();
    FetchRandomExtension::call(1104, &query, &acct(1), &[], &mut budget2, &mut ledger).unwrap();
    assert_eq!(budget2.remaining, 10_000_000);
}

#[test]
fn erc20_extension_is_enabled() {
    assert!(FetchRandomExtension::enabled());
}
