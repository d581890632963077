//! Wire-format tests: record encodings round-trip through decode, agree
//! with the SCALE codec, and malformed payloads are rejected.

use chain_extension::account::AccountId;
use chain_extension::erc1155::params::{
    BalanceOfBatchInputParam, BatchMintParam, BurnInputParam, MintInputParam,
    SetApprovalForAllInputParam,
};
use chain_extension::erc20::params::TransferFromInputParam;
use parity_scale_codec::{Compact, Encode};

fn acct(tag: u8) -> AccountId {
    AccountId::from_bytes(vec![tag; 32]).expect("32 bytes make an account")
}

fn acct_arr(tag: u8) -> [u8; 32] {
    [tag; 32]
}

#[test]
fn mint_record_round_trips() {
    let rec = MintInputParam { to: acct(1), id: 7, amount: 42 };
    let bytes = rec.encode();
    let back = MintInputParam::decode(&bytes).expect("an encoding decodes");
    assert_eq!(back.to.as_bytes(), &vec![1u8; 32]);
    assert_eq!(back.id, 7);
    assert_eq!(back.amount, 42);
}

#[test]
fn batch_record_round_trips() {
    let rec = BatchMintParam { to: acct(2), ids: vec![1, 2, 3], amounts: vec![10, 20, 30] };
    let bytes = rec.encode();
    let back = BatchMintParam::decode(&bytes).expect("an encoding decodes");
    assert_eq!(back.to.as_bytes(), &vec![2u8; 32]);
    assert_eq!(back.ids, vec![1, 2, 3]);
    assert_eq!(back.amounts, vec![10, 20, 30]);
}

#[test]
fn mint_encoding_matches_scale() {
    let rec = MintInputParam { to: acct(9), id: 0xDEAD_BEEF, amount: u128::MAX };
    let scale = (acct_arr(9), 0xDEAD_BEEFu128, u128::MAX).encode();
    assert_eq!(rec.encode(), scale);
}

#[test]
fn approval_encoding_matches_scale() {
    let rec = SetApprovalForAllInputParam { owner: acct(3), operator: acct(4), approved: true };
    let scale = (acct_arr(3), acct_arr(4), true).encode();
    assert_eq!(rec.encode(), scale);
}

#[test]
fn batch_encoding_matches_scale() {
    let rec = BatchMintParam { to: acct(5), ids: vec![1, 2], amounts: vec![3, 4] };
    let scale = (acct_arr(5), vec![1u128, 2], vec![3u128, 4]).encode();
    assert_eq!(rec.encode(), scale);
}

#[test]
fn two_byte_compact_prefix_matches_scale() {
    // 64 elements crosses into the two-byte compact mode.
    let ids: Vec<u128> = (0..64).collect();
    let amounts: Vec<u128> = (0..64).map(|x| x + 100).collect();
    let rec = BatchMintParam { to: acct(6), ids: ids.clone(), amounts: amounts.clone() };
    let scale = (acct_arr(6), ids, amounts).encode();
    assert_eq!(rec.encode(), scale);
    assert_eq!(Compact(64u32).encode(), vec![0x01, 0x01]);
}

#[test]
fn erc20_transfer_encoding_matches_scale() {
    let rec = TransferFromInputParam { from: acct(7), to: acct(8), value: 12345 };
    let scale = (acct_arr(7), acct_arr(8), 12345u128).encode();
    assert_eq!(rec.encode(), scale);
}

#[test]
fn short_payload_is_rejected() {
    let rec = BurnInputParam { from: acct(1), to: 9, amount: 5 };
    let bytes = rec.encode();
    assert_eq!(bytes.len(), 64);
    for cut in [0, 1, 31, 32, 33, 63] {
        assert!(BurnInputParam::decode(&bytes[..cut]).is_none());
    }
}

#[test]
fn trailing_bytes_are_rejected() {
    let rec = MintInputParam { to: acct(1), id: 1, amount: 1 };
    let mut bytes = rec.encode();
    bytes.push(0);
    assert!(MintInputParam::decode(&bytes).is_none());
}

#[test]
fn boolean_byte_must_be_zero_or_one() {
    let rec = SetApprovalForAllInputParam { owner: acct(1), operator: acct(2), approved: false };
    let mut bytes = rec.encode();
    assert_eq!(*bytes.last().unwrap(), 0);
    *bytes.last_mut().unwrap() = 2;
    assert!(SetApprovalForAllInputParam::decode(&bytes).is_none());
}

#[test]
fn non_canonical_length_prefix_is_rejected() {
    // An empty sequence belongs in the one-byte mode; the two-byte
    // encoding of zero must be refused.
    let mut bytes = vec![0u8; 32];
    bytes.extend_from_slice(&[0x01, 0x00]); // two-byte compact of 0
    bytes.push(0x00); // one-byte compact of 0 for the amounts
    assert!(BatchMintParam::decode(&bytes).is_none());
    // The canonical form decodes.
    let mut good = vec![0u8; 32];
    good.push(0x00);
    good.push(0x00);
    let rec = BatchMintParam::decode(&good).expect("canonical empty batch decodes");
    assert!(rec.ids.is_empty());
    assert!(rec.amounts.is_empty());
}

#[test]
fn scale_encoded_payload_decodes() {
    // A payload produced by the SCALE codec itself is accepted.
    let payload = (acct_arr(1), 5u128, 7u128).encode();
    let rec = MintInputParam::decode(&payload).expect("SCALE payload decodes");
    assert_eq!(rec.to.as_bytes(), &vec![1u8; 32]);
    assert_eq!(rec.id, 5);
    assert_eq!(rec.amount, 7);
}

#[test]
fn four_byte_compact_prefix_matches_scale() {
    // 16384 elements crosses into the four-byte compact mode.
    let ids: Vec<u128> = vec![3; 16384];
    let amounts: Vec<u128> = vec![4; 16384];
    let rec = BatchMintParam { to: acct(1), ids: ids.clone(), amounts: amounts.clone() };
    let bytes = rec.encode();
    let scale = (acct_arr(1), ids, amounts).encode();
    assert_eq!(bytes, scale);
    assert_eq!(Compact(16384u32).encode(), vec![0x02, 0x00, 0x01, 0x00]);
    let back = BatchMintParam::decode(&bytes).expect("the encoding decodes");
    assert_eq!(back.ids.len(), 16384);
    assert_eq!(back.amounts.len(), 16384);
    assert_eq!(back.ids[16383], 3);
}

#[test]
fn account_identifiers_must_hold_32_bytes() {
    assert!(AccountId::from_bytes(vec![1u8; 31]).is_none());
    assert!(AccountId::from_bytes(vec![1u8; 33]).is_none());
    assert!(AccountId::from_bytes(Vec::new()).is_none());
    let a = AccountId::from_bytes(vec![1u8; 32]).unwrap();
    assert_eq!(a.as_bytes().len(), 32);
}

#[test]
fn batch_balance_record_round_trips() {
    let rec = BalanceOfBatchInputParam { owners: vec![acct(1), acct(2)], ids: vec![7, 8] };
    let bytes = rec.encode();
    let scale = (vec![acct_arr(1), acct_arr(2)], vec![7u128, 8]).encode();
    assert_eq!(bytes, scale);
    let back = BalanceOfBatchInputParam::decode(&bytes).expect("the encoding decodes");
    assert_eq!(back.owners.len(), 2);
    assert_eq!(back.owners[1].as_bytes(), &vec![2u8; 32]);
    assert_eq!(back.ids, vec![7, 8]);
}
