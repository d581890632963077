//! Payload layouts, one per record shape.
//!
//! A record's payload is the concatenation of its field encodings, with
//! nothing before, between, or after them. Each shape has a spec-level
//! encoder and parser; the parser accepts exactly the encodings (the
//! `*_round_trip` lemmas) and nothing else (the `*_exact` lemmas), so a
//! payload with missing, malformed, or trailing bytes is rejected.

use vstd::prelude::*;
use crate::codec::{
    dec_account, dec_account_vec, dec_bool, dec_u128, dec_u128_vec, le_bytes, bool_byte,
    vec_u128_bytes, vec_account_bytes, all_accounts, lemma_le_bytes_len, lemma_subrange_split,
    lemma_concat_parts, lemma_dec_account_of_enc, lemma_dec_u128_of_enc, lemma_dec_u128_sound,
    lemma_dec_bool_of_enc, lemma_dec_bool_sound, lemma_dec_u128_vec_of_enc,
    lemma_dec_u128_vec_sound, lemma_dec_account_vec_of_enc, lemma_dec_account_vec_sound,
};

verus! {

// ---- one account ----

pub open spec fn enc_acct(a: Seq<u8>) -> Seq<u8> {
    a
}

pub open spec fn dec_acct(p: Seq<u8>) -> Option<Seq<u8>> {
    match dec_account(p, 0) {
        None => None,
        Some((a, o1)) => if o1 == p.len() {
            Some(a)
        } else {
            None
        },
    }
}

pub proof fn lemma_acct_round_trip(a: Seq<u8>)
    requires
        a.len() == 32,
    ensures
        dec_acct(enc_acct(a)) == Some(a),
{
    let p = enc_acct(a);
    assert(p.subrange(0, 32) =~= a);
}

pub proof fn lemma_acct_exact(p: Seq<u8>, a: Seq<u8>)
    requires
        dec_acct(p) == Some(a),
    ensures
        a.len() == 32,
        p == enc_acct(a),
{
    assert(p.subrange(0, 32) =~= p);
}

// ---- one unsigned 128-bit field ----

pub open spec fn enc_u128(x: u128) -> Seq<u8> {
    le_bytes(x as nat, 16)
}

pub open spec fn dec_one_u128(p: Seq<u8>) -> Option<u128> {
    match dec_u128(p, 0) {
        None => None,
        Some((x, o1)) => if o1 == p.len() {
            Some(x)
        } else {
            None
        },
    }
}

pub proof fn lemma_u128_round_trip(x: u128)
    ensures
        dec_one_u128(enc_u128(x)) == Some(x),
{
    let p = enc_u128(x);
    lemma_le_bytes_len(x as nat, 16);
    assert(p.subrange(0, 16) =~= p);
    lemma_dec_u128_of_enc(p, 0, x);
}

pub proof fn lemma_u128_exact(p: Seq<u8>, x: u128)
    requires
        dec_one_u128(p) == Some(x),
    ensures
        p == enc_u128(x),
        p.len() == 16,
{
    lemma_dec_u128_sound(p, 0, x, 16);
    assert(p.subrange(0, 16) =~= p);
}

// ---- two accounts ----

pub open spec fn enc_acct_acct(a: Seq<u8>, b: Seq<u8>) -> Seq<u8> {
    a + b
}

pub open spec fn dec_acct_acct(p: Seq<u8>) -> Option<(Seq<u8>, Seq<u8>)> {
    match dec_account(p, 0) {
        None => None,
        Some((a, o1)) => match dec_account(p, o1) {
            None => None,
            Some((b, o2)) => if o2 == p.len() {
                Some((a, b))
            } else {
                None
            },
        },
    }
}

pub proof fn lemma_acct_acct_round_trip(a: Seq<u8>, b: Seq<u8>)
    requires
        a.len() == 32,
        b.len() == 32,
    ensures
        dec_acct_acct(enc_acct_acct(a, b)) == Some((a, b)),
{
    let p = enc_acct_acct(a, b);
    assert(p.subrange(0, 64) =~= p);
    lemma_subrange_split(p, 0, 32, 64);
    lemma_concat_parts(p.subrange(0, 32), p.subrange(32, 64), a, b);
    lemma_dec_account_of_enc(p, 0, a);
    lemma_dec_account_of_enc(p, 32, b);
}

pub proof fn lemma_acct_acct_exact(p: Seq<u8>, a: Seq<u8>, b: Seq<u8>)
    requires
        dec_acct_acct(p) == Some((a, b)),
    ensures
        a.len() == 32,
        b.len() == 32,
        p == enc_acct_acct(a, b),
        p.len() == 64,
{
    lemma_subrange_split(p, 0, 32, 64);
    assert(p.subrange(0, 64) =~= p);
}

// ---- two accounts and a boolean ----

pub open spec fn enc_acct_acct_bool(a: Seq<u8>, b: Seq<u8>, v: bool) -> Seq<u8> {
    a + b + bool_byte(v)
}

pub open spec fn dec_acct_acct_bool(p: Seq<u8>) -> Option<(Seq<u8>, Seq<u8>, bool)> {
    match dec_account(p, 0) {
        None => None,
        Some((a, o1)) => match dec_account(p, o1) {
            None => None,
            Some((b, o2)) => match dec_bool(p, o2) {
                None => None,
                Some((v, o3)) => if o3 == p.len() {
                    Some((a, b, v))
                } else {
                    None
                },
            },
        },
    }
}

pub proof fn lemma_acct_acct_bool_round_trip(a: Seq<u8>, b: Seq<u8>, v: bool)
    requires
        a.len() == 32,
        b.len() == 32,
    ensures
        dec_acct_acct_bool(enc_acct_acct_bool(a, b, v)) == Some((a, b, v)),
{
    let p = enc_acct_acct_bool(a, b, v);
    assert(p.subrange(0, 65) =~= p);
    lemma_subrange_split(p, 0, 64, 65);
    lemma_concat_parts(p.subrange(0, 64), p.subrange(64, 65), a + b, bool_byte(v));
    lemma_subrange_split(p, 0, 32, 64);
    lemma_concat_parts(p.subrange(0, 32), p.subrange(32, 64), a, b);
    lemma_dec_account_of_enc(p, 0, a);
    lemma_dec_account_of_enc(p, 32, b);
    lemma_dec_bool_of_enc(p, 64, v);
}

pub proof fn lemma_acct_acct_bool_exact(p: Seq<u8>, a: Seq<u8>, b: Seq<u8>, v: bool)
    requires
        dec_acct_acct_bool(p) == Some((a, b, v)),
    ensures
        a.len() == 32,
        b.len() == 32,
        p == enc_acct_acct_bool(a, b, v),
        p.len() == 65,
{
    lemma_dec_bool_sound(p, 64, v, 65);
    lemma_subrange_split(p, 0, 32, 64);
    lemma_subrange_split(p, 0, 64, 65);
    assert(p.subrange(0, 65) =~= p);
}

// ---- an account and one unsigned 128-bit field ----

pub open spec fn enc_acct_u128(a: Seq<u8>, x: u128) -> Seq<u8> {
    a + le_bytes(x as nat, 16)
}

pub open spec fn dec_acct_u128(p: Seq<u8>) -> Option<(Seq<u8>, u128)> {
    match dec_account(p, 0) {
        None => None,
        Some((a, o1)) => match dec_u128(p, o1) {
            None => None,
            Some((x, o2)) => if o2 == p.len() {
                Some((a, x))
            } else {
                None
            },
        },
    }
}

pub proof fn lemma_acct_u128_round_trip(a: Seq<u8>, x: u128)
    requires
        a.len() == 32,
    ensures
        dec_acct_u128(enc_acct_u128(a, x)) == Some((a, x)),
{
    let p = enc_acct_u128(a, x);
    lemma_le_bytes_len(x as nat, 16);
    assert(p.subrange(0, 48) =~= p);
    lemma_subrange_split(p, 0, 32, 48);
    lemma_concat_parts(p.subrange(0, 32), p.subrange(32, 48), a, le_bytes(x as nat, 16));
    lemma_dec_account_of_enc(p, 0, a);
    lemma_dec_u128_of_enc(p, 32, x);
}

pub proof fn lemma_acct_u128_exact(p: Seq<u8>, a: Seq<u8>, x: u128)
    requires
        dec_acct_u128(p) == Some((a, x)),
    ensures
        a.len() == 32,
        p == enc_acct_u128(a, x),
        p.len() == 48,
{
    lemma_dec_u128_sound(p, 32, x, 48);
    lemma_subrange_split(p, 0, 32, 48);
    assert(p.subrange(0, 48) =~= p);
}

// ---- an account and two unsigned 128-bit fields ----

pub open spec fn enc_acct_u128_u128(a: Seq<u8>, x: u128, y: u128) -> Seq<u8> {
    a + le_bytes(x as nat, 16) + le_bytes(y as nat, 16)
}

pub open spec fn dec_acct_u128_u128(p: Seq<u8>) -> Option<(Seq<u8>, u128, u128)> {
    match dec_account(p, 0) {
        None => None,
        Some((a, o1)) => match dec_u128(p, o1) {
            None => None,
            Some((x, o2)) => match dec_u128(p, o2) {
                None => None,
                Some((y, o3)) => if o3 == p.len() {
                    Some((a, x, y))
                } else {
                    None
                },
            },
        },
    }
}

pub proof fn lemma_acct_u128_u128_round_trip(a: Seq<u8>, x: u128, y: u128)
    requires
        a.len() == 32,
    ensures
        dec_acct_u128_u128(enc_acct_u128_u128(a, x, y)) == Some((a, x, y)),
{
    let p = enc_acct_u128_u128(a, x, y);
    lemma_le_bytes_len(x as nat, 16);
    lemma_le_bytes_len(y as nat, 16);
    assert(p.subrange(0, 64) =~= p);
    lemma_subrange_split(p, 0, 48, 64);
    lemma_concat_parts(
        p.subrange(0, 48),
        p.subrange(48, 64),
        a + le_bytes(x as nat, 16),
        le_bytes(y as nat, 16),
    );
    lemma_subrange_split(p, 0, 32, 48);
    lemma_concat_parts(p.subrange(0, 32), p.subrange(32, 48), a, le_bytes(x as nat, 16));
    lemma_dec_account_of_enc(p, 0, a);
    lemma_dec_u128_of_enc(p, 32, x);
    lemma_dec_u128_of_enc(p, 48, y);
}

pub proof fn lemma_acct_u128_u128_exact(p: Seq<u8>, a: Seq<u8>, x: u128, y: u128)
    requires
        dec_acct_u128_u128(p) == Some((a, x, y)),
    ensures
        a.len() == 32,
        p == enc_acct_u128_u128(a, x, y),
        p.len() == 64,
{
    lemma_dec_u128_sound(p, 32, x, 48);
    lemma_dec_u128_sound(p, 48, y, 64);
    lemma_subrange_split(p, 0, 32, 48);
    lemma_subrange_split(p, 0, 48, 64);
    assert(p.subrange(0, 64) =~= p);
}

// ---- two accounts and two unsigned 128-bit fields ----

pub open spec fn enc_acct_acct_u128_u128(a: Seq<u8>, b: Seq<u8>, x: u128, y: u128) -> Seq<u8> {
    a + b + le_bytes(x as nat, 16) + le_bytes(y as nat, 16)
}

pub open spec fn dec_acct_acct_u128_u128(p: Seq<u8>) -> Option<(Seq<u8>, Seq<u8>, u128, u128)> {
    match dec_account(p, 0) {
        None => None,
        Some((a, o1)) => match dec_account(p, o1) {
            None => None,
            Some((b, o2)) => match dec_u128(p, o2) {
                None => None,
                Some((x, o3)) => match dec_u128(p, o3) {
                    None => None,
                    Some((y, o4)) => if o4 == p.len() {
                        Some((a, b, x, y))
                    } else {
                        None
                    },
                },
            },
        },
    }
}

pub proof fn lemma_acct_acct_u128_u128_round_trip(a: Seq<u8>, b: Seq<u8>, x: u128, y: u128)
    requires
        a.len() == 32,
        b.len() == 32,
    ensures
        dec_acct_acct_u128_u128(enc_acct_acct_u128_u128(a, b, x, y)) == Some((a, b, x, y)),
{
    let p = enc_acct_acct_u128_u128(a, b, x, y);
    lemma_le_bytes_len(x as nat, 16);
    lemma_le_bytes_len(y as nat, 16);
    assert(p.subrange(0, 96) =~= p);
    lemma_subrange_split(p, 0, 80, 96);
    lemma_concat_parts(
        p.subrange(0, 80),
        p.subrange(80, 96),
        a + b + le_bytes(x as nat, 16),
        le_bytes(y as nat, 16),
    );
    lemma_subrange_split(p, 0, 64, 80);
    lemma_concat_parts(
        p.subrange(0, 64),
        p.subrange(64, 80),
        a + b,
        le_bytes(x as nat, 16),
    );
    lemma_subrange_split(p, 0, 32, 64);
    lemma_concat_parts(p.subrange(0, 32), p.subrange(32, 64), a, b);
    lemma_dec_account_of_enc(p, 0, a);
    lemma_dec_account_of_enc(p, 32, b);
    lemma_dec_u128_of_enc(p, 64, x);
    lemma_dec_u128_of_enc(p, 80, y);
}

pub proof fn lemma_acct_acct_u128_u128_exact(
    p: Seq<u8>,
    a: Seq<u8>,
    b: Seq<u8>,
    x: u128,
    y: u128,
)
    requires
        dec_acct_acct_u128_u128(p) == Some((a, b, x, y)),
    ensures
        a.len() == 32,
        b.len() == 32,
        p == enc_acct_acct_u128_u128(a, b, x, y),
        p.len() == 96,
{
    lemma_dec_u128_sound(p, 64, x, 80);
    lemma_dec_u128_sound(p, 80, y, 96);
    lemma_subrange_split(p, 0, 32, 64);
    lemma_subrange_split(p, 0, 64, 80);
    lemma_subrange_split(p, 0, 80, 96);
    assert(p.subrange(0, 96) =~= p);
}

// ---- two accounts and one unsigned 128-bit field ----

pub open spec fn enc_acct_acct_u128(a: Seq<u8>, b: Seq<u8>, x: u128) -> Seq<u8> {
    a + b + le_bytes(x as nat, 16)
}

pub open spec fn dec_acct_acct_u128(p: Seq<u8>) -> Option<(Seq<u8>, Seq<u8>, u128)> {
    match dec_account(p, 0) {
        None => None,
        Some((a, o1)) => match dec_account(p, o1) {
            None => None,
            Some((b, o2)) => match dec_u128(p, o2) {
                None => None,
                Some((x, o3)) => if o3 == p.len() {
                    Some((a, b, x))
                } else {
                    None
                },
            },
        },
    }
}

pub proof fn lemma_acct_acct_u128_round_trip(a: Seq<u8>, b: Seq<u8>, x: u128)
    requires
        a.len() == 32,
        b.len() == 32,
    ensures
        dec_acct_acct_u128(enc_acct_acct_u128(a, b, x)) == Some((a, b, x)),
{
    let p = enc_acct_acct_u128(a, b, x);
    lemma_le_bytes_len(x as nat, 16);
    assert(p.subrange(0, 80) =~= p);
    lemma_subrange_split(p, 0, 64, 80);
    lemma_concat_parts(p.subrange(0, 64), p.subrange(64, 80), a + b, le_bytes(x as nat, 16));
    lemma_subrange_split(p, 0, 32, 64);
    lemma_concat_parts(p.subrange(0, 32), p.subrange(32, 64), a, b);
    lemma_dec_account_of_enc(p, 0, a);
    lemma_dec_account_of_enc(p, 32, b);
    lemma_dec_u128_of_enc(p, 64, x);
}

pub proof fn lemma_acct_acct_u128_exact(p: Seq<u8>, a: Seq<u8>, b: Seq<u8>, x: u128)
    requires
        dec_acct_acct_u128(p) == Some((a, b, x)),
    ensures
        a.len() == 32,
        b.len() == 32,
        p == enc_acct_acct_u128(a, b, x),
        p.len() == 80,
{
    lemma_dec_u128_sound(p, 64, x, 80);
    lemma_subrange_split(p, 0, 32, 64);
    lemma_subrange_split(p, 0, 64, 80);
    assert(p.subrange(0, 80) =~= p);
}

// ---- an account and two length-prefixed 128-bit sequences ----

pub open spec fn enc_acct_vecs(a: Seq<u8>, ids: Seq<u128>, amounts: Seq<u128>) -> Seq<u8> {
    a + vec_u128_bytes(ids) + vec_u128_bytes(amounts)
}

pub open spec fn dec_acct_vecs(p: Seq<u8>) -> Option<(Seq<u8>, Seq<u128>, Seq<u128>)> {
    match dec_account(p, 0) {
        None => None,
        Some((a, o1)) => match dec_u128_vec(p, o1) {
            None => None,
            Some((ids, o2)) => match dec_u128_vec(p, o2) {
                None => None,
                Some((amounts, o3)) => if o3 == p.len() {
                    Some((a, ids, amounts))
                } else {
                    None
                },
            },
        },
    }
}

pub proof fn lemma_acct_vecs_round_trip(a: Seq<u8>, ids: Seq<u128>, amounts: Seq<u128>)
    requires
        a.len() == 32,
        ids.len() < 0x4000_0000,
        amounts.len() < 0x4000_0000,
    ensures
        dec_acct_vecs(enc_acct_vecs(a, ids, amounts)) == Some((a, ids, amounts)),
{
    let p = enc_acct_vecs(a, ids, amounts);
    let l1 = vec_u128_bytes(ids).len() as int;
    let l2 = vec_u128_bytes(amounts).len() as int;
    assert(p.subrange(0, 32 + l1 + l2) =~= p);
    lemma_subrange_split(p, 0, 32 + l1, 32 + l1 + l2);
    lemma_concat_parts(
        p.subrange(0, 32 + l1),
        p.subrange(32 + l1, 32 + l1 + l2),
        a + vec_u128_bytes(ids),
        vec_u128_bytes(amounts),
    );
    lemma_subrange_split(p, 0, 32, 32 + l1);
    lemma_concat_parts(p.subrange(0, 32), p.subrange(32, 32 + l1), a, vec_u128_bytes(ids));
    lemma_dec_account_of_enc(p, 0, a);
    lemma_dec_u128_vec_of_enc(p, 32, ids);
    lemma_dec_u128_vec_of_enc(p, 32 + l1, amounts);
}

pub proof fn lemma_acct_vecs_exact(p: Seq<u8>, a: Seq<u8>, ids: Seq<u128>, amounts: Seq<u128>)
    requires
        dec_acct_vecs(p) == Some((a, ids, amounts)),
    ensures
        a.len() == 32,
        ids.len() < 0x4000_0000,
        amounts.len() < 0x4000_0000,
        p == enc_acct_vecs(a, ids, amounts),
        p.len() == 32 + vec_u128_bytes(ids).len() + vec_u128_bytes(amounts).len(),
{
    let l1 = vec_u128_bytes(ids).len() as int;
    let l2 = vec_u128_bytes(amounts).len() as int;
    let (_, o2) = dec_u128_vec(p, 32).unwrap();
    lemma_dec_u128_vec_sound(p, 32, ids, o2);
    let (_, o3) = dec_u128_vec(p, o2).unwrap();
    lemma_dec_u128_vec_sound(p, o2, amounts, o3);
    lemma_subrange_split(p, 0, 32, 32 + l1);
    lemma_subrange_split(p, 0, 32 + l1, 32 + l1 + l2);
    assert(p.subrange(0, 32 + l1 + l2) =~= p);
}

// ---- two accounts and two length-prefixed 128-bit sequences ----

pub open spec fn enc_acct_acct_vecs(
    a: Seq<u8>,
    b: Seq<u8>,
    ids: Seq<u128>,
    amounts: Seq<u128>,
) -> Seq<u8> {
    a + b + vec_u128_bytes(ids) + vec_u128_bytes(amounts)
}

pub open spec fn dec_acct_acct_vecs(p: Seq<u8>) -> Option<(Seq<u8>, Seq<u8>, Seq<u128>, Seq<u128>)> {
    match dec_account(p, 0) {
        None => None,
        Some((a, o1)) => match dec_account(p, o1) {
            None => None,
            Some((b, o2)) => match dec_u128_vec(p, o2) {
                None => None,
                Some((ids, o3)) => match dec_u128_vec(p, o3) {
                    None => None,
                    Some((amounts, o4)) => if o4 == p.len() {
                        Some((a, b, ids, amounts))
                    } else {
                        None
                    },
                },
            },
        },
    }
}

pub proof fn lemma_acct_acct_vecs_round_trip(
    a: Seq<u8>,
    b: Seq<u8>,
    ids: Seq<u128>,
    amounts: Seq<u128>,
)
    requires
        a.len() == 32,
        b.len() == 32,
        ids.len() < 0x4000_0000,
        amounts.len() < 0x4000_0000,
    ensures
        dec_acct_acct_vecs(enc_acct_acct_vecs(a, b, ids, amounts)) == Some((a, b, ids, amounts)),
{
    let p = enc_acct_acct_vecs(a, b, ids, amounts);
    let l1 = vec_u128_bytes(ids).len() as int;
    let l2 = vec_u128_bytes(amounts).len() as int;
    assert(p.subrange(0, 64 + l1 + l2) =~= p);
    lemma_subrange_split(p, 0, 64 + l1, 64 + l1 + l2);
    lemma_concat_parts(
        p.subrange(0, 64 + l1),
        p.subrange(64 + l1, 64 + l1 + l2),
        a + b + vec_u128_bytes(ids),
        vec_u128_bytes(amounts),
    );
    lemma_subrange_split(p, 0, 64, 64 + l1);
    lemma_concat_parts(
        p.subrange(0, 64),
        p.subrange(64, 64 + l1),
        a + b,
        vec_u128_bytes(ids),
    );
    lemma_subrange_split(p, 0, 32, 64);
    lemma_concat_parts(p.subrange(0, 32), p.subrange(32, 64), a, b);
    lemma_dec_account_of_enc(p, 0, a);
    lemma_dec_account_of_enc(p, 32, b);
    lemma_dec_u128_vec_of_enc(p, 64, ids);
    lemma_dec_u128_vec_of_enc(p, 64 + l1, amounts);
}

pub proof fn lemma_acct_acct_vecs_exact(
    p: Seq<u8>,
    a: Seq<u8>,
    b: Seq<u8>,
    ids: Seq<u128>,
    amounts: Seq<u128>,
)
    requires
        dec_acct_acct_vecs(p) == Some((a, b, ids, amounts)),
    ensures
        a.len() == 32,
        b.len() == 32,
        ids.len() < 0x4000_0000,
        amounts.len() < 0x4000_0000,
        p == enc_acct_acct_vecs(a, b, ids, amounts),
        p.len() == 64 + vec_u128_bytes(ids).len() + vec_u128_bytes(amounts).len(),
{
    let l1 = vec_u128_bytes(ids).len() as int;
    let l2 = vec_u128_bytes(amounts).len() as int;
    let (_, o3) = dec_u128_vec(p, 64).unwrap();
    lemma_dec_u128_vec_sound(p, 64, ids, o3);
    let (_, o4) = dec_u128_vec(p, o3).unwrap();
    lemma_dec_u128_vec_sound(p, o3, amounts, o4);
    lemma_subrange_split(p, 0, 32, 64);
    lemma_subrange_split(p, 0, 64, 64 + l1);
    lemma_subrange_split(p, 0, 64 + l1, 64 + l1 + l2);
    assert(p.subrange(0, 64 + l1 + l2) =~= p);
}

// ---- a length-prefixed account sequence and a length-prefixed 128-bit
// ---- sequence ----

pub open spec fn enc_accts_vec(owners: Seq<Seq<u8>>, ids: Seq<u128>) -> Seq<u8> {
    vec_account_bytes(owners) + vec_u128_bytes(ids)
}

pub open spec fn dec_accts_vec(p: Seq<u8>) -> Option<(Seq<Seq<u8>>, Seq<u128>)> {
    match dec_account_vec(p, 0) {
        None => None,
        Some((owners, o1)) => match dec_u128_vec(p, o1) {
            None => None,
            Some((ids, o2)) => if o2 == p.len() {
                Some((owners, ids))
            } else {
                None
            },
        },
    }
}

pub proof fn lemma_accts_vec_round_trip(owners: Seq<Seq<u8>>, ids: Seq<u128>)
    requires
        all_accounts(owners),
        owners.len() < 0x4000_0000,
        ids.len() < 0x4000_0000,
    ensures
        dec_accts_vec(enc_accts_vec(owners, ids)) == Some((owners, ids)),
{
    let p = enc_accts_vec(owners, ids);
    let l1 = vec_account_bytes(owners).len() as int;
    let l2 = vec_u128_bytes(ids).len() as int;
    assert(p.subrange(0, l1 + l2) =~= p);
    lemma_subrange_split(p, 0, l1, l1 + l2);
    lemma_concat_parts(
        p.subrange(0, l1),
        p.subrange(l1, l1 + l2),
        vec_account_bytes(owners),
        vec_u128_bytes(ids),
    );
    lemma_dec_account_vec_of_enc(p, 0, owners);
    lemma_dec_u128_vec_of_enc(p, l1, ids);
}

pub proof fn lemma_accts_vec_exact(p: Seq<u8>, owners: Seq<Seq<u8>>, ids: Seq<u128>)
    requires
        dec_accts_vec(p) == Some((owners, ids)),
    ensures
        all_accounts(owners),
        owners.len() < 0x4000_0000,
        ids.len() < 0x4000_0000,
        p == enc_accts_vec(owners, ids),
{
    let l1 = vec_account_bytes(owners).len() as int;
    let l2 = vec_u128_bytes(ids).len() as int;
    let (_, o1) = dec_account_vec(p, 0).unwrap();
    lemma_dec_account_vec_sound(p, 0, owners, o1);
    let (_, o2) = dec_u128_vec(p, o1).unwrap();
    lemma_dec_u128_vec_sound(p, o1, ids, o2);
    lemma_subrange_split(p, 0, l1, l1 + l2);
    assert(p.subrange(0, l1 + l2) =~= p);
}

} // verus!
