//! Byte-level wire codec.
//!
//! The wire format fixes every record shape: unsigned 128-bit fields travel
//! as 16 little-endian bytes, account identifiers as 32 raw bytes, booleans
//! as one byte that must be 0 or 1, and sequences carry a canonical compact
//! length prefix followed by their elements. Success returns travel as raw
//! bytes, a single boolean byte, or a 16-byte big-endian balance.
//!
//! Each spec-level parser (`dec_*`) is the authoritative meaning of the
//! format; the executable readers are proved to agree with it exactly, and
//! the `*_of_enc` lemmas show that parsing an encoding gives back the
//! encoded value.

use vstd::prelude::*;
use vstd::arithmetic::div_mod::*;

verus! {

/// 256 raised to the power `n`; the number of values an `n`-byte field holds.
pub open spec fn pow256(n: nat) -> nat
    decreases n,
{
    if n == 0 {
        1
    } else {
        256 * pow256((n - 1) as nat)
    }
}

pub proof fn lemma_pow256_pos(n: nat)
    ensures
        pow256(n) >= 1,
    decreases n,
{
    if n > 0 {
        lemma_pow256_pos((n - 1) as nat);
    }
}

/// The `n`-byte little-endian encoding of `v`; meaningful when `v < pow256(n)`.
pub open spec fn le_bytes(v: nat, n: nat) -> Seq<u8>
    decreases n,
{
    if n == 0 {
        Seq::empty()
    } else {
        seq![(v % 256) as u8] + le_bytes(v / 256, (n - 1) as nat)
    }
}

/// The value of a little-endian byte string.
pub open spec fn le_val(s: Seq<u8>) -> nat
    decreases s.len(),
{
    if s.len() == 0 {
        0
    } else {
        (s[0] + 256 * le_val(s.skip(1))) as nat
    }
}

pub proof fn lemma_le_bytes_len(v: nat, n: nat)
    ensures
        le_bytes(v, n).len() == n,
    decreases n,
{
    if n > 0 {
        lemma_le_bytes_len(v / 256, (n - 1) as nat);
    }
}

/// Reading back an `n`-byte little-endian encoding recovers the value modulo
/// the field's range.
pub proof fn lemma_le_val_le_bytes(v: nat, n: nat)
    ensures
        le_val(le_bytes(v, n)) == v % pow256(n),
    decreases n,
{
    if n == 0 {
        assert(v % 1 == 0) by (nonlinear_arith);
    } else {
        let rest = le_bytes(v / 256, (n - 1) as nat);
        lemma_le_bytes_len(v / 256, (n - 1) as nat);
        assert(le_bytes(v, n).skip(1) =~= rest);
        lemma_le_val_le_bytes(v / 256, (n - 1) as nat);
        lemma_pow256_pos((n - 1) as nat);
        lemma_mod_breakdown(v as int, 256, pow256((n - 1) as nat) as int);
        assert(pow256(n) == 256 * pow256((n - 1) as nat));
    }
}

pub proof fn lemma_le_val_bound(s: Seq<u8>)
    ensures
        le_val(s) < pow256(s.len()),
    decreases s.len(),
{
    if s.len() > 0 {
        lemma_le_val_bound(s.skip(1));
        assert(le_val(s) == s[0] + 256 * le_val(s.skip(1)));
        assert(pow256(s.len()) == 256 * pow256((s.len() - 1) as nat));
        assert(s[0] < 256);
        assert(le_val(s.skip(1)) + 1 <= pow256((s.len() - 1) as nat));
        assert(256 * le_val(s.skip(1)) + 256 <= 256 * pow256((s.len() - 1) as nat))
            by (nonlinear_arith)
            requires le_val(s.skip(1)) + 1 <= pow256((s.len() - 1) as nat),
        ;
    }
}

/// A byte string is the encoding of its own value: little-endian encodings
/// are unique.
pub proof fn lemma_le_bytes_le_val_id(s: Seq<u8>)
    ensures
        le_bytes(le_val(s), s.len()) == s,
    decreases s.len(),
{
    if s.len() > 0 {
        let v = le_val(s);
        let b0 = s[0] as int;
        let r = le_val(s.skip(1)) as int;
        assert(v == b0 + 256 * r);
        assert((b0 + 256 * r) % 256 == b0) by (nonlinear_arith)
            requires 0 <= b0 < 256, r >= 0,
        ;
        assert((b0 + 256 * r) / 256 == r) by (nonlinear_arith)
            requires 0 <= b0 < 256, r >= 0,
        ;
        lemma_le_bytes_le_val_id(s.skip(1));
        assert(le_bytes(v, s.len()) =~= s);
    }
}

/// Distinct values below the field's range have distinct encodings.
pub proof fn lemma_le_bytes_injective(a: nat, b: nat, n: nat)
    requires
        a < pow256(n),
        b < pow256(n),
        le_bytes(a, n) == le_bytes(b, n),
    ensures
        a == b,
{
    lemma_le_val_le_bytes(a, n);
    lemma_le_val_le_bytes(b, n);
    lemma_pow256_pos(n);
    lemma_small_mod(a, pow256(n));
    lemma_small_mod(b, pow256(n));
}

pub proof fn lemma_pow256_16()
    ensures
        pow256(16) == 0x1_0000_0000_0000_0000_0000_0000_0000_0000,
        pow256(4) == 0x1_0000_0000,
        pow256(2) == 0x1_0000,
        pow256(1) == 0x100,
        pow256(0) == 1,
{
    reveal_with_fuel(pow256, 17);
}

/// The `n`-byte big-endian encoding of `v`; balances travel this way.
pub open spec fn be_bytes(v: nat, n: nat) -> Seq<u8>
    decreases n,
{
    if n == 0 {
        Seq::empty()
    } else {
        be_bytes(v / 256, (n - 1) as nat) + seq![(v % 256) as u8]
    }
}

pub proof fn lemma_be_bytes_len(v: nat, n: nat)
    ensures
        be_bytes(v, n).len() == n,
    decreases n,
{
    if n > 0 {
        lemma_be_bytes_len(v / 256, (n - 1) as nat);
    }
}

pub proof fn lemma_le_bytes_index(v: nat, n: nat, i: int)
    requires
        0 <= i < n,
    ensures
        le_bytes(v, n)[i] == ((v / pow256(i as nat)) % 256) as u8,
    decreases n,
{
    lemma_le_bytes_len(v, n);
    if i == 0 {
        assert(pow256(0) == 1);
        assert(v / 1 == v) by (nonlinear_arith);
    } else {
        lemma_le_bytes_index(v / 256, (n - 1) as nat, i - 1);
        lemma_pow256_pos((i - 1) as nat);
        lemma_div_denominator(v as int, 256, pow256((i - 1) as nat) as int);
        assert(pow256(i as nat) == 256 * pow256((i - 1) as nat));
    }
}

/// A big-endian encoding is the little-endian one read backwards.
pub proof fn lemma_be_bytes_index(v: nat, n: nat, i: int)
    requires
        0 <= i < n,
    ensures
        be_bytes(v, n)[i] == le_bytes(v, n)[n - 1 - i],
    decreases n,
{
    lemma_be_bytes_len(v / 256, (n - 1) as nat);
    lemma_le_bytes_len(v / 256, (n - 1) as nat);
    if i == n - 1 {
    } else {
        lemma_be_bytes_index(v / 256, (n - 1) as nat, i);
    }
}

pub proof fn lemma_le_bytes_snoc(v: nat, i: nat)
    ensures
        le_bytes(v, i + 1) == le_bytes(v, i) + seq![((v / pow256(i)) % 256) as u8],
    decreases i,
{
    if i == 0 {
        assert(pow256(0) == 1);
        assert(v / 1 == v) by (nonlinear_arith);
        assert(v / pow256(0) == v);
        assert(le_bytes(v / 256, 0) =~= Seq::<u8>::empty());
        assert(le_bytes(v, 1) =~= le_bytes(v, 0) + seq![((v / pow256(0)) % 256) as u8]);
    } else {
        lemma_le_bytes_snoc(v / 256, (i - 1) as nat);
        lemma_pow256_pos((i - 1) as nat);
        lemma_div_denominator(v as int, 256, pow256((i - 1) as nat) as int);
        assert(pow256(i) == 256 * pow256((i - 1) as nat));
        assert(le_bytes(v, (i + 1) as nat) =~= le_bytes(v, i) + seq![((v / pow256(i)) % 256) as u8]);
    }
}

// ---- canonical compact length prefixes ----

/// The number of bytes the canonical compact prefix of `n` occupies.
pub open spec fn compact_size(n: nat) -> nat {
    if n < 64 {
        1
    } else if n < 16384 {
        2
    } else {
        4
    }
}

/// The canonical compact encoding of a sequence length `n`; meaningful for
/// `n < 0x4000_0000`, far beyond any length a real buffer can carry.
pub open spec fn compact_bytes(n: nat) -> Seq<u8> {
    if n < 64 {
        seq![(4 * n) as u8]
    } else if n < 16384 {
        le_bytes(4 * n + 1, 2)
    } else {
        le_bytes(4 * n + 2, 4)
    }
}

pub proof fn lemma_compact_bytes_len(n: nat)
    ensures
        compact_bytes(n).len() == compact_size(n),
        compact_bytes(n).len() >= 1,
{
    if n < 64 {
    } else if n < 16384 {
        lemma_le_bytes_len(4 * n + 1, 2);
    } else {
        lemma_le_bytes_len(4 * n + 2, 4);
    }
}

// ---- spec-level parsers ----
//
// Each parser takes the whole buffer and an offset, and returns the parsed
// value with the offset just past it, or `None` when the bytes at the offset
// are not a valid encoding.

pub open spec fn dec_account(p: Seq<u8>, off: int) -> Option<(Seq<u8>, int)> {
    if 0 <= off && off + 32 <= p.len() {
        Some((p.subrange(off, off + 32), off + 32))
    } else {
        None
    }
}

pub open spec fn dec_u128(p: Seq<u8>, off: int) -> Option<(u128, int)> {
    if 0 <= off && off + 16 <= p.len() {
        Some((le_val(p.subrange(off, off + 16)) as u128, off + 16))
    } else {
        None
    }
}

pub open spec fn dec_bool(p: Seq<u8>, off: int) -> Option<(bool, int)> {
    if 0 <= off && off < p.len() && (p[off] == 0 || p[off] == 1) {
        Some((p[off] == 1, off + 1))
    } else {
        None
    }
}

/// Parses a canonical compact length prefix; rejects the wide mode and any
/// value encoded in more bytes than it needs.
pub open spec fn dec_compact(p: Seq<u8>, off: int) -> Option<(nat, int)> {
    if 0 <= off && off < p.len() {
        let b0 = p[off] as nat;
        if b0 % 4 == 0 {
            Some((b0 / 4, off + 1))
        } else if b0 % 4 == 1 {
            if off + 2 <= p.len() {
                let n = le_val(p.subrange(off, off + 2)) / 4;
                if n >= 64 {
                    Some((n, off + 2))
                } else {
                    None
                }
            } else {
                None
            }
        } else if b0 % 4 == 2 {
            if off + 4 <= p.len() {
                let n = le_val(p.subrange(off, off + 4)) / 4;
                if n >= 16384 {
                    Some((n, off + 4))
                } else {
                    None
                }
            } else {
                None
            }
        } else {
            None
        }
    } else {
        None
    }
}

/// The bytes of `n` unsigned 128-bit fields laid end to end.
pub open spec fn u128s_bytes(s: Seq<u128>) -> Seq<u8>
    decreases s.len(),
{
    if s.len() == 0 {
        Seq::empty()
    } else {
        le_bytes(s[0] as nat, 16) + u128s_bytes(s.skip(1))
    }
}

pub open spec fn dec_u128s(p: Seq<u8>, off: int, n: nat) -> Option<(Seq<u128>, int)>
    decreases n,
{
    if n == 0 {
        Some((Seq::empty(), off))
    } else {
        match dec_u128(p, off) {
            None => None,
            Some((x, o1)) => match dec_u128s(p, o1, (n - 1) as nat) {
                None => None,
                Some((s, o2)) => Some((seq![x] + s, o2)),
            },
        }
    }
}

/// A length-prefixed sequence of unsigned 128-bit fields.
pub open spec fn vec_u128_bytes(s: Seq<u128>) -> Seq<u8> {
    compact_bytes(s.len()) + u128s_bytes(s)
}

pub open spec fn dec_u128_vec(p: Seq<u8>, off: int) -> Option<(Seq<u128>, int)> {
    match dec_compact(p, off) {
        None => None,
        Some((n, o1)) => dec_u128s(p, o1, n),
    }
}

/// True when every element is a full 32-byte account identifier.
pub open spec fn all_accounts(s: Seq<Seq<u8>>) -> bool {
    forall|i: int| 0 <= i < s.len() ==> (#[trigger] s[i]).len() == 32
}

/// The bytes of account identifiers laid end to end.
pub open spec fn accounts_bytes(s: Seq<Seq<u8>>) -> Seq<u8>
    decreases s.len(),
{
    if s.len() == 0 {
        Seq::empty()
    } else {
        s[0] + accounts_bytes(s.skip(1))
    }
}

pub open spec fn dec_accounts(p: Seq<u8>, off: int, n: nat) -> Option<(Seq<Seq<u8>>, int)>
    decreases n,
{
    if n == 0 {
        Some((Seq::empty(), off))
    } else {
        match dec_account(p, off) {
            None => None,
            Some((a, o1)) => match dec_accounts(p, o1, (n - 1) as nat) {
                None => None,
                Some((s, o2)) => Some((seq![a] + s, o2)),
            },
        }
    }
}

/// A length-prefixed sequence of account identifiers.
pub open spec fn vec_account_bytes(s: Seq<Seq<u8>>) -> Seq<u8> {
    compact_bytes(s.len()) + accounts_bytes(s)
}

pub open spec fn dec_account_vec(p: Seq<u8>, off: int) -> Option<(Seq<Seq<u8>>, int)> {
    match dec_compact(p, off) {
        None => None,
        Some((n, o1)) => dec_accounts(p, o1, n),
    }
}

// ---- parsing an encoding gives back the value ----

/// Parsing the canonical compact prefix of `n` succeeds and yields `n`.
pub proof fn lemma_dec_compact_of_enc(p: Seq<u8>, off: int, n: nat)
    requires
        n < 0x4000_0000,
        0 <= off,
        off + compact_size(n) <= p.len(),
        p.subrange(off, off + compact_size(n) as int) == compact_bytes(n),
    ensures
        dec_compact(p, off) == Some((n, off + compact_size(n) as int)),
{
    lemma_pow256_16();
    if n < 64 {
        assert(p.subrange(off, off + 1)[0] == p[off]);
        assert(p[off] == (4 * n) as u8);
        assert((4 * n) % 4 == 0 && (4 * n) / 4 == n) by (nonlinear_arith);
    } else if n < 16384 {
        let v = 4 * n + 1;
        let sub = p.subrange(off, off + 2);
        lemma_le_bytes_index(v as nat, 2, 0);
        assert(v / pow256(0) == v) by (nonlinear_arith);
        assert(sub[0] == p[off]);
        assert(p[off] as nat == v as nat % 256);
        lemma_mod_mod(v as int, 4, 64);
        assert((4 * n + 1) % 4 == 1) by (nonlinear_arith);
        assert(p[off] as nat % 4 == 1);
        lemma_le_val_le_bytes(v as nat, 2);
        lemma_small_mod(v as nat, pow256(2));
        assert(le_val(sub) == v);
        assert((4 * n + 1) / 4 == n) by (nonlinear_arith);
    } else {
        let v = 4 * n + 2;
        let sub = p.subrange(off, off + 4);
        lemma_le_bytes_index(v as nat, 4, 0);
        assert(v / pow256(0) == v) by (nonlinear_arith);
        assert(sub[0] == p[off]);
        assert(p[off] as nat == v as nat % 256);
        lemma_mod_mod(v as int, 4, 64);
        assert((4 * n + 2) % 4 == 2) by (nonlinear_arith);
        assert(p[off] as nat % 4 == 2);
        lemma_le_val_le_bytes(v as nat, 4);
        lemma_small_mod(v as nat, pow256(4));
        assert(le_val(sub) == v);
        assert((4 * n + 2) / 4 == n) by (nonlinear_arith);
    }
}

/// A parsed compact prefix came from exactly the canonical encoding.
pub proof fn lemma_dec_compact_sound(p: Seq<u8>, off: int, n: nat, o2: int)
    requires
        dec_compact(p, off) == Some((n, o2)),
    ensures
        n < 0x4000_0000,
        o2 == off + compact_size(n),
        0 <= off && o2 <= p.len(),
        p.subrange(off, o2) == compact_bytes(n),
{
    lemma_pow256_16();
    let b0 = p[off] as nat;
    if b0 % 4 == 0 {
        lemma_fundamental_div_mod(b0 as int, 4);
        assert(b0 == 4 * n);
        assert(n < 64) by (nonlinear_arith)
            requires 4 * n == b0, b0 < 256,
        ;
        assert(p.subrange(off, off + 1) =~= compact_bytes(n));
    } else if b0 % 4 == 1 {
        let sub = p.subrange(off, off + 2);
        let v = le_val(sub);
        lemma_le_val_bound(sub);
        assert(v < 65536);
        assert(n == v / 4 && n >= 64);
        assert(n < 16384) by (nonlinear_arith)
            requires n == v / 4, v < 65536,
        ;
        assert(sub[0] == p[off]);
        assert(v == b0 + 256 * le_val(sub.skip(1)));
        lemma_mod_multiples_vanish(64 * le_val(sub.skip(1)) as int, b0 as int, 4);
        assert(v % 4 == b0 % 4);
        lemma_fundamental_div_mod(v as int, 4);
        assert(v == 4 * n + 1);
        lemma_le_bytes_le_val_id(sub);
        assert(p.subrange(off, o2) == compact_bytes(n));
    } else {
        let sub = p.subrange(off, off + 4);
        let v = le_val(sub);
        lemma_le_val_bound(sub);
        assert(v < 0x1_0000_0000);
        assert(n == v / 4 && n >= 16384);
        assert(n < 0x4000_0000) by (nonlinear_arith)
            requires n == v / 4, v < 0x1_0000_0000,
        ;
        assert(sub[0] == p[off]);
        assert(v == b0 + 256 * le_val(sub.skip(1)));
        lemma_mod_multiples_vanish(64 * le_val(sub.skip(1)) as int, b0 as int, 4);
        assert(v % 4 == b0 % 4);
        lemma_fundamental_div_mod(v as int, 4);
        assert(v == 4 * n + 2);
        lemma_le_bytes_le_val_id(sub);
        assert(p.subrange(off, o2) == compact_bytes(n));
    }
}

pub proof fn lemma_u128s_bytes_len(s: Seq<u128>)
    ensures
        u128s_bytes(s).len() == 16 * s.len(),
    decreases s.len(),
{
    if s.len() > 0 {
        lemma_le_bytes_len(s[0] as nat, 16);
        lemma_u128s_bytes_len(s.skip(1));
    }
}

/// Parsing the concatenated encodings of `s` gives back `s`.
pub proof fn lemma_dec_u128s_of_enc(p: Seq<u8>, off: int, s: Seq<u128>)
    requires
        0 <= off,
        off + 16 * s.len() <= p.len(),
        p.subrange(off, off + 16 * s.len()) == u128s_bytes(s),
    ensures
        dec_u128s(p, off, s.len()) == Some((s, off + 16 * s.len())),
    decreases s.len(),
{
    if s.len() == 0 {
        assert(s =~= Seq::<u128>::empty());
    } else {
        lemma_pow256_16();
        let head = le_bytes(s[0] as nat, 16);
        lemma_le_bytes_len(s[0] as nat, 16);
        lemma_u128s_bytes_len(s.skip(1));
        assert(p.subrange(off, off + 16) =~= head);
        lemma_le_val_le_bytes(s[0] as nat, 16);
        lemma_small_mod(s[0] as nat, pow256(16));
        assert(le_val(p.subrange(off, off + 16)) == s[0] as nat);
        assert(dec_u128(p, off) == Some((s[0], off + 16)));
        assert(p.subrange(off + 16, off + 16 + 16 * s.skip(1).len()) =~= u128s_bytes(s.skip(1))) by {
            let tail = u128s_bytes(s.skip(1));
            let full = p.subrange(off, off + 16 * s.len());
            assert(forall|i: int| 0 <= i < tail.len() ==> #[trigger] tail[i] == full[16 + i]);
            assert(forall|i: int|
                0 <= i < tail.len() ==> #[trigger] p.subrange(
                    off + 16,
                    off + 16 + 16 * s.skip(1).len(),
                )[i] == p[off + 16 + i]);
            assert(forall|i: int| 0 <= i < tail.len() ==> #[trigger] full[16 + i] == p[off + 16 + i]);
        }
        lemma_dec_u128s_of_enc(p, off + 16, s.skip(1));
        assert(seq![s[0]] + s.skip(1) =~= s);
    }
}

/// A parsed run of 128-bit fields came from exactly their encodings.
pub proof fn lemma_dec_u128s_sound(p: Seq<u8>, off: int, n: nat, s: Seq<u128>, o2: int)
    requires
        0 <= off <= p.len(),
        dec_u128s(p, off, n) == Some((s, o2)),
    ensures
        s.len() == n,
        o2 == off + 16 * n,
        o2 <= p.len(),
        p.subrange(off, o2) == u128s_bytes(s),
    decreases n,
{
    if n == 0 {
        assert(p.subrange(off, off) =~= u128s_bytes(s));
    } else {
        lemma_pow256_16();
        let sub = p.subrange(off, off + 16);
        let x = le_val(sub) as u128;
        let rest = dec_u128s(p, off + 16, (n - 1) as nat);
        let (s1, _) = rest.unwrap();
        lemma_dec_u128s_sound(p, off + 16, (n - 1) as nat, s1, o2);
        assert(s == seq![x] + s1);
        assert(s.skip(1) =~= s1);
        lemma_le_val_bound(sub);
        lemma_le_bytes_le_val_id(sub);
        assert(le_bytes(x as nat, 16) == sub);
        lemma_u128s_bytes_len(s1);
        assert(p.subrange(off, o2) =~= le_bytes(x as nat, 16) + u128s_bytes(s1));
    }
}

pub proof fn lemma_accounts_bytes_len(s: Seq<Seq<u8>>)
    requires
        all_accounts(s),
    ensures
        accounts_bytes(s).len() == 32 * s.len(),
    decreases s.len(),
{
    if s.len() > 0 {
        assert(all_accounts(s.skip(1))) by {
            assert(forall|i: int| 0 <= i < s.skip(1).len() ==> #[trigger] s.skip(1)[i] == s[i + 1]);
        }
        lemma_accounts_bytes_len(s.skip(1));
    }
}

/// Parsing the concatenated account identifiers of `s` gives back `s`.
pub proof fn lemma_dec_accounts_of_enc(p: Seq<u8>, off: int, s: Seq<Seq<u8>>)
    requires
        all_accounts(s),
        0 <= off,
        off + 32 * s.len() <= p.len(),
        p.subrange(off, off + 32 * s.len()) == accounts_bytes(s),
    ensures
        dec_accounts(p, off, s.len()) == Some((s, off + 32 * s.len())),
    decreases s.len(),
{
    if s.len() == 0 {
        assert(s =~= Seq::<Seq<u8>>::empty());
    } else {
        assert(all_accounts(s.skip(1))) by {
            assert(forall|i: int| 0 <= i < s.skip(1).len() ==> #[trigger] s.skip(1)[i] == s[i + 1]);
        }
        lemma_accounts_bytes_len(s.skip(1));
        assert(p.subrange(off, off + 32) =~= s[0]);
        assert(dec_account(p, off) == Some((s[0], off + 32)));
        assert(p.subrange(off + 32, off + 32 + 32 * s.skip(1).len()) =~= accounts_bytes(s.skip(1))) by {
            let tail = accounts_bytes(s.skip(1));
            let full = p.subrange(off, off + 32 * s.len());
            assert(forall|i: int| 0 <= i < tail.len() ==> #[trigger] tail[i] == full[32 + i]);
            assert(forall|i: int|
                0 <= i < tail.len() ==> #[trigger] p.subrange(
                    off + 32,
                    off + 32 + 32 * s.skip(1).len(),
                )[i] == p[off + 32 + i]);
            assert(forall|i: int| 0 <= i < tail.len() ==> #[trigger] full[32 + i] == p[off + 32 + i]);
        }
        lemma_dec_accounts_of_enc(p, off + 32, s.skip(1));
        assert(seq![s[0]] + s.skip(1) =~= s);
    }
}

/// A parsed run of account identifiers came from exactly their bytes.
pub proof fn lemma_dec_accounts_sound(p: Seq<u8>, off: int, n: nat, s: Seq<Seq<u8>>, o2: int)
    requires
        0 <= off <= p.len(),
        dec_accounts(p, off, n) == Some((s, o2)),
    ensures
        s.len() == n,
        all_accounts(s),
        o2 == off + 32 * n,
        o2 <= p.len(),
        p.subrange(off, o2) == accounts_bytes(s),
    decreases n,
{
    if n == 0 {
        assert(p.subrange(off, off) =~= accounts_bytes(s));
    } else {
        let a = p.subrange(off, off + 32);
        let rest = dec_accounts(p, off + 32, (n - 1) as nat);
        let (s1, _) = rest.unwrap();
        lemma_dec_accounts_sound(p, off + 32, (n - 1) as nat, s1, o2);
        assert(s == seq![a] + s1);
        assert(s.skip(1) =~= s1);
        lemma_accounts_bytes_len(s1);
        assert(p.subrange(off, o2) =~= a + accounts_bytes(s1));
        assert(forall|i: int| 0 <= i < s.len() ==> (#[trigger] s[i]).len() == 32) by {
            assert(forall|i: int| 1 <= i < s.len() ==> #[trigger] s[i] == s1[i - 1]);
        }
    }
}

pub proof fn lemma_pow256_le(m: nat, n: nat)
    requires
        m <= n,
    ensures
        pow256(m) <= pow256(n),
    decreases n,
{
    if m < n {
        lemma_pow256_le(m, (n - 1) as nat);
        lemma_pow256_pos((n - 1) as nat);
    }
}

pub proof fn lemma_u128s_bytes_snoc(s: Seq<u128>, x: u128)
    ensures
        u128s_bytes(s.push(x)) == u128s_bytes(s) + le_bytes(x as nat, 16),
    decreases s.len(),
{
    if s.len() == 0 {
        assert(s =~= Seq::<u128>::empty());
        assert(s.push(x).skip(1) =~= s);
        assert(s.push(x)[0] == x);
        assert(u128s_bytes(s.push(x)) == le_bytes(x as nat, 16) + u128s_bytes(s));
        assert(u128s_bytes(s.push(x)) =~= u128s_bytes(s) + le_bytes(x as nat, 16));
    } else {
        assert(s.push(x).skip(1) =~= s.skip(1).push(x));
        assert(s.push(x)[0] == s[0]);
        lemma_u128s_bytes_snoc(s.skip(1), x);
        assert(u128s_bytes(s.push(x)) == le_bytes(s[0] as nat, 16) + (u128s_bytes(s.skip(1))
            + le_bytes(x as nat, 16)));
        assert(u128s_bytes(s.push(x)) =~= u128s_bytes(s) + le_bytes(x as nat, 16));
    }
}

// ---- executable readers ----

/// Reads a 16-byte little-endian unsigned 128-bit field.
pub fn read_u128_le(buf: &[u8], off: usize) -> (r: Option<(u128, usize)>)
    ensures
        match r {
            Some(p) => dec_u128(buf@, off as int) == Some((p.0, p.1 as int)),
            None => dec_u128(buf@, off as int) is None,
        },
{
    if buf.len() < 16 || off > buf.len() - 16 {
        return None;
    }
    let mut v: u128 = 0;
    let mut i: usize = 16;
    proof {
        assert(buf@.subrange(off + 16, off + 16) =~= Seq::<u8>::empty());
    }
    while i > 0
        invariant
            i <= 16,
            off + 16 <= buf@.len(),
            buf@.len() <= usize::MAX,
            v as nat == le_val(buf@.subrange(off + i, off + 16)),
            (v as nat) < pow256((16 - i) as nat),
        decreases i,
    {
        let b = buf[off + i - 1];
        proof {
            let s = buf@.subrange(off + i - 1, off + 16);
            assert(s.skip(1) =~= buf@.subrange(off + i, off + 16));
            assert(s[0] == buf@[off + i - 1]);
            lemma_pow256_16();
            lemma_pow256_le((17 - i) as nat, 16);
            assert(256 * (v as nat) + 256 <= 256 * pow256((16 - i) as nat)) by (nonlinear_arith)
                requires (v as nat) + 1 <= pow256((16 - i) as nat),
            ;
            assert(pow256((17 - i) as nat) == 256 * pow256((16 - i) as nat));
        }
        v = v * 256 + (b as u128);
        i = i - 1;
    }
    proof {
        lemma_le_val_bound(buf@.subrange(off as int, off + 16));
        lemma_pow256_16();
    }
    Some((v, off + 16))
}

/// Reads a strict boolean byte: 0 or 1, nothing else.
pub fn read_bool(buf: &[u8], off: usize) -> (r: Option<(bool, usize)>)
    ensures
        match r {
            Some(p) => dec_bool(buf@, off as int) == Some((p.0, p.1 as int)),
            None => dec_bool(buf@, off as int) is None,
        },
{
    if off >= buf.len() {
        return None;
    }
    let b = buf[off];
    if b == 0 {
        Some((false, off + 1))
    } else if b == 1 {
        Some((true, off + 1))
    } else {
        None
    }
}

/// Reads a canonical compact length prefix.
pub fn read_compact(buf: &[u8], off: usize) -> (r: Option<(usize, usize)>)
    ensures
        match r {
            Some(p) => dec_compact(buf@, off as int) == Some((p.0 as nat, p.1 as int))
                && p.0 < 0x4000_0000,
            None => dec_compact(buf@, off as int) is None,
        },
{
    if off >= buf.len() {
        return None;
    }
    let b0 = buf[off];
    let mode = b0 % 4;
    if mode == 0 {
        Some(((b0 / 4) as usize, off + 1))
    } else if mode == 1 {
        if buf.len() - off < 2 {
            return None;
        }
        let v: u32 = (b0 as u32) + 256 * (buf[off + 1] as u32);
        proof {
            let sub = buf@.subrange(off as int, off + 2);
            assert(sub.skip(1) =~= buf@.subrange(off + 1, off + 2));
            assert(buf@.subrange(off + 1, off + 2).skip(1) =~= Seq::<u8>::empty());
            assert(le_val(Seq::<u8>::empty()) == 0);
            assert(le_val(buf@.subrange(off + 1, off + 2)) == buf@[off + 1] as nat);
            assert(sub[0] == buf@[off as int]);
            assert(le_val(sub) == v as nat);
        }
        let n = v / 4;
        if n >= 64 {
            Some((n as usize, off + 2))
        } else {
            None
        }
    } else if mode == 2 {
        if buf.len() - off < 4 {
            return None;
        }
        let v: u32 = (b0 as u32) + 256 * (buf[off + 1] as u32) + 65536 * (buf[off + 2] as u32)
            + 16777216 * (buf[off + 3] as u32);
        proof {
            let s4 = buf@.subrange(off as int, off + 4);
            let s3 = buf@.subrange(off + 1, off + 4);
            let s2 = buf@.subrange(off + 2, off + 4);
            let s1 = buf@.subrange(off + 3, off + 4);
            assert(s4.skip(1) =~= s3);
            assert(s3.skip(1) =~= s2);
            assert(s2.skip(1) =~= s1);
            assert(s1.skip(1) =~= Seq::<u8>::empty());
            assert(le_val(Seq::<u8>::empty()) == 0);
            assert(le_val(s1) == buf@[off + 3] as nat);
            assert(le_val(s2) == buf@[off + 2] + 256 * le_val(s1));
            assert(le_val(s3) == buf@[off + 1] + 256 * le_val(s2));
            assert(le_val(s4) == buf@[off as int] + 256 * le_val(s3));
            assert(le_val(s4) == v as nat);
        }
        let n = v / 4;
        proof {
            assert(v / 4 < 0x4000_0000) by (nonlinear_arith)
                requires v < 0x1_0000_0000u64,
            ;
        }
        if n >= 16384 {
            Some((n as usize, off + 4))
        } else {
            None
        }
    } else {
        None
    }
}

/// Reads `n` consecutive unsigned 128-bit fields.
pub fn read_u128s(buf: &[u8], off: usize, n: usize) -> (r: Option<(Vec<u128>, usize)>)
    ensures
        match r {
            Some(p) => dec_u128s(buf@, off as int, n as nat) == Some((p.0@, p.1 as int))
                && p.0@.len() == n,
            None => dec_u128s(buf@, off as int, n as nat) is None,
        },
{
    let mut acc: Vec<u128> = Vec::new();
    let mut cur = off;
    let mut i: usize = 0;
    proof {
        if dec_u128s(buf@, off as int, n as nat) is Some {
            let q = dec_u128s(buf@, off as int, n as nat).unwrap();
            assert(Seq::<u128>::empty() + q.0 =~= q.0);
        }
    }
    while i < n
        invariant
            i <= n,
            acc@.len() == i,
            dec_u128s(buf@, off as int, n as nat) == (match dec_u128s(
                buf@,
                cur as int,
                (n - i) as nat,
            ) {
                Some(q) => Some::<(Seq<u128>, int)>((acc@ + q.0, q.1)),
                None => None::<(Seq<u128>, int)>,
            }),
        decreases n - i,
    {
        match read_u128_le(buf, cur) {
            None => {
                return None;
            },
            Some(p) => {
                let x = p.0;
                proof {
                    if dec_u128s(buf@, p.1 as int, (n - i - 1) as nat) is Some {
                        let q = dec_u128s(buf@, p.1 as int, (n - i - 1) as nat).unwrap();
                        assert(acc@ + (seq![x] + q.0) =~= acc@.push(x) + q.0);
                    }
                }
                acc.push(x);
                cur = p.1;
                i = i + 1;
            },
        }
    }
    proof {
        assert(acc@ + Seq::<u128>::empty() =~= acc@);
    }
    Some((acc, cur))
}

// ---- executable writers ----

/// Appends the 16-byte little-endian encoding of `v`.
pub fn write_u128_le(out: &mut Vec<u8>, v: u128)
    ensures
        final(out)@ == old(out)@ + le_bytes(v as nat, 16),
{
    let mut x = v;
    let mut i: usize = 0;
    proof {
        assert(old(out)@ + le_bytes(v as nat, 0) =~= old(out)@);
        assert(pow256(0) == 1);
        assert((v as nat) / 1 == v as nat) by (nonlinear_arith);
    }
    while i < 16
        invariant
            i <= 16,
            out@ == old(out)@ + le_bytes(v as nat, i as nat),
            x as nat == (v as nat) / pow256(i as nat),
        decreases 16 - i,
    {
        proof {
            lemma_le_bytes_snoc(v as nat, i as nat);
            lemma_pow256_pos(i as nat);
            lemma_div_denominator(v as int, pow256(i as nat) as int, 256);
            assert(pow256((i + 1) as nat) == 256 * pow256(i as nat));
            assert(le_bytes(v as nat, (i + 1) as nat) == le_bytes(v as nat, i as nat) + seq![
                ((x as nat) % 256) as u8,
            ]);
            assert(old(out)@ + le_bytes(v as nat, (i + 1) as nat) =~= (old(out)@ + le_bytes(
                v as nat,
                i as nat,
            )).push(((x as nat) % 256) as u8));
        }
        out.push((x % 256) as u8);
        x = x / 256;
        i = i + 1;
    }
}

/// Appends the single wire byte of a boolean.
pub fn write_bool(out: &mut Vec<u8>, b: bool)
    ensures
        final(out)@ == old(out)@ + seq![if b { 1u8 } else { 0u8 }],
{
    out.push(if b { 1 } else { 0 });
    proof {
        assert(old(out)@.push(if b { 1u8 } else { 0u8 }) =~= old(out)@ + seq![
            if b { 1u8 } else { 0u8 },
        ]);
    }
}

/// Appends the canonical compact prefix of a sequence length.
pub fn write_compact(out: &mut Vec<u8>, n: usize)
    requires
        n < 0x4000_0000,
    ensures
        final(out)@ == old(out)@ + compact_bytes(n as nat),
{
    if n < 64 {
        out.push((n as u8) * 4);
        proof {
            assert(old(out)@.push((4 * (n as nat)) as u8) =~= old(out)@ + compact_bytes(n as nat));
        }
    } else if n < 16384 {
        let v: u32 = (n as u32) * 4 + 1;
        out.push((v % 256) as u8);
        out.push(((v / 256) % 256) as u8);
        proof {
            let w = v as nat;
            assert(le_bytes(w / 256 / 256, 0) =~= Seq::<u8>::empty());
            assert(le_bytes(w / 256, 1) =~= seq![((w / 256) % 256) as u8]);
            assert(le_bytes(w, 2) =~= seq![(w % 256) as u8, ((w / 256) % 256) as u8]);
            assert(old(out)@.push((w % 256) as u8).push(((w / 256) % 256) as u8) =~= old(out)@
                + compact_bytes(n as nat));
        }
    } else {
        let v: u32 = (n as u32) * 4 + 2;
        out.push((v % 256) as u8);
        out.push(((v / 256) % 256) as u8);
        out.push(((v / 65536) % 256) as u8);
        out.push(((v / 16777216) % 256) as u8);
        proof {
            let w = v as nat;
            lemma_div_denominator(w as int, 256, 256);
            lemma_div_denominator(w as int, 65536, 256);
            assert(w / 256 / 256 == w / 65536);
            assert(w / 65536 / 256 == w / 16777216);
            assert(le_bytes(w / 16777216 / 256, 0) =~= Seq::<u8>::empty());
            assert(le_bytes(w / 16777216, 1) =~= seq![((w / 16777216) % 256) as u8]);
            assert(le_bytes(w / 65536, 2) =~= seq![
                ((w / 65536) % 256) as u8,
                ((w / 16777216) % 256) as u8,
            ]);
            assert(le_bytes(w / 256, 3) =~= seq![
                ((w / 256) % 256) as u8,
                ((w / 65536) % 256) as u8,
                ((w / 16777216) % 256) as u8,
            ]);
            assert(le_bytes(w, 4) =~= seq![
                (w % 256) as u8,
                ((w / 256) % 256) as u8,
                ((w / 65536) % 256) as u8,
                ((w / 16777216) % 256) as u8,
            ]);
            assert(old(out)@.push((w % 256) as u8).push(((w / 256) % 256) as u8).push(
                ((w / 65536) % 256) as u8,
            ).push(((w / 16777216) % 256) as u8) =~= old(out)@ + compact_bytes(n as nat));
        }
    }
}

/// Appends the encodings of all elements, in order.
pub fn write_u128s(out: &mut Vec<u8>, vals: &Vec<u128>)
    ensures
        final(out)@ == old(out)@ + u128s_bytes(vals@),
{
    let mut i: usize = 0;
    proof {
        assert(vals@.take(0) =~= Seq::<u128>::empty());
        assert(out@ + u128s_bytes(vals@.take(0)) =~= out@);
    }
    while i < vals.len()
        invariant
            i <= vals@.len(),
            out@ == old(out)@ + u128s_bytes(vals@.take(i as int)),
        decreases vals@.len() - i,
    {
        write_u128_le(out, vals[i]);
        proof {
            lemma_u128s_bytes_snoc(vals@.take(i as int), vals@[i as int]);
            assert(vals@.take(i + 1) =~= vals@.take(i as int).push(vals@[i as int]));
            assert(old(out)@ + u128s_bytes(vals@.take(i + 1)) =~= (old(out)@ + u128s_bytes(
                vals@.take(i as int),
            )) + le_bytes(vals@[i as int] as nat, 16));
        }
        i = i + 1;
    }
    proof {
        assert(vals@.take(vals@.len() as int) =~= vals@);
    }
}

/// Appends the 16-byte big-endian encoding of a balance.
pub fn write_u128_be(out: &mut Vec<u8>, v: u128)
    ensures
        final(out)@ == old(out)@ + be_bytes(v as nat, 16),
{
    let mut tmp: Vec<u8> = Vec::new();
    write_u128_le(&mut tmp, v);
    proof {
        assert(tmp@ =~= le_bytes(v as nat, 16));
        lemma_le_bytes_len(v as nat, 16);
        lemma_be_bytes_len(v as nat, 16);
        assert(out@ + be_bytes(v as nat, 16).subrange(0, 0) =~= out@);
    }
    let mut i: usize = 0;
    while i < 16
        invariant
            i <= 16,
            tmp@ == le_bytes(v as nat, 16),
            tmp@.len() == 16,
            out@ == old(out)@ + be_bytes(v as nat, 16).subrange(0, i as int),
        decreases 16 - i,
    {
        proof {
            lemma_be_bytes_len(v as nat, 16);
            lemma_be_bytes_index(v as nat, 16, i as int);
            assert(be_bytes(v as nat, 16).subrange(0, i + 1) =~= be_bytes(v as nat, 16).subrange(
                0,
                i as int,
            ).push(be_bytes(v as nat, 16)[i as int]));
        }
        let b = tmp[15 - i];
        out.push(b);
        i = i + 1;
    }
    proof {
        lemma_be_bytes_len(v as nat, 16);
        assert(be_bytes(v as nat, 16).subrange(0, 16) =~= be_bytes(v as nat, 16));
    }
}


// ---- concatenation helpers ----

pub proof fn lemma_subrange_split<T>(p: Seq<T>, off: int, mid: int, end: int)
    requires
        0 <= off <= mid <= end <= p.len(),
    ensures
        p.subrange(off, end) == p.subrange(off, mid) + p.subrange(mid, end),
{
    assert(p.subrange(off, end) =~= p.subrange(off, mid) + p.subrange(mid, end));
}

/// Two concatenations of equally long left parts are equal part by part.
pub proof fn lemma_concat_parts<T>(x: Seq<T>, y: Seq<T>, a: Seq<T>, b: Seq<T>)
    requires
        x + y == a + b,
        x.len() == a.len(),
    ensures
        x == a,
        y == b,
{
    assert(x =~= a) by {
        assert(forall|i: int| 0 <= i < x.len() ==> #[trigger] x[i] == (x + y)[i]);
        assert(forall|i: int| 0 <= i < a.len() ==> #[trigger] a[i] == (a + b)[i]);
    }
    assert((x + y).len() == x.len() + y.len());
    assert((a + b).len() == a.len() + b.len());
    assert(y.len() == b.len());
    assert forall|i: int| 0 <= i < y.len() implies y[i] == b[i] by {
        assert((x + y)[x.len() + i] == y[i]);
        assert((a + b)[a.len() + i] == b[i]);
    }
    assert(y =~= b);
}

// ---- length-prefixed sequences as a whole ----

/// Parsing the encoding of a length-prefixed sequence gives back the
/// sequence.
pub proof fn lemma_dec_u128_vec_of_enc(p: Seq<u8>, off: int, s: Seq<u128>)
    requires
        s.len() < 0x4000_0000,
        0 <= off,
        off + vec_u128_bytes(s).len() <= p.len(),
        p.subrange(off, off + vec_u128_bytes(s).len()) == vec_u128_bytes(s),
    ensures
        dec_u128_vec(p, off) == Some((s, off + vec_u128_bytes(s).len())),
{
    let cs = compact_size(s.len()) as int;
    lemma_compact_bytes_len(s.len());
    lemma_u128s_bytes_len(s);
    let end = off + vec_u128_bytes(s).len();
    lemma_subrange_split(p, off, off + cs, end);
    lemma_concat_parts(
        p.subrange(off, off + cs),
        p.subrange(off + cs, end),
        compact_bytes(s.len()),
        u128s_bytes(s),
    );
    lemma_dec_compact_of_enc(p, off, s.len());
    lemma_dec_u128s_of_enc(p, off + cs, s);
}

/// A parsed length-prefixed sequence came from exactly its encoding.
pub proof fn lemma_dec_u128_vec_sound(p: Seq<u8>, off: int, s: Seq<u128>, o2: int)
    requires
        dec_u128_vec(p, off) == Some((s, o2)),
    ensures
        s.len() < 0x4000_0000,
        o2 == off + vec_u128_bytes(s).len(),
        0 <= off && o2 <= p.len(),
        p.subrange(off, o2) == vec_u128_bytes(s),
{
    let (n, o1) = dec_compact(p, off).unwrap();
    lemma_dec_compact_sound(p, off, n, o1);
    lemma_dec_u128s_sound(p, o1, n, s, o2);
    lemma_compact_bytes_len(n);
    lemma_u128s_bytes_len(s);
    lemma_subrange_split(p, off, o1, o2);
}

/// Parsing the encoding of a length-prefixed account sequence gives back
/// the sequence.
pub proof fn lemma_dec_account_vec_of_enc(p: Seq<u8>, off: int, s: Seq<Seq<u8>>)
    requires
        all_accounts(s),
        s.len() < 0x4000_0000,
        0 <= off,
        off + vec_account_bytes(s).len() <= p.len(),
        p.subrange(off, off + vec_account_bytes(s).len()) == vec_account_bytes(s),
    ensures
        dec_account_vec(p, off) == Some((s, off + vec_account_bytes(s).len())),
{
    let cs = compact_size(s.len()) as int;
    lemma_compact_bytes_len(s.len());
    lemma_accounts_bytes_len(s);
    let end = off + vec_account_bytes(s).len();
    lemma_subrange_split(p, off, off + cs, end);
    lemma_concat_parts(
        p.subrange(off, off + cs),
        p.subrange(off + cs, end),
        compact_bytes(s.len()),
        accounts_bytes(s),
    );
    lemma_dec_compact_of_enc(p, off, s.len());
    lemma_dec_accounts_of_enc(p, off + cs, s);
}

/// A parsed length-prefixed account sequence came from exactly its
/// encoding.
pub proof fn lemma_dec_account_vec_sound(p: Seq<u8>, off: int, s: Seq<Seq<u8>>, o2: int)
    requires
        dec_account_vec(p, off) == Some((s, o2)),
    ensures
        all_accounts(s),
        s.len() < 0x4000_0000,
        o2 == off + vec_account_bytes(s).len(),
        0 <= off && o2 <= p.len(),
        p.subrange(off, o2) == vec_account_bytes(s),
{
    let (n, o1) = dec_compact(p, off).unwrap();
    lemma_dec_compact_sound(p, off, n, o1);
    lemma_dec_accounts_sound(p, o1, n, s, o2);
    lemma_compact_bytes_len(n);
    lemma_accounts_bytes_len(s);
    lemma_subrange_split(p, off, o1, o2);
}


// ---- single fields as encodings ----

/// The single wire byte of a boolean.
pub open spec fn bool_byte(b: bool) -> Seq<u8> {
    seq![if b { 1u8 } else { 0u8 }]
}

pub proof fn lemma_dec_u128_of_enc(p: Seq<u8>, off: int, x: u128)
    requires
        0 <= off,
        off + 16 <= p.len(),
        p.subrange(off, off + 16) == le_bytes(x as nat, 16),
    ensures
        dec_u128(p, off) == Some((x, off + 16)),
{
    lemma_pow256_16();
    lemma_le_val_le_bytes(x as nat, 16);
    lemma_small_mod(x as nat, pow256(16));
}

pub proof fn lemma_dec_u128_sound(p: Seq<u8>, off: int, x: u128, o2: int)
    requires
        dec_u128(p, off) == Some((x, o2)),
    ensures
        o2 == off + 16,
        0 <= off && o2 <= p.len(),
        p.subrange(off, o2) == le_bytes(x as nat, 16),
{
    let sub = p.subrange(off, off + 16);
    lemma_le_val_bound(sub);
    lemma_pow256_16();
    lemma_le_bytes_le_val_id(sub);
}

pub proof fn lemma_dec_bool_of_enc(p: Seq<u8>, off: int, b: bool)
    requires
        0 <= off,
        off + 1 <= p.len(),
        p.subrange(off, off + 1) == bool_byte(b),
    ensures
        dec_bool(p, off) == Some((b, off + 1)),
{
    assert(p.subrange(off, off + 1)[0] == p[off]);
}

pub proof fn lemma_dec_bool_sound(p: Seq<u8>, off: int, b: bool, o2: int)
    requires
        dec_bool(p, off) == Some((b, o2)),
    ensures
        o2 == off + 1,
        0 <= off && o2 <= p.len(),
        p.subrange(off, o2) == bool_byte(b),
{
    assert(p.subrange(off, off + 1) =~= bool_byte(b));
}

pub proof fn lemma_dec_account_of_enc(p: Seq<u8>, off: int, a: Seq<u8>)
    requires
        a.len() == 32,
        0 <= off,
        off + 32 <= p.len(),
        p.subrange(off, off + 32) == a,
    ensures
        dec_account(p, off) == Some((a, off + 32)),
{
}


pub proof fn lemma_accounts_bytes_snoc(s: Seq<Seq<u8>>, a: Seq<u8>)
    ensures
        accounts_bytes(s.push(a)) == accounts_bytes(s) + a,
    decreases s.len(),
{
    if s.len() == 0 {
        assert(s =~= Seq::<Seq<u8>>::empty());
        assert(s.push(a).skip(1) =~= s);
        assert(s.push(a)[0] == a);
        assert(accounts_bytes(s.push(a)) == a + accounts_bytes(s));
        assert(accounts_bytes(s.push(a)) =~= accounts_bytes(s) + a);
    } else {
        assert(s.push(a).skip(1) =~= s.skip(1).push(a));
        assert(s.push(a)[0] == s[0]);
        lemma_accounts_bytes_snoc(s.skip(1), a);
        assert(accounts_bytes(s.push(a)) == s[0] + (accounts_bytes(s.skip(1)) + a));
        assert(accounts_bytes(s.push(a)) =~= accounts_bytes(s) + a);
    }
}

/// Reads a whole length-prefixed sequence of unsigned 128-bit fields.
pub fn read_u128_vec(buf: &[u8], off: usize) -> (r: Option<(Vec<u128>, usize)>)
    ensures
        match r {
            Some(p) => dec_u128_vec(buf@, off as int) == Some((p.0@, p.1 as int))
                && p.0@.len() < 0x4000_0000,
            None => dec_u128_vec(buf@, off as int) is None,
        },
{
    let (n, o1) = match read_compact(buf, off) {
        None => {
            return None;
        },
        Some(p) => p,
    };
    match read_u128s(buf, o1, n) {
        None => None,
        Some(p) => Some(p),
    }
}

/// Appends a whole length-prefixed sequence of unsigned 128-bit fields.
pub fn write_u128_vec(out: &mut Vec<u8>, vals: &Vec<u128>)
    requires
        vals@.len() < 0x4000_0000,
    ensures
        final(out)@ == old(out)@ + vec_u128_bytes(vals@),
{
    write_compact(out, vals.len());
    write_u128s(out, vals);
    proof {
        assert((old(out)@ + compact_bytes(vals@.len())) + u128s_bytes(vals@) =~= old(out)@
            + vec_u128_bytes(vals@));
    }
}


/// Appends raw bytes unchanged.
pub fn write_bytes(out: &mut Vec<u8>, src: &[u8])
    ensures
        final(out)@ == old(out)@ + src@,
{
    let mut i: usize = 0;
    while i < src.len()
        invariant
            i <= src@.len(),
            out@ == old(out)@ + src@.subrange(0, i as int),
        decreases src@.len() - i,
    {
        proof {
            assert((old(out)@ + src@.subrange(0, i as int)).push(src@[i as int]) =~= old(out)@
                + src@.subrange(0, i + 1));
        }
        out.push(src[i]);
        i = i + 1;
    }
    proof {
        assert(src@.subrange(0, src@.len() as int) =~= src@);
    }
}

} // verus!
