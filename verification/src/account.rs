//! Account identifiers.
//!
//! The surrounding execution context identifies accounts by a fixed 32-byte
//! value; on the wire an account travels as exactly those bytes, with no
//! prefix. The dispatcher never looks inside an identifier: it only moves
//! identifiers between the wire and the ledger, and compares them.

use vstd::prelude::*;
use crate::codec::{dec_account, dec_accounts, dec_account_vec, accounts_bytes, write_compact,
    lemma_accounts_bytes_snoc};

verus! {

/// The number of bytes of an account identifier.
pub const ACCOUNT_LEN: usize = 32;

/// A 32-byte account identifier.
pub struct AccountId {
    bytes: Vec<u8>,
}

impl View for AccountId {
    type V = Seq<u8>;

    closed spec fn view(&self) -> Seq<u8> {
        self.bytes@
    }
}

impl AccountId {
    /// A well-formed identifier holds exactly 32 bytes.
    pub open spec fn wf(&self) -> bool {
        self@.len() == 32
    }

    /// Wraps raw bytes; rejects any length other than 32.
    pub fn from_bytes(bytes: Vec<u8>) -> (r: Option<AccountId>)
        ensures
            bytes@.len() == 32 ==> (r matches Some(a) && a@ == bytes@ && a.wf()),
            bytes@.len() != 32 ==> r is None,
    {
        if bytes.len() == ACCOUNT_LEN {
            Some(AccountId { bytes })
        } else {
            None
        }
    }

    /// The raw bytes of the identifier.
    pub fn as_bytes(&self) -> (r: &Vec<u8>)
        ensures
            r@ == self@,
    {
        &self.bytes
    }

    /// A fresh identifier holding the same bytes.
    pub fn duplicate(&self) -> (r: AccountId)
        ensures
            r@ == self@,
    {
        let copy = self.bytes.clone();
        proof {
            assert(forall|i: int| 0 <= i < self.bytes@.len() ==> copy@[i] == self.bytes@[i]);
            assert(copy@ =~= self.bytes@);
        }
        AccountId { bytes: copy }
    }

    /// Byte-for-byte equality of two identifiers.
    pub fn eq_account(&self, other: &AccountId) -> (r: bool)
        ensures
            r == (self@ == other@),
    {
        if self.bytes.len() != other.bytes.len() {
            proof {
                assert(self@.len() != other@.len());
            }
            return false;
        }
        let mut i: usize = 0;
        while i < self.bytes.len()
            invariant
                i <= self.bytes@.len(),
                self.bytes@.len() == other.bytes@.len(),
                forall|j: int| 0 <= j < i ==> self.bytes@[j] == other.bytes@[j],
            decreases self.bytes@.len() - i,
        {
            if self.bytes[i] != other.bytes[i] {
                return false;
            }
            i = i + 1;
        }
        proof {
            assert(self@ =~= other@);
        }
        true
    }
}

/// Reads one 32-byte account identifier.
pub fn read_account(buf: &[u8], off: usize) -> (r: Option<(AccountId, usize)>)
    ensures
        match r {
            Some(p) => p.0.wf() && dec_account(buf@, off as int) == Some((p.0@, p.1 as int)),
            None => dec_account(buf@, off as int) is None,
        },
{
    if buf.len() < ACCOUNT_LEN || off > buf.len() - ACCOUNT_LEN {
        return None;
    }
    let mut bytes: Vec<u8> = Vec::new();
    let mut i: usize = 0;
    while i < ACCOUNT_LEN
        invariant
            i <= 32,
            off + 32 <= buf@.len(),
            buf@.len() <= usize::MAX,
            bytes@.len() == i,
            forall|j: int| 0 <= j < i ==> bytes@[j] == buf@[off + j],
        decreases 32 - i,
    {
        bytes.push(buf[off + i]);
        i = i + 1;
    }
    proof {
        assert(bytes@ =~= buf@.subrange(off as int, off + 32));
    }
    Some((AccountId { bytes }, off + ACCOUNT_LEN))
}

/// Appends the raw bytes of an account identifier.
pub fn write_account(out: &mut Vec<u8>, a: &AccountId)
    ensures
        final(out)@ == old(out)@ + a@,
{
    let src = a.as_bytes();
    let mut i: usize = 0;
    while i < src.len()
        invariant
            i <= src@.len(),
            src@ == a@,
            out@ == old(out)@ + a@.subrange(0, i as int),
        decreases src@.len() - i,
    {
        proof {
            assert((old(out)@ + a@.subrange(0, i as int)).push(src@[i as int]) =~= old(out)@
                + a@.subrange(0, i + 1));
        }
        out.push(src[i]);
        i = i + 1;
    }
    proof {
        assert(a@.subrange(0, a@.len() as int) =~= a@);
    }
}

/// The views of a run of account identifiers.
pub open spec fn views_of(s: Seq<AccountId>) -> Seq<Seq<u8>> {
    Seq::new(s.len(), |i: int| s[i]@)
}

/// Reads `n` consecutive account identifiers.
pub fn read_accounts(buf: &[u8], off: usize, n: usize) -> (r: Option<(Vec<AccountId>, usize)>)
    ensures
        match r {
            Some(p) => dec_accounts(buf@, off as int, n as nat) == Some((views_of(p.0@), p.1 as int))
                && p.0@.len() == n,
            None => dec_accounts(buf@, off as int, n as nat) is None,
        },
{
    let mut acc: Vec<AccountId> = Vec::new();
    let mut cur = off;
    let mut i: usize = 0;
    proof {
        if dec_accounts(buf@, off as int, n as nat) is Some {
            let q = dec_accounts(buf@, off as int, n as nat).unwrap();
            assert(views_of(acc@) + q.0 =~= q.0);
        }
    }
    while i < n
        invariant
            i <= n,
            acc@.len() == i,
            dec_accounts(buf@, off as int, n as nat) == (match dec_accounts(
                buf@,
                cur as int,
                (n - i) as nat,
            ) {
                Some(q) => Some::<(Seq<Seq<u8>>, int)>((views_of(acc@) + q.0, q.1)),
                None => None::<(Seq<Seq<u8>>, int)>,
            }),
        decreases n - i,
    {
        match read_account(buf, cur) {
            None => {
                return None;
            },
            Some(p) => {
                proof {
                    if dec_accounts(buf@, p.1 as int, (n - i - 1) as nat) is Some {
                        let q = dec_accounts(buf@, p.1 as int, (n - i - 1) as nat).unwrap();
                        assert(views_of(acc@) + (seq![p.0@] + q.0) =~= views_of(acc@.push(p.0))
                            + q.0);
                    }
                }
                let x = p.0;
                acc.push(x);
                cur = p.1;
                i = i + 1;
            },
        }
    }
    proof {
        assert(views_of(acc@) + Seq::<Seq<u8>>::empty() =~= views_of(acc@));
    }
    Some((acc, cur))
}


/// Reads a whole length-prefixed sequence of account identifiers.
pub fn read_account_vec(buf: &[u8], off: usize) -> (r: Option<(Vec<AccountId>, usize)>)
    ensures
        match r {
            Some(p) => dec_account_vec(buf@, off as int) == Some((views_of(p.0@), p.1 as int))
                && p.0@.len() < 0x4000_0000,
            None => dec_account_vec(buf@, off as int) is None,
        },
{
    let (n, o1) = match crate::codec::read_compact(buf, off) {
        None => {
            return None;
        },
        Some(p) => p,
    };
    match read_accounts(buf, o1, n) {
        None => None,
        Some(p) => {
            proof {
                assert(views_of(p.0@).len() == p.0@.len());
            }
            Some(p)
        },
    }
}

/// Appends a whole length-prefixed sequence of account identifiers.
pub fn write_accounts(out: &mut Vec<u8>, accts: &Vec<AccountId>)
    requires
        accts@.len() < 0x4000_0000,
    ensures
        final(out)@ == old(out)@ + crate::codec::vec_account_bytes(views_of(accts@)),
{
    write_compact(out, accts.len());
    let ghost base = out@;
    let mut i: usize = 0;
    proof {
        assert(views_of(accts@.take(0)) =~= Seq::<Seq<u8>>::empty());
        assert(base + accounts_bytes(views_of(accts@.take(0))) =~= base);
    }
    while i < accts.len()
        invariant
            i <= accts@.len(),
            out@ == base + accounts_bytes(views_of(accts@.take(i as int))),
        decreases accts@.len() - i,
    {
        write_account(out, &accts[i]);
        proof {
            lemma_accounts_bytes_snoc(views_of(accts@.take(i as int)), accts@[i as int]@);
            assert(views_of(accts@.take(i + 1)) =~= views_of(accts@.take(i as int)).push(
                accts@[i as int]@,
            ));
            assert(base + accounts_bytes(views_of(accts@.take(i + 1))) =~= (base + accounts_bytes(
                views_of(accts@.take(i as int)),
            )) + accts@[i as int]@);
        }
        i = i + 1;
    }
    proof {
        assert(accts@.take(accts@.len() as int) =~= accts@);
        assert(views_of(accts@).len() == accts@.len());
        assert(old(out)@ + crate::codec::vec_account_bytes(views_of(accts@)) =~= (old(out)@
            + crate::codec::compact_bytes(accts@.len())) + accounts_bytes(views_of(accts@)));
    }
}

} // verus!
