//! SHA-256 content ids in CIDv1 form, lowercase base32, and the domain
//! prefixes of the signing and id hashes.
use vstd::prelude::*;
use crate::bytes::{hex_of, to_hex_string};
use crate::types::ReceiptId;
use sha2::Digest;
use vstd::string::StringExecFns;

verus! {

/// Domain prefix of signed messages: the ASCII bytes of `chainge/receipt-sig/v1`.
pub const SIGN_DOMAIN: [u8; 22] = [99, 104, 97, 105, 110, 103, 101, 47, 114, 101, 99, 101, 105, 112, 116, 45, 115, 105, 103, 47, 118, 49];

/// Domain prefix of receipt id hashes: the ASCII bytes of `chainge/receipt-id/v1`.
pub const ID_DOMAIN: [u8; 21] = [99, 104, 97, 105, 110, 103, 101, 47, 114, 101, 99, 101, 105, 112, 116, 45, 105, 100, 47, 118, 49];

/// The SHA-256 digest of a byte sequence.
pub uninterp spec fn sha256_of(data: Seq<u8>) -> Seq<u8>;

/// Relies on sha2's `Sha256::digest`: the 32-byte digest of the input.
#[verifier::external_body]
fn sha256_digest(data: &[u8]) -> (r: [u8; 32])
    ensures
        r@ == sha256_of(data@),
{
    sha2::Sha256::digest(data).into()
}

/// Relies on `String::push`: appends one character.
#[verifier::external_body]
fn push_char(s: &mut String, c: char)
    ensures
        final(s)@ == old(s)@.push(c),
{
    s.push(c)
}

/// Bit `p` of `data`, most significant bit of each byte first; 0 past the end.
pub open spec fn bit_at(data: Seq<u8>, p: int) -> u8 {
    if 0 <= p < data.len() * 8 {
        ((data[p / 8] >> ((7 - p % 8) as u8)) & 1) as u8
    } else {
        0
    }
}

/// The 5-bit value of base32 symbol `k`.
pub open spec fn symbol_value(data: Seq<u8>, k: int) -> u8 {
    (bit_at(data, 5 * k) * 16 + bit_at(data, 5 * k + 1) * 8 + bit_at(data, 5 * k + 2) * 4 + bit_at(data, 5 * k + 3)
        * 2 + bit_at(data, 5 * k + 4)) as u8
}

/// The lowercase RFC 4648 alphabet.
pub open spec fn base32_char(v: u8) -> char {
    if v < 26 {
        (('a' as u8) + v) as char
    } else {
        (('2' as u8) + v - 26) as char
    }
}

/// Lowercase base32 without padding: one symbol per five bits, the last
/// one filled with zero bits.
pub open spec fn base32_of(data: Seq<u8>) -> Seq<char> {
    Seq::new(((data.len() * 8 + 4) / 5) as nat, |k: int| base32_char(symbol_value(data, k)))
}

fn bit_of(data: &[u8], p: usize) -> (r: u8)
    requires
        p < data@.len() * 8 + 40,
        data@.len() * 8 + 40 < usize::MAX,
    ensures
        r == bit_at(data@, p as int),
        r <= 1,
{
    if p < data.len() * 8 {
        let b = data[p / 8];
        let sh: u8 = (7 - p % 8) as u8;
        let r = (b >> sh) & 1;
        assert(r <= 1) by (bit_vector)
            requires
                r == (b >> sh) & 1,
        ;
        r
    } else {
        0
    }
}

/// Lowercase base32 (RFC 4648) without padding.
pub fn base32_encode(data: &[u8]) -> (r: String)
    requires
        data@.len() * 8 + 40 < usize::MAX,
    ensures
        r@ == base32_of(data@),
{
    let n: usize = (data.len() * 8 + 4) / 5;
    let mut out = String::new();
    let mut k: usize = 0;
    while k < n
        invariant
            n == (data@.len() * 8 + 4) / 5,
            data@.len() * 8 + 40 < usize::MAX,
            0 <= k <= n,
            out@ == base32_of(data@).subrange(0, k as int),
        decreases n - k,
    {
        let v: u8 = bit_of(data, 5 * k) * 16 + bit_of(data, 5 * k + 1) * 8 + bit_of(data, 5 * k + 2) * 4 + bit_of(
            data,
            5 * k + 3,
        ) * 2 + bit_of(data, 5 * k + 4);
        let c: char = if v < 26 {
            (97u8 + v) as char
        } else {
            (50u8 + v - 26) as char
        };
        assert(c == base32_char(symbol_value(data@, k as int)));
        push_char(&mut out, c);
        k = k + 1;
        assert(out@ =~= base32_of(data@).subrange(0, k as int));
    }
    assert(base32_of(data@).subrange(0, n as int) =~= base32_of(data@));
    out
}

/// A 32-byte SHA-256 hash.
#[derive(Debug, Clone, Copy)]
pub struct Sha256Hash(pub [u8; 32]);

impl PartialEq for Sha256Hash {
    fn eq(&self, o: &Sha256Hash) -> (r: bool) {
        crate::bytes::eq32(&self.0, &o.0)
    }
}

impl vstd::std_specs::cmp::PartialEqSpecImpl for Sha256Hash {
    open spec fn obeys_eq_spec() -> bool {
        true
    }

    open spec fn eq_spec(&self, o: &Sha256Hash) -> bool {
        self.0@ == o.0@
    }
}

impl Eq for Sha256Hash {}

/// The bytes of a CIDv1 for dag-cbor content with a SHA-256 multihash.
pub open spec fn cid_bytes(digest: Seq<u8>) -> Seq<u8> {
    seq![0x01u8, 0x71u8, 0x12u8, 0x20u8] + digest
}

impl Sha256Hash {
    /// The SHA-256 hash of `data`.
    pub fn hash(data: &[u8]) -> (r: Sha256Hash)
        ensures
            r.0@ == sha256_of(data@),
    {
        Sha256Hash(sha256_digest(data))
    }

    pub fn from_bytes(bytes: [u8; 32]) -> (r: Sha256Hash)
        ensures
            r.0 == bytes,
    {
        Sha256Hash(bytes)
    }

    pub fn as_bytes(&self) -> (r: &[u8; 32])
        ensures
            *r == self.0,
    {
        &self.0
    }

    /// Lowercase hex of the 32 bytes.
    pub fn to_hex(&self) -> (r: String)
        ensures
            r@ == hex_of(self.0@),
    {
        to_hex_string(&self.0)
    }

    /// The CIDv1 string: `b` followed by the lowercase base32 of
    /// `0x01 0x71 0x12 0x20` and the digest.
    pub fn to_cid(&self) -> (r: String)
        ensures
            r@ == seq!['b'] + base32_of(cid_bytes(self.0@)),
    {
        let mut bytes: Vec<u8> = Vec::new();
        bytes.push(0x01);
        bytes.push(0x71);
        bytes.push(0x12);
        bytes.push(0x20);
        let ghost head = bytes@;
        crate::bytes::append_bytes(&mut bytes, self.0.as_slice());
        assert(head =~= seq![0x01u8, 0x71u8, 0x12u8, 0x20u8]);
        let encoded = base32_encode(bytes.as_slice());
        let mut out = String::new();
        push_char(&mut out, 'b');
        assert(out@ =~= seq!['b']);
        out.concat(encoded.as_str())
    }
}


/// The message a receipt's author signs in the SHA-256 form: the signing
/// domain prefix, then the canonical content bytes.
pub fn sign_message(content_bytes: &[u8]) -> (r: Vec<u8>)
    ensures
        r@ == SIGN_DOMAIN@ + content_bytes@,
{
    let mut msg: Vec<u8> = Vec::new();
    let domain = SIGN_DOMAIN;
    crate::bytes::append_bytes(&mut msg, domain.as_slice());
    crate::bytes::append_bytes(&mut msg, content_bytes);
    msg
}

/// Whether `a` comes before `b` in byte-wise lexicographic order.
pub open spec fn bytes_lt(a: Seq<u8>, b: Seq<u8>) -> bool {
    exists|i: int|
        0 <= i < a.len() && i < b.len() && a[i] < b[i] && #[trigger] a.subrange(0, i) == b.subrange(0, i)
}

/// Compares two ids byte by byte: -1, 0 or 1.
pub fn compare_ids(a: &ReceiptId, b: &ReceiptId) -> (r: i8)
    ensures
        r == -1 <==> bytes_lt(a.0@, b.0@),
        r == 1 <==> bytes_lt(b.0@, a.0@),
        r == 0 <==> a.0@ == b.0@,
        r == -1 || r == 0 || r == 1,
{
    let mut i: usize = 0;
    while i < 32
        invariant
            0 <= i <= 32,
            a.0@.len() == 32,
            b.0@.len() == 32,
            a.0@.subrange(0, i as int) == b.0@.subrange(0, i as int),
        decreases 32 - i,
    {
        if a.0[i] != b.0[i] {
            proof {
                assert forall|k: int| 0 <= k < 32 && a.0@[k] != b.0@[k] && #[trigger] a.0@.subrange(0, k) == b.0@.subrange(0, k) implies k == i by {
                    if k < i {
                        assert(a.0@.subrange(0, i as int)[k] == b.0@.subrange(0, i as int)[k]);
                    } else if k > i {
                        assert(a.0@.subrange(0, k)[i as int] == b.0@.subrange(0, k)[i as int]);
                    }
                }
            }
            if a.0[i] < b.0[i] {
                assert(bytes_lt(a.0@, b.0@));
                return -1;
            } else {
                assert(bytes_lt(b.0@, a.0@));
                return 1;
            }
        }
        assert(a.0@.subrange(0, i + 1) =~= a.0@.subrange(0, i as int).push(a.0@[i as int]));
        assert(b.0@.subrange(0, i + 1) =~= b.0@.subrange(0, i as int).push(b.0@[i as int]));
        i = i + 1;
    }
    assert(a.0@ =~= a.0@.subrange(0, 32));
    assert(b.0@ =~= b.0@.subrange(0, 32));
    0
}

/// Why a list of refs is not in canonical order.
#[derive(Debug, Clone, Copy, PartialEq, Eq, Structural)]
pub enum RefsError {
    RefsNotSorted,
    RefsDuplicate,
}

/// Whether every id is strictly below the next one.
pub open spec fn refs_strictly_sorted(refs: Seq<ReceiptId>) -> bool {
    forall|i: int| 0 <= i < refs.len() - 1 ==> bytes_lt(#[trigger] refs[i].0@, refs[i + 1].0@)
}

/// Checks that refs are strictly ascending; the first pair out of order
/// decides the error: a duplicate, or a descent.
pub fn validate_refs_sorted(refs: &Vec<ReceiptId>) -> (r: Result<(), RefsError>)
    ensures
        r is Ok <==> refs_strictly_sorted(refs@),
        r == Err::<(), RefsError>(RefsError::RefsDuplicate) ==> exists|i: int|
            0 <= i < refs@.len() - 1 && (#[trigger] refs@[i]).0@ == refs@[i + 1].0@,
        r == Err::<(), RefsError>(RefsError::RefsNotSorted) ==> exists|i: int|
            0 <= i < refs@.len() - 1 && bytes_lt(refs@[i + 1].0@, (#[trigger] refs@[i]).0@),
{
    let mut i: usize = 0;
    while i < refs.len() && refs.len() - i > 1
        invariant
            0 <= i,
            refs@.len() == 0 || i < refs@.len(),
            forall|j: int| 0 <= j < i ==> bytes_lt(#[trigger] refs@[j].0@, refs@[j + 1].0@),
        decreases refs@.len() - i,
    {
        let c = compare_ids(&refs[i], &refs[i + 1]);
        assert(c == -1 ==> bytes_lt(refs@[i as int].0@, refs@[i + 1].0@));
        if c == 1 {
            return Err(RefsError::RefsNotSorted);
        }
        if c == 0 {
            return Err(RefsError::RefsDuplicate);
        }
        i = i + 1;
    }
    Ok(())
}

/// Whether every id is at most the next one.
pub open spec fn refs_sorted(refs: Seq<ReceiptId>) -> bool {
    forall|i: int|
        0 <= i < refs.len() - 1 ==> bytes_lt(#[trigger] refs[i].0@, refs[i + 1].0@) || refs[i].0@ == refs[i + 1].0@
}

proof fn lemma_adjacent_twice(s: Seq<ReceiptId>, k: int)
    requires
        0 <= k < s.len() - 1,
        s[k] == s[k + 1],
    ensures
        s.to_multiset().count(s[k]) >= 2,
{
    broadcast use vstd::seq_lib::to_multiset_remove, vstd::seq_lib::to_multiset_contains;

    let t = s.remove(k + 1);
    assert(t[k] == s[k]);
    assert(t.contains(s[k]));
    assert(t.to_multiset().count(s[k]) > 0);
}

/// Sorts refs into strictly ascending byte order; two equal refs are an error.
pub fn normalize_refs(refs: Vec<ReceiptId>) -> (r: Result<Vec<ReceiptId>, RefsError>)
    ensures
        r matches Ok(v) ==> refs_strictly_sorted(v@) && v@.to_multiset() == refs@.to_multiset(),
        r is Err ==> r == Err::<Vec<ReceiptId>, RefsError>(RefsError::RefsDuplicate) && exists|x: ReceiptId|
            refs@.to_multiset().count(x) >= 2,
{
    broadcast use vstd::array::axiom_array_ext_equal;

    let mut out: Vec<ReceiptId> = Vec::new();
    let mut i: usize = 0;
    assert(refs@.subrange(0, 0) =~= Seq::<ReceiptId>::empty());
    while i < refs.len()
        invariant
            0 <= i <= refs@.len(),
            refs_sorted(out@),
            out@.to_multiset() == refs@.subrange(0, i as int).to_multiset(),
        decreases refs@.len() - i,
    {
        let x = refs[i];
        let mut p: usize = 0;
        while p < out.len() && compare_ids(&out[p], &x) == -1
            invariant
                0 <= p <= out@.len(),
                p > 0 ==> bytes_lt(out@[p - 1].0@, x.0@),
            decreases out@.len() - p,
        {
            p = p + 1;
        }
        let ghost before = out@;
        out.insert(p, x);
        proof {
            assert(out@ == before.insert(p as int, x));
            vstd::seq_lib::to_multiset_insert(before, p as int, x);
            vstd::seq_lib::to_multiset_build(refs@.subrange(0, i as int), x);
            assert forall|k: int| 0 <= k < out@.len() - 1 implies bytes_lt(#[trigger] out@[k].0@, out@[k + 1].0@)
                || out@[k].0@ == out@[k + 1].0@ by {
                if k < p - 1 {
                    assert(out@[k] == before[k] && out@[k + 1] == before[k + 1]);
                } else if k == p - 1 {
                    assert(out@[k] == before[k] && out@[k + 1] == x);
                } else if k == p {
                    assert(out@[k] == x && out@[k + 1] == before[k]);
                } else {
                    assert(out@[k] == before[k - 1] && out@[k + 1] == before[k]);
                }
            }
            assert(refs@.subrange(0, i + 1) =~= refs@.subrange(0, i as int).push(x));
        }
        i = i + 1;
    }
    assert(refs@.subrange(0, refs@.len() as int) =~= refs@);
    let mut k: usize = 0;
    while k < out.len() && out.len() - k > 1
        invariant
            0 <= k,
            out@.len() == 0 || k < out@.len(),
            refs_sorted(out@),
            out@.to_multiset() == refs@.to_multiset(),
            forall|j: int| 0 <= j < k ==> bytes_lt(#[trigger] out@[j].0@, out@[j + 1].0@),
        decreases out@.len() - k,
    {
        if compare_ids(&out[k], &out[k + 1]) == 0 {
            proof {
                assert(out@[k as int].0@ == out@[k + 1].0@);
                assert forall|m: int| 0 <= m < 32 implies out@[k as int].0[m] == out@[k + 1].0[m] by {
                    assert(out@[k as int].0@[m] == out@[k + 1].0@[m]);
                }
                assert(out@[k as int].0 =~= out@[k + 1].0);
                assert(out@[k as int] == out@[k + 1]);
                lemma_adjacent_twice(out@, k as int);
            }
            return Err(RefsError::RefsDuplicate);
        }
        k = k + 1;
    }
    Ok(out)
}

} // verus!
