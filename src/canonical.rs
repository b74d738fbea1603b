//! The canonical binary form of receipts: a deterministic CBOR profile.
//!
//! Integers take their shortest form, byte strings carry definite lengths,
//! and the header is a nine-entry map whose one-byte integer keys `0..=8`
//! appear in ascending order. A receipt is its header map followed by the
//! payload bytes and the 64 signature bytes.
use vstd::prelude::*;
use vstd::string::StringSliceAdditionalSpecFns;
use crate::bytes::{append_bytes, slice_to_vec, take32, take64};
use crate::crypto::{Blake3Hash, CoreError, Ed25519PublicKey, Ed25519Signature};
use crate::receipt::{
    header_model_wf, kind_code, receipt_model_wf, HeaderModel, Receipt, ReceiptHeader, ReceiptKind,
    ReceiptModel,
};
use crate::receipt::{ids_view, opt_id_view};
use crate::stream::StreamId;
use crate::types::ReceiptId;

verus! {

/// Whether `p` occurs in `s` starting at `pos`.
pub open spec fn starts_at(s: Seq<u8>, pos: int, p: Seq<u8>) -> bool {
    &&& 0 <= pos
    &&& pos + p.len() <= s.len()
    &&& s.subrange(pos, pos + p.len()) == p
}

/// The initial byte of a data item: major type in the top three bits.
pub open spec fn head_byte(major: u8, info: u8) -> u8 {
    (major * 32 + info) as u8
}

/// Byte `shift / 8` of `n`, counting from the least significant.
pub open spec fn byte_of(n: u64, shift: u64) -> u8 {
    ((n >> shift) & 0xff) as u8
}

/// The shortest encoding of `n` under a major type: 1, 2, 3, 5 or 9 bytes.
pub open spec fn spec_uint(major: u8, n: u64) -> Seq<u8> {
    if n < 24 {
        seq![head_byte(major, n as u8)]
    } else if n <= 0xff {
        seq![head_byte(major, 24), n as u8]
    } else if n <= 0xffff {
        seq![head_byte(major, 25), byte_of(n, 8), byte_of(n, 0)]
    } else if n <= 0xffff_ffff {
        seq![head_byte(major, 26), byte_of(n, 24), byte_of(n, 16), byte_of(n, 8), byte_of(n, 0)]
    } else {
        seq![
            head_byte(major, 27),
            byte_of(n, 56),
            byte_of(n, 48),
            byte_of(n, 40),
            byte_of(n, 32),
            byte_of(n, 24),
            byte_of(n, 16),
            byte_of(n, 8),
            byte_of(n, 0),
        ]
    }
}

/// A signed integer: major type 0 for `t >= 0`, major type 1 carrying `-1 - t` otherwise.
pub open spec fn spec_int(t: i64) -> Seq<u8> {
    if t >= 0 {
        spec_uint(0, t as u64)
    } else {
        spec_uint(1, (-1 - t) as u64)
    }
}

/// A definite-length byte string.
pub open spec fn spec_bstr(b: Seq<u8>) -> Seq<u8> {
    spec_uint(2, b.len() as u64) + b
}

/// The null item.
pub open spec fn spec_null() -> Seq<u8> {
    seq![0xf6u8]
}

/// An optional id: a byte string, or null when absent.
pub open spec fn spec_opt_id(p: Option<Seq<u8>>) -> Seq<u8> {
    match p {
        Some(b) => spec_bstr(b),
        None => spec_null(),
    }
}

/// The items of an array of byte strings, without its header.
pub open spec fn spec_bstr_items(items: Seq<Seq<u8>>) -> Seq<u8>
    decreases items.len(),
{
    if items.len() == 0 {
        Seq::empty()
    } else {
        spec_bstr_items(items.drop_last()) + spec_bstr(items.last())
    }
}

/// A definite-length array of byte strings.
pub open spec fn spec_bstr_array(items: Seq<Seq<u8>>) -> Seq<u8> {
    spec_uint(4, items.len() as u64) + spec_bstr_items(items)
}

/// The canonical header map: nine entries, keys `0..=8` in ascending byte order.
pub open spec fn spec_header(h: HeaderModel) -> Seq<u8> {
    seq![0xa9u8, 0u8] + (spec_uint(0, h.version as u64) + (seq![1u8] + (spec_bstr(h.author) + (
    seq![2u8] + (spec_bstr(h.stream_id) + (seq![3u8] + (spec_uint(0, h.seq) + (seq![4u8] + (
    spec_int(h.timestamp) + (seq![5u8] + (spec_uint(0, kind_code(h.kind) as u64) + (seq![6u8] + (
    spec_opt_id(h.prev_receipt_id) + (seq![7u8] + (spec_bstr_array(h.refs) + (seq![8u8]
        + spec_bstr(h.payload_hash)))))))))))))))))
}

/// The message an author signs: canonical header followed by the payload.
pub open spec fn spec_signed_message(h: HeaderModel, payload: Seq<u8>) -> Seq<u8> {
    spec_header(h) + payload
}

/// The canonical bytes of a receipt: signed message followed by the signature.
pub open spec fn spec_receipt_bytes(r: ReceiptModel) -> Seq<u8> {
    spec_signed_message(r.header, r.payload) + r.signature
}

/// A concatenation occurs at `pos` exactly when its two parts occur one after the other.
pub broadcast proof fn lemma_starts_at_concat(s: Seq<u8>, pos: int, a: Seq<u8>, b: Seq<u8>)
    ensures
        #[trigger] starts_at(s, pos, a + b) <==> starts_at(s, pos, a) && starts_at(s, pos + a.len(), b),
{
    if starts_at(s, pos, a + b) {
        let w = s.subrange(pos, pos + a.len() + b.len());
        assert(w == a + b);
        assert(s.subrange(pos, pos + a.len()) =~= w.subrange(0, a.len() as int));
        assert(w.subrange(0, a.len() as int) =~= a);
        assert(s.subrange(pos + a.len(), pos + a.len() + b.len()) =~= w.subrange(
            a.len() as int,
            w.len() as int,
        ));
        assert(w.subrange(a.len() as int, w.len() as int) =~= b);
    }
    if starts_at(s, pos, a) && starts_at(s, pos + a.len(), b) {
        assert(s.subrange(pos, pos + a.len() + b.len()) =~= s.subrange(pos, pos + a.len()) + s.subrange(
            pos + a.len(),
            pos + a.len() + b.len(),
        ));
    }
}

proof fn lemma_head_byte(h: u8, m: u8, i: u8)
    requires
        m < 8,
        i < 32,
        h == head_byte(m, i),
    ensures
        h >> 5u8 == m,
        h & 31u8 == i,
{
    assert(h == m * 32 + i);
    assert(h >> 5u8 == m && h & 31u8 == i) by (bit_vector)
        requires
            h == m * 32 + i,
            m < 8,
            i < 32,
    ;
}

proof fn lemma_byte_of(n: u64, s: u64)
    requires
        s < 64,
    ensures
        byte_of(n, s) as u64 == (n >> s) & 0xff,
{
    assert((n >> s) & 0xff <= 0xff) by (bit_vector);
}

proof fn lemma_be2(n: u64)
    requires
        n <= 0xffff,
    ensures
        ((byte_of(n, 8) as u64) << 8u64) | (byte_of(n, 0) as u64) == n,
{
    lemma_byte_of(n, 8);
    lemma_byte_of(n, 0);
    assert((((n >> 8u64) & 0xff) << 8u64) | ((n >> 0u64) & 0xff) == n) by (bit_vector)
        requires
            n <= 0xffff,
    ;
}

proof fn lemma_be4(n: u64)
    requires
        n <= 0xffff_ffff,
    ensures
        ((byte_of(n, 24) as u64) << 24u64) | ((byte_of(n, 16) as u64) << 16u64) | ((byte_of(n, 8) as u64)
            << 8u64) | (byte_of(n, 0) as u64) == n,
{
    lemma_byte_of(n, 24);
    lemma_byte_of(n, 16);
    lemma_byte_of(n, 8);
    lemma_byte_of(n, 0);
    assert((((n >> 24u64) & 0xff) << 24u64) | (((n >> 16u64) & 0xff) << 16u64) | (((n >> 8u64) & 0xff)
        << 8u64) | ((n >> 0u64) & 0xff) == n) by (bit_vector)
        requires
            n <= 0xffff_ffff,
    ;
}

proof fn lemma_be8(n: u64)
    ensures
        ((byte_of(n, 56) as u64) << 56u64) | ((byte_of(n, 48) as u64) << 48u64) | ((byte_of(n, 40) as u64)
            << 40u64) | ((byte_of(n, 32) as u64) << 32u64) | ((byte_of(n, 24) as u64) << 24u64) | ((
        byte_of(n, 16) as u64) << 16u64) | ((byte_of(n, 8) as u64) << 8u64) | (byte_of(n, 0) as u64)
            == n,
{
    lemma_byte_of(n, 56);
    lemma_byte_of(n, 48);
    lemma_byte_of(n, 40);
    lemma_byte_of(n, 32);
    lemma_byte_of(n, 24);
    lemma_byte_of(n, 16);
    lemma_byte_of(n, 8);
    lemma_byte_of(n, 0);
    assert((((n >> 56u64) & 0xff) << 56u64) | (((n >> 48u64) & 0xff) << 48u64) | (((n >> 40u64) & 0xff)
        << 40u64) | (((n >> 32u64) & 0xff) << 32u64) | (((n >> 24u64) & 0xff) << 24u64) | (((n
        >> 16u64) & 0xff) << 16u64) | (((n >> 8u64) & 0xff) << 8u64) | ((n >> 0u64) & 0xff) == n)
        by (bit_vector);
}

fn push_byte_of(buf: &mut Vec<u8>, n: u64, shift: u64)
    requires
        shift < 64,
    ensures
        final(buf)@ == old(buf)@.push(byte_of(n, shift)),
{
    proof {
        lemma_byte_of(n, shift);
    }
    buf.push(((n >> shift) & 0xff) as u8);
}

/// Appends the shortest encoding of `n` under major type `major`.
pub fn encode_uint(buf: &mut Vec<u8>, major: u8, n: u64)
    requires
        major < 8,
    ensures
        final(buf)@ == old(buf)@ + spec_uint(major, n),
{
    let mt: u8 = major * 32;
    if n < 24 {
        buf.push(mt + n as u8);
    } else if n <= 0xff {
        buf.push(mt + 24);
        buf.push(n as u8);
    } else if n <= 0xffff {
        buf.push(mt + 25);
        push_byte_of(buf, n, 8);
        push_byte_of(buf, n, 0);
    } else if n <= 0xffff_ffff {
        buf.push(mt + 26);
        push_byte_of(buf, n, 24);
        push_byte_of(buf, n, 16);
        push_byte_of(buf, n, 8);
        push_byte_of(buf, n, 0);
    } else {
        buf.push(mt + 27);
        push_byte_of(buf, n, 56);
        push_byte_of(buf, n, 48);
        push_byte_of(buf, n, 40);
        push_byte_of(buf, n, 32);
        push_byte_of(buf, n, 24);
        push_byte_of(buf, n, 16);
        push_byte_of(buf, n, 8);
        push_byte_of(buf, n, 0);
    }
    assert(buf@ =~= old(buf)@ + spec_uint(major, n));
}

/// Appends a byte string (major type 2).
pub fn encode_bytes(buf: &mut Vec<u8>, bytes: &[u8])
    ensures
        final(buf)@ == old(buf)@ + spec_bstr(bytes@),
{
    encode_uint(buf, 2, bytes.len() as u64);
    append_bytes(buf, bytes);
    assert(buf@ =~= old(buf)@ + spec_bstr(bytes@));
}

/// Appends a text string (major type 3) holding the UTF-8 bytes of `s`.
pub fn encode_text(buf: &mut Vec<u8>, s: &str)
    ensures
        final(buf)@ == old(buf)@ + spec_uint(3, s.spec_bytes().len() as u64) + s.spec_bytes(),
{
    let b = s.as_bytes();
    encode_uint(buf, 3, b.len() as u64);
    append_bytes(buf, b);
}

/// The additional-information bits that the shortest encoding of `n` uses.
spec fn info_of(n: u64) -> u8 {
    if n < 24 {
        n as u8
    } else if n <= 0xff {
        24
    } else if n <= 0xffff {
        25
    } else if n <= 0xffff_ffff {
        26
    } else {
        27
    }
}

/// The big-endian argument that follows an initial byte with information `info`.
spec fn argument_at(s: Seq<u8>, pos: int, info: u8) -> u64 {
    if info < 24 {
        info as u64
    } else if info == 24 {
        s[pos + 1] as u64
    } else if info == 25 {
        ((s[pos + 1] as u64) << 8u64) | (s[pos + 2] as u64)
    } else if info == 26 {
        ((s[pos + 1] as u64) << 24u64) | ((s[pos + 2] as u64) << 16u64) | ((s[pos + 3] as u64)
            << 8u64) | (s[pos + 4] as u64)
    } else {
        ((s[pos + 1] as u64) << 56u64) | ((s[pos + 2] as u64) << 48u64) | ((s[pos + 3] as u64)
            << 40u64) | ((s[pos + 4] as u64) << 32u64) | ((s[pos + 5] as u64) << 24u64) | ((s[pos
            + 6] as u64) << 16u64) | ((s[pos + 7] as u64) << 8u64) | (s[pos + 8] as u64)
    }
}

/// Where the shortest encoding of `n` sits in `s`, its initial byte and argument read back.
proof fn lemma_uint_reads_back(s: Seq<u8>, pos: int, m: u8, n: u64)
    requires
        m < 8,
        starts_at(s, pos, spec_uint(m, n)),
    ensures
        pos < s.len(),
        s[pos] >> 5u8 == m,
        s[pos] & 31u8 == info_of(n),
        spec_uint(m, n).len() == 1 + (if info_of(n) < 24 {
            0int
        } else if info_of(n) == 24 {
            1int
        } else if info_of(n) == 25 {
            2int
        } else if info_of(n) == 26 {
            4int
        } else {
            8int
        }),
        argument_at(s, pos, info_of(n)) == n,
{
    let e = spec_uint(m, n);
    assert(s.subrange(pos, pos + e.len()) == e);
    assert forall|i: int| 0 <= i < e.len() implies s[pos + i] == e[i] by {
        assert(s.subrange(pos, pos + e.len())[i] == s[pos + i]);
    }
    assert(s[pos + 0] == e[0]);
    assert(e[0] == head_byte(m, info_of(n)));
    lemma_head_byte(s[pos], m, info_of(n));
    if n <= 0xffff && n > 0xff {
        lemma_be2(n);
    } else if n <= 0xffff_ffff && n > 0xffff {
        lemma_be4(n);
    } else if n > 0xffff_ffff {
        lemma_be8(n);
    }
}

/// Whether `p` occurs in `s` at `pos`.
fn matches_at(s: &[u8], pos: usize, p: &[u8]) -> (r: bool)
    requires
        pos <= s@.len(),
    ensures
        r == starts_at(s@, pos as int, p@),
{
    let len = s.len();
    if len - pos < p.len() {
        return false;
    }
    let mut i: usize = 0;
    while i < p.len()
        invariant
            pos + p@.len() <= s@.len(),
            len == s@.len(),
            0 <= i <= p@.len(),
            forall|j: int| 0 <= j < i ==> s@[pos + j] == p@[j],
        decreases p@.len() - i,
    {
        if s[pos + i] != p[i] {
            assert(s@.subrange(pos as int, pos + p@.len())[i as int] != p@[i as int]);
            return false;
        }
        i = i + 1;
    }
    assert(s@.subrange(pos as int, pos + p@.len()) =~= p@);
    true
}

/// Reads the initial byte and argument of a data item at `pos`; only the
/// shortest encoding of the argument is accepted.
pub fn decode_head(bytes: &[u8], pos: usize) -> (r: Option<(u8, u64, usize)>)
    requires
        pos <= bytes@.len(),
    ensures
        r matches Some((m, n, q)) ==> m < 8 && q == pos + spec_uint(m, n).len() && starts_at(
            bytes@,
            pos as int,
            spec_uint(m, n),
        ),
        forall|m: u8, n: u64|
            m < 8 && #[trigger] starts_at(bytes@, pos as int, spec_uint(m, n)) ==> r == Some(
                (m, n, (pos + spec_uint(m, n).len()) as usize),
            ),
{
    proof {
        assert forall|m: u8, n: u64| m < 8 && #[trigger] starts_at(bytes@, pos as int, spec_uint(m, n)) implies
            pos < bytes@.len() && bytes@[pos as int] >> 5u8 == m && bytes@[pos as int] & 31u8 == info_of(n)
            && argument_at(bytes@, pos as int, info_of(n)) == n by {
            lemma_uint_reads_back(bytes@, pos as int, m, n);
        }
    }
    let len = bytes.len();
    if pos >= len {
        return None;
    }
    let b = bytes[pos];
    let major: u8 = b >> 5;
    let info: u8 = b & 31;
    assert(major < 8) by (bit_vector)
        requires
            major == b >> 5u8,
    ;
    let n: u64;
    if info < 24 {
        n = info as u64;
    } else if info == 24 {
        if len - pos < 2 {
            return None;
        }
        n = bytes[pos + 1] as u64;
    } else if info == 25 {
        if len - pos < 3 {
            return None;
        }
        n = ((bytes[pos + 1] as u64) << 8) | (bytes[pos + 2] as u64);
    } else if info == 26 {
        if len - pos < 5 {
            return None;
        }
        n = ((bytes[pos + 1] as u64) << 24) | ((bytes[pos + 2] as u64) << 16) | ((bytes[pos
            + 3] as u64) << 8) | (bytes[pos + 4] as u64);
    } else if info == 27 {
        if len - pos < 9 {
            return None;
        }
        n = ((bytes[pos + 1] as u64) << 56) | ((bytes[pos + 2] as u64) << 48) | ((bytes[pos
            + 3] as u64) << 40) | ((bytes[pos + 4] as u64) << 32) | ((bytes[pos + 5] as u64)
            << 24) | ((bytes[pos + 6] as u64) << 16) | ((bytes[pos + 7] as u64) << 8) | (bytes[pos
            + 8] as u64);
    } else {
        return None;
    }
    assert(n == argument_at(bytes@, pos as int, info));
    let mut enc: Vec<u8> = Vec::new();
    encode_uint(&mut enc, major, n);
    assert(enc@ =~= spec_uint(major, n));
    if !matches_at(bytes, pos, enc.as_slice()) {
        return None;
    }
    Some((major, n, pos + enc.len()))
}

/// Whether byte `k` stands at `pos`.
fn byte_at_is(bytes: &[u8], pos: usize, k: u8) -> (r: bool)
    requires
        pos <= bytes@.len(),
    ensures
        r == starts_at(bytes@, pos as int, seq![k]),
{
    if pos < bytes.len() && bytes[pos] == k {
        assert(bytes@.subrange(pos as int, pos + 1) =~= seq![k]);
        true
    } else {
        proof {
            if pos < bytes@.len() {
                assert(bytes@.subrange(pos as int, pos + 1)[0] == bytes@[pos as int]);
            }
        }
        false
    }
}

/// Reads an unsigned integer (major type 0) at `pos`.
fn decode_uint_at(bytes: &[u8], pos: usize) -> (r: Option<(u64, usize)>)
    requires
        pos <= bytes@.len(),
    ensures
        r matches Some((n, q)) ==> q == pos + spec_uint(0, n).len() && starts_at(
            bytes@,
            pos as int,
            spec_uint(0, n),
        ),
        forall|n: u64| #[trigger]
            starts_at(bytes@, pos as int, spec_uint(0, n)) ==> r == Some(
                (n, (pos + spec_uint(0, n).len()) as usize),
            ),
{
    match decode_head(bytes, pos) {
        Some((m, n, q)) => {
            if m == 0 {
                Some((n, q))
            } else {
                None
            }
        },
        None => None,
    }
}

/// Reads a signed 64-bit integer (major type 0 or 1) at `pos`.
fn decode_int_at(bytes: &[u8], pos: usize) -> (r: Option<(i64, usize)>)
    requires
        pos <= bytes@.len(),
    ensures
        r matches Some((t, q)) ==> q == pos + spec_int(t).len() && starts_at(
            bytes@,
            pos as int,
            spec_int(t),
        ),
        forall|t: i64| #[trigger]
            starts_at(bytes@, pos as int, spec_int(t)) ==> r == Some(
                (t, (pos + spec_int(t).len()) as usize),
            ),
{
    match decode_head(bytes, pos) {
        Some((m, n, q)) => {
            if n > 0x7fff_ffff_ffff_ffff {
                None
            } else if m == 0 {
                Some((n as i64, q))
            } else if m == 1 {
                let t: i64 = -1 - (n as i64);
                assert((-1 - t) as u64 == n);
                Some((t, q))
            } else {
                None
            }
        },
        None => None,
    }
}

/// Reads a 32-byte byte string at `pos`.
fn decode_bstr32_at(bytes: &[u8], pos: usize) -> (r: Option<([u8; 32], usize)>)
    requires
        pos <= bytes@.len(),
    ensures
        r matches Some((a, q)) ==> q == pos + spec_bstr(a@).len() && starts_at(
            bytes@,
            pos as int,
            spec_bstr(a@),
        ),
        forall|v: Seq<u8>|
            v.len() == 32 && #[trigger] starts_at(bytes@, pos as int, spec_bstr(v)) ==> (r matches Some(
                (a, q),
            ) && a@ == v && q == pos + spec_bstr(v).len()),
{
    broadcast use lemma_starts_at_concat;

    match decode_head(bytes, pos) {
        Some((m, n, q)) => {
            if m == 2 && n == 32 && bytes.len() - q >= 32 {
                let a = take32(bytes, q);
                assert(bytes@.subrange(q as int, q + 32) == a@);
                assert(starts_at(bytes@, q as int, a@));
                Some((a, q + 32))
            } else {
                None
            }
        },
        None => None,
    }
}

/// Reads either null or a 32-byte byte string at `pos`.
fn decode_opt_id_at(bytes: &[u8], pos: usize) -> (r: Option<(Option<ReceiptId>, usize)>)
    requires
        pos <= bytes@.len(),
    ensures
        r matches Some((o, q)) ==> q == pos + spec_opt_id(opt_id_view(o)).len() && starts_at(
            bytes@,
            pos as int,
            spec_opt_id(opt_id_view(o)),
        ),
        forall|v: Option<Seq<u8>>|
            (v matches Some(b) ==> b.len() == 32) && #[trigger] starts_at(
                bytes@,
                pos as int,
                spec_opt_id(v),
            ) ==> (r matches Some((o, q)) && opt_id_view(o) == v && q == pos + spec_opt_id(
                v,
            ).len()),
{
    broadcast use lemma_starts_at_concat;

    proof {
        assert forall|b: Seq<u8>| b.len() == 32 && #[trigger] starts_at(bytes@, pos as int, spec_bstr(b)) implies
            bytes@[pos as int] != 0xf6u8 by {
            assert(starts_at(bytes@, pos as int, spec_uint(2, 32)));
            lemma_uint_reads_back(bytes@, pos as int, 2, 32);
            assert(bytes@[pos as int] >> 5u8 == 2);
            assert(0xf6u8 >> 5u8 == 7) by (bit_vector);
        }
        assert forall|v: Option<Seq<u8>>| v is None && #[trigger] starts_at(bytes@, pos as int, spec_opt_id(v)) implies
            bytes@[pos as int] == 0xf6u8 by {
            assert(bytes@.subrange(pos as int, pos + 1)[0] == bytes@[pos as int]);
        }
    }
    if pos < bytes.len() && bytes[pos] == 0xf6 {
        assert(bytes@.subrange(pos as int, pos + 1) =~= spec_null());
        Some((None, pos + 1))
    } else {
        match decode_bstr32_at(bytes, pos) {
            Some((a, q)) => Some((Some(ReceiptId(a)), q)),
            None => None,
        }
    }
}

/// Whether every element is 32 bytes long and the count fits an array header.
pub open spec fn ids_wf(ids: Seq<Seq<u8>>) -> bool {
    &&& forall|i: int| 0 <= i < ids.len() ==> (#[trigger] ids[i]).len() == 32
    &&& ids.len() <= u64::MAX
}

proof fn lemma_items_prefix(s: Seq<u8>, p: int, items: Seq<Seq<u8>>, j: int)
    requires
        0 <= j <= items.len(),
        starts_at(s, p, spec_bstr_items(items)),
    ensures
        starts_at(s, p, spec_bstr_items(items.take(j))),
    decreases items.len(),
{
    if j == items.len() {
        assert(items.take(j) =~= items);
    } else {
        lemma_starts_at_concat(s, p, spec_bstr_items(items.drop_last()), spec_bstr(items.last()));
        lemma_items_prefix(s, p, items.drop_last(), j);
        assert(items.drop_last().take(j) =~= items.take(j));
    }
}

proof fn lemma_items_step(items: Seq<Seq<u8>>, i: int)
    requires
        0 <= i < items.len(),
    ensures
        spec_bstr_items(items.take(i + 1)) == spec_bstr_items(items.take(i)) + spec_bstr(items[i]),
{
    assert(items.take(i + 1).drop_last() =~= items.take(i));
}

/// Reads an array of 32-byte byte strings at `pos`.
fn decode_refs_at(bytes: &[u8], pos: usize) -> (r: Option<(Vec<ReceiptId>, usize)>)
    requires
        pos <= bytes@.len(),
    ensures
        r matches Some((v, q)) ==> q == pos + spec_bstr_array(ids_view(v@)).len() && starts_at(
            bytes@,
            pos as int,
            spec_bstr_array(ids_view(v@)),
        ),
        forall|ids: Seq<Seq<u8>>|
            ids_wf(ids) && #[trigger] starts_at(bytes@, pos as int, spec_bstr_array(ids)) ==> (r matches Some(
                (v, q),
            ) && ids_view(v@) == ids && q == pos + spec_bstr_array(ids).len()),
{
    broadcast use lemma_starts_at_concat;

    let (m, n, q0) = match decode_head(bytes, pos) {
        Some(x) => x,
        None => return None,
    };
    if m != 4 {
        return None;
    }
    let ghost base: int = q0 as int;
    let mut refs: Vec<ReceiptId> = Vec::new();
    let mut p: usize = q0;
    let mut i: u64 = 0;
    assert(ids_view(refs@) =~= Seq::<Seq<u8>>::empty());
    assert(bytes@.subrange(base, base) =~= Seq::<u8>::empty());
    proof {
        assert forall|ids: Seq<Seq<u8>>| ids_wf(ids) && #[trigger] starts_at(bytes@, pos as int, spec_bstr_array(ids)) implies
            ids.len() == n by {
            lemma_starts_at_concat(bytes@, pos as int, spec_uint(4, ids.len() as u64), spec_bstr_items(ids));
        }
    }
    while i < n
        invariant
            q0 == pos + spec_uint(4, n).len(),
            base == q0,
            starts_at(bytes@, pos as int, spec_uint(4, n)),
            i <= n,
            refs@.len() == i,
            p == base + spec_bstr_items(ids_view(refs@)).len(),
            starts_at(bytes@, base, spec_bstr_items(ids_view(refs@))),
            forall|ids: Seq<Seq<u8>>|
                ids_wf(ids) && #[trigger] starts_at(bytes@, pos as int, spec_bstr_array(ids)) ==> ids.len()
                    == n && ids_view(refs@) == ids.take(i as int),
        decreases n - i,
    {
        proof {
            assert forall|ids: Seq<Seq<u8>>| ids_wf(ids) && #[trigger] starts_at(bytes@, pos as int, spec_bstr_array(ids)) implies
                starts_at(bytes@, p as int, spec_bstr(ids[i as int])) by {
                assert(ids.len() as u64 == n);
                lemma_starts_at_concat(bytes@, pos as int, spec_uint(4, n), spec_bstr_items(ids));
                lemma_items_prefix(bytes@, base, ids, i + 1);
                lemma_items_step(ids, i as int);
                lemma_starts_at_concat(
                    bytes@,
                    base,
                    spec_bstr_items(ids.take(i as int)),
                    spec_bstr(ids[i as int]),
                );
            }
        }
        match decode_bstr32_at(bytes, p) {
            Some((a, q)) => {
                let ghost old_refs = refs@;
                refs.push(ReceiptId(a));
                proof {
                    assert(ids_view(refs@) =~= ids_view(old_refs).push(a@));
                    assert(ids_view(refs@).take(i as int) =~= ids_view(old_refs));
                    lemma_items_step(ids_view(refs@), i as int);
                    assert(ids_view(refs@).take(i + 1) =~= ids_view(refs@));
                    assert(ids_view(refs@)[i as int] == a@);
                    lemma_starts_at_concat(bytes@, base, spec_bstr_items(ids_view(old_refs)), spec_bstr(a@));
                    assert forall|ids: Seq<Seq<u8>>| ids_wf(ids) && #[trigger] starts_at(bytes@, pos as int, spec_bstr_array(ids)) implies
                        ids_view(refs@) == ids.take(i + 1) by {
                        assert(ids[i as int].len() == 32);
                        assert(ids.take(i + 1) =~= ids.take(i as int).push(ids[i as int]));
                    }
                }
                p = q;
            },
            None => return None,
        }
        i = i + 1;
    }
    proof {
        assert forall|ids: Seq<Seq<u8>>| ids_wf(ids) && #[trigger] starts_at(bytes@, pos as int, spec_bstr_array(ids)) implies
            ids_view(refs@) == ids by {
            assert(ids.take(n as int) =~= ids);
        }
        assert(ids_view(refs@).len() == n);
    }
    Some((refs, p))
}

/// Appends a signed integer: major type 0 when `t >= 0`, else major type 1 carrying `-1 - t`.
pub fn encode_int(buf: &mut Vec<u8>, t: i64)
    ensures
        final(buf)@ == old(buf)@ + spec_int(t),
{
    if t >= 0 {
        encode_uint(buf, 0, t as u64);
    } else {
        encode_uint(buf, 1, (-1 - t) as u64);
    }
}

/// Appends an array of receipt ids as 32-byte byte strings.
fn encode_ids(buf: &mut Vec<u8>, ids: &Vec<ReceiptId>)
    ensures
        final(buf)@ == old(buf)@ + spec_bstr_array(ids_view(ids@)),
{
    encode_uint(buf, 4, ids.len() as u64);
    let ghost start = buf@;
    let mut i: usize = 0;
    while i < ids.len()
        invariant
            0 <= i <= ids@.len(),
            buf@ == start + spec_bstr_items(ids_view(ids@).take(i as int)),
        decreases ids@.len() - i,
    {
        encode_bytes(buf, ids[i].0.as_slice());
        proof {
            lemma_items_step(ids_view(ids@), i as int);
        }
        i = i + 1;
    }
    assert(ids_view(ids@).take(ids@.len() as int) =~= ids_view(ids@));
}

proof fn lemma_kind_code_injective(a: ReceiptKind, b: ReceiptKind)
    ensures
        kind_code(a) == kind_code(b) ==> a == b,
{
}

/// Concatenation regroups to the right.
broadcast proof fn lemma_add_regroup(a: Seq<u8>, b: Seq<u8>, c: Seq<u8>)
    ensures
        #[trigger] ((a + b) + c) == a + (b + c),
{
    assert((a + b) + c =~= a + (b + c));
}

fn push_piece(buf: &mut Vec<u8>, k: u8)
    ensures
        final(buf)@ == old(buf)@ + seq![k],
{
    buf.push(k);
    assert(buf@ =~= old(buf)@ + seq![k]);
}

/// The canonical bytes of a header map.
#[verifier::rlimit(40)]
pub fn canonical_header_bytes(header: &ReceiptHeader) -> (r: Vec<u8>)
    ensures
        r@ == spec_header(header@),
{
    broadcast use lemma_add_regroup;

    let mut buf: Vec<u8> = Vec::new();
    buf.push(0xa9);
    buf.push(0);
    assert(buf@ =~= seq![0xa9u8, 0u8]);
    encode_uint(&mut buf, 0, header.version as u64);
    push_piece(&mut buf, 1);
    encode_bytes(&mut buf, header.author.0.as_slice());
    push_piece(&mut buf, 2);
    encode_bytes(&mut buf, header.stream_id.0.as_slice());
    push_piece(&mut buf, 3);
    encode_uint(&mut buf, 0, header.seq);
    push_piece(&mut buf, 4);
    encode_int(&mut buf, header.timestamp);
    push_piece(&mut buf, 5);
    encode_uint(&mut buf, 0, header.kind.to_u16() as u64);
    push_piece(&mut buf, 6);
    match &header.prev_receipt_id {
        Some(id) => encode_bytes(&mut buf, id.0.as_slice()),
        None => push_piece(&mut buf, 0xf6),
    }
    push_piece(&mut buf, 7);
    encode_ids(&mut buf, &header.refs);
    push_piece(&mut buf, 8);
    encode_bytes(&mut buf, header.payload_hash.0.as_slice());
    buf
}

/// The message that a receipt's author signs: canonical header, then payload.
pub fn signed_message_from_parts(header: &ReceiptHeader, payload: &[u8]) -> (r: Vec<u8>)
    ensures
        r@ == spec_signed_message(header@, payload@),
{
    let mut buf = canonical_header_bytes(header);
    append_bytes(&mut buf, payload);
    buf
}

/// The signed message of a receipt.
pub fn signed_message(receipt: &Receipt) -> (r: Vec<u8>)
    ensures
        r@ == spec_signed_message(receipt.header@, receipt.payload@),
{
    signed_message_from_parts(&receipt.header, receipt.payload.as_slice())
}

/// The canonical bytes of a receipt: header map, payload, then the 64 signature bytes.
pub fn canonical_bytes(receipt: &Receipt) -> (r: Vec<u8>)
    ensures
        r@ == spec_receipt_bytes(receipt@),
{
    let mut buf = signed_message(receipt);
    append_bytes(&mut buf, receipt.signature.0.as_slice());
    buf
}

/// Reads a canonical header map from the start of `bytes`; returns the header
/// and the number of bytes it takes.
#[verifier::rlimit(100)]
pub fn decode_header(bytes: &[u8]) -> (r: Option<(ReceiptHeader, usize)>)
    ensures
        r matches Some((h, q)) ==> q == spec_header(h@).len() && starts_at(bytes@, 0, spec_header(h@)),
        forall|hm: HeaderModel|
            header_model_wf(hm) && #[trigger] starts_at(bytes@, 0, spec_header(hm)) ==> (r matches Some(
                (h, q),
            ) && h@ == hm && q == spec_header(hm).len()),
{
    broadcast use lemma_starts_at_concat;

    proof {
        assert forall|hm: HeaderModel| header_model_wf(hm) implies ids_wf(hm.refs) by {}
        assert forall|a: ReceiptKind, b: ReceiptKind| kind_code(a) == kind_code(b) implies a == b by {
            lemma_kind_code_injective(a, b);
        }
    }
    if bytes.len() < 2 || bytes[0] != 0xa9 || bytes[1] != 0 {
        proof {
            assert forall|hm: HeaderModel| header_model_wf(hm) && #[trigger] starts_at(bytes@, 0, spec_header(hm)) implies
                false by {
                assert(bytes@.subrange(0, 2)[0] == bytes@[0]);
                assert(bytes@.subrange(0, 2)[1] == bytes@[1]);
            }
        }
        return None;
    }
    assert(bytes@.subrange(0, 2) =~= seq![0xa9u8, 0u8]);
    let (version, p) = match decode_uint_at(bytes, 2) {
        Some(x) => x,
        None => return None,
    };
    if version > 0xff || !byte_at_is(bytes, p, 1) {
        return None;
    }
    let (author, p) = match decode_bstr32_at(bytes, p + 1) {
        Some(x) => x,
        None => return None,
    };
    if !byte_at_is(bytes, p, 2) {
        return None;
    }
    let (stream_id, p) = match decode_bstr32_at(bytes, p + 1) {
        Some(x) => x,
        None => return None,
    };
    if !byte_at_is(bytes, p, 3) {
        return None;
    }
    let (seq, p) = match decode_uint_at(bytes, p + 1) {
        Some(x) => x,
        None => return None,
    };
    if !byte_at_is(bytes, p, 4) {
        return None;
    }
    let (timestamp, p) = match decode_int_at(bytes, p + 1) {
        Some(x) => x,
        None => return None,
    };
    if !byte_at_is(bytes, p, 5) {
        return None;
    }
    let (code, p) = match decode_uint_at(bytes, p + 1) {
        Some(x) => x,
        None => return None,
    };
    if code > 0xffff {
        return None;
    }
    let kind = match ReceiptKind::from_u16(code as u16) {
        Some(k) => k,
        None => return None,
    };
    if !byte_at_is(bytes, p, 6) {
        return None;
    }
    let (prev_receipt_id, p) = match decode_opt_id_at(bytes, p + 1) {
        Some(x) => x,
        None => return None,
    };
    if !byte_at_is(bytes, p, 7) {
        return None;
    }
    let (refs, p) = match decode_refs_at(bytes, p + 1) {
        Some(x) => x,
        None => return None,
    };
    if !byte_at_is(bytes, p, 8) {
        return None;
    }
    let (payload_hash, p) = match decode_bstr32_at(bytes, p + 1) {
        Some(x) => x,
        None => return None,
    };
    let header = ReceiptHeader {
        version: version as u8,
        author: Ed25519PublicKey(author),
        stream_id: StreamId(stream_id),
        seq,
        timestamp,
        kind,
        prev_receipt_id,
        refs,
        payload_hash: Blake3Hash(payload_hash),
    };
    Some((header, p))
}

/// Parses canonical receipt bytes: the header map, then the payload, then
/// the last 64 bytes as the signature. Exactly the canonical bytes of some
/// receipt are accepted, and they decode to that receipt.
pub fn decode_receipt(bytes: &[u8]) -> (r: Result<Receipt, CoreError>)
    ensures
        r matches Ok(rc) ==> spec_receipt_bytes(rc@) == bytes@,
        forall|m: ReceiptModel|
            receipt_model_wf(m) && #[trigger] spec_receipt_bytes(m) == bytes@ ==> (r matches Ok(rc)
                && rc@ == m),
{
    proof {
        assert forall|m: ReceiptModel| receipt_model_wf(m) && #[trigger] spec_receipt_bytes(m) == bytes@ implies
            starts_at(bytes@, 0, spec_header(m.header)) by {
            lemma_starts_at_concat(bytes@, 0, spec_header(m.header), m.payload + m.signature);
            assert(spec_receipt_bytes(m) =~= spec_header(m.header) + (m.payload + m.signature));
            assert(bytes@.subrange(0, bytes@.len() as int) =~= bytes@);
        }
    }
    let (header, q) = match decode_header(bytes) {
        Some(x) => x,
        None => return Err(CoreError::MalformedReceipt("invalid header".to_string())),
    };
    let len = bytes.len();
    if len - q < 64 {
        return Err(CoreError::MalformedReceipt("insufficient bytes for signature".to_string()));
    }
    let payload = slice_to_vec(bytes, q, len - 64);
    let signature = take64(bytes, len - 64);
    let rc = Receipt { header, payload, signature: Ed25519Signature(signature) };
    proof {
        assert(bytes@.subrange(0, q as int) == spec_header(rc.header@));
        assert(bytes@ =~= bytes@.subrange(0, q as int) + bytes@.subrange(q as int, len - 64)
            + bytes@.subrange(len - 64, len as int));
        assert forall|m: ReceiptModel| receipt_model_wf(m) && #[trigger] spec_receipt_bytes(m) == bytes@ implies
            rc@ == m by {
            let hl = spec_header(m.header).len() as int;
            assert(bytes@.subrange(hl, len - 64) =~= m.payload);
            assert(bytes@.subrange(len - 64, len as int) =~= m.signature);
        }
    }
    Ok(rc)
}

/// Encoding is a function of the receipt's content: equal receipts have
/// byte-identical canonical bytes, and hence identical ids.
pub proof fn lemma_encoding_deterministic(a: ReceiptModel, b: ReceiptModel)
    requires
        a == b,
    ensures
        spec_receipt_bytes(a) == spec_receipt_bytes(b),
        crate::receipt::spec_receipt_id(a) == crate::receipt::spec_receipt_id(b),
{
}

/// Every receipt value lies where `decode_receipt` inverts `canonical_bytes`:
/// decoding the canonical bytes of `r` gives back `r`, field for field.
pub proof fn lemma_canonical_round_trip(r: Receipt)
    ensures
        receipt_model_wf(r@),
{
    assert forall|i: int| 0 <= i < r@.header.refs.len() implies (#[trigger] r@.header.refs[i]).len() == 32 by {
        assert(r@.header.refs[i] == r.header.refs@[i].0@);
    }
    assert(r.header.refs.len() == r.header.refs@.len());
    assert(r.header.refs.len() <= u64::MAX);
}

} // verus!
