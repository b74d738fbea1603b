//! Byte-level helpers shared by the identity types and the codec.
use vstd::prelude::*;

verus! {

/// Compares two 32-byte arrays.
pub fn eq32(a: &[u8; 32], b: &[u8; 32]) -> (r: bool)
    ensures
        r == (a@ == b@),
{
    let mut i: usize = 0;
    while i < 32
        invariant
            0 <= i <= 32,
            a@.len() == 32,
            b@.len() == 32,
            forall|j: int| 0 <= j < i ==> a@[j] == b@[j],
        decreases 32 - i,
    {
        if a[i] != b[i] {
            return false;
        }
        i = i + 1;
    }
    assert(a@ =~= b@);
    true
}

/// Compares two 64-byte arrays.
pub fn eq64(a: &[u8; 64], b: &[u8; 64]) -> (r: bool)
    ensures
        r == (a@ == b@),
{
    let mut i: usize = 0;
    while i < 64
        invariant
            0 <= i <= 64,
            a@.len() == 64,
            b@.len() == 64,
            forall|j: int| 0 <= j < i ==> a@[j] == b@[j],
        decreases 64 - i,
    {
        if a[i] != b[i] {
            return false;
        }
        i = i + 1;
    }
    assert(a@ =~= b@);
    true
}

/// Appends every byte of `src` to `buf`.
pub fn append_bytes(buf: &mut Vec<u8>, src: &[u8])
    ensures
        final(buf)@ == old(buf)@ + src@,
{
    let mut i: usize = 0;
    while i < src.len()
        invariant
            0 <= i <= src@.len(),
            buf@ == old(buf)@ + src@.subrange(0, i as int),
        decreases src@.len() - i,
    {
        buf.push(src[i]);
        i = i + 1;
        assert(buf@ =~= old(buf)@ + src@.subrange(0, i as int));
    }
    assert(src@.subrange(0, src@.len() as int) =~= src@);
}

/// Copies `src[start..start + 32]` into an array.
pub fn take32(src: &[u8], start: usize) -> (r: [u8; 32])
    requires
        start + 32 <= src@.len(),
    ensures
        r@ == src@.subrange(start as int, start + 32),
{
    let mut out = [0u8; 32];
    let len: usize = src.len();
    let mut i: usize = 0;
    while i < 32
        invariant
            0 <= i <= 32,
            start + 32 <= src@.len(),
            len == src@.len(),
            out@.len() == 32,
            forall|j: int| 0 <= j < i ==> out@[j] == src@[start + j],
        decreases 32 - i,
    {
        out[i] = src[start + i];
        i = i + 1;
    }
    assert(out@ =~= src@.subrange(start as int, start + 32));
    out
}

/// Copies `src[start..start + 64]` into an array.
pub fn take64(src: &[u8], start: usize) -> (r: [u8; 64])
    requires
        start + 64 <= src@.len(),
    ensures
        r@ == src@.subrange(start as int, start + 64),
{
    let mut out = [0u8; 64];
    let len: usize = src.len();
    let mut i: usize = 0;
    while i < 64
        invariant
            0 <= i <= 64,
            start + 64 <= src@.len(),
            len == src@.len(),
            out@.len() == 64,
            forall|j: int| 0 <= j < i ==> out@[j] == src@[start + j],
        decreases 64 - i,
    {
        out[i] = src[start + i];
        i = i + 1;
    }
    assert(out@ =~= src@.subrange(start as int, start + 64));
    out
}

/// Copies `src[start..end]` into a new vector.
pub fn slice_to_vec(src: &[u8], start: usize, end: usize) -> (r: Vec<u8>)
    requires
        start <= end <= src@.len(),
    ensures
        r@ == src@.subrange(start as int, end as int),
{
    let mut out: Vec<u8> = Vec::new();
    let mut i: usize = start;
    while i < end
        invariant
            start <= i <= end <= src@.len(),
            out@ == src@.subrange(start as int, i as int),
        decreases end - i,
    {
        out.push(src[i]);
        i = i + 1;
        assert(out@ =~= src@.subrange(start as int, i as int));
    }
    out
}

/// The lowercase hexadecimal digit for a value below 16.
pub open spec fn hex_digit(v: u8) -> char {
    if v < 10 {
        (('0' as u8) + v) as char
    } else {
        (('a' as u8) + v - 10) as char
    }
}

/// Two lowercase hexadecimal digits per byte, high nibble first.
pub open spec fn hex_of(b: Seq<u8>) -> Seq<char>
    decreases b.len(),
{
    if b.len() == 0 {
        Seq::empty()
    } else {
        hex_of(b.drop_last()) + seq![hex_digit(b.last() / 16), hex_digit(b.last() % 16)]
    }
}

/// Relies on hex::encode: two lowercase hexadecimal digits for each byte, in order.
#[verifier::external_body]
pub fn to_hex_string(b: &[u8]) -> (r: String)
    ensures
        r@ == hex_of(b@),
{
    hex::encode(b)
}

/// Whether `s` is the lowercase hex of some bytes.
pub open spec fn is_hex_of_some(s: Seq<char>) -> bool {
    exists|b: Seq<u8>| #[trigger] hex_of(b) == s
}

/// Relies on hex::decode: the canonical lowercase hex of some bytes decodes
/// to those bytes; whatever decodes has two digits per byte.
#[verifier::external_body]
fn hex_decode(text: &str) -> (r: Option<Vec<u8>>)
    ensures
        r matches Some(v) ==> text@.len() == 2 * v@.len(),
        r matches Some(v) ==> (is_hex_of_some(text@) ==> hex_of(v@) == text@),
        r is None ==> !is_hex_of_some(text@),
{
    hex::decode(text).ok()
}

proof fn lemma_hex_len(b: Seq<u8>)
    ensures
        hex_of(b).len() == 2 * b.len(),
    decreases b.len(),
{
    if b.len() > 0 {
        lemma_hex_len(b.drop_last());
    }
}

proof fn lemma_hex_digit_injective(v: u8, w: u8)
    requires
        v < 16,
        w < 16,
        hex_digit(v) == hex_digit(w),
    ensures
        v == w,
{
    assert(hex_digit(v) as u32 == hex_digit(w) as u32);
}

/// Different bytes have different hex.
proof fn lemma_hex_injective(a: Seq<u8>, b: Seq<u8>)
    requires
        hex_of(a) == hex_of(b),
    ensures
        a == b,
    decreases a.len(),
{
    lemma_hex_len(a);
    lemma_hex_len(b);
    if a.len() == 0 {
        assert(a =~= b);
    } else {
        let ha = hex_of(a.drop_last());
        let hb = hex_of(b.drop_last());
        lemma_hex_len(a.drop_last());
        lemma_hex_len(b.drop_last());
        let ea = seq![hex_digit(a.last() / 16), hex_digit(a.last() % 16)];
        let eb = seq![hex_digit(b.last() / 16), hex_digit(b.last() % 16)];
        assert(hex_of(a) == ha + ea);
        assert(hex_of(b) == hb + eb);
        assert(ha =~= hex_of(a).subrange(0, ha.len() as int));
        assert(hb =~= hex_of(b).subrange(0, hb.len() as int));
        assert(ha == hb);
        assert(hex_of(a)[ha.len() as int] == ea[0]);
        assert(hex_of(b)[hb.len() as int] == eb[0]);
        assert(hex_of(a)[ha.len() as int + 1] == ea[1]);
        assert(hex_of(b)[hb.len() as int + 1] == eb[1]);
        lemma_hex_digit_injective(a.last() / 16, b.last() / 16);
        lemma_hex_digit_injective(a.last() % 16, b.last() % 16);
        lemma_hex_injective(a.drop_last(), b.drop_last());
        assert(a.last() == b.last());
        assert(a =~= a.drop_last().push(a.last()));
        assert(b =~= b.drop_last().push(b.last()));
    }
}

/// Why a hex string does not name a 32-byte value.
#[derive(Debug, Clone, Copy, PartialEq, Eq, Structural)]
pub enum HexError {
    /// Not hexadecimal digits in pairs.
    InvalidHex,
    /// Hex of a value that is not 32 bytes long.
    InvalidStringLength,
}

/// Decodes hex into exactly 32 bytes.
pub fn decode_hex32(s: &str) -> (r: Result<[u8; 32], HexError>)
    ensures
        forall|b: Seq<u8>| b.len() == 32 && #[trigger] hex_of(b) == s@ ==> (r matches Ok(a) && a@ == b),
        r is Ok ==> s@.len() == 64,
{
    proof {
        assert forall|b: Seq<u8>, c: Seq<u8>| #[trigger] hex_of(b) == s@ && #[trigger] hex_of(c) == s@ implies b == c by {
            lemma_hex_injective(b, c);
        }
        assert forall|b: Seq<u8>| #[trigger] hex_of(b) == s@ implies is_hex_of_some(s@) by {}
    }
    match hex_decode(s) {
        Some(v) => {
            if v.len() != 32 {
                return Err(HexError::InvalidStringLength);
            }
            let a = take32(v.as_slice(), 0);
            assert(a@ =~= v@);
            Ok(a)
        },
        None => Err(HexError::InvalidHex),
    }
}

} // verus!
