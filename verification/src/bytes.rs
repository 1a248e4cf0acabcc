use vstd::bytes::{spec_u64_to_le_bytes, u64_to_le_bytes};
use vstd::prelude::*;

verus! {

/// Appends the bytes of `src` to `dst`.
pub fn push_bytes(dst: &mut Vec<u8>, src: &[u8])
    ensures
        final(dst)@ == old(dst)@ + src@,
{
    let mut i: usize = 0;
    while i < src.len()
        invariant
            0 <= i <= src@.len(),
            dst@ == old(dst)@ + src@.subrange(0, i as int),
        decreases src@.len() - i,
    {
        dst.push(src[i]);
        i = i + 1;
        assert(dst@ =~= old(dst)@ + src@.subrange(0, i as int));
    }
    assert(src@.subrange(0, src@.len() as int) =~= src@);
}

/// Appends the 32 bytes of `src` to `dst`.
pub fn push_bytes32(dst: &mut Vec<u8>, src: &[u8; 32])
    ensures
        final(dst)@ == old(dst)@ + src@,
{
    let mut i: usize = 0;
    while i < 32
        invariant
            0 <= i <= 32,
            src@.len() == 32,
            dst@ == old(dst)@ + src@.subrange(0, i as int),
        decreases 32 - i,
    {
        dst.push(src[i]);
        i = i + 1;
        assert(dst@ =~= old(dst)@ + src@.subrange(0, i as int));
    }
    assert(src@.subrange(0, 32) =~= src@);
}


/// The longest sequence that the BCS encoding accepts.
pub const MAX_SEQUENCE_LENGTH: usize = 0x7fff_ffff;

/// Whether a sequence of `n` items can be BCS-encoded.
pub open spec fn seq_len_ok(n: nat) -> bool {
    n <= MAX_SEQUENCE_LENGTH
}

/// `n` in ULEB128: seven bits per byte, the lowest first, the top bit set on every byte but
/// the last.
pub open spec fn uleb128(n: nat) -> Seq<u8>
    decreases n,
{
    if n < 128 {
        seq![n as u8]
    } else {
        seq![(n % 128 + 128) as u8] + uleb128(n / 128)
    }
}

/// The BCS encoding of a byte string: its length in ULEB128, then its bytes.
pub open spec fn framed(s: Seq<u8>) -> Seq<u8> {
    uleb128(s.len()) + s
}

/// Appends `n` in ULEB128.
pub fn push_uleb128(dst: &mut Vec<u8>, n: u32)
    ensures
        final(dst)@ == old(dst)@ + uleb128(n as nat),
    decreases n,
{
    if n < 128 {
        dst.push(n as u8);
        assert(final(dst)@ =~= old(dst)@ + uleb128(n as nat));
    } else {
        dst.push((n % 128 + 128) as u8);
        let ghost mid = dst@;
        push_uleb128(dst, n / 128);
        assert(final(dst)@ =~= old(dst)@ + uleb128(n as nat));
    }
}

/// Appends the BCS encoding of 32 bytes held as a byte string: the length 32, then the bytes.
pub fn push_framed32(dst: &mut Vec<u8>, src: &[u8; 32])
    ensures
        final(dst)@ == old(dst)@ + framed(src@),
{
    dst.push(32u8);
    push_bytes32(dst, src);
    assert(uleb128(32) =~= seq![32u8]);
    assert(final(dst)@ =~= old(dst)@ + framed(src@));
}

/// Appends `x` as 8 little-endian bytes.
pub fn push_u64_le(dst: &mut Vec<u8>, x: u64)
    ensures
        final(dst)@ == old(dst)@ + spec_u64_to_le_bytes(x),
{
    let le = u64_to_le_bytes(x);
    push_bytes(dst, le.as_slice());
}

/// Appends the BCS encoding of a byte string: its length in ULEB128, then its bytes.
pub fn push_framed(dst: &mut Vec<u8>, src: &[u8])
    requires
        seq_len_ok(src@.len() as nat),
    ensures
        final(dst)@ == old(dst)@ + framed(src@),
{
    push_uleb128(dst, src.len() as u32);
    push_bytes(dst, src);
    assert(dst@ =~= old(dst)@ + framed(src@));
}

/// Whether two strings hold the same characters.
pub fn str_eq(a: &str, b: &str) -> (r: bool)
    ensures
        r == (a@ == b@),
{
    let n = a.unicode_len();
    if n != b.unicode_len() {
        return false;
    }
    let mut i: usize = 0;
    while i < n
        invariant
            n == a@.len(),
            n == b@.len(),
            0 <= i <= n,
            forall|j: int| 0 <= j < i ==> a@[j] == b@[j],
        decreases n - i,
    {
        if a.get_char(i) != b.get_char(i) {
            return false;
        }
        i = i + 1;
    }
    assert(a@ =~= b@);
    true
}

} // verus!
