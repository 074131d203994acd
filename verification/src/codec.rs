//! Fixed-width integer encodings used on the wire: little-endian for message
//! fields, big-endian for IP addresses and the routing header length.
use vstd::prelude::*;

verus! {

pub open spec fn le_u16(x: u16) -> Seq<u8> {
    seq![x as u8, (x >> 8u16) as u8]
}

pub open spec fn le_u32(x: u32) -> Seq<u8> {
    seq![x as u8, (x >> 8u32) as u8, (x >> 16u32) as u8, (x >> 24u32) as u8]
}

pub open spec fn le_u64(x: u64) -> Seq<u8> {
    seq![
        x as u8,
        (x >> 8u64) as u8,
        (x >> 16u64) as u8,
        (x >> 24u64) as u8,
        (x >> 32u64) as u8,
        (x >> 40u64) as u8,
        (x >> 48u64) as u8,
        (x >> 56u64) as u8,
    ]
}

pub open spec fn be_u16(x: u16) -> Seq<u8> {
    seq![(x >> 8u16) as u8, x as u8]
}

pub open spec fn be_u32(x: u32) -> Seq<u8> {
    seq![(x >> 24u32) as u8, (x >> 16u32) as u8, (x >> 8u32) as u8, x as u8]
}

pub open spec fn be_u64(x: u64) -> Seq<u8> {
    le_u64(x).reverse()
}

pub open spec fn be_u128(x: u128) -> Seq<u8> {
    be_u64((x >> 64u128) as u64) + be_u64(x as u64)
}

pub open spec fn from_le_u16(s: Seq<u8>) -> u16 {
    ((s[0] as u16) | ((s[1] as u16) << 8u16)) as u16
}

pub open spec fn from_le_u32(s: Seq<u8>) -> u32 {
    (s[0] as u32) | ((s[1] as u32) << 8u32) | ((s[2] as u32) << 16u32) | ((s[3] as u32) << 24u32)
}

pub open spec fn from_le_u64(s: Seq<u8>) -> u64 {
    (s[0] as u64) | ((s[1] as u64) << 8u64) | ((s[2] as u64) << 16u64) | ((s[3] as u64) << 24u64) | ((
    s[4] as u64) << 32u64) | ((s[5] as u64) << 40u64) | ((s[6] as u64) << 48u64) | ((s[7] as u64) << 56u64)
}

pub open spec fn from_be_u16(s: Seq<u8>) -> u16 {
    (((s[0] as u16) << 8u16) | (s[1] as u16)) as u16
}

pub open spec fn from_be_u32(s: Seq<u8>) -> u32 {
    ((s[0] as u32) << 24u32) | ((s[1] as u32) << 16u32) | ((s[2] as u32) << 8u32) | (s[3] as u32)
}

pub open spec fn from_be_u64(s: Seq<u8>) -> u64 {
    from_le_u64(s.reverse())
}

pub open spec fn from_be_u128(s: Seq<u8>) -> u128 {
    ((from_be_u64(s.subrange(0, 8)) as u128) << 64u128) | (from_be_u64(s.subrange(8, 16)) as u128)
}

pub proof fn lemma_le_u16(x: u16)
    ensures
        from_le_u16(le_u16(x)) == x,
{
    assert((((x as u8) as u16) | ((((x >> 8u16) as u8) as u16) << 8u16)) == x) by (bit_vector);
}

pub proof fn lemma_le_u32(x: u32)
    ensures
        from_le_u32(le_u32(x)) == x,
{
    assert(((x as u8) as u32) | ((((x >> 8u32) as u8) as u32) << 8u32) | ((((x >> 16u32) as u8) as u32) << 16u32)
        | ((((x >> 24u32) as u8) as u32) << 24u32) == x) by (bit_vector);
}

pub proof fn lemma_le_u64(x: u64)
    ensures
        from_le_u64(le_u64(x)) == x,
{
    assert(((x as u8) as u64) | ((((x >> 8u64) as u8) as u64) << 8u64) | ((((x >> 16u64) as u8) as u64) << 16u64)
        | ((((x >> 24u64) as u8) as u64) << 24u64) | ((((x >> 32u64) as u8) as u64) << 32u64) | ((((x >> 40u64)
        as u8) as u64) << 40u64) | ((((x >> 48u64) as u8) as u64) << 48u64) | ((((x >> 56u64) as u8) as u64)
        << 56u64) == x) by (bit_vector);
}

pub proof fn lemma_be_u16(x: u16)
    ensures
        from_be_u16(be_u16(x)) == x,
{
    assert(((((x >> 8u16) as u8) as u16) << 8u16) | ((x as u8) as u16) == x) by (bit_vector);
}

pub proof fn lemma_be_u32(x: u32)
    ensures
        from_be_u32(be_u32(x)) == x,
{
    assert(((((x >> 24u32) as u8) as u32) << 24u32) | ((((x >> 16u32) as u8) as u32) << 16u32) | ((((x >> 8u32)
        as u8) as u32) << 8u32) | ((x as u8) as u32) == x) by (bit_vector);
}

pub proof fn lemma_be_u64(x: u64)
    ensures
        from_be_u64(be_u64(x)) == x,
{
    assert(le_u64(x).reverse().reverse() =~= le_u64(x));
    lemma_le_u64(x);
}

pub proof fn lemma_be_u128(x: u128)
    ensures
        from_be_u128(be_u128(x)) == x,
{
    let hi = (x >> 64u128) as u64;
    let lo = x as u64;
    assert(be_u128(x).subrange(0, 8) =~= be_u64(hi));
    assert(be_u128(x).subrange(8, 16) =~= be_u64(lo));
    lemma_be_u64(hi);
    lemma_be_u64(lo);
    assert((((x >> 64u128) as u64) as u128) << 64u128 | ((x as u64) as u128) == x) by (bit_vector);
}

pub fn put_u8(v: &mut Vec<u8>, x: u8)
    ensures
        final(v)@ == old(v)@ + seq![x],
{
    v.push(x);
    assert(v@ =~= old(v)@ + seq![x]);
}

pub fn put_le_u16(v: &mut Vec<u8>, x: u16)
    ensures
        final(v)@ == old(v)@ + le_u16(x),
{
    v.push(x as u8);
    v.push((x >> 8u16) as u8);
    assert(v@ =~= old(v)@ + le_u16(x));
}

pub fn put_le_u32(v: &mut Vec<u8>, x: u32)
    ensures
        final(v)@ == old(v)@ + le_u32(x),
{
    v.push(x as u8);
    v.push((x >> 8u32) as u8);
    v.push((x >> 16u32) as u8);
    v.push((x >> 24u32) as u8);
    assert(v@ =~= old(v)@ + le_u32(x));
}

pub fn put_le_u64(v: &mut Vec<u8>, x: u64)
    ensures
        final(v)@ == old(v)@ + le_u64(x),
{
    v.push(x as u8);
    v.push((x >> 8u64) as u8);
    v.push((x >> 16u64) as u8);
    v.push((x >> 24u64) as u8);
    v.push((x >> 32u64) as u8);
    v.push((x >> 40u64) as u8);
    v.push((x >> 48u64) as u8);
    v.push((x >> 56u64) as u8);
    assert(v@ =~= old(v)@ + le_u64(x));
}

pub fn put_be_u16(v: &mut Vec<u8>, x: u16)
    ensures
        final(v)@ == old(v)@ + be_u16(x),
{
    v.push((x >> 8u16) as u8);
    v.push(x as u8);
    assert(v@ =~= old(v)@ + be_u16(x));
}

pub fn put_be_u32(v: &mut Vec<u8>, x: u32)
    ensures
        final(v)@ == old(v)@ + be_u32(x),
{
    v.push((x >> 24u32) as u8);
    v.push((x >> 16u32) as u8);
    v.push((x >> 8u32) as u8);
    v.push(x as u8);
    assert(v@ =~= old(v)@ + be_u32(x));
}

pub fn put_be_u64(v: &mut Vec<u8>, x: u64)
    ensures
        final(v)@ == old(v)@ + be_u64(x),
{
    v.push((x >> 56u64) as u8);
    v.push((x >> 48u64) as u8);
    v.push((x >> 40u64) as u8);
    v.push((x >> 32u64) as u8);
    v.push((x >> 24u64) as u8);
    v.push((x >> 16u64) as u8);
    v.push((x >> 8u64) as u8);
    v.push(x as u8);
    assert(v@ =~= old(v)@ + be_u64(x));
}

pub fn put_be_u128(v: &mut Vec<u8>, x: u128)
    ensures
        final(v)@ == old(v)@ + be_u128(x),
{
    put_be_u64(v, (x >> 64u128) as u64);
    put_be_u64(v, x as u64);
    assert(v@ =~= old(v)@ + be_u128(x));
}

/// Append the bytes of `s`.
pub fn put_bytes(v: &mut Vec<u8>, s: &[u8])
    ensures
        final(v)@ == old(v)@ + s@,
{
    let mut i: usize = 0;
    while i < s.len()
        invariant
            i <= s@.len(),
            v@ == old(v)@ + s@.take(i as int),
        decreases s@.len() - i,
    {
        v.push(s[i]);
        i = i + 1;
        assert(v@ =~= old(v)@ + s@.take(i as int));
    }
    assert(s@.take(s@.len() as int) =~= s@);
}

pub fn get_le_u16(s: &[u8], pos: usize) -> (r: u16)
    requires
        pos + 2 <= s@.len(),
    ensures
        r == from_le_u16(s@.subrange(pos as int, pos + 2)),
{
    (s[pos] as u16) | ((s[pos + 1] as u16) << 8u16)
}

pub fn get_le_u32(s: &[u8], pos: usize) -> (r: u32)
    requires
        pos + 4 <= s@.len(),
    ensures
        r == from_le_u32(s@.subrange(pos as int, pos + 4)),
{
    (s[pos] as u32) | ((s[pos + 1] as u32) << 8u32) | ((s[pos + 2] as u32) << 16u32) | ((s[pos + 3] as u32) << 24u32)
}

pub fn get_le_u64(s: &[u8], pos: usize) -> (r: u64)
    requires
        pos + 8 <= s@.len(),
    ensures
        r == from_le_u64(s@.subrange(pos as int, pos + 8)),
{
    (s[pos] as u64) | ((s[pos + 1] as u64) << 8u64) | ((s[pos + 2] as u64) << 16u64) | ((s[pos + 3] as u64)
        << 24u64) | ((s[pos + 4] as u64) << 32u64) | ((s[pos + 5] as u64) << 40u64) | ((s[pos + 6] as u64)
        << 48u64) | ((s[pos + 7] as u64) << 56u64)
}

pub fn get_be_u16(s: &[u8], pos: usize) -> (r: u16)
    requires
        pos + 2 <= s@.len(),
    ensures
        r == from_be_u16(s@.subrange(pos as int, pos + 2)),
{
    ((s[pos] as u16) << 8u16) | (s[pos + 1] as u16)
}

pub fn get_be_u32(s: &[u8], pos: usize) -> (r: u32)
    requires
        pos + 4 <= s@.len(),
    ensures
        r == from_be_u32(s@.subrange(pos as int, pos + 4)),
{
    ((s[pos] as u32) << 24u32) | ((s[pos + 1] as u32) << 16u32) | ((s[pos + 2] as u32) << 8u32) | (s[pos + 3] as u32)
}

pub fn get_be_u64(s: &[u8], pos: usize) -> (r: u64)
    requires
        pos + 8 <= s@.len(),
    ensures
        r == from_be_u64(s@.subrange(pos as int, pos + 8)),
{
    let _n = s.len();
    let ghost w = s@.subrange(pos as int, pos + 8).reverse();
    assert(w[0] == s@[pos + 7] && w[1] == s@[pos + 6] && w[2] == s@[pos + 5] && w[3] == s@[pos + 4]);
    assert(w[4] == s@[pos + 3] && w[5] == s@[pos + 2] && w[6] == s@[pos + 1] && w[7] == s@[pos as int]);
    (s[pos + 7] as u64) | ((s[pos + 6] as u64) << 8u64) | ((s[pos + 5] as u64) << 16u64) | ((s[pos + 4] as u64)
        << 24u64) | ((s[pos + 3] as u64) << 32u64) | ((s[pos + 2] as u64) << 40u64) | ((s[pos + 1] as u64)
        << 48u64) | ((s[pos] as u64) << 56u64)
}

pub fn get_be_u128(s: &[u8], pos: usize) -> (r: u128)
    requires
        pos + 16 <= s@.len(),
    ensures
        r == from_be_u128(s@.subrange(pos as int, pos + 16)),
{
    let _n = s.len();
    let hi = get_be_u64(s, pos);
    let lo = get_be_u64(s, pos + 8);
    assert(s@.subrange(pos as int, pos + 16).subrange(0, 8) =~= s@.subrange(pos as int, pos + 8));
    assert(s@.subrange(pos as int, pos + 16).subrange(8, 16) =~= s@.subrange(pos + 8, pos + 16));
    ((hi as u128) << 64u128) | (lo as u128)
}

/// Copy of `s[start..end]`.
pub fn copy_range(s: &[u8], start: usize, end: usize) -> (r: Vec<u8>)
    requires
        start <= end <= s@.len(),
    ensures
        r@ == s@.subrange(start as int, end as int),
{
    let mut out: Vec<u8> = Vec::new();
    let mut i = start;
    while i < end
        invariant
            start <= i <= end,
            end <= s@.len(),
            out@ == s@.subrange(start as int, i as int),
        decreases end - i,
    {
        out.push(s[i]);
        i = i + 1;
        assert(out@ =~= s@.subrange(start as int, i as int));
    }
    out
}

/// Whether two 32-byte arrays hold the same bytes.
pub fn bytes32_eq(a: &[u8; 32], b: &[u8; 32]) -> (r: bool)
    ensures
        r == (a@ == b@),
{
    let mut i: usize = 0;
    while i < 32
        invariant
            i <= 32,
            a@.len() == 32,
            b@.len() == 32,
            forall|j: int| 0 <= j < i ==> a@[j] == b@[j],
        decreases 32 - i,
    {
        if a[i] != b[i] {
            return false;
        }
        i = i + 1;
    }
    assert(a@ =~= b@);
    true
}

} // verus!
