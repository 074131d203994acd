//! Building text from ASCII bytes: decimal numbers and fixed words.
use crate::handshake::string_from_utf8;
use crate::iptext::dec_text;
use vstd::prelude::*;
use vstd::utf8::{decode_utf8, pop_first_scalar, valid_utf8};

verus! {

/// The characters of ASCII bytes, one per byte.
pub open spec fn ascii_chars(b: Seq<u8>) -> Seq<char> {
    b.map_values(|x: u8| x as char)
}

/// Every byte is ASCII.
pub open spec fn all_ascii(b: Seq<u8>) -> bool {
    forall|i: int| 0 <= i < b.len() ==> #[trigger] b[i] < 128
}

/// ASCII bytes are valid UTF-8 and decode to one character per byte.
pub proof fn lemma_ascii_utf8(b: Seq<u8>)
    requires
        all_ascii(b),
    ensures
        valid_utf8(b),
        decode_utf8(b) == ascii_chars(b),
    decreases b.len(),
{
    if b.len() > 0 {
        let x = b[0];
        assert(x < 128);
        assert(x & 0x7f == x) by (bit_vector)
            requires
                x < 128,
        ;
        assert(pop_first_scalar(b) =~= b.drop_first());
        lemma_ascii_utf8(b.drop_first());
        assert(ascii_chars(b) =~= seq![x as char] + ascii_chars(b.drop_first()));
    }
}

/// The characters of two byte strings, one after the other.
pub proof fn lemma_ascii_chars_add(a: Seq<u8>, b: Seq<u8>)
    ensures
        ascii_chars(a + b) == ascii_chars(a) + ascii_chars(b),
{
    assert(ascii_chars(a + b) =~= ascii_chars(a) + ascii_chars(b));
}

/// Decimal digits are ASCII.
pub proof fn lemma_dec_text_ascii(x: nat)
    ensures
        all_ascii(dec_text(x)),
    decreases x,
{
    if x >= 10 {
        lemma_dec_text_ascii(x / 10);
    }
}

/// The decimal digits of `x`, as characters.
pub open spec fn dec_chars(x: nat) -> Seq<char> {
    ascii_chars(dec_text(x))
}

/// Append the decimal digits of `x`.
pub fn push_dec_u64(out: &mut Vec<u8>, x: u64)
    ensures
        final(out)@ == old(out)@ + dec_text(x as nat),
    decreases x,
{
    if x >= 10 {
        push_dec_u64(out, x / 10);
    }
    out.push((48 + x % 10) as u8);
    assert(out@ =~= old(out)@ + dec_text(x as nat));
}

/// A vector holding the bytes of `s`.
pub fn vec_of(s: &[u8]) -> (v: Vec<u8>)
    ensures
        v@ == s@,
{
    let mut v: Vec<u8> = Vec::new();
    crate::codec::put_bytes(&mut v, s);
    v
}

/// The string of ASCII bytes.
pub fn ascii_string(bytes: &Vec<u8>) -> (r: String)
    requires
        all_ascii(bytes@),
    ensures
        r@ == ascii_chars(bytes@),
{
    proof {
        lemma_ascii_utf8(bytes@);
    }
    match string_from_utf8(bytes.as_slice()) {
        Some(s) => s,
        None => String::new(),
    }
}

} // verus!
