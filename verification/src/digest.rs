//! SHA-256 digests through the `sha2` crate, and their hexadecimal text.
use vstd::prelude::*;
use vstd::utf8::encode_utf8;
use crate::text::{decimal, push_char};

verus! {

/// The SHA-256 digest of a byte string.
pub uninterp spec fn sha256(data: Seq<u8>) -> Seq<u8>;

/// `sha2::Sha256::digest`: the 32-byte SHA-256 digest of `data`, as a list
/// of bytes.
#[verifier::external_body]
pub(crate) fn sha256_digest(data: &[u8]) -> (d: Vec<u8>)
    ensures
        d@ == sha256(data@),
        d@.len() == 32,
{
    <sha2::Sha256 as sha2::Digest>::digest(data).to_vec()
}

/// A lower-case hexadecimal digit.
pub open spec fn hex_lower_digit(d: nat) -> char {
    if d < 10 {
        decimal(d)[0]
    } else if d == 10 { 'a' } else if d == 11 { 'b' } else if d == 12 { 'c' }
    else if d == 13 { 'd' } else if d == 14 { 'e' } else { 'f' }
}

/// Each byte as two lower-case hexadecimal digits.
pub open spec fn lower_hex(bs: Seq<u8>) -> Seq<char>
    decreases bs.len(),
{
    if bs.len() == 0 {
        Seq::empty()
    } else {
        lower_hex(bs.drop_last()) + seq![hex_lower_digit((bs.last() / 16) as nat), hex_lower_digit((bs.last() % 16) as nat)]
    }
}

fn hex_digit(d: u8) -> (c: char)
    requires
        d < 16,
    ensures
        c == hex_lower_digit(d as nat),
{
    proof {
        reveal_with_fuel(decimal, 1);
    }
    if d == 0 { '0' } else if d == 1 { '1' } else if d == 2 { '2' } else if d == 3 { '3' }
    else if d == 4 { '4' } else if d == 5 { '5' } else if d == 6 { '6' } else if d == 7 { '7' }
    else if d == 8 { '8' } else if d == 9 { '9' } else if d == 10 { 'a' } else if d == 11 { 'b' }
    else if d == 12 { 'c' } else if d == 13 { 'd' } else if d == 14 { 'e' } else { 'f' }
}

/// The lower-case hexadecimal text of a byte string.
pub fn to_lower_hex(bs: &Vec<u8>) -> (s: String)
    ensures
        s@ == lower_hex(bs@),
{
    let mut s = String::new();
    let mut i: usize = 0;
    assert(bs@.take(0) =~= Seq::<u8>::empty());
    while i < bs.len()
        invariant
            i <= bs@.len(),
            s@ == lower_hex(bs@.take(i as int)),
        decreases bs@.len() - i,
    {
        let b = bs[i];
        push_char(&mut s, hex_digit(b / 16));
        push_char(&mut s, hex_digit(b % 16));
        proof {
            assert(bs@.take(i + 1).drop_last() =~= bs@.take(i as int));
        }
        i = i + 1;
    }
    assert(bs@.take(bs@.len() as int) =~= bs@);
    s
}

/// Appends the UTF-8 bytes of `s`.
pub fn append_utf8(v: &mut Vec<u8>, s: &str)
    ensures
        final(v)@ == old(v)@ + encode_utf8(s@),
{
    v.extend_from_slice(s.as_bytes());
    assert(v@ =~= old(v)@ + encode_utf8(s@));
}

} // verus!
