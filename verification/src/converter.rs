//! Bidirectional transform between a bit vector (one entry per bitmap
//! position) and its packed hexadecimal string form: four bits per hex
//! digit, most significant bit first.

use vstd::prelude::*;
use crate::errors::IsoError;
use crate::model::{
    SpecErr, bits_to_hex, hex_bytes, hex_to_bits, hex_val, is_bit_seq, is_digit, is_hex_digit,
    is_hex_seq, nibble_bits, nibble_char, nibble_of_bits, valid_bitmap_len,
};

verus! {

/// The bit expansion of a byte sequence, eight bits per byte, most
/// significant first.
pub open spec fn bits_of_bytes(bs: Seq<u8>) -> Seq<i64>
    decreases bs.len(),
{
    if bs.len() == 0 {
        Seq::empty()
    } else {
        nibble_bits(bs[0] as int / 16) + nibble_bits(bs[0] as int % 16) + bits_of_bytes(bs.skip(1))
    }
}

pub fn is_digit_exec(c: char) -> (r: bool)
    ensures
        r == is_digit(c),
{
    let u = c as u32;
    48 <= u && u <= 57
}

pub fn is_hex_digit_exec(c: char) -> (r: bool)
    ensures
        r == is_hex_digit(c),
{
    let u = c as u32;
    (48 <= u && u <= 57) || (97 <= u && u <= 102) || (65 <= u && u <= 70)
}

pub fn hex_val_exec(c: char) -> (r: u32)
    requires
        is_hex_digit(c),
    ensures
        r == hex_val(c),
        r < 16,
{
    let u = c as u32;
    if 48 <= u && u <= 57 {
        u - 48
    } else if 97 <= u && u <= 102 {
        u - 87
    } else {
        u - 55
    }
}

/// The one-character string for a nibble value, in lowercase hex.
fn nibble_str(n: i64) -> (r: &'static str)
    requires
        0 <= n < 16,
    ensures
        r@.len() == 1,
        r@[0] == nibble_char(n as int),
{
    proof {
        reveal_strlit("0");
        reveal_strlit("1");
        reveal_strlit("2");
        reveal_strlit("3");
        reveal_strlit("4");
        reveal_strlit("5");
        reveal_strlit("6");
        reveal_strlit("7");
        reveal_strlit("8");
        reveal_strlit("9");
        reveal_strlit("a");
        reveal_strlit("b");
        reveal_strlit("c");
        reveal_strlit("d");
        reveal_strlit("e");
        reveal_strlit("f");
    }
    if n == 0 { "0" }
    else if n == 1 { "1" }
    else if n == 2 { "2" }
    else if n == 3 { "3" }
    else if n == 4 { "4" }
    else if n == 5 { "5" }
    else if n == 6 { "6" }
    else if n == 7 { "7" }
    else if n == 8 { "8" }
    else if n == 9 { "9" }
    else if n == 10 { "a" }
    else if n == 11 { "b" }
    else if n == 12 { "c" }
    else if n == 13 { "d" }
    else if n == 14 { "e" }
    else { "f" }
}

/// Packs a bit vector into its hex string. The length must be a whole,
/// even number of nibbles; every entry must be a bit.
pub fn bitmap_array_to_hex(arr: &Vec<i64>) -> (r: Result<String, IsoError>)
    requires
        is_bit_seq(arr@),
    ensures
        match r {
            Ok(s) => valid_bitmap_len(arr@.len() as nat) && s@ == bits_to_hex(arr@),
            Err(e) => !valid_bitmap_len(arr@.len() as nat) && e@ == SpecErr::InvalidBitmapLength,
        },
{
    let length = arr.len();
    if length % 4 != 0 {
        return Err(IsoError::InvalidBitmapLength);
    }
    if (length / 4) % 2 != 0 {
        return Err(IsoError::InvalidBitmapLength);
    }
    let mut hex_string = String::new();
    let mut i: usize = 0;
    proof {
        assert(arr@.skip(0) =~= arr@);
        assert(hex_string@ + bits_to_hex(arr@) =~= bits_to_hex(arr@));
    }
    while i < length
        invariant
            is_bit_seq(arr@),
            arr@.len() == length,
            length % 4 == 0,
            i % 4 == 0,
            i <= length,
            hex_string@ + bits_to_hex(arr@.skip(i as int)) == bits_to_hex(arr@),
        decreases length - i,
    {
        let n: i64 = 8 * arr[i] + 4 * arr[i + 1] + 2 * arr[i + 2] + arr[i + 3];
        let c = nibble_str(n);
        proof {
            let s = arr@.skip(i as int);
            assert(s.len() >= 4);
            assert(s[0] == arr@[i as int] && s[1] == arr@[i + 1] && s[2] == arr@[i + 2] && s[3]
                == arr@[i + 3]);
            assert(n == nibble_of_bits(s));
            assert(s.skip(4) =~= arr@.skip(i + 4));
            assert(bits_to_hex(s) == seq![nibble_char(n as int)] + bits_to_hex(arr@.skip(i + 4)));
            assert(c@ =~= seq![nibble_char(n as int)]);
            assert((hex_string@ + c@) + bits_to_hex(arr@.skip(i + 4)) =~= hex_string@ + (c@
                + bits_to_hex(arr@.skip(i + 4))));
        }
        hex_string.append(c);
        i = i + 4;
    }
    proof {
        assert(arr@.skip(length as int) =~= Seq::<i64>::empty());
        assert(hex_string@ =~= hex_string@ + bits_to_hex(arr@.skip(length as int)));
    }
    Ok(hex_string)
}

/// Relies on const_hex::decode: an even-length string of hex digits (no
/// other characters, so no prefix applies) decodes without error to one
/// byte per digit pair, high digit first.
#[verifier::external_body]
fn decode_hex_bytes(s: &str) -> (r: Vec<u8>)
    requires
        s@.len() % 2 == 0,
        is_hex_seq(s@),
    ensures
        r@ == hex_bytes(s@),
{
    const_hex::decode(s).unwrap()
}

/// For an even-length string of hex digits, expanding per byte is the
/// same as expanding per digit.
proof fn lemma_hex_bits_bytes(s: Seq<char>)
    requires
        s.len() % 2 == 0,
        is_hex_seq(s),
    ensures
        hex_to_bits(s) == bits_of_bytes(hex_bytes(s)),
    decreases s.len(),
{
    if s.len() == 0 {
    } else {
        let v0 = hex_val(s[0]);
        let v1 = hex_val(s[1]);
        assert(0 <= v0 < 16 && 0 <= v1 < 16);
        let b = (16 * v0 + v1) as u8;
        assert(b as int / 16 == v0 && b as int % 16 == v1);
        let tail = s.skip(2);
        assert(tail.len() % 2 == 0);
        assert(is_hex_seq(tail));
        lemma_hex_bits_bytes(tail);
        assert(s.skip(1).len() > 0);
        assert(s.skip(1)[0] == s[1]);
        assert(s.skip(1).skip(1) =~= tail);
        assert(hex_to_bits(s) == nibble_bits(v0) + hex_to_bits(s.skip(1)));
        assert(hex_to_bits(s.skip(1)) == nibble_bits(v1) + hex_to_bits(tail));
        assert(hex_to_bits(s) =~= nibble_bits(v0) + nibble_bits(v1) + hex_to_bits(tail));
        assert(hex_bytes(s) == seq![b] + hex_bytes(tail));
        assert(hex_bytes(s).len() > 0);
        assert(hex_bytes(s)[0] == b);
        assert(hex_bytes(s).skip(1) =~= hex_bytes(tail));
        assert(bits_of_bytes(hex_bytes(s)) == nibble_bits(v0) + nibble_bits(v1) + bits_of_bytes(
            hex_bytes(tail),
        ));
        assert(hex_to_bits(s) =~= bits_of_bytes(hex_bytes(s)));
    }
}

/// Appends the eight bits of one byte, most significant first.
fn push_byte_bits(v: &mut Vec<i64>, b: u8)
    ensures
        final(v)@ == old(v)@ + nibble_bits(b as int / 16) + nibble_bits(b as int % 16),
{
    let hi = b / 16;
    let lo = b % 16;
    v.push((hi / 8 % 2) as i64);
    v.push((hi / 4 % 2) as i64);
    v.push((hi / 2 % 2) as i64);
    v.push((hi % 2) as i64);
    v.push((lo / 8 % 2) as i64);
    v.push((lo / 4 % 2) as i64);
    v.push((lo / 2 % 2) as i64);
    v.push((lo % 2) as i64);
    proof {
        assert(final(v)@ =~= old(v)@ + nibble_bits(b as int / 16) + nibble_bits(b as int % 16));
    }
}

/// Expands a hex string into its bit vector, eight bits per byte pair.
/// Rejects a string of odd length or with a non-hex character.
///
/// Deliberately more permissive than [`bitmap_array_to_hex`]: any even
/// number of hex digits is accepted, so the result is any multiple of
/// eight bits, not only the 64- or 128-bit message bitmap lengths. Only
/// the message decoder constrains the digit count it cuts out.
pub fn hex_to_bitmap_array(hex_string: &str) -> (r: Result<Vec<i64>, IsoError>)
    ensures
        match r {
            Ok(v) => hex_string@.len() % 2 == 0 && is_hex_seq(hex_string@) && v@ == hex_to_bits(
                hex_string@,
            ),
            Err(e) => (hex_string@.len() % 2 != 0 || !is_hex_seq(hex_string@)) && e@
                == SpecErr::InvalidHex,
        },
{
    let n = hex_string.unicode_len();
    if n % 2 != 0 {
        return Err(IsoError::InvalidHex);
    }
    let mut j: usize = 0;
    while j < n
        invariant
            j <= n,
            n == hex_string@.len(),
            forall|t: int| 0 <= t < j ==> is_hex_digit(hex_string@[t]),
        decreases n - j,
    {
        let c = hex_string.get_char(j);
        if !is_hex_digit_exec(c) {
            return Err(IsoError::InvalidHex);
        }
        j = j + 1;
    }
    let bytes = decode_hex_bytes(hex_string);
    let mut v: Vec<i64> = Vec::new();
    let mut i: usize = 0;
    proof {
        assert(bytes@.skip(0) =~= bytes@);
        assert(v@ + bits_of_bytes(bytes@) =~= bits_of_bytes(bytes@));
    }
    while i < bytes.len()
        invariant
            bytes@ == hex_bytes(hex_string@),
            i <= bytes@.len(),
            v@ + bits_of_bytes(bytes@.skip(i as int)) == bits_of_bytes(bytes@),
        decreases bytes@.len() - i,
    {
        let ghost prev = v@;
        let b = bytes[i];
        push_byte_bits(&mut v, b);
        proof {
            let bs = bytes@.skip(i as int);
            assert(bs.len() >= 1);
            assert(bs[0] == bytes@[i as int]);
            assert(bs.skip(1) =~= bytes@.skip(i + 1));
            assert(bits_of_bytes(bs) == nibble_bits(b as int / 16) + nibble_bits(b as int % 16)
                + bits_of_bytes(bytes@.skip(i + 1)));
            assert(v@ + bits_of_bytes(bytes@.skip(i + 1)) =~= prev + bits_of_bytes(bs));
        }
        i = i + 1;
    }
    proof {
        assert(bytes@.skip(bytes@.len() as int) =~= Seq::<u8>::empty());
        assert(v@ =~= v@ + bits_of_bytes(bytes@.skip(bytes@.len() as int)));
        lemma_hex_bits_bytes(hex_string@);
    }
    Ok(v)
}

} // verus!
