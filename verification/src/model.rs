//! Mathematical model of the wire format: bit vectors, hex digits, decimal
//! length prefixes, and the encode/decode functions that the executable
//! codec is specified against.

use vstd::prelude::*;

verus! {

/// Error kinds at the specification level. Mirrors `IsoError`, with string
/// payloads as character sequences.
pub enum SpecErr {
    InvalidBitmapLength,
    InvalidHex,
    InvalidBitmapHeader,
    TruncatedBitmap,
    InvalidMtiLength,
    InvalidMtiContent,
    TruncatedField(u64),
    InvalidLengthPrefix(u64),
    LengthOverflow(u64),
    FieldOutOfRange(u64),
    UnknownLenType(Seq<char>),
    MissingFieldSpec(u64),
    LengthMismatch(u64),
    LengthOutOfRange(u64),
}

/// Model of one field's description in the field specification.
pub struct FieldDescView {
    pub content_type: Seq<char>,
    pub max_len: nat,
    pub min_len: nat,
    pub len_type: Seq<char>,
    pub label: Seq<char>,
}

/// Model of a fully decoded message: its type indicator, presence bitmap
/// and field values.
pub struct SpecParsed {
    pub mti: Seq<char>,
    pub bitmap: Seq<i64>,
    pub elems: Map<u64, Seq<char>>,
}

/// Every entry of the bit vector is 0 or 1.
pub open spec fn is_bit_seq(b: Seq<i64>) -> bool {
    forall|i: int| 0 <= i < b.len() ==> b[i] == 0 || b[i] == 1
}

/// A bit vector length that packs into a whole, even number of hex digits.
pub open spec fn valid_bitmap_len(n: nat) -> bool {
    n % 4 == 0 && (n / 4) % 2 == 0
}

pub open spec fn is_digit(c: char) -> bool {
    48 <= c as u32 <= 57
}

pub open spec fn digit_val(c: char) -> int {
    c as u32 - 48
}

pub open spec fn is_hex_digit(c: char) -> bool {
    is_digit(c) || 97 <= c as u32 <= 102 || 65 <= c as u32 <= 70
}

/// Numeric value of a hex digit; lower and upper case are both accepted.
pub open spec fn hex_val(c: char) -> int {
    if is_digit(c) {
        c as u32 - 48
    } else if 97 <= c as u32 <= 102 {
        c as u32 - 87
    } else {
        c as u32 - 55
    }
}

pub open spec fn is_digit_seq(s: Seq<char>) -> bool {
    forall|i: int| 0 <= i < s.len() ==> is_digit(s[i])
}

pub open spec fn is_hex_seq(s: Seq<char>) -> bool {
    forall|i: int| 0 <= i < s.len() ==> is_hex_digit(s[i])
}

/// The lowercase hex digit for a nibble value.
pub open spec fn nibble_char(n: int) -> char {
    if n == 0 { '0' }
    else if n == 1 { '1' }
    else if n == 2 { '2' }
    else if n == 3 { '3' }
    else if n == 4 { '4' }
    else if n == 5 { '5' }
    else if n == 6 { '6' }
    else if n == 7 { '7' }
    else if n == 8 { '8' }
    else if n == 9 { '9' }
    else if n == 10 { 'a' }
    else if n == 11 { 'b' }
    else if n == 12 { 'c' }
    else if n == 13 { 'd' }
    else if n == 14 { 'e' }
    else { 'f' }
}

pub open spec fn digit_char(d: int) -> char {
    if d == 0 { '0' }
    else if d == 1 { '1' }
    else if d == 2 { '2' }
    else if d == 3 { '3' }
    else if d == 4 { '4' }
    else if d == 5 { '5' }
    else if d == 6 { '6' }
    else if d == 7 { '7' }
    else if d == 8 { '8' }
    else { '9' }
}

/// The value of a group of four bits, most significant first.
pub open spec fn nibble_of_bits(b: Seq<i64>) -> int
    recommends b.len() >= 4,
{
    8 * b[0] + 4 * b[1] + 2 * b[2] + b[3]
}

/// The four bits of a nibble value, most significant first.
pub open spec fn nibble_bits(n: int) -> Seq<i64> {
    seq![(n / 8 % 2) as i64, (n / 4 % 2) as i64, (n / 2 % 2) as i64, (n % 2) as i64]
}

/// Packs a bit vector into hex digits, four bits per digit, most
/// significant bit first. Bits beyond the last whole group of four are
/// dropped; callers constrain the length.
pub open spec fn bits_to_hex(b: Seq<i64>) -> Seq<char>
    decreases b.len(),
{
    if b.len() < 4 {
        Seq::empty()
    } else {
        seq![nibble_char(nibble_of_bits(b))] + bits_to_hex(b.skip(4))
    }
}

/// Expands hex digits into a bit vector, four bits per digit, most
/// significant bit first.
pub open spec fn hex_to_bits(s: Seq<char>) -> Seq<i64>
    decreases s.len(),
{
    if s.len() == 0 {
        Seq::empty()
    } else {
        nibble_bits(hex_val(s[0])) + hex_to_bits(s.skip(1))
    }
}

/// The bytes of an even-length hex string, two digits per byte.
pub open spec fn hex_bytes(s: Seq<char>) -> Seq<u8>
    decreases s.len(),
{
    if s.len() < 2 {
        Seq::empty()
    } else {
        seq![(16 * hex_val(s[0]) + hex_val(s[1])) as u8] + hex_bytes(s.skip(2))
    }
}

pub open spec fn pow10(d: nat) -> nat
    decreases d,
{
    if d == 0 { 1 } else { 10 * pow10((d - 1) as nat) }
}

/// The decimal value of a digit string.
pub open spec fn dec_val(s: Seq<char>) -> int
    decreases s.len(),
{
    if s.len() == 0 {
        0
    } else {
        dec_val(s.drop_last()) * 10 + digit_val(s.last())
    }
}

/// The value `n` written in decimal, zero-padded to exactly `width` digits
/// (the low `width` digits of `n`).
pub open spec fn dec_padded(n: nat, width: nat) -> Seq<char>
    decreases width,
{
    if width == 0 {
        Seq::empty()
    } else {
        dec_padded(n / 10, (width - 1) as nat).push(digit_char((n % 10) as int))
    }
}

/// A valid message type indicator: exactly four decimal digits.
pub open spec fn mti_valid(s: Seq<char>) -> bool {
    s.len() == 4 && is_digit_seq(s)
}

/// The number of decimal digits in a variable field's length prefix, by
/// length-type tag; `None` for any tag that is not a known variable kind.
pub open spec fn var_prefix_width(lt: Seq<char>) -> Option<nat> {
    if lt == "llvar"@ {
        Some(2 as nat)
    } else if lt == "lllvar"@ {
        Some(3 as nat)
    } else if lt == "llllvar"@ {
        Some(4 as nat)
    } else {
        None
    }
}

/// The wire contribution of one present field: the raw value for a fixed
/// field, a zero-padded decimal length prefix followed by the value for a
/// variable field.
pub open spec fn spec_pack_field(sp: Map<u64, FieldDescView>, k: u64, v: Seq<char>) -> Result<
    Seq<char>,
    SpecErr,
> {
    if !sp.contains_key(k) {
        Err(SpecErr::MissingFieldSpec(k))
    } else {
        let fd = sp[k];
        if fd.len_type == "fixed"@ {
            Ok(v)
        } else {
            match var_prefix_width(fd.len_type) {
                None => Err(SpecErr::UnknownLenType(fd.len_type)),
                Some(d) => if v.len() >= pow10(d) {
                    Err(SpecErr::LengthOverflow(k))
                } else {
                    Ok(dec_padded(v.len(), d) + v)
                },
            }
        }
    }
}

/// Concatenation of the wire contributions of the fields present at bitmap
/// positions `idx` and above, in ascending order. Position 0 (field 1, the
/// secondary-bitmap flag) is never a data field, so walking starts at 1.
pub open spec fn spec_pack_from(
    bm: Seq<i64>,
    elems: Map<u64, Seq<char>>,
    sp: Map<u64, FieldDescView>,
    idx: nat,
) -> Result<Seq<char>, SpecErr>
    decreases bm.len() - idx,
{
    if idx >= bm.len() {
        Ok(Seq::empty())
    } else if bm[idx as int] == 1 {
        let k = (idx + 1) as u64;
        match spec_pack_field(sp, k, elems[k]) {
            Err(e) => Err(e),
            Ok(piece) => match spec_pack_from(bm, elems, sp, idx + 1) {
                Err(e) => Err(e),
                Ok(rest) => Ok(piece + rest),
            },
        }
    } else {
        spec_pack_from(bm, elems, sp, idx + 1)
    }
}

/// The whole encoded message: indicator, bitmap hex, then field data.
pub open spec fn spec_encode(
    mti: Seq<char>,
    bm: Seq<i64>,
    elems: Map<u64, Seq<char>>,
    sp: Map<u64, FieldDescView>,
) -> Result<Seq<char>, SpecErr> {
    if !valid_bitmap_len(bm.len()) {
        Err(SpecErr::InvalidBitmapLength)
    } else {
        match spec_pack_from(bm, elems, sp, 1) {
            Err(e) => Err(e),
            Ok(data) => Ok(mti + bits_to_hex(bm) + data),
        }
    }
}

/// One field's value cut from the front of the cursor, with the remaining
/// cursor: the next `max_len` characters for a fixed field, a decimal
/// length prefix followed by that many characters for a variable field.
pub open spec fn spec_extract_field(
    sp: Map<u64, FieldDescView>,
    k: u64,
    cursor: Seq<char>,
) -> Result<(Seq<char>, Seq<char>), SpecErr> {
    if !sp.contains_key(k) {
        Err(SpecErr::MissingFieldSpec(k))
    } else {
        let fd = sp[k];
        if fd.len_type == "fixed"@ {
            if cursor.len() < fd.max_len {
                Err(SpecErr::TruncatedField(k))
            } else {
                Ok((cursor.take(fd.max_len as int), cursor.skip(fd.max_len as int)))
            }
        } else {
            match var_prefix_width(fd.len_type) {
                None => Err(SpecErr::UnknownLenType(fd.len_type)),
                Some(d) => if cursor.len() < d {
                    Err(SpecErr::TruncatedField(k))
                } else if !is_digit_seq(cursor.take(d as int)) {
                    Err(SpecErr::InvalidLengthPrefix(k))
                } else {
                    let l = dec_val(cursor.take(d as int));
                    let rest = cursor.skip(d as int);
                    if rest.len() < l {
                        Err(SpecErr::TruncatedField(k))
                    } else {
                        Ok((rest.take(l), rest.skip(l)))
                    }
                },
            }
        }
    }
}

/// The field values cut sequentially from the cursor for the fields present
/// at bitmap positions `idx` and above, in ascending order. Characters left
/// after the last present field are ignored.
pub open spec fn spec_unpack_from(
    bm: Seq<i64>,
    sp: Map<u64, FieldDescView>,
    cursor: Seq<char>,
    idx: nat,
) -> Result<Map<u64, Seq<char>>, SpecErr>
    decreases bm.len() - idx,
{
    if idx >= bm.len() {
        Ok(Map::empty())
    } else if bm[idx as int] == 1 {
        let k = (idx + 1) as u64;
        match spec_extract_field(sp, k, cursor) {
            Err(e) => Err(e),
            Ok((v, rest)) => match spec_unpack_from(bm, sp, rest, idx + 1) {
                Err(e) => Err(e),
                Ok(m) => Ok(m.insert(k, v)),
            },
        }
    } else {
        spec_unpack_from(bm, sp, cursor, idx + 1)
    }
}

/// The bitmap cut from the front of the part of the wire that follows the
/// indicator: the first hex byte's high bit selects a 16- or 32-digit
/// bitmap; the remainder is the field-data cursor.
pub open spec fn spec_extract_bitmap(rest: Seq<char>) -> Result<(Seq<i64>, Seq<char>), SpecErr> {
    if rest.len() < 2 {
        Err(SpecErr::TruncatedBitmap)
    } else if !(is_hex_digit(rest[0]) && is_hex_digit(rest[1])) {
        Err(SpecErr::InvalidBitmapHeader)
    } else {
        let b = 16 * hex_val(rest[0]) + hex_val(rest[1]);
        let bmlen: int = if b >= 128 { 32 } else { 16 };
        if rest.len() < bmlen {
            Err(SpecErr::TruncatedBitmap)
        } else if !is_hex_seq(rest.take(bmlen)) {
            Err(SpecErr::InvalidHex)
        } else {
            Ok((hex_to_bits(rest.take(bmlen)), rest.skip(bmlen)))
        }
    }
}

/// The whole decoded message: indicator, bitmap, then the fields walked in
/// ascending order over the decoded bitmap.
pub open spec fn spec_parse(wire: Seq<char>, sp: Map<u64, FieldDescView>) -> Result<
    SpecParsed,
    SpecErr,
> {
    if wire.len() < 4 {
        Err(SpecErr::TruncatedBitmap)
    } else {
        let mti = wire.take(4);
        match spec_extract_bitmap(wire.skip(4)) {
            Err(e) => Err(e),
            Ok((bm, cursor)) => if !mti_valid(mti) {
                Err(if mti.len() != 4 {
                    SpecErr::InvalidMtiLength
                } else {
                    SpecErr::InvalidMtiContent
                })
            } else {
                match spec_unpack_from(bm, sp, cursor, 1) {
                    Err(e) => Err(e),
                    Ok(m) => Ok(SpecParsed { mti, bitmap: bm, elems: m }),
                }
            },
        }
    }
}

} // verus!
