//! The message codec: an in-memory message (indicator, bitmap, field
//! values, bound to a field specification) with validated mutation,
//! encoding to the wire string, and decoding from it.

use vstd::prelude::*;
use std::collections::HashMap;
use crate::converter::{bitmap_array_to_hex, hex_to_bitmap_array, hex_val_exec, is_hex_digit_exec};
use crate::errors::IsoError;
use crate::model::{
    SpecErr, SpecParsed, dec_val, digit_char, is_bit_seq, is_digit, is_digit_seq, mti_valid, pow10,
    spec_encode, spec_extract_bitmap, spec_extract_field, spec_pack_field, spec_pack_from,
    spec_parse, spec_unpack_from, var_prefix_width,
};
use crate::specfile::Spec;
use crate::validators::mti_validator;

verus! {

broadcast use vstd::std_specs::hash::group_hash_axioms;

/// A message type indicator.
#[derive(Debug)]
pub struct MtiType {
    pub mti: String,
}

impl View for MtiType {
    type V = Seq<char>;

    open spec fn view(&self) -> Seq<char> {
        self.mti@
    }
}

impl MtiType {
    /// The indicator as a string slice.
    pub fn to_string(&self) -> (r: &str)
        ensures
            r@ == self@,
    {
        self.mti.as_str()
    }
}

/// The field values of a message: field number → raw value.
#[derive(Debug)]
pub struct ElementsType {
    pub elements: HashMap<u64, String>,
}

impl View for ElementsType {
    type V = Map<u64, Seq<char>>;

    open spec fn view(&self) -> Map<u64, Seq<char>> {
        Map::new(
            |k: u64| self.elements@.contains_key(k),
            |k: u64| self.elements@[k]@,
        )
    }
}

impl ElementsType {
    pub fn get_elements(&self) -> (r: &HashMap<u64, String>)
        ensures
            r@ == self.elements@,
            forall|k: u64| #[trigger] r@.contains_key(k) <==> self@.contains_key(k),
            forall|k: u64| #[trigger] r@.contains_key(k) ==> r@[k]@ == self@[k],
    {
        &self.elements
    }
}

/// True on two string slices with equal character sequences.
fn str_eq(a: &str, b: &str) -> (r: bool)
    ensures
        r == (a@ == b@),
{
    let n = a.unicode_len();
    if n != b.unicode_len() {
        return false;
    }
    let mut i: usize = 0;
    while i < n
        invariant
            i <= n,
            n == a@.len(),
            n == b@.len(),
            forall|t: int| 0 <= t < i ==> a@[t] == b@[t],
        decreases n - i,
    {
        if a.get_char(i) != b.get_char(i) {
            return false;
        }
        i = i + 1;
    }
    proof {
        assert(a@ =~= b@);
    }
    true
}

/// The number of decimal digits in a variable field's length prefix, by
/// length-type tag; the tag `fixed` is not a variable kind.
pub fn get_variable_length_from_string(s: &str) -> (r: Result<usize, IsoError>)
    ensures
        match r {
            Ok(d) => var_prefix_width(s@) == Some(d as nat),
            Err(e) => var_prefix_width(s@) is None && e@ == SpecErr::UnknownLenType(s@),
        },
{
    if str_eq(s, "llvar") {
        Ok(2)
    } else if str_eq(s, "lllvar") {
        Ok(3)
    } else if str_eq(s, "llllvar") {
        Ok(4)
    } else {
        Err(IsoError::UnknownLenType(s.to_owned()))
    }
}

/// The one-character string for a decimal digit value.
fn digit_str(d: usize) -> (r: &'static str)
    requires
        d < 10,
    ensures
        r@.len() == 1,
        r@[0] == digit_char(d as int),
{
    proof {
        reveal_strlit("0");
        reveal_strlit("1");
        reveal_strlit("2");
        reveal_strlit("3");
        reveal_strlit("4");
        reveal_strlit("5");
        reveal_strlit("6");
        reveal_strlit("7");
        reveal_strlit("8");
        reveal_strlit("9");
    }
    if d == 0 { "0" }
    else if d == 1 { "1" }
    else if d == 2 { "2" }
    else if d == 3 { "3" }
    else if d == 4 { "4" }
    else if d == 5 { "5" }
    else if d == 6 { "6" }
    else if d == 7 { "7" }
    else if d == 8 { "8" }
    else { "9" }
}

/// `n` in decimal, zero-padded to exactly `width` digits.
fn dec_padded_exec(n: usize, width: usize) -> (r: String)
    ensures
        r@ == crate::model::dec_padded(n as nat, width as nat),
    decreases width,
{
    if width == 0 {
        String::new()
    } else {
        let rest = dec_padded_exec(n / 10, width - 1);
        let d = digit_str(n % 10);
        let out = rest.concat(d);
        proof {
            assert(out@ =~= crate::model::dec_padded((n / 10) as nat, (width - 1) as nat).push(
                digit_char((n % 10) as int),
            ));
        }
        out
    }
}

/// The wire contribution of one present field, from its description and
/// stored value.
fn pack_field(sp: &Spec, k: u64, v: &str) -> (r: Result<String, IsoError>)
    ensures
        match r {
            Ok(s) => spec_pack_field(sp@, k, v@) == Ok::<Seq<char>, SpecErr>(s@),
            Err(e) => spec_pack_field(sp@, k, v@) == Err::<Seq<char>, SpecErr>(e@),
        },
{
    let fd = match sp.fields.get(&k) {
        None => {
            return Err(IsoError::MissingFieldSpec(k));
        },
        Some(fd) => fd,
    };
    proof {
        assert(sp@.contains_key(k));
        assert(sp@[k] == fd@);
    }
    if str_eq(fd.len_type.as_str(), "fixed") {
        return Ok(v.to_owned());
    }
    let d = match get_variable_length_from_string(fd.len_type.as_str()) {
        Err(e) => {
            return Err(e);
        },
        Ok(d) => d,
    };
    proof {
        assert(d == 2 || d == 3 || d == 4);
        assert(pow10(0) == 1);
        assert(pow10(1) == 10);
        assert(pow10(2) == 100);
        assert(pow10(3) == 1000);
        assert(pow10(4) == 10000);
    }
    let cap: usize = if d == 2 { 100 } else if d == 3 { 1000 } else { 10000 };
    let vl = v.unicode_len();
    if vl >= cap {
        return Err(IsoError::LengthOverflow(k));
    }
    let prefix = dec_padded_exec(vl, d);
    let out = prefix.concat(v);
    Ok(out)
}

/// Concatenates the wire contributions of the fields present at bitmap
/// positions `idx` and above, in ascending order.
fn pack_from(bitmap: &Vec<i64>, elements: &ElementsType, sp: &Spec, idx: usize) -> (r: Result<
    String,
    IsoError,
>)
    requires
        1 <= idx,
        forall|j: int|
            idx <= j < bitmap@.len() && #[trigger] bitmap@[j] == 1 ==> elements@.contains_key(
                (j + 1) as u64,
            ),
    ensures
        match r {
            Ok(s) => spec_pack_from(bitmap@, elements@, sp@, idx as nat) == Ok::<
                Seq<char>,
                SpecErr,
            >(s@),
            Err(e) => spec_pack_from(bitmap@, elements@, sp@, idx as nat) == Err::<
                Seq<char>,
                SpecErr,
            >(e@),
        },
    decreases bitmap@.len() - idx,
{
    if idx >= bitmap.len() {
        return Ok(String::new());
    }
    if bitmap[idx] == 1 {
        let k: u64 = (idx as u64) + 1;
        let v = match elements.elements.get(&k) {
            None => {
                proof {
                    assert(elements@.contains_key(k));
                    assert(false);
                }
                return Err(IsoError::MissingFieldSpec(k));
            },
            Some(v) => v,
        };
        proof {
            assert(elements@.contains_key(k));
            assert(elements@[k] == v@);
        }
        let piece = match pack_field(sp, k, v.as_str()) {
            Err(e) => {
                return Err(e);
            },
            Ok(piece) => piece,
        };
        match pack_from(bitmap, elements, sp, idx + 1) {
            Err(e) => Err(e),
            Ok(rest) => {
                let out = piece.concat(rest.as_str());
                Ok(out)
            },
        }
    } else {
        pack_from(bitmap, elements, sp, idx + 1)
    }
}

/// One field's value cut from the front of the cursor, with the rest of
/// the cursor: `max_len` characters for a fixed field, a decimal length
/// prefix and that many characters for a variable field.
#[verifier::loop_isolation(false)]
fn extract_field_from_elements(sp: &Spec, field: u64, s: &str) -> (r: Result<
    (String, String),
    IsoError,
>)
    ensures
        match r {
            Ok(p) => spec_extract_field(sp@, field, s@) == Ok::<(Seq<char>, Seq<char>), SpecErr>(
                (p.0@, p.1@),
            ),
            Err(e) => spec_extract_field(sp@, field, s@) == Err::<(Seq<char>, Seq<char>), SpecErr>(
                e@,
            ),
        },
{
    let fd = match sp.fields.get(&field) {
        None => {
            return Err(IsoError::MissingFieldSpec(field));
        },
        Some(fd) => fd,
    };
    proof {
        assert(sp@.contains_key(field));
        assert(sp@[field] == fd@);
    }
    let slen = s.unicode_len();
    if str_eq(fd.len_type.as_str(), "fixed") {
        if slen < fd.max_len {
            return Err(IsoError::TruncatedField(field));
        }
        let v = s.substring_char(0, fd.max_len).to_owned();
        let rest = s.substring_char(fd.max_len, slen).to_owned();
        proof {
            assert(v@ =~= s@.take(fd@.max_len as int));
            assert(rest@ =~= s@.skip(fd@.max_len as int));
        }
        Ok((v, rest))
    } else {
        let d = match get_variable_length_from_string(fd.len_type.as_str()) {
            Err(e) => {
                return Err(e);
            },
            Ok(d) => d,
        };
        proof {
            assert(d == 2 || d == 3 || d == 4);
            assert(pow10(0) == 1);
            assert(pow10(1) == 10);
            assert(pow10(2) == 100);
            assert(pow10(3) == 1000);
            assert(pow10(4) == 10000);
        }
        if slen < d {
            return Err(IsoError::TruncatedField(field));
        }
        let mut l: usize = 0;
        let mut j: usize = 0;
        while j < d
            invariant
                j <= d,
                d <= 4,
                d <= slen,
                slen == s@.len(),
                l == dec_val(s@.subrange(0, j as int)),
                l < pow10(j as nat),
                pow10(0) == 1 && pow10(1) == 10 && pow10(2) == 100 && pow10(3) == 1000 && pow10(4)
                    == 10000,
                forall|t: int| 0 <= t < j ==> is_digit(s@[t]),
            decreases d - j,
        {
            let c = s.get_char(j);
            let u = c as u32;
            if !(48 <= u && u <= 57) {
                proof {
                    assert(s@.take(d as int)[j as int] == c);
                    assert(!is_digit(c));
                    assert(!is_digit_seq(s@.take(d as int)));
                }
                return Err(IsoError::InvalidLengthPrefix(field));
            }
            proof {
                assert(s@.subrange(0, j + 1).drop_last() =~= s@.subrange(0, j as int));
                assert(s@.subrange(0, j + 1).last() == s@[j as int]);
                assert(pow10((j + 1) as nat) == 10 * pow10(j as nat));
            }
            l = l * 10 + ((u - 48) as usize);
            j = j + 1;
        }
        proof {
            assert(s@.subrange(0, d as int) =~= s@.take(d as int));
            assert(is_digit_seq(s@.take(d as int)));
            assert(l == dec_val(s@.take(d as int)));
        }
        let rest_len = slen - d;
        if rest_len < l {
            return Err(IsoError::TruncatedField(field));
        }
        let v = s.substring_char(d, d + l).to_owned();
        let rem = s.substring_char(d + l, slen).to_owned();
        proof {
            assert(v@ =~= s@.skip(d as int).take(l as int));
            assert(rem@ =~= s@.skip(d as int).skip(l as int));
        }
        Ok((v, rem))
    }
}

/// Cuts the values of the fields present at bitmap positions `idx` and
/// above sequentially from the cursor.
fn unpack_from(bitmap: &Vec<i64>, sp: &Spec, cursor: &str, idx: usize) -> (r: Result<
    ElementsType,
    IsoError,
>)
    requires
        1 <= idx,
    ensures
        match r {
            Ok(et) => spec_unpack_from(bitmap@, sp@, cursor@, idx as nat) == Ok::<
                Map<u64, Seq<char>>,
                SpecErr,
            >(et@),
            Err(e) => spec_unpack_from(bitmap@, sp@, cursor@, idx as nat) == Err::<
                Map<u64, Seq<char>>,
                SpecErr,
            >(e@),
        },
    decreases bitmap@.len() - idx,
{
    if idx >= bitmap.len() {
        let et = ElementsType { elements: HashMap::new() };
        proof {
            assert(et@ =~= Map::<u64, Seq<char>>::empty());
        }
        return Ok(et);
    }
    if bitmap[idx] == 1 {
        let k: u64 = (idx as u64) + 1;
        match extract_field_from_elements(sp, k, cursor) {
            Err(e) => Err(e),
            Ok((v, rest)) => match unpack_from(bitmap, sp, rest.as_str(), idx + 1) {
                Err(e) => Err(e),
                Ok(mut et) => {
                    let ghost prev = et@;
                    et.elements.insert(k, v);
                    proof {
                        assert(et@ =~= prev.insert(k, v@));
                    }
                    Ok(et)
                },
            },
        }
    } else {
        unpack_from(bitmap, sp, cursor, idx + 1)
    }
}

/// Builds the field map of a decoded message by walking the bitmap in
/// ascending field order over the field-data cursor.
fn unpack_elements(bitmap: &Vec<i64>, elements: &str, sp: &Spec) -> (r: Result<
    ElementsType,
    IsoError,
>)
    ensures
        match r {
            Ok(et) => spec_unpack_from(bitmap@, sp@, elements@, 1) == Ok::<
                Map<u64, Seq<char>>,
                SpecErr,
            >(et@),
            Err(e) => spec_unpack_from(bitmap@, sp@, elements@, 1) == Err::<
                Map<u64, Seq<char>>,
                SpecErr,
            >(e@),
        },
{
    unpack_from(bitmap, sp, elements, 1)
}

/// Splits the indicator (first four characters) from the wire string.
fn extract_mti<'a>(s: &'a str) -> (r: (MtiType, &'a str))
    requires
        s@.len() >= 4,
    ensures
        r.0@ == s@.take(4),
        r.1@ == s@.skip(4),
{
    let n = s.unicode_len();
    let mti = s.substring_char(0, 4).to_owned();
    let rest = s.substring_char(4, n);
    proof {
        assert(mti@ =~= s@.take(4));
        assert(rest@ =~= s@.skip(4));
    }
    (MtiType { mti }, rest)
}

/// Cuts the bitmap from the front of the part of the wire that follows
/// the indicator: the first hex byte's high bit selects 16 or 32 hex
/// digits; the remainder is the field-data cursor.
fn extract_bitmap(rest: &str) -> (r: Result<(Vec<i64>, String), IsoError>)
    ensures
        match r {
            Ok(p) => spec_extract_bitmap(rest@) == Ok::<(Seq<i64>, Seq<char>), SpecErr>(
                (p.0@, p.1@),
            ),
            Err(e) => spec_extract_bitmap(rest@) == Err::<(Seq<i64>, Seq<char>), SpecErr>(e@),
        },
{
    let n = rest.unicode_len();
    if n < 2 {
        return Err(IsoError::TruncatedBitmap);
    }
    let c0 = rest.get_char(0);
    let c1 = rest.get_char(1);
    if !(is_hex_digit_exec(c0) && is_hex_digit_exec(c1)) {
        return Err(IsoError::InvalidBitmapHeader);
    }
    let b: u32 = 16 * hex_val_exec(c0) + hex_val_exec(c1);
    let bitmap_hex_length: usize = if b >= 128 { 32 } else { 16 };
    if n < bitmap_hex_length {
        return Err(IsoError::TruncatedBitmap);
    }
    let bitmap_hex_string = rest.substring_char(0, bitmap_hex_length);
    proof {
        assert(bitmap_hex_string@ =~= rest@.take(bitmap_hex_length as int));
    }
    match hex_to_bitmap_array(bitmap_hex_string) {
        Err(_) => Err(IsoError::InvalidHex),
        Ok(bitmap) => {
            let element_string = rest.substring_char(bitmap_hex_length, n).to_owned();
            proof {
                assert(element_string@ =~= rest@.skip(bitmap_hex_length as int));
            }
            Ok((bitmap, element_string))
        },
    }
}

/// A transaction message bound to a field specification.
#[derive(Debug)]
pub struct IsoStruct {
    pub spec: Spec,
    pub mti: MtiType,
    pub bitmap: Vec<i64>,
    pub elements: ElementsType,
}

impl IsoStruct {
    /// Bitmap entries are bits, and a value is stored for exactly the
    /// field numbers whose bitmap position is set. Field numbers run from
    /// 2 to the bitmap length; position 0 only flags the secondary
    /// bitmap.
    pub open spec fn wf(self) -> bool {
        &&& is_bit_seq(self.bitmap@)
        &&& forall|k: u64|
            #[trigger] self.elements@.contains_key(k) <==> (2 <= k <= self.bitmap@.len()
                && self.bitmap@[k - 1] == 1)
    }

    /// Encodes the message into its wire string: indicator, bitmap hex,
    /// then each present field in ascending order.
    pub fn to_string(&self) -> (r: Result<String, IsoError>)
        requires
            self.wf(),
        ensures
            match r {
                Ok(s) => spec_encode(self.mti@, self.bitmap@, self.elements@, self.spec@) == Ok::<
                    Seq<char>,
                    SpecErr,
                >(s@),
                Err(e) => spec_encode(self.mti@, self.bitmap@, self.elements@, self.spec@) == Err::<
                    Seq<char>,
                    SpecErr,
                >(e@),
            },
    {
        let bitmap_string = match bitmap_array_to_hex(&self.bitmap) {
            Err(e) => {
                return Err(e);
            },
            Ok(s) => s,
        };
        let elements_str = match self.pack_elements() {
            Err(e) => {
                return Err(e);
            },
            Ok(s) => s,
        };
        let mut out = self.mti.to_string().to_owned();
        out.append(bitmap_string.as_str());
        out.append(elements_str.as_str());
        proof {
            assert(out@ =~= self.mti@ + crate::model::bits_to_hex(self.bitmap@) + elements_str@);
        }
        Ok(out)
    }

    /// Replaces the indicator after validating it; leaves the message
    /// unchanged on failure.
    pub fn add_mti(&mut self, data: &str) -> (r: Result<(), IsoError>)
        ensures
            match r {
                Ok(_) => mti_valid(data@) && final(self).mti@ == data@
                    && final(self).spec@ == old(self).spec@
                    && final(self).bitmap@ == old(self).bitmap@
                    && final(self).elements@ == old(self).elements@
                    && (old(self).wf() ==> final(self).wf()),
                Err(e) => !mti_valid(data@) && *final(self) == *old(self) && e@ == (if data@.len()
                    != 4 {
                    SpecErr::InvalidMtiLength
                } else {
                    SpecErr::InvalidMtiContent
                }),
            },
    {
        let mti = MtiType { mti: data.to_owned() };
        match mti_validator(&mti) {
            Ok(_) => {
                self.mti = mti;
                Ok(())
            },
            Err(e) => Err(e),
        }
    }

    /// Marks a field present and stores its value, both or neither: sets
    /// the bitmap position and the field map entry together. Accepts
    /// field numbers from 2 to the bitmap length.
    pub fn add_field(&mut self, field: u64, value: &str) -> (r: Result<(), IsoError>)
        ensures
            match r {
                Ok(_) => 2 <= field <= old(self).bitmap@.len()
                    && final(self).bitmap@ == old(self).bitmap@.update(field - 1, 1i64)
                    && final(self).elements@ == old(self).elements@.insert(field, value@)
                    && final(self).mti@ == old(self).mti@
                    && final(self).spec@ == old(self).spec@
                    && (old(self).wf() ==> final(self).wf()),
                Err(e) => !(2 <= field <= old(self).bitmap@.len()) && *final(self) == *old(self)
                    && e@ == SpecErr::FieldOutOfRange(field),
            },
    {
        let bitmap_len: u64 = self.bitmap.len() as u64;
        if field < 2 || field > bitmap_len {
            return Err(IsoError::FieldOutOfRange(field));
        }
        let idx: usize = (field - 1) as usize;
        self.bitmap[idx] = 1;
        let ghost prev = self.elements@;
        self.elements.elements.insert(field, value.to_owned());
        proof {
            assert(final(self).elements@ =~= prev.insert(field, value@));
            if old(self).wf() {
                let newbm = final(self).bitmap@;
                assert(newbm.len() == old(self).bitmap@.len());
                assert forall|k: u64|
                    #[trigger] final(self).elements@.contains_key(k) <==> (2 <= k <= newbm.len()
                        && newbm[k - 1] == 1) by {
                    if k == field {
                        assert(final(self).elements@.contains_key(k));
                        assert(newbm[k - 1] == 1);
                    } else {
                        let oldself = old(self);
                        assert(final(self).elements@.contains_key(k)
                            == oldself.elements@.contains_key(k));
                        if 2 <= k <= newbm.len() {
                            assert(k - 1 != field - 1);
                            assert(newbm[k - 1] == oldself.bitmap@[k - 1]);
                        }
                        assert(oldself.elements@.contains_key(k) <==> (2 <= k
                            <= oldself.bitmap@.len() && oldself.bitmap@[k - 1] == 1));
                    }
                }
            }
        }
        Ok(())
    }

    /// Decodes a wire string against this message's specification into a
    /// new message; `self` only supplies the specification.
    pub fn parse(&self, i: &str) -> (r: Result<IsoStruct, IsoError>)
        ensures
            match r {
                Ok(m) => (spec_parse(i@, self.spec@) matches Ok(p) && m.mti@ == p.mti && m.bitmap@
                    == p.bitmap && m.elements@ == p.elems) && m.spec@ == self.spec@,
                Err(e) => spec_parse(i@, self.spec@) == Err::<SpecParsed, SpecErr>(e@),
            },
    {
        if i.unicode_len() < 4 {
            return Err(IsoError::TruncatedBitmap);
        }
        let (mti, rest) = extract_mti(i);
        let (bitmap, element_string) = match extract_bitmap(rest) {
            Err(e) => {
                return Err(e);
            },
            Ok(p) => p,
        };
        match mti_validator(&mti) {
            Err(e) => {
                return Err(e);
            },
            Ok(_) => {},
        }
        let elements = match unpack_elements(&bitmap, element_string.as_str(), &self.spec) {
            Err(e) => {
                return Err(e);
            },
            Ok(el) => el,
        };
        Ok(IsoStruct { spec: self.spec.clone(), mti, bitmap, elements })
    }

    /// Concatenates the wire contributions of all present fields in
    /// ascending field order.
    pub fn pack_elements(&self) -> (r: Result<String, IsoError>)
        requires
            self.wf(),
        ensures
            match r {
                Ok(s) => spec_pack_from(self.bitmap@, self.elements@, self.spec@, 1) == Ok::<
                    Seq<char>,
                    SpecErr,
                >(s@),
                Err(e) => spec_pack_from(self.bitmap@, self.elements@, self.spec@, 1) == Err::<
                    Seq<char>,
                    SpecErr,
                >(e@),
            },
    {
        let bl = self.bitmap.len();
        proof {
            assert forall|j: int|
                1 <= j < self.bitmap@.len() && #[trigger] self.bitmap@[j]
                    == 1 implies self.elements@.contains_key((j + 1) as u64) by {
                let k: u64 = (j + 1) as u64;
                assert(j + 1 <= bl);
                assert(k == j + 1);
                assert(self.elements@.contains_key(k) <==> (2 <= k <= self.bitmap@.len()
                    && self.bitmap@[k - 1] == 1));
            }
        }
        pack_from(&self.bitmap, &self.elements, &self.spec, 1)
    }
}

/// A fresh message bound to a specification: empty indicator, no fields,
/// and an all-zero bitmap of 64 bits, or of 128 bits with position 0 set
/// when a secondary bitmap is wanted.
pub fn new_iso_struct(sp: Spec, secondary_bitmap: bool) -> (r: IsoStruct)
    ensures
        r.wf(),
        r.spec@ == sp@,
        r.mti@ == Seq::<char>::empty(),
        r.elements@ == Map::<u64, Seq<char>>::empty(),
        r.bitmap@.len() == (if secondary_bitmap { 128int } else { 64int }),
        r.bitmap@[0] == (if secondary_bitmap { 1i64 } else { 0i64 }),
        forall|t: int| 1 <= t < r.bitmap@.len() ==> r.bitmap@[t] == 0i64,
{
    let size: usize = if secondary_bitmap { 128 } else { 64 };
    let mut bitmap: Vec<i64> = Vec::new();
    let mut i: usize = 0;
    while i < size
        invariant
            i <= size,
            bitmap@.len() == i,
            forall|t: int| 0 <= t < i ==> bitmap@[t] == 0i64,
        decreases size - i,
    {
        bitmap.push(0);
        i = i + 1;
    }
    if secondary_bitmap {
        bitmap[0] = 1;
    }
    let mti = MtiType { mti: String::new() };
    let elements = ElementsType { elements: HashMap::new() };
    let iso = IsoStruct { spec: sp, mti, bitmap, elements };
    proof {
        assert(iso.elements@ =~= Map::<u64, Seq<char>>::empty());
    }
    iso
}

} // verus!
