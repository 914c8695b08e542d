//! Properties of the codec proved once and for all: the bitmap hex
//! round-trip, the decimal length-prefix round-trip, and the full
//! message encode/decode round-trip.

use vstd::prelude::*;
use crate::model::{
    FieldDescView, SpecErr, SpecParsed, bits_to_hex, dec_padded, dec_val, hex_to_bits, is_bit_seq,
    is_digit_seq, is_hex_digit, is_hex_seq, mti_valid, pow10, spec_encode, spec_extract_bitmap,
    spec_extract_field, spec_pack_field, spec_pack_from, spec_parse, spec_unpack_from,
    valid_bitmap_len, var_prefix_width,
};

verus! {

/// Expanding the hex form of a bit vector gives the vector back, for any
/// whole number of nibbles; the hex form holds one digit per four bits.
pub proof fn lemma_bits_hex_inverse(b: Seq<i64>)
    requires
        is_bit_seq(b),
        b.len() % 4 == 0,
    ensures
        is_hex_seq(bits_to_hex(b)),
        bits_to_hex(b).len() == b.len() / 4,
        hex_to_bits(bits_to_hex(b)) == b,
    decreases b.len(),
{
    if b.len() == 0 {
        assert(hex_to_bits(bits_to_hex(b)) =~= b);
    } else {
        let tail = b.skip(4);
        assert(tail.len() % 4 == 0);
        assert(is_bit_seq(tail));
        lemma_bits_hex_inverse(tail);
        let n = crate::model::nibble_of_bits(b);
        assert(0 <= n < 16);
        let c = crate::model::nibble_char(n);
        assert(crate::model::is_hex_digit(c) && crate::model::hex_val(c) == n);
        let h = bits_to_hex(b);
        assert(h == seq![c] + bits_to_hex(tail));
        assert(h[0] == c);
        assert(h.skip(1) =~= bits_to_hex(tail));
        assert(is_hex_seq(h));
        assert(crate::model::nibble_bits(n) =~= b.take(4));
        assert(hex_to_bits(h) == crate::model::nibble_bits(n) + hex_to_bits(bits_to_hex(tail)));
        assert(hex_to_bits(h) =~= b.take(4) + tail);
        assert(b.take(4) + tail =~= b);
    }
}

/// Bitmap symmetry: decoding the hex encoding of any bit vector of valid
/// bitmap length gives the vector back.
pub proof fn lemma_bitmap_symmetry(b: Seq<i64>)
    requires
        is_bit_seq(b),
        valid_bitmap_len(b.len()),
    ensures
        hex_to_bits(bits_to_hex(b)) == b,
        bits_to_hex(b).len() % 2 == 0,
{
    lemma_bits_hex_inverse(b);
}

/// Length-prefix round-trip: a value length below the prefix capacity is
/// recovered exactly from its zero-padded decimal form, which is all
/// digits and exactly `width` characters.
pub proof fn lemma_dec_roundtrip(n: nat, width: nat)
    requires
        n < pow10(width),
    ensures
        dec_padded(n, width).len() == width,
        is_digit_seq(dec_padded(n, width)),
        dec_val(dec_padded(n, width)) == n,
    decreases width,
{
    if width == 0 {
    } else {
        assert(pow10(width) == 10 * pow10((width - 1) as nat));
        lemma_dec_roundtrip(n / 10, (width - 1) as nat);
        let prefix = dec_padded(n / 10, (width - 1) as nat);
        let d = (n % 10) as int;
        let c = crate::model::digit_char(d);
        assert(crate::model::is_digit(c) && crate::model::digit_val(c) == d);
        let whole = dec_padded(n, width);
        assert(whole == prefix.push(c));
        assert(whole.drop_last() =~= prefix);
        assert(whole.last() == c);
        assert(dec_val(whole) == dec_val(prefix) * 10 + d);
        assert(forall|t: int| 0 <= t < whole.len() - 1 ==> whole[t] == prefix[t]);
        assert(is_digit_seq(whole));
    }
}

/// Length-prefix packing: a variable field whose value length fits the
/// prefix width packs as the zero-padded decimal length followed by the
/// value, and the prefix parses back to exactly the value's length; a
/// value too long for the prefix fails as a length overflow.
pub proof fn lemma_length_prefix(sp: Map<u64, FieldDescView>, k: u64, v: Seq<char>)
    requires
        sp.contains_key(k),
        var_prefix_width(sp[k].len_type) is Some,
    ensures
        v.len() < pow10(var_prefix_width(sp[k].len_type)->Some_0) ==> spec_pack_field(sp, k, v)
            == Ok::<Seq<char>, SpecErr>(
            dec_padded(v.len(), var_prefix_width(sp[k].len_type)->Some_0) + v,
        ),
        v.len() < pow10(var_prefix_width(sp[k].len_type)->Some_0) ==> dec_val(
            (spec_pack_field(sp, k, v)->Ok_0).take(
                var_prefix_width(sp[k].len_type)->Some_0 as int,
            ),
        ) == v.len(),
        v.len() >= pow10(var_prefix_width(sp[k].len_type)->Some_0) ==> spec_pack_field(sp, k, v)
            == Err::<Seq<char>, SpecErr>(SpecErr::LengthOverflow(k)),
{
    reveal_strlit("fixed");
    reveal_strlit("llvar");
    reveal_strlit("lllvar");
    reveal_strlit("llllvar");
    let lt = sp[k].len_type;
    assert("llvar"@[0] != "fixed"@[0]);
    assert("lllvar"@[0] != "fixed"@[0]);
    assert("llllvar"@[0] != "fixed"@[0]);
    assert(lt == "llvar"@ || lt == "lllvar"@ || lt == "llllvar"@);
    assert(lt != "fixed"@);
    let d = var_prefix_width(lt)->Some_0;
    if v.len() < pow10(d) {
        lemma_dec_roundtrip(v.len(), d);
        let packed = dec_padded(v.len(), d) + v;
        assert(packed.take(d as int) =~= dec_padded(v.len(), d));
    }
}

/// Hex expansion yields four bits per digit.
pub proof fn lemma_hex_to_bits_len(s: Seq<char>)
    ensures
        hex_to_bits(s).len() == 4 * s.len(),
    decreases s.len(),
{
    if s.len() == 0 {
    } else {
        lemma_hex_to_bits_len(s.skip(1));
    }
}

/// Bitmap selector: when the first hex byte's high bit is set the bitmap
/// is cut from 32 hex digits and decodes to 128 bits; when it is clear,
/// from 16 hex digits to 64 bits.
pub proof fn lemma_bitmap_selector(rest: Seq<char>)
    requires
        rest.len() >= 2,
        is_hex_digit(rest[0]),
        is_hex_digit(rest[1]),
    ensures
        16 * crate::model::hex_val(rest[0]) + crate::model::hex_val(rest[1]) >= 128 && rest.len()
            >= 32 && is_hex_seq(rest.take(32)) ==> spec_extract_bitmap(rest) == Ok::<
            (Seq<i64>, Seq<char>),
            SpecErr,
        >((hex_to_bits(rest.take(32)), rest.skip(32))) && hex_to_bits(rest.take(32)).len() == 128,
        16 * crate::model::hex_val(rest[0]) + crate::model::hex_val(rest[1]) < 128 && rest.len()
            >= 16 && is_hex_seq(rest.take(16)) ==> spec_extract_bitmap(rest) == Ok::<
            (Seq<i64>, Seq<char>),
            SpecErr,
        >((hex_to_bits(rest.take(16)), rest.skip(16))) && hex_to_bits(rest.take(16)).len() == 64,
{
    lemma_hex_to_bits_len(rest.take(32));
    lemma_hex_to_bits_len(rest.take(16));
}

/// Truncated input: a wire string shorter than the indicator plus one
/// whole primary bitmap never reaches the field walk; it is rejected as
/// truncated, or as a bad header when the two header characters are
/// present but not hex.
pub proof fn lemma_truncated_wire(wire: Seq<char>, sp: Map<u64, FieldDescView>)
    requires
        wire.len() < 20,
    ensures
        spec_parse(wire, sp) == Err::<SpecParsed, SpecErr>(
            if wire.len() >= 6 && !(is_hex_digit(wire[4]) && is_hex_digit(wire[5])) {
                SpecErr::InvalidBitmapHeader
            } else {
                SpecErr::TruncatedBitmap
            },
        ),
{
    if wire.len() < 4 {
    } else {
        let rest = wire.skip(4);
        assert(rest.len() == wire.len() - 4);
        if rest.len() < 2 {
        } else {
            assert(rest[0] == wire[4]);
            assert(rest[1] == wire[5]);
            if is_hex_digit(rest[0]) && is_hex_digit(rest[1]) {
                assert(rest.len() < 16);
            }
        }
    }
}

/// The fields present at positions `idx` and above, with their stored
/// values.
pub open spec fn present_from(bm: Seq<i64>, elems: Map<u64, Seq<char>>, idx: nat) -> Map<
    u64,
    Seq<char>,
> {
    Map::new(|k: u64| idx + 1 <= k <= bm.len() && bm[k - 1] == 1, |k: u64| elems[k])
}

/// Walking the packed field data from position `idx` recovers exactly the
/// packed fields and their values, provided every present fixed field was
/// stored at its declared width.
pub proof fn lemma_pack_unpack(
    bm: Seq<i64>,
    elems: Map<u64, Seq<char>>,
    sp: Map<u64, FieldDescView>,
    idx: nat,
    data: Seq<char>,
)
    requires
        is_bit_seq(bm),
        1 <= idx,
        bm.len() <= u64::MAX,
        spec_pack_from(bm, elems, sp, idx) == Ok::<Seq<char>, SpecErr>(data),
        forall|k: u64|
            2 <= k <= bm.len() && bm[k - 1] == 1 && #[trigger] sp.contains_key(k)
                && sp[k].len_type == "fixed"@ ==> elems[k].len() == sp[k].max_len,
    ensures
        spec_unpack_from(bm, sp, data, idx) == Ok::<Map<u64, Seq<char>>, SpecErr>(
            present_from(bm, elems, idx),
        ),
    decreases bm.len() - idx,
{
    if idx >= bm.len() {
        assert(present_from(bm, elems, idx) =~= Map::<u64, Seq<char>>::empty());
    } else if bm[idx as int] == 1 {
        let k0 = (idx + 1) as u64;
        assert(k0 == idx + 1);
        let v = elems[k0];
        let piece = spec_pack_field(sp, k0, v)->Ok_0;
        let rest = spec_pack_from(bm, elems, sp, idx + 1)->Ok_0;
        assert(data == piece + rest);
        assert(sp.contains_key(k0));
        let fd = sp[k0];
        assert(data.len() == piece.len() + rest.len());
        if fd.len_type == "fixed"@ {
            assert(piece == v);
            assert(2 <= k0 <= bm.len() && bm[k0 - 1] == 1);
            assert(v.len() == fd.max_len);
            assert(data.take(fd.max_len as int) =~= v);
            assert(data.skip(fd.max_len as int) =~= rest);
            assert(spec_extract_field(sp, k0, data) == Ok::<(Seq<char>, Seq<char>), SpecErr>(
                (v, rest),
            ));
        } else {
            let d = var_prefix_width(fd.len_type)->Some_0;
            assert(v.len() < pow10(d));
            assert(piece == dec_padded(v.len(), d) + v);
            lemma_dec_roundtrip(v.len(), d);
            assert(data.take(d as int) =~= dec_padded(v.len(), d));
            assert(is_digit_seq(data.take(d as int)));
            assert(dec_val(data.take(d as int)) == v.len());
            let after = data.skip(d as int);
            assert(after =~= v + rest);
            assert(after.len() >= v.len());
            assert(after.take(v.len() as int) =~= v);
            assert(after.skip(v.len() as int) =~= rest);
            assert(spec_extract_field(sp, k0, data) == Ok::<(Seq<char>, Seq<char>), SpecErr>(
                (v, rest),
            ));
        }
        lemma_pack_unpack(bm, elems, sp, idx + 1, rest);
        assert(spec_unpack_from(bm, sp, data, idx) == Ok::<Map<u64, Seq<char>>, SpecErr>(
            present_from(bm, elems, idx + 1).insert(k0, v),
        ));
        assert forall|k: u64|
            #[trigger] present_from(bm, elems, idx).contains_key(k) implies present_from(
            bm,
            elems,
            idx + 1,
        ).insert(k0, v).contains_key(k) by {
            if k != k0 {
                assert(idx + 2 <= k);
            }
        }
        assert(present_from(bm, elems, idx + 1).insert(k0, v) =~= present_from(bm, elems, idx));
    } else {
        lemma_pack_unpack(bm, elems, sp, idx + 1, data);
        assert(present_from(bm, elems, idx + 1) =~= present_from(bm, elems, idx));
    }
}

/// Round-trip: a well-formed message (bits in sync with stored fields,
/// valid indicator, secondary-bitmap flag matching the bitmap length,
/// fixed fields stored at their declared width) that encodes successfully
/// decodes back to exactly the same indicator, bitmap and field values.
pub proof fn lemma_round_trip(
    mti: Seq<char>,
    bm: Seq<i64>,
    elems: Map<u64, Seq<char>>,
    sp: Map<u64, FieldDescView>,
    wire: Seq<char>,
)
    requires
        mti_valid(mti),
        is_bit_seq(bm),
        bm.len() == 64 || bm.len() == 128,
        bm.len() == 64 ==> bm[0] == 0,
        bm.len() == 128 ==> bm[0] == 1,
        forall|k: u64|
            #[trigger] elems.contains_key(k) <==> (2 <= k <= bm.len() && bm[k - 1] == 1),
        forall|k: u64|
            2 <= k <= bm.len() && bm[k - 1] == 1 && #[trigger] sp.contains_key(k)
                && sp[k].len_type == "fixed"@ ==> elems[k].len() == sp[k].max_len,
        spec_encode(mti, bm, elems, sp) == Ok::<Seq<char>, SpecErr>(wire),
    ensures
        spec_parse(wire, sp) == Ok::<SpecParsed, SpecErr>(SpecParsed { mti, bitmap: bm, elems }),
{
    assert(valid_bitmap_len(bm.len()));
    let data = spec_pack_from(bm, elems, sp, 1)->Ok_0;
    let hexpart = bits_to_hex(bm);
    assert(wire == mti + hexpart + data);
    lemma_bits_hex_inverse(bm);
    assert(hexpart.len() == bm.len() / 4);
    assert(wire.len() == 4 + hexpart.len() + data.len());
    assert(wire.take(4) =~= mti);
    let rest = wire.skip(4);
    assert(rest =~= hexpart + data);
    assert(rest.len() == hexpart.len() + data.len());
    assert(rest[0] == hexpart[0]);
    assert(rest[1] == hexpart[1]);
    assert(is_hex_digit(rest[0]) && is_hex_digit(rest[1]));
    let n1 = crate::model::nibble_of_bits(bm);
    assert(hexpart[0] == crate::model::nibble_char(n1));
    let bm4 = bm.skip(4);
    assert(bm4.len() >= 4);
    assert(hexpart.skip(1) =~= bits_to_hex(bm4));
    let n2 = crate::model::nibble_of_bits(bm4);
    assert(hexpart[1] == bits_to_hex(bm4)[0]);
    assert(bits_to_hex(bm4)[0] == crate::model::nibble_char(n2));
    assert(0 <= n1 < 16 && 0 <= n2 < 16);
    assert(crate::model::hex_val(crate::model::nibble_char(n1)) == n1);
    assert(crate::model::hex_val(crate::model::nibble_char(n2)) == n2);
    let b = 16 * crate::model::hex_val(rest[0]) + crate::model::hex_val(rest[1]);
    assert(b == 16 * n1 + n2);
    if bm[0] == 1 {
        assert(n1 >= 8);
        assert(b >= 128);
    } else {
        assert(n1 <= 7);
        assert(b < 128);
    }
    let bmlen: int = if b >= 128 { 32 } else { 16 };
    assert(bmlen == hexpart.len());
    assert(rest.len() >= bmlen);
    assert(rest.take(bmlen) =~= hexpart);
    assert(is_hex_seq(rest.take(bmlen)));
    assert(hex_to_bits(rest.take(bmlen)) == bm);
    assert(rest.skip(bmlen) =~= data);
    assert(spec_extract_bitmap(rest) == Ok::<(Seq<i64>, Seq<char>), SpecErr>((bm, data)));
    lemma_pack_unpack(bm, elems, sp, 1, data);
    assert(present_from(bm, elems, 1) =~= elems);
    assert(spec_parse(wire, sp) == Ok::<SpecParsed, SpecErr>(
        SpecParsed { mti, bitmap: bm, elems },
    ));
}

} // verus!

