//! Writing bits, and what reading does with what was written.
//!
//! Nothing here runs. A string of bits is put together field by field, packed into bytes, and the
//! laws say what comes back when the bytes are read.

use crate::bitreader::{bit_at, bits, span};
use vstd::prelude::*;

verus! {

/// The binary digits of `value`, the most significant first.
pub open spec fn digits(value: nat, width: nat) -> Seq<bool>
    decreases width,
{
    if width == 0 {
        Seq::empty()
    } else {
        digits(value / 2, (width - 1) as nat).push(value % 2 == 1)
    }
}

/// A field of `width` bits in front of `rest`.
#[verifier::opaque]
pub open spec fn put(value: int, width: int, rest: Seq<bool>) -> Seq<bool> {
    digits(value as nat, width as nat) + rest
}

/// One bit in front of `rest`.
#[verifier::opaque]
pub open spec fn put_flag(value: bool, rest: Seq<bool>) -> Seq<bool> {
    seq![value] + rest
}

/// Bit `i` with its weight; blank behind the end.
pub open spec fn weighed(string: Seq<bool>, i: int, weight: int) -> int {
    if i < string.len() && string[i] {
        weight
    } else {
        0
    }
}

/// The bits packed into bytes, the first one on top. The last byte is filled with blanks.
pub open spec fn packed(string: Seq<bool>) -> Seq<u8> {
    Seq::new(
        ((string.len() + 7) / 8) as nat,
        |i: int|
            (weighed(string, 8 * i, 128) + weighed(string, 8 * i + 1, 64) + weighed(
                string,
                8 * i + 2,
                32,
            ) + weighed(string, 8 * i + 3, 16) + weighed(string, 8 * i + 4, 8) + weighed(
                string,
                8 * i + 5,
                4,
            ) + weighed(string, 8 * i + 6, 2) + weighed(string, 8 * i + 7, 1)) as u8,
    )
}

/// The bits at bit `at` are those of `string`, and all of them are there.
#[verifier::opaque]
pub open spec fn spells(bytes: Seq<u8>, at: int, string: Seq<bool>) -> bool {
    &&& at + string.len() <= 8 * bytes.len()
    &&& forall|i: int| 0 <= i < string.len() ==> bit_at(bytes, at + i) == #[trigger] string[i]
}

proof fn lemma_byte_of_bits(
    byte: u8,
    a: u8,
    b: u8,
    c: u8,
    d: u8,
    e: u8,
    f: u8,
    g: u8,
    h: u8,
)
    by (bit_vector)
    requires
        a <= 1,
        b <= 1,
        c <= 1,
        d <= 1,
        e <= 1,
        f <= 1,
        g <= 1,
        h <= 1,
        byte == 128 * a + 64 * b + 32 * c + 16 * d + 8 * e + 4 * f + 2 * g + h,
    ensures
        (byte >> 7u8) & 1u8 == a,
        (byte >> 6u8) & 1u8 == b,
        (byte >> 5u8) & 1u8 == c,
        (byte >> 4u8) & 1u8 == d,
        (byte >> 3u8) & 1u8 == e,
        (byte >> 2u8) & 1u8 == f,
        (byte >> 1u8) & 1u8 == g,
        (byte >> 0u8) & 1u8 == h,
{
}

/// Bits that were packed are found in their order.
pub proof fn packed_bits_keep_their_order(string: Seq<bool>, i: int)
    requires
        0 <= i < string.len(),
    ensures
        bit_at(packed(string), i) == string[i],
{
    let q = i / 8;
    lemma_byte_of_bits(
        packed(string)[q],
        weighed(string, 8 * q, 1) as u8,
        weighed(string, 8 * q + 1, 1) as u8,
        weighed(string, 8 * q + 2, 1) as u8,
        weighed(string, 8 * q + 3, 1) as u8,
        weighed(string, 8 * q + 4, 1) as u8,
        weighed(string, 8 * q + 5, 1) as u8,
        weighed(string, 8 * q + 6, 1) as u8,
        weighed(string, 8 * q + 7, 1) as u8,
    );
    assert(i == 8 * q + i % 8);
    assert(0 <= i % 8 < 8);
}

/// A number has as many digits as were asked for.
pub proof fn lemma_digits_len(value: nat, width: nat)
    ensures
        digits(value, width).len() == width,
    decreases width,
{
    if width > 0 {
        lemma_digits_len(value / 2, (width - 1) as nat);
    }
}

/// A number that was written is read back.
pub proof fn written_numbers_read_back(bytes: Seq<u8>, at: int, value: nat, width: nat)
    requires
        spells(bytes, at, digits(value, width)),
        value < span(width),
    ensures
        bits(bytes, at, width) == value,
    decreases width,
{
    reveal(spells);
    if width > 0 {
        let string = digits(value, width);
        let shorter = digits(value / 2, (width - 1) as nat);
        lemma_digits_len(value, width);
        lemma_digits_len(value / 2, (width - 1) as nat);
        assert forall|i: int| 0 <= i < shorter.len() implies bit_at(bytes, at + i)
            == #[trigger] shorter[i] by {
            assert(string[i] == shorter[i]);
        }
        written_numbers_read_back(bytes, at, value / 2, (width - 1) as nat);
        assert(string[width - 1] == (value % 2 == 1));
    }
}

/// What stands at the front of a string of bits is read back, and what follows it stands behind it.
pub proof fn lemma_strings()
    ensures
        forall|bytes: Seq<u8>, at: int, value: int, width: int, rest: Seq<bool>|
            #[trigger] spells(bytes, at, put(value, width, rest)) && 0 <= width && 0 <= value < span(
                width as nat,
            ) ==> bits(bytes, at, width as nat) == value && spells(bytes, at + width, rest),
        forall|bytes: Seq<u8>, at: int, value: bool, rest: Seq<bool>|
            #[trigger] spells(bytes, at, put_flag(value, rest)) ==> bit_at(bytes, at) == value
                && spells(bytes, at + 1, rest),
        forall|value: int, width: int, rest: Seq<bool>|
            0 <= width ==> #[trigger] put(value, width, rest).len() == width + rest.len(),
        forall|value: bool, rest: Seq<bool>| #[trigger]
            put_flag(value, rest).len() == 1 + rest.len(),
{
    reveal(put);
    reveal(put_flag);
    assert forall|value: int, width: int, rest: Seq<bool>| 0 <= width implies #[trigger] put(
        value,
        width,
        rest,
    ).len() == width + rest.len() by {
        lemma_digits_len(value as nat, width as nat);
    }
    assert forall|bytes: Seq<u8>, at: int, value: int, width: int, rest: Seq<bool>|
        #[trigger] spells(bytes, at, put(value, width, rest)) && 0 <= width && 0 <= value < span(
            width as nat,
        ) implies bits(bytes, at, width as nat) == value && spells(bytes, at + width, rest) by {
        let first = digits(value as nat, width as nat);
        lemma_split(bytes, at, first, rest);
        lemma_digits_len(value as nat, width as nat);
        written_numbers_read_back(bytes, at, value as nat, width as nat);
    }
    assert forall|bytes: Seq<u8>, at: int, value: bool, rest: Seq<bool>| #[trigger]
        spells(bytes, at, put_flag(value, rest)) implies bit_at(bytes, at) == value && spells(
        bytes,
        at + 1,
        rest,
    ) by {
        lemma_split(bytes, at, seq![value], rest);
        reveal(spells);
        assert(seq![value][0] == value);
    }
}

proof fn lemma_split(bytes: Seq<u8>, at: int, first: Seq<bool>, rest: Seq<bool>)
    requires
        spells(bytes, at, first + rest),
    ensures
        spells(bytes, at, first),
        spells(bytes, at + first.len(), rest),
{
    reveal(spells);
    let both = first + rest;
    assert forall|i: int| 0 <= i < first.len() implies bit_at(bytes, at + i) == #[trigger] first[i]
        by {
        assert(both[i] == first[i]);
    }
    assert forall|i: int| 0 <= i < rest.len() implies bit_at(bytes, at + first.len() + i)
        == #[trigger] rest[i] by {
        assert(both[first.len() + i] == rest[i]);
    }
}

/// Packed bytes spell what was packed into them, wherever it starts.
pub proof fn lemma_packed(before: Seq<bool>, string: Seq<bool>)
    ensures
        spells(packed(before + string), before.len() as int, string),
        packed(before + string).len() == (before.len() + string.len() + 7) / 8,
{
    reveal(spells);
    let all = before + string;
    assert forall|i: int| 0 <= i < string.len() implies bit_at(packed(all), before.len() + i)
        == #[trigger] string[i] by {
        packed_bits_keep_their_order(all, before.len() + i);
        assert(all[before.len() + i] == string[i]);
    }
}

/// All of a string that is spelt is there.
pub proof fn lemma_spelt_inside(bytes: Seq<u8>, at: int, string: Seq<bool>)
    requires
        spells(bytes, at, string),
    ensures
        at + string.len() <= 8 * bytes.len(),
{
    reveal(spells);
}

/// Bits in front of `rest`.
#[verifier::opaque]
pub open spec fn put_flags(list: Seq<bool>, rest: Seq<bool>) -> Seq<bool> {
    list + rest
}

/// A row of bits is found as it was written.
pub proof fn lemma_flags(bytes: Seq<u8>, at: int, list: Seq<bool>, rest: Seq<bool>)
    requires
        spells(bytes, at, put_flags(list, rest)),
    ensures
        forall|i: int| 0 <= i < list.len() ==> bit_at(bytes, at + i) == #[trigger] list[i],
        spells(bytes, at + list.len(), rest),
        put_flags(list, rest).len() == list.len() + rest.len(),
{
    reveal(put_flags);
    lemma_split(bytes, at, list, rest);
    reveal(spells);
}

/// The values from `from` on, each in `width` bits, in front of `rest`.
pub open spec fn put_all(values: Seq<u8>, width: int, from: int, rest: Seq<bool>) -> Seq<bool>
    decreases values.len() - from,
{
    if from >= values.len() {
        rest
    } else {
        put(values[from] as int, width, put_all(values, width, from + 1, rest))
    }
}

/// A row of fields is found as it was written.
pub proof fn lemma_all(
    bytes: Seq<u8>,
    at: int,
    values: Seq<u8>,
    width: int,
    from: int,
    rest: Seq<bool>,
)
    requires
        0 <= width,
        0 <= from <= values.len(),
        forall|i: int| 0 <= i < values.len() ==> #[trigger] values[i] < span(width as nat),
        spells(bytes, at + from * width, put_all(values, width, from, rest)),
    ensures
        forall|i: int|
            from <= i < values.len() ==> bits(bytes, at + i * width, width as nat)
                == #[trigger] values[i],
        spells(bytes, at + values.len() * width, rest),
        put_all(values, width, from, rest).len() == (values.len() - from) * width + rest.len(),
    decreases values.len() - from,
{
    if from < values.len() {
        lemma_strings();
        assert(values[from] < span(width as nat));
        assert((from + 1) * width == from * width + width) by (nonlinear_arith);
        lemma_all(bytes, at, values, width, from + 1, rest);
        assert((values.len() - from) * width == (values.len() - (from + 1)) * width + width)
            by (nonlinear_arith);
    } else {
        assert(0 * width == 0) by (nonlinear_arith);
    }
}

/// Bits are the digits of the number that they are read as.
pub proof fn lemma_read_spells(bytes: Seq<u8>, at: int, width: nat)
    requires
        at + width <= 8 * bytes.len(),
    ensures
        spells(bytes, at, digits(bits(bytes, at, width), width)),
    decreases width,
{
    reveal(spells);
    if width > 0 {
        let value = bits(bytes, at, width);
        let shorter = bits(bytes, at, (width - 1) as nat);
        lemma_read_spells(bytes, at, (width - 1) as nat);
        lemma_digits_len(shorter, (width - 1) as nat);
        assert(value / 2 == shorter);
        let string = digits(value, width);
        assert forall|i: int| 0 <= i < string.len() implies bit_at(bytes, at + i)
            == #[trigger] string[i] by {
            if i < width - 1 {
                assert(string[i] == digits(shorter, (width - 1) as nat)[i]);
            }
        }
    }
}

} // verus!
