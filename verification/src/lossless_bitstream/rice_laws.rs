//! Writing Rice codewords, and what reading does with them.

use crate::bit_writing::{lemma_flags, lemma_strings, put, put_flag, put_flags, spells};
use crate::bitreader::{bit_at, bits, lemma_span_monotone, span};
use crate::error::CodecError;
use crate::lossless_bitstream::{rice_at, zero_run};
use vstd::prelude::*;

verus! {

/// As many zeros.
pub open spec fn zeros(count: int) -> Seq<bool> {
    Seq::new(count as nat, |i: int| false)
}

/// The bits of a number with Rice parameter `parameter`: as many zeros as the number has multiples of
/// two to the parameter, a one, and what is left in as many bits as the parameter says.
pub open spec fn rice_bits(value: int, parameter: int, rest: Seq<bool>) -> Seq<bool> {
    let unit = span(parameter as nat) as int;
    put_flags(zeros(value / unit), put_flag(true, put(value % unit, parameter, rest)))
}

proof fn lemma_zero_run(bytes: Seq<u8>, at: int, count: int, limit: int)
    requires
        0 <= count,
        forall|i: int| at <= i < at + count ==> !(#[trigger] bit_at(bytes, i)),
        count < limit ==> bit_at(bytes, at + count),
    ensures
        zero_run(bytes, at, limit) == if count < limit {
            count
        } else if limit < 0 {
            0
        } else {
            limit
        },
    decreases limit,
{
    if limit > 0 && count > 0 {
        assert(!bit_at(bytes, at));
        lemma_zero_run(bytes, at + 1, count - 1, limit - 1);
    }
}

/// A number is read as it was written, if its run of zeros is not too long.
pub proof fn written_rice_codes_read_back(
    bytes: Seq<u8>,
    end: int,
    at: int,
    value: int,
    parameter: int,
    rest: Seq<bool>,
)
    requires
        0 <= parameter <= 63,
        0 <= value < 0x1_0000_0000_0000_0000,
        value / (span(parameter as nat) as int) <= 63,
        spells(bytes, at, rice_bits(value, parameter, rest)),
        at + rice_bits(value, parameter, rest).len() - rest.len() <= end,
    ensures
        ({
            let next = at + rice_bits(value, parameter, rest).len() - rest.len();
            &&& spells(bytes, next, rest)
            &&& rice_at(bytes, end, at, parameter) == Ok::<(int, int), CodecError>((value, next))
        }),
{
    let unit = span(parameter as nat) as int;
    lemma_span_monotone(0, parameter as nat);
    let quotient = value / unit;
    let low = value % unit;
    vstd::arithmetic::div_mod::lemma_fundamental_div_mod(value, unit);
    vstd::arithmetic::div_mod::lemma_mod_bound(value, unit);
    vstd::arithmetic::div_mod::lemma_div_pos_is_pos(value, unit);
    let tail = put_flag(true, put(low, parameter, rest));
    let run = zeros(quotient);
    lemma_flags(bytes, at, run, tail);
    assert(bit_at(bytes, at + quotient) && bits(
        bytes,
        at + quotient + 1,
        parameter as nat,
    ) == low && spells(bytes, at + quotient + 1 + parameter, rest) && tail.len() == 1 + parameter
        + rest.len()) by {
        lemma_strings();
    }
    assert forall|i: int| at <= i < at + quotient implies !(#[trigger] bit_at(bytes, i)) by {
        assert(bit_at(bytes, at + (i - at)) == run[i - at]);
    }
    let available = end - at;
    lemma_zero_run(
        bytes,
        at,
        quotient,
        if available < 64 {
            available
        } else {
            64
        },
    );
    assert(quotient * unit == unit * quotient) by (nonlinear_arith);
}

/// A run of 64 zeros or more is not a codeword.
pub proof fn long_runs_are_refused(bytes: Seq<u8>, end: int, at: int, parameter: int)
    requires
        0 <= parameter <= 63,
        at + 64 <= end,
        forall|i: int| at <= i < at + 64 ==> !(#[trigger] bit_at(bytes, i)),
    ensures
        rice_at(bytes, end, at, parameter) == Err::<(int, int), CodecError>(
            CodecError::InvalidData("lossless Rice prefix requires the parameter escape path"),
        ),
{
    lemma_zero_run(bytes, at, 64, 64);
}

} // verus!
