//! Writing range coded values, and what the decoder does with them.
//!
//! The encoder works with numbers without limit. It keeps the interval of all code words that stand
//! for what has been encoded so far; a code word has two 16-bit words and one more for each time
//! that the interval has been spread out.

use crate::bitreader::{lemma_span_monotone, span};
use crate::engine::range_coder::{
    bound, cdf_ok, escaped, fresh_state, max_sections, narrow, next16, past16, section_count,
    sections, start, symbol, symbol_at, uniform, value_of, values_of, RangeCoderError, RangeModel,
    RangeState,
};
use vstd::prelude::*;

verus! {

/// The code words from `low` on, `size` of them, of `words` words behind the first two.
pub ghost struct Interval {
    pub low: int,
    pub size: int,
    pub words: int,
}

/// All code words.
pub open spec fn all_codes() -> Interval {
    Interval { low: 0, size: 0x1_0000_0000, words: 0 }
}

/// The part of an interval between two fractions of `total`. A part of at most 65536 code words is
/// spread out: each of its code words gets one more word.
pub open spec fn part_of(interval: Interval, first: int, behind: int, total: int) -> Interval {
    let lower = first * interval.size / total;
    let size = behind * interval.size / total - lower;
    if size <= 0x1_0000 {
        Interval {
            low: 0x1_0000 * (interval.low + lower),
            size: 0x1_0000 * size,
            words: interval.words + 1,
        }
    } else {
        Interval { low: interval.low + lower, size, words: interval.words }
    }
}

/// The first words of the input as one number, the first two and `words` more. Zeros follow the
/// input.
pub open spec fn code_word(input: Seq<u8>, words: int) -> int
    decreases words,
{
    if words <= 0 {
        0x1_0000 * next16(input, 0) + next16(input, 2)
    } else {
        0x1_0000 * code_word(input, words - 1) + next16(input, 2 + 2 * words)
    }
}

/// The input lies in an interval.
pub open spec fn lies_in(input: Seq<u8>, interval: Interval) -> bool {
    interval.low <= code_word(input, interval.words) < interval.low + interval.size
}

/// An interval that is large enough to be divided.
pub open spec fn divisible(interval: Interval) -> bool {
    interval.size >= 0x1_0000 && interval.words >= 0
}

/// A part of an interval that is not empty.
pub open spec fn is_part(first: int, behind: int, total: int) -> bool {
    0 <= first < behind <= total <= 0x1_0000
}

/// The decoder stands where the encoder stood with this interval.
pub open spec fn stands_in(input: Seq<u8>, state: RangeState, interval: Interval) -> bool {
    &&& state.started
    &&& state.position == if 4 + 2 * interval.words <= input.len() {
        4 + 2 * interval.words
    } else {
        input.len() as int
    }
    &&& state.size == interval.size
    &&& state.code == code_word(input, interval.words) - interval.low
}

proof fn lemma_part(interval: Interval, first: int, behind: int, total: int)
    requires
        divisible(interval),
        is_part(first, behind, total),
    ensures
        divisible(part_of(interval, first, behind, total)),
        0 <= first * interval.size / total < behind * interval.size / total <= interval.size,
{
    let size = interval.size;
    assert(0 <= first * size && (first + 1) * size <= behind * size && behind * size <= total * size
        && (first + 1) * size == first * size + size) by (nonlinear_arith)
        requires
            0 <= first < behind <= total,
            0 < size,
    ;
    vstd::arithmetic::div_mod::lemma_div_pos_is_pos(first * size, total);
    vstd::arithmetic::div_mod::lemma_div_is_ordered(behind * size, total * size, total);
    vstd::arithmetic::div_mod::lemma_div_is_ordered(first * size + total, behind * size, total);
    vstd::arithmetic::div_mod::lemma_div_multiples_vanish(size, total);
    assert((first * size + total) / total == first * size / total + 1) by {
        vstd::arithmetic::div_mod::lemma_div_plus_one(first * size, total);
    }
}

/// An input that lies in a part of an interval lies in the interval.
proof fn lemma_lies_in(input: Seq<u8>, interval: Interval, first: int, behind: int, total: int)
    requires
        divisible(interval),
        is_part(first, behind, total),
        lies_in(input, part_of(interval, first, behind, total)),
    ensures
        lies_in(input, interval),
        first * interval.size / total <= code_word(input, interval.words) - interval.low < behind
            * interval.size / total,
{
    lemma_part(interval, first, behind, total);
    lemma_next16(input, 4 + 2 * interval.words);
}

proof fn lemma_next16(input: Seq<u8>, position: int)
    ensures
        0 <= next16(input, position) < 0x1_0000,
{
}

/// The decoder follows the encoder into a part of an interval.
proof fn lemma_narrow(
    input: Seq<u8>,
    state: RangeState,
    interval: Interval,
    first: int,
    behind: int,
    total: int,
)
    requires
        divisible(interval),
        is_part(first, behind, total),
        stands_in(input, state, interval),
    ensures
        stands_in(
            input,
            narrow(
                input,
                state,
                first * interval.size / total,
                behind * interval.size / total,
            ),
            part_of(interval, first, behind, total),
        ),
{
    let next = part_of(interval, first, behind, total);
    if next.words > interval.words {
        assert(next16(input, state.position) == next16(input, 4 + 2 * interval.words));
    }
}

proof fn lemma_symbol_at(
    cdf: Seq<u32>,
    size: int,
    code: int,
    precision: nat,
    wanted: int,
    from: int,
)
    requires
        cdf_ok(cdf, precision),
        0 < size,
        0 <= wanted <= from <= cdf.len() - 2,
        bound(cdf[wanted] as int, size, precision) <= code < bound(
            cdf[wanted + 1] as int,
            size,
            precision,
        ),
    ensures
        symbol_at(cdf, size, code, precision, from) == wanted,
    decreases from,
{
    lemma_span_monotone(0, precision);
    if wanted < from {
        let low = cdf[wanted + 1] as int;
        let high = cdf[from] as int;
        assert(low <= high);
        assert(low * size <= high * size) by (nonlinear_arith)
            requires
                low <= high,
                0 < size,
        ;
        vstd::arithmetic::div_mod::lemma_div_is_ordered(
            low * size,
            high * size,
            span(precision) as int,
        );
        lemma_symbol_at(cdf, size, code, precision, wanted, from - 1);
    }
}

/// A symbol of a table is found where its part of the interval is.
proof fn lemma_symbol(
    input: Seq<u8>,
    state: RangeState,
    interval: Interval,
    cdf: Seq<u32>,
    precision: nat,
    wanted: int,
)
    requires
        divisible(interval),
        stands_in(input, start(input, state), interval),
        1 <= precision <= 16,
        cdf_ok(cdf, precision),
        0 <= wanted <= cdf.len() - 2,
        lies_in(
            input,
            part_of(
                interval,
                cdf[wanted] as int,
                cdf[wanted + 1] as int,
                span(precision) as int,
            ),
        ),
    ensures
        symbol(input, state, cdf, precision).0 == wanted,
        stands_in(
            input,
            symbol(input, state, cdf, precision).1,
            part_of(
                interval,
                cdf[wanted] as int,
                cdf[wanted + 1] as int,
                span(precision) as int,
            ),
        ),
{
    let total = span(precision) as int;
    lemma_small_span(precision);
    assert(cdf[wanted] < cdf[wanted + 1]);
    assert(cdf[wanted + 1] <= total) by {
        if wanted + 1 < cdf.len() - 1 {
            assert(cdf[wanted + 1] < cdf[cdf.len() - 1]);
        }
    }
    let begun = start(input, state);
    lemma_lies_in(input, interval, cdf[wanted] as int, cdf[wanted + 1] as int, total);
    lemma_symbol_at(cdf, begun.size, begun.code, precision, wanted, cdf.len() - 2);
    lemma_narrow(
        input,
        begun,
        interval,
        cdf[wanted] as int,
        cdf[wanted + 1] as int,
        total,
    );
}

proof fn lemma_small_span(width: nat)
    requires
        width <= 16,
    ensures
        1 <= span(width) <= 0x1_0000,
{
    lemma_span_monotone(0, width);
    lemma_span_monotone(width, 16);
    crate::bitreader::lemma_span_values();
}

/// The interval of a number of `width` bits.
pub open spec fn with_number(interval: Interval, number: int, width: nat) -> Interval {
    part_of(interval, number, number + 1, span(width) as int)
}

/// A number is found where its part of the interval is.
proof fn lemma_uniform(
    input: Seq<u8>,
    state: RangeState,
    interval: Interval,
    width: nat,
    number: int,
)
    requires
        divisible(interval),
        stands_in(input, state, interval),
        1 <= width <= 16,
        0 <= number < span(width),
        lies_in(input, with_number(interval, number, width)),
    ensures
        uniform(input, state, width).0 == number,
        stands_in(input, uniform(input, state, width).1, with_number(interval, number, width)),
        divisible(with_number(interval, number, width)),
        lies_in(input, interval),
{
    let total = span(width) as int;
    lemma_small_span(width);
    lemma_part(interval, number, number + 1, total);
    lemma_lies_in(input, interval, number, number + 1, total);
    let size = interval.size;
    let code = state.code;
    let low = number * size;
    let high = (number + 1) * size;
    vstd::arithmetic::div_mod::lemma_fundamental_div_mod(low, total);
    vstd::arithmetic::div_mod::lemma_mod_bound(low, total);
    vstd::arithmetic::div_mod::lemma_fundamental_div_mod(high, total);
    vstd::arithmetic::div_mod::lemma_mod_bound(high, total);
    let value = (code + 1) * total - 1;
    assert(low <= value) by (nonlinear_arith)
        requires
            low == total * (low / total) + low % total,
            low % total < total,
            low / total <= code,
            value == (code + 1) * total - 1,
            0 < total,
    ;
    assert(value < high) by (nonlinear_arith)
        requires
            high == total * (high / total) + high % total,
            0 <= high % total,
            code + 1 <= high / total,
            value == (code + 1) * total - 1,
            0 < total,
    ;
    assert(high == low + size) by (nonlinear_arith)
        requires
            low == number * size,
            high == (number + 1) * size,
    ;
    assert(value / size == number) by {
        vstd::arithmetic::div_mod::lemma_fundamental_div_mod_converse(
            value,
            size,
            number,
            value - low,
        );
    }
    lemma_narrow(input, state, interval, number, number + 1, total);
}

/// The interval once a number of sections has been announced. A full section says that more are to
/// come.
pub open spec fn with_count(interval: Interval, count: int, width: nat) -> Interval
    decreases count,
{
    let full = span(width) - 1;
    if full > 0 && count >= full {
        with_count(with_number(interval, full, width), count - full, width)
    } else {
        with_number(interval, count, width)
    }
}

/// The interval once a code has been written in `count` sections, the least significant first.
pub open spec fn with_sections(interval: Interval, code: int, width: nat, count: int) -> Interval
    decreases count,
{
    if count <= 0 {
        interval
    } else {
        with_sections(
            with_number(interval, code % (span(width) as int), width),
            code / (span(width) as int),
            width,
            count - 1,
        )
    }
}

proof fn lemma_count_inside(input: Seq<u8>, interval: Interval, count: int, width: nat)
    requires
        divisible(interval),
        1 <= width <= 16,
        0 <= count,
        lies_in(input, with_count(interval, count, width)),
    ensures
        lies_in(input, interval),
        divisible(with_count(interval, count, width)),
    decreases count,
{
    lemma_small_span(width);
    lemma_span_monotone(1, width);
    crate::bitreader::lemma_span_values();
    let full = span(width) - 1;
    if count >= full {
        lemma_part(interval, full, full + 1, span(width) as int);
        lemma_count_inside(input, with_number(interval, full, width), count - full, width);
        lemma_lies_in(input, interval, full, full + 1, span(width) as int);
    } else {
        lemma_part(interval, count, count + 1, span(width) as int);
        lemma_lies_in(input, interval, count, count + 1, span(width) as int);
    }
}

proof fn lemma_sections_inside(
    input: Seq<u8>,
    interval: Interval,
    code: int,
    width: nat,
    count: int,
)
    requires
        divisible(interval),
        1 <= width <= 16,
        0 <= code,
        lies_in(input, with_sections(interval, code, width, count)),
    ensures
        lies_in(input, interval),
        divisible(with_sections(interval, code, width, count)),
    decreases count,
{
    if count > 0 {
        let total = span(width) as int;
        lemma_small_span(width);
        let digit = code % total;
        vstd::arithmetic::div_mod::lemma_mod_bound(code, total);
        vstd::arithmetic::div_mod::lemma_div_pos_is_pos(code, total);
        lemma_part(interval, digit, digit + 1, total);
        lemma_sections_inside(
            input,
            with_number(interval, digit, width),
            code / total,
            width,
            count - 1,
        );
        lemma_lies_in(input, interval, digit, digit + 1, total);
    }
}

proof fn lemma_count(
    input: Seq<u8>,
    state: RangeState,
    interval: Interval,
    width: nat,
    done: int,
    count: int,
)
    requires
        divisible(interval),
        stands_in(input, state, interval),
        1 <= width <= 16,
        0 <= done,
        0 <= count,
        done + count <= max_sections(width),
        lies_in(input, with_count(interval, count, width)),
    ensures
        section_count(input, state, width, done).0 == Ok::<int, RangeCoderError>(done + count),
        stands_in(
            input,
            section_count(input, state, width, done).1,
            with_count(interval, count, width),
        ),
    decreases count,
{
    lemma_small_span(width);
    lemma_span_monotone(1, width);
    crate::bitreader::lemma_span_values();
    let full = span(width) - 1;
    if count >= full {
        let next = with_number(interval, full, width);
        lemma_part(interval, full, full + 1, span(width) as int);
        lemma_count_inside(input, next, count - full, width);
        lemma_uniform(input, state, interval, width, full);
        lemma_count(
            input,
            uniform(input, state, width).1,
            next,
            width,
            done + full,
            count - full,
        );
    } else {
        lemma_uniform(input, state, interval, width, count);
    }
}

proof fn lemma_span_sum(a: nat, b: nat)
    ensures
        span(a + b) == span(a) * span(b),
    decreases a,
{
    if a > 0 {
        lemma_span_sum((a - 1) as nat, b);
        assert((2 * span((a - 1) as nat)) * span(b) == 2 * (span((a - 1) as nat) * span(b)))
            by (nonlinear_arith);
    } else {
        assert(1 * span(b) == span(b)) by (nonlinear_arith);
    }
}

proof fn lemma_sections(
    input: Seq<u8>,
    state: RangeState,
    interval: Interval,
    width: nat,
    from: int,
    count: int,
    code: int,
)
    requires
        divisible(interval),
        stands_in(input, state, interval),
        1 <= width <= 16,
        0 <= from <= count,
        0 <= code < span((width * (count - from)) as nat),
        lies_in(input, with_sections(interval, code, width, count - from)),
    ensures
        sections(input, state, width, from, count).0 == code * span((width * from) as nat),
        stands_in(
            input,
            sections(input, state, width, from, count).1,
            with_sections(interval, code, width, count - from),
        ),
    decreases count - from,
{
    assert(width * from >= 0 && width * (count - from) >= 0) by (nonlinear_arith)
        requires
            0 <= from <= count,
            0 <= width,
    ;
    if from < count {
        let total = span(width) as int;
        lemma_small_span(width);
        let digit = code % total;
        let later = code / total;
        vstd::arithmetic::div_mod::lemma_fundamental_div_mod(code, total);
        vstd::arithmetic::div_mod::lemma_mod_bound(code, total);
        vstd::arithmetic::div_mod::lemma_div_pos_is_pos(code, total);
        let left = (width * (count - (from + 1))) as nat;
        assert(width * (count - (from + 1)) >= 0 && width * (count - from) == width + width * (count
            - (from + 1)) && width * (from + 1) == width + width * from) by (nonlinear_arith)
            requires
                0 <= from < count,
                0 <= width,
        ;
        lemma_span_sum(width, left);
        assert(later < span(left)) by (nonlinear_arith)
            requires
                code < total * span(left),
                code == total * later + digit,
                0 <= digit,
                0 < total,
        ;
        let next = with_number(interval, digit, width);
        lemma_part(interval, digit, digit + 1, total);
        lemma_sections_inside(input, next, later, width, count - (from + 1));
        lemma_uniform(input, state, interval, width, digit);
        lemma_sections(
            input,
            uniform(input, state, width).1,
            next,
            width,
            from + 1,
            count,
            later,
        );
        let weight = span((width * from) as nat) as int;
        lemma_span_sum(width, (width * from) as nat);
        assert(digit * weight + later * (total * weight) == (total * later + digit) * weight)
            by (nonlinear_arith);
    } else {
        assert(width * 0 == 0) by (nonlinear_arith);
        assert(span(0) == 1);
        assert(0 * span((width * from) as nat) == 0) by (nonlinear_arith);
    }
}

/// The code of a value that a table has no symbol for: those from the largest symbol on are even,
/// those below zero are odd.
pub open spec fn escape_code(value: int, largest: int) -> int {
    if value >= largest {
        2 * (value - largest)
    } else {
        -2 * value - 1
    }
}

/// The interval once a value has been written with a table: its symbol, and where the table has none
/// the largest symbol, the number of sections, and the sections of its code.
pub open spec fn with_value(
    interval: Interval,
    model: RangeModel,
    index: int,
    value: int,
    count: int,
) -> Interval {
    let cdf = model.cdfs[index];
    let total = span(model.precision) as int;
    let largest = cdf.len() - 2;
    let plain = value - model.offsets[index];
    if 0 <= plain < largest {
        part_of(interval, cdf[plain] as int, cdf[plain + 1] as int, total)
    } else {
        let escape = part_of(interval, cdf[largest] as int, cdf[largest + 1] as int, total);
        with_sections(
            with_count(escape, count, model.overflow_width),
            escape_code(plain, largest),
            model.overflow_width,
            count,
        )
    }
}

/// A value can be written: a code for it fits into so many sections, 32 bits in all, and the decoder
/// can hold what it stands for.
pub open spec fn value_fits(model: RangeModel, index: int, value: int, count: int) -> bool {
    let largest = model.cdfs[index].len() - 2;
    let plain = value - model.offsets[index];
    &&& 0 <= index < model.cdfs.len()
    &&& i32::MIN <= value <= i32::MAX
    &&& plain <= i32::MAX
    &&& 0 <= plain < largest || {
        &&& 0 <= count
        &&& count * model.overflow_width <= 32
        &&& escape_code(plain, largest) < span((model.overflow_width * count) as nat)
    }
}

/// Tables that can be coded with.
pub open spec fn usable(model: RangeModel) -> bool {
    &&& 1 <= model.precision <= 16
    &&& 1 <= model.overflow_width <= 16
    &&& model.cdfs.len() == model.offsets.len()
    &&& forall|i: int| 0 <= i < model.cdfs.len() ==> cdf_ok(#[trigger] model.cdfs[i], model.precision)
}

proof fn lemma_entry(cdf: Seq<u32>, precision: nat, symbol: int)
    requires
        1 <= precision <= 16,
        cdf_ok(cdf, precision),
        0 <= symbol <= cdf.len() - 2,
    ensures
        is_part(cdf[symbol] as int, cdf[symbol + 1] as int, span(precision) as int),
{
    lemma_small_span(precision);
    assert(cdf[symbol] < cdf[symbol + 1]);
    if symbol + 1 < cdf.len() - 1 {
        assert(cdf[symbol + 1] < cdf[cdf.len() - 1]);
    }
}

proof fn lemma_value_inside(
    input: Seq<u8>,
    interval: Interval,
    model: RangeModel,
    index: int,
    value: int,
    count: int,
)
    requires
        divisible(interval),
        usable(model),
        value_fits(model, index, value, count),
        lies_in(input, with_value(interval, model, index, value, count)),
    ensures
        lies_in(input, interval),
        divisible(with_value(interval, model, index, value, count)),
{
    let cdf = model.cdfs[index];
    let total = span(model.precision) as int;
    let largest = cdf.len() - 2;
    let plain = value - model.offsets[index];
    assert(cdf_ok(cdf, model.precision));
    if 0 <= plain < largest {
        lemma_entry(cdf, model.precision, plain);
        lemma_part(interval, cdf[plain] as int, cdf[plain + 1] as int, total);
        lemma_lies_in(input, interval, cdf[plain] as int, cdf[plain + 1] as int, total);
    } else {
        lemma_entry(cdf, model.precision, largest);
        lemma_part(interval, cdf[largest] as int, cdf[largest + 1] as int, total);
        let escape = part_of(interval, cdf[largest] as int, cdf[largest + 1] as int, total);
        lemma_count_divisible(escape, count, model.overflow_width);
        lemma_sections_inside(
            input,
            with_count(escape, count, model.overflow_width),
            escape_code(plain, largest),
            model.overflow_width,
            count,
        );
        lemma_count_inside(input, escape, count, model.overflow_width);
        lemma_lies_in(input, interval, cdf[largest] as int, cdf[largest + 1] as int, total);
    }
}

proof fn lemma_count_divisible(interval: Interval, count: int, width: nat)
    requires
        divisible(interval),
        1 <= width <= 16,
        0 <= count,
    ensures
        divisible(with_count(interval, count, width)),
    decreases count,
{
    lemma_small_span(width);
    lemma_span_monotone(1, width);
    crate::bitreader::lemma_span_values();
    let full = span(width) - 1;
    if count >= full {
        lemma_part(interval, full, full + 1, span(width) as int);
        lemma_count_divisible(with_number(interval, full, width), count - full, width);
    } else {
        lemma_part(interval, count, count + 1, span(width) as int);
    }
}

proof fn lemma_value(
    input: Seq<u8>,
    state: RangeState,
    interval: Interval,
    model: RangeModel,
    index: int,
    position: int,
    value: int,
    count: int,
)
    requires
        divisible(interval),
        stands_in(input, start(input, state), interval),
        usable(model),
        value_fits(model, index, value, count),
        lies_in(input, with_value(interval, model, index, value, count)),
    ensures
        value_of(input, state, model, index, position).0 == Ok::<i32, RangeCoderError>(
            value as i32,
        ),
        stands_in(
            input,
            value_of(input, state, model, index, position).1,
            with_value(interval, model, index, value, count),
        ),
{
    let cdf = model.cdfs[index];
    let total = span(model.precision) as int;
    let largest = cdf.len() - 2;
    let plain = value - model.offsets[index];
    let width = model.overflow_width;
    assert(cdf_ok(cdf, model.precision));
    if 0 <= plain < largest {
        lemma_symbol(input, state, interval, cdf, model.precision, plain);
    } else {
        let code = escape_code(plain, largest);
        let escape = part_of(interval, cdf[largest] as int, cdf[largest + 1] as int, total);
        let counted = with_count(escape, count, width);
        lemma_entry(cdf, model.precision, largest);
        lemma_part(interval, cdf[largest] as int, cdf[largest + 1] as int, total);
        lemma_count_divisible(escape, count, width);
        lemma_sections_inside(input, counted, code, width, count);
        lemma_count_inside(input, escape, count, width);
        lemma_symbol(input, state, interval, cdf, model.precision, largest);
        let next = symbol(input, state, cdf, model.precision).1;
        assert(count <= max_sections(width)) by (nonlinear_arith)
            requires
                count * width <= 32,
                1 <= width,
                0 <= count,
                max_sections(width) == (32 + width - 1) / (width as int),
        ;
        lemma_count(input, next, escape, width, 0, count);
        let behind = section_count(input, next, width, 0).1;
        assert(width * (count - 0) == width * count);
        lemma_sections(input, behind, counted, width, 0, count, code);
        assert(width * 0 == 0) by (nonlinear_arith);
        assert(span(0) == 1);
        assert(code * 1 == code) by (nonlinear_arith);
        assert(escaped(code, largest) == plain);
    }
}

/// The interval once the values from `from` on have been written.
pub open spec fn with_values(
    interval: Interval,
    model: RangeModel,
    indexes: Seq<u16>,
    values: Seq<i32>,
    counts: Seq<int>,
    from: int,
) -> Interval
    decreases indexes.len() - from,
{
    if from >= indexes.len() {
        interval
    } else {
        with_values(
            with_value(interval, model, indexes[from] as int, values[from] as int, counts[from]),
            model,
            indexes,
            values,
            counts,
            from + 1,
        )
    }
}

/// The values can be written, each with its table.
pub open spec fn values_fit(
    model: RangeModel,
    indexes: Seq<u16>,
    values: Seq<i32>,
    counts: Seq<int>,
) -> bool {
    &&& values.len() == indexes.len()
    &&& counts.len() == indexes.len()
    &&& forall|i: int|
        0 <= i < indexes.len() ==> value_fits(
            model,
            #[trigger] indexes[i] as int,
            values[i] as int,
            counts[i],
        )
}

proof fn lemma_values(
    input: Seq<u8>,
    state: RangeState,
    interval: Interval,
    model: RangeModel,
    indexes: Seq<u16>,
    values: Seq<i32>,
    counts: Seq<int>,
    from: int,
)
    requires
        divisible(interval),
        stands_in(input, start(input, state), interval),
        from < indexes.len() || stands_in(input, state, interval),
        usable(model),
        values_fit(model, indexes, values, counts),
        0 <= from <= indexes.len(),
        lies_in(input, with_values(interval, model, indexes, values, counts, from)),
    ensures
        ({
            let (found, end, error) = values_of(input, state, model, indexes, from);
            &&& found == values.skip(from)
            &&& error is None
            &&& stands_in(
                input,
                end,
                with_values(interval, model, indexes, values, counts, from),
            )
        }),
        lies_in(input, interval),
    decreases indexes.len() - from,
{
    if from < indexes.len() {
        let index = indexes[from] as int;
        let value = values[from] as int;
        let count = counts[from];
        assert(value_fits(model, index, value, count));
        let next = with_value(interval, model, index, value, count);
        lemma_value_divisible(interval, model, index, value, count);
        lemma_values_inside(input, next, model, indexes, values, counts, from + 1);
        lemma_value_inside(input, interval, model, index, value, count);
        lemma_value(input, state, interval, model, index, from, value, count);
        let behind = value_of(input, state, model, index, from).1;
        lemma_values(input, behind, next, model, indexes, values, counts, from + 1);
        assert(seq![values[from]] + values.skip(from + 1) =~= values.skip(from));
    } else {
        assert(values.skip(from) =~= Seq::empty());
    }
}

proof fn lemma_value_divisible(
    interval: Interval,
    model: RangeModel,
    index: int,
    value: int,
    count: int,
)
    requires
        divisible(interval),
        usable(model),
        value_fits(model, index, value, count),
    ensures
        divisible(with_value(interval, model, index, value, count)),
{
    let cdf = model.cdfs[index];
    let total = span(model.precision) as int;
    let largest = cdf.len() - 2;
    let plain = value - model.offsets[index];
    assert(cdf_ok(cdf, model.precision));
    if 0 <= plain < largest {
        lemma_entry(cdf, model.precision, plain);
        lemma_part(interval, cdf[plain] as int, cdf[plain + 1] as int, total);
    } else {
        lemma_entry(cdf, model.precision, largest);
        lemma_part(interval, cdf[largest] as int, cdf[largest + 1] as int, total);
        let escape = part_of(interval, cdf[largest] as int, cdf[largest + 1] as int, total);
        lemma_count_divisible(escape, count, model.overflow_width);
        lemma_sections_divisible(
            with_count(escape, count, model.overflow_width),
            escape_code(plain, largest),
            model.overflow_width,
            count,
        );
    }
}

proof fn lemma_sections_divisible(interval: Interval, code: int, width: nat, count: int)
    requires
        divisible(interval),
        1 <= width <= 16,
        0 <= code,
    ensures
        divisible(with_sections(interval, code, width, count)),
    decreases count,
{
    if count > 0 {
        let total = span(width) as int;
        lemma_small_span(width);
        let digit = code % total;
        vstd::arithmetic::div_mod::lemma_mod_bound(code, total);
        vstd::arithmetic::div_mod::lemma_div_pos_is_pos(code, total);
        lemma_part(interval, digit, digit + 1, total);
        lemma_sections_divisible(
            with_number(interval, digit, width),
            code / total,
            width,
            count - 1,
        );
    }
}

proof fn lemma_values_inside(
    input: Seq<u8>,
    interval: Interval,
    model: RangeModel,
    indexes: Seq<u16>,
    values: Seq<i32>,
    counts: Seq<int>,
    from: int,
)
    requires
        divisible(interval),
        usable(model),
        values_fit(model, indexes, values, counts),
        0 <= from <= indexes.len(),
        lies_in(input, with_values(interval, model, indexes, values, counts, from)),
    ensures
        lies_in(input, interval),
    decreases indexes.len() - from,
{
    if from < indexes.len() {
        let index = indexes[from] as int;
        let value = values[from] as int;
        let count = counts[from];
        assert(value_fits(model, index, value, count));
        lemma_value_divisible(interval, model, index, value, count);
        lemma_values_inside(
            input,
            with_value(interval, model, index, value, count),
            model,
            indexes,
            values,
            counts,
            from + 1,
        );
        lemma_value_inside(input, interval, model, index, value, count);
    }
}

/// The decoder gives back what was encoded: from every input that lies in the interval of some
/// values it reads those values and nothing else, and it reads no byte that does not belong to them.
pub proof fn range_coded_values_read_back(
    input: Seq<u8>,
    model: RangeModel,
    indexes: Seq<u16>,
    values: Seq<i32>,
    counts: Seq<int>,
)
    requires
        usable(model),
        indexes.len() > 0,
        values_fit(model, indexes, values, counts),
        lies_in(input, with_values(all_codes(), model, indexes, values, counts, 0)),
    ensures
        ({
            let words = with_values(all_codes(), model, indexes, values, counts, 0).words;
            let (found, end, error) = values_of(input, fresh_state(), model, indexes, 0);
            &&& found == values
            &&& error is None
            &&& end.position == if 4 + 2 * words <= input.len() {
                4 + 2 * words
            } else {
                input.len() as int
            }
        }),
{
    assert(stands_in(input, start(input, fresh_state()), all_codes())) by {
        let second = past16(input, 0);
        assert(next16(input, second) == next16(input, 2));
    }
    lemma_values(input, fresh_state(), all_codes(), model, indexes, values, counts, 0);
    assert(values.skip(0) =~= values);
}

/// A code word as bytes, the most significant first: two words and `words` more.
pub open spec fn word_bytes(code: int, words: int) -> Seq<u8>
    decreases words,
{
    let last = seq![(code / 0x100 % 0x100) as u8, (code % 0x100) as u8];
    if words <= 0 {
        seq![(code / 0x100_0000 % 0x100) as u8, (code / 0x1_0000 % 0x100) as u8] + last
    } else {
        word_bytes(code / 0x1_0000, words - 1) + last
    }
}

proof fn lemma_word_bytes(code: int, words: int, more: Seq<u8>)
    requires
        0 <= code < 0x1_0000_0000 * span((16 * words) as nat),
        0 <= words,
    ensures
        code_word(word_bytes(code, words) + more, words) == code,
        word_bytes(code, words).len() == 4 + 2 * words,
    decreases words,
{
    let last = seq![(code / 0x100 % 0x100) as u8, (code % 0x100) as u8];
    let bytes = word_bytes(code, words) + more;
    if words > 0 {
        let front = code / 0x1_0000;
        crate::bitreader::lemma_span_values();
        lemma_span_sum(16, (16 * (words - 1)) as nat);
        lemma_word_bytes(front, words - 1, last + more);
        assert(bytes =~= word_bytes(front, words - 1) + (last + more));
        assert(bytes[2 + 2 * words] == last[0]);
        assert(bytes[3 + 2 * words] == last[1]);
    } else {
        assert(span(0) == 1);
    }
}

proof fn lemma_low(
    interval: Interval,
    model: RangeModel,
    indexes: Seq<u16>,
    values: Seq<i32>,
    counts: Seq<int>,
    from: int,
)
    requires
        well_placed(interval),
        usable(model),
        values_fit(model, indexes, values, counts),
        0 <= from <= indexes.len(),
    ensures
        well_placed(with_values(interval, model, indexes, values, counts, from)),
    decreases indexes.len() - from,
{
    if from < indexes.len() {
        let index = indexes[from] as int;
        let value = values[from] as int;
        let count = counts[from];
        assert(value_fits(model, index, value, count));
        let cdf = model.cdfs[index];
        let total = span(model.precision) as int;
        let largest = cdf.len() - 2;
        let plain = value - model.offsets[index];
        assert(cdf_ok(cdf, model.precision));
        if 0 <= plain < largest {
            lemma_entry(cdf, model.precision, plain);
            lemma_part_placed(interval, cdf[plain] as int, cdf[plain + 1] as int, total);
        } else {
            lemma_entry(cdf, model.precision, largest);
            lemma_part_placed(interval, cdf[largest] as int, cdf[largest + 1] as int, total);
            let escape = part_of(interval, cdf[largest] as int, cdf[largest + 1] as int, total);
            lemma_count_placed(escape, count, model.overflow_width);
            lemma_sections_placed(
                with_count(escape, count, model.overflow_width),
                escape_code(plain, largest),
                model.overflow_width,
                count,
            );
        }
        lemma_low(
            with_value(interval, model, index, value, count),
            model,
            indexes,
            values,
            counts,
            from + 1,
        );
    }
}

/// An interval that can be divided, all of whose code words have as many words as it says.
pub open spec fn well_placed(interval: Interval) -> bool {
    &&& divisible(interval)
    &&& 0 <= interval.low
    &&& interval.low + interval.size <= 0x1_0000_0000 * span((16 * interval.words) as nat)
}

proof fn lemma_part_placed(interval: Interval, first: int, behind: int, total: int)
    requires
        well_placed(interval),
        is_part(first, behind, total),
    ensures
        well_placed(part_of(interval, first, behind, total)),
{
    lemma_part(interval, first, behind, total);
    crate::bitreader::lemma_span_values();
    lemma_span_sum(16, (16 * interval.words) as nat);
}

proof fn lemma_count_placed(interval: Interval, count: int, width: nat)
    requires
        well_placed(interval),
        1 <= width <= 16,
        0 <= count,
    ensures
        well_placed(with_count(interval, count, width)),
    decreases count,
{
    lemma_small_span(width);
    lemma_span_monotone(1, width);
    crate::bitreader::lemma_span_values();
    let full = span(width) - 1;
    if count >= full {
        lemma_part_placed(interval, full, full + 1, span(width) as int);
        lemma_count_placed(with_number(interval, full, width), count - full, width);
    } else {
        lemma_part_placed(interval, count, count + 1, span(width) as int);
    }
}

proof fn lemma_sections_placed(interval: Interval, code: int, width: nat, count: int)
    requires
        well_placed(interval),
        1 <= width <= 16,
        0 <= code,
    ensures
        well_placed(with_sections(interval, code, width, count)),
    decreases count,
{
    if count > 0 {
        let total = span(width) as int;
        lemma_small_span(width);
        let digit = code % total;
        vstd::arithmetic::div_mod::lemma_mod_bound(code, total);
        vstd::arithmetic::div_mod::lemma_div_pos_is_pos(code, total);
        lemma_part_placed(interval, digit, digit + 1, total);
        lemma_sections_placed(
            with_number(interval, digit, width),
            code / total,
            width,
            count - 1,
        );
    }
}

/// All values that fit can be written: the first code word of their interval, as bytes, is read as
/// those values, whatever follows it.
pub proof fn encoded_values_are_decoded(
    model: RangeModel,
    indexes: Seq<u16>,
    values: Seq<i32>,
    counts: Seq<int>,
    more: Seq<u8>,
)
    requires
        usable(model),
        indexes.len() > 0,
        values_fit(model, indexes, values, counts),
    ensures
        ({
            let interval = with_values(all_codes(), model, indexes, values, counts, 0);
            let written = word_bytes(interval.low, interval.words);
            let (found, end, error) = values_of(
                written + more,
                fresh_state(),
                model,
                indexes,
                0,
            );
            &&& found == values
            &&& error is None
            &&& end.position == written.len()
        }),
{
    assert(span(0) == 1);
    lemma_low(all_codes(), model, indexes, values, counts, 0);
    let interval = with_values(all_codes(), model, indexes, values, counts, 0);
    lemma_word_bytes(interval.low, interval.words, more);
    range_coded_values_read_back(
        word_bytes(interval.low, interval.words) + more,
        model,
        indexes,
        values,
        counts,
    );
}

} // verus!
