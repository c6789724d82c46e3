//! Which latents get noise, said of the latents themselves.

use crate::engine::latent::{lemma_place, lemma_place_back, LatentShape};
use crate::engine::model::LayerSyntax;
use crate::engine::neural_qc::{
    draws_from, lemma_noise_range, noise_range, noisy_in_group, noisy_latents, strided_lines,
    transient_blocks, NoiseFilling, NoiseGroup,
};
use vstd::prelude::*;

verus! {

/// Two numbers are equal: neither is no number at all, and they have the same pattern but for the
/// sign of a zero.
pub open spec fn same_number(first: u32, second: u32) -> bool {
    let magnitude = |bits: u32| bits as int % 0x8000_0000;
    &&& magnitude(first) <= 0x7F80_0000 && magnitude(second) <= 0x7F80_0000
    &&& first == second || magnitude(first) == 0 && magnitude(second) == 0
}

/// Whether the library takes two numbers for equal is whether they are.
proof fn lemma_same_number(first: u32, second: u32)
    ensures
        crate::float_bits::equal(first, second) == same_number(first, second),
{
}

/// The place of a latent in the order in which noise is drawn: all channels of one dimension come
/// before the next.
pub open spec fn draw_order(position: int, dimensions: int, channels: int) -> int {
    position % dimensions * channels + position / dimensions
}

proof fn lemma_noisy_members(
    latents: Seq<u32>,
    medians: Seq<u32>,
    dimensions: int,
    from: int,
    end: int,
)
    requires
        0 <= from,
        end <= dimensions * medians.len(),
        medians.len() > 0,
        dimensions > 0,
        dimensions * medians.len() <= usize::MAX,
    ensures
        ({
            let list = noisy_latents(latents, medians, dimensions, from, end);
            let channels = medians.len() as int;
            &&& forall|i: int|
                0 <= i < list.len() ==> {
                    &&& from <= draw_order(#[trigger] list[i] as int, dimensions, channels) < end
                    &&& list[i] < dimensions * channels
                    &&& same_number(latents[list[i] as int], medians[list[i] as int / dimensions])
                }
            &&& forall|i: int, j: int|
                0 <= i < j < list.len() ==> draw_order(
                    #[trigger] list[i] as int,
                    dimensions,
                    channels,
                ) < draw_order(#[trigger] list[j] as int, dimensions, channels)
            &&& forall|channel: int, dimension: int|
                0 <= channel < channels && 0 <= dimension < dimensions && from <= dimension
                    * channels + channel < end && same_number(
                    #[trigger] latents[channel * dimensions + dimension],
                    medians[channel],
                ) ==> list.contains((channel * dimensions + dimension) as usize)
        }),
    decreases end - from,
{
    let channels = medians.len() as int;
    let list = noisy_latents(latents, medians, dimensions, from, end);
    if from < end {
        let rest = noisy_latents(latents, medians, dimensions, from + 1, end);
        lemma_noisy_members(latents, medians, dimensions, from + 1, end);
        let channel = from % channels;
        let dimension = from / channels;
        let index = channel * dimensions + dimension;
        assert(dimensions * channels == channels * dimensions) by (nonlinear_arith);
        lemma_place(channels, dimensions, from);
        lemma_place_back(dimensions, channels, channel, dimension);
        assert(index % dimensions == dimension && index / dimensions == channel) by {
            vstd::arithmetic::div_mod::lemma_fundamental_div_mod_converse(
                index,
                dimensions,
                channel,
                dimension,
            );
        }
        assert(dimension * channels + channel == from) by {
            vstd::arithmetic::div_mod::lemma_fundamental_div_mod(from, channels);
            vstd::arithmetic::mul::lemma_mul_is_commutative(channels, dimension);
        }
        lemma_same_number(latents[index], medians[channel]);
        assert forall|c: int, d: int|
            0 <= c < channels && 0 <= d < dimensions && from <= d * channels + c < end
                && same_number(#[trigger] latents[c * dimensions + d], medians[c]) implies list.contains(
            (c * dimensions + d) as usize) by {
            if d * channels + c == from {
                vstd::arithmetic::div_mod::lemma_fundamental_div_mod_converse(from, channels, d, c);
                assert(list[0] == (c * dimensions + d) as usize);
            } else {
                let value = (c * dimensions + d) as usize;
                assert(rest.contains(value));
                let place = choose|i: int| 0 <= i < rest.len() && rest[i] == value;
                if list.len() == rest.len() + 1 {
                    assert(list[place + 1] == value);
                } else {
                    assert(list == rest);
                }
            }
        }
        if crate::float_bits::equal(latents[index], medians[channel]) {
            assert(list =~= seq![index as usize] + rest);
            assert forall|i: int| 0 <= i < list.len() implies ({
                &&& from <= draw_order(#[trigger] list[i] as int, dimensions, channels) < end
                &&& list[i] < dimensions * channels
                &&& same_number(latents[list[i] as int], medians[list[i] as int / dimensions])
            }) by {
                if i > 0 {
                    assert(list[i] == rest[i - 1]);
                }
            }
            assert forall|i: int, j: int| 0 <= i < j < list.len() implies draw_order(
                #[trigger] list[i] as int,
                dimensions,
                channels,
            ) < draw_order(#[trigger] list[j] as int, dimensions, channels) by {
                assert(list[j] == rest[j - 1]);
                if i > 0 {
                    assert(list[i] == rest[i - 1]);
                }
            }
        }
    }
}

/// Noise goes to the latents at the zero point of their channel and to no others.
///
/// Every latent that is listed for a group is one of a dimension that the group reaches and equals
/// the median of its channel, and every latent of such a dimension that equals the median of its
/// channel is listed. The list has all channels of a dimension before the next dimension, so nothing
/// is listed twice.
pub proof fn noise_goes_to_the_zeroed_latents(
    latents: Seq<u32>,
    medians: Seq<u32>,
    shape: LatentShape,
    noise_dimensions: int,
    filling: NoiseFilling,
    group: int,
)
    requires
        shape.well_formed(),
        filling.well_formed(),
        0 <= noise_dimensions <= shape.dimensions,
        0 <= group < 2,
        medians.len() == shape.channels,
        latents.len() == shape.dimensions * shape.channels,
        latents.len() <= usize::MAX,
    ensures
        ({
            let list = noisy_in_group(latents, medians, shape, noise_dimensions, filling, group);
            let (start, end) = noise_range(
                shape.dimensions as int,
                noise_dimensions,
                filling,
                group,
            );
            let dimensions = shape.dimensions as int;
            let channels = shape.channels as int;
            &&& forall|i: int|
                0 <= i < list.len() ==> {
                    &&& #[trigger] list[i] < latents.len()
                    &&& start <= list[i] as int % dimensions < end
                    &&& same_number(latents[list[i] as int], medians[list[i] as int / dimensions])
                }
            &&& forall|channel: int, dimension: int|
                0 <= channel < channels && start <= dimension < end && same_number(
                    #[trigger] latents[channel * dimensions + dimension],
                    medians[channel],
                ) ==> list.contains((channel * dimensions + dimension) as usize)
            &&& forall|i: int, j: int|
                0 <= i < j < list.len() ==> draw_order(
                    #[trigger] list[i] as int,
                    dimensions,
                    channels,
                ) < draw_order(#[trigger] list[j] as int, dimensions, channels)
        }),
{
    let list = noisy_in_group(latents, medians, shape, noise_dimensions, filling, group);
    let dimensions = shape.dimensions as int;
    let channels = shape.channels as int;
    let (start, end) = noise_range(dimensions, noise_dimensions, filling, group);
    lemma_noise_range(dimensions, noise_dimensions, filling, group);
    assert(0 <= start * channels && end * channels <= dimensions * channels) by (nonlinear_arith)
        requires
            0 <= start,
            end <= dimensions,
            0 <= channels,
    ;
    lemma_noisy_members(latents, medians, dimensions, start * channels, end * channels);
    assert forall|i: int| 0 <= i < list.len() implies ({
        &&& #[trigger] list[i] < latents.len()
        &&& start <= list[i] as int % dimensions < end
        &&& same_number(latents[list[i] as int], medians[list[i] as int / dimensions])
    }) by {
        let d = list[i] as int % dimensions;
        let c = list[i] as int / dimensions;
        assert(start * channels <= draw_order(list[i] as int, dimensions, channels) < end
            * channels);
        assert(dimensions * channels == channels * dimensions) by (nonlinear_arith);
        lemma_place(dimensions, channels, list[i] as int);
        assert(start <= d < end) by (nonlinear_arith)
            requires
                start * channels <= d * channels + c < end * channels,
                0 <= c < channels,
        ;
    }
    assert forall|channel: int, dimension: int|
        0 <= channel < channels && start <= dimension < end && same_number(
            #[trigger] latents[channel * dimensions + dimension],
            medians[channel],
        ) implies list.contains((channel * dimensions + dimension) as usize) by {
        assert(start * channels <= dimension * channels + channel < end * channels)
            by (nonlinear_arith)
            requires
                0 <= channel < channels,
                start <= dimension < end,
        ;
    }
}

/// Noise is drawn as often as latents are listed: once for each of the only group, or of both.
pub proof fn noise_is_drawn_once_for_each_latent(
    latents: Seq<u32>,
    medians: Seq<u32>,
    shape: LatentShape,
    noise_dimensions: int,
    filling: NoiseFilling,
)
    requires
        filling.well_formed(),
    ensures
        ({
            let first = noisy_in_group(latents, medians, shape, noise_dimensions, filling, 0).len();
            let second = noisy_in_group(latents, medians, shape, noise_dimensions, filling, 1).len();
            draws_from(latents, medians, shape, noise_dimensions, filling, 0) == if filling.groups()
                == 1 {
                first
            } else {
                first + second
            }
        }),
{
    reveal_with_fuel(draws_from, 3);
}

proof fn lemma_transient_count(indicator: Seq<NoiseGroup>, count: int)
    requires
        0 <= count,
    ensures
        transient_blocks(indicator, count) == Set::new(
            |i: int| 0 <= i < count && indicator[i] is Transient,
        ).len(),
        Set::new(|i: int| 0 <= i < count && indicator[i] is Transient).finite(),
    decreases count,
{
    let all = Set::new(|i: int| 0 <= i < count && indicator[i] is Transient);
    if count > 0 {
        let fewer = Set::new(|i: int| 0 <= i < count - 1 && indicator[i] is Transient);
        lemma_transient_count(indicator, count - 1);
        if indicator[count - 1] is Transient {
            assert(all =~= fewer.insert(count - 1));
        } else {
            assert(all =~= fewer);
        }
    } else {
        assert(all =~= Set::empty());
    }
}

/// One group reaches the first dimensions, as many as noise reaches. Of two groups, each reaches as
/// many eighths of them as it has short blocks, rounded down; the transient blocks start at the
/// first dimension, the others behind as many eighths of all dimensions.
pub proof fn noise_is_shared_by_the_blocks(
    dimensions: int,
    noise_dimensions: int,
    filling: NoiseFilling,
)
    requires
        filling.well_formed(),
        0 <= noise_dimensions <= dimensions,
    ensures
        ({
            let transient = Set::new(
                |i: int| 0 <= i < 8 && filling.indicator()[i] is Transient,
            ).len() as int;
            let (start0, end0) = noise_range(dimensions, noise_dimensions, filling, 0);
            let (start1, end1) = noise_range(dimensions, noise_dimensions, filling, 1);
            &&& start0 == 0
            &&& filling.groups() == 1 ==> end0 == noise_dimensions
            &&& filling.groups() == 2 ==> {
                &&& 8 * end0 <= noise_dimensions * transient < 8 * end0 + 8
                &&& start1 == transient * (dimensions / 8)
                &&& 8 * (end1 - start1) <= noise_dimensions * (8 - transient) < 8 * (end1 - start1)
                    + 8
            }
        }),
{
    lemma_transient_count(filling.indicator(), 8);
    let transient = transient_blocks(filling.indicator(), 8);
    assert(dimensions / 8 * transient == transient * (dimensions / 8)) by (nonlinear_arith);
}

/// The strides of the layers from `from` on, multiplied.
pub open spec fn stride_product(layers: Seq<LayerSyntax>, from: int) -> int
    decreases layers.len() - from,
{
    if from >= layers.len() {
        1
    } else {
        layers[from].stride * stride_product(layers, from + 1)
    }
}

proof fn lemma_strided(layers: Seq<LayerSyntax>, lines: int, from: int)
    requires
        0 <= lines,
        0 <= from,
        forall|i: int| 0 <= i < layers.len() ==> (#[trigger] layers[i]).stride > 0,
    ensures
        ({
            let dimensions = strided_lines(layers, lines, from);
            let product = stride_product(layers, from);
            &&& product > 0
            &&& dimensions * product <= lines < (dimensions + 1) * product
            &&& 0 <= dimensions
        }),
    decreases layers.len() - from,
{
    if from < layers.len() {
        let stride = layers[from].stride as int;
        assert(stride > 0);
        let next = lines / stride;
        vstd::arithmetic::div_mod::lemma_fundamental_div_mod(lines, stride);
        vstd::arithmetic::div_mod::lemma_mod_bound(lines, stride);
        vstd::arithmetic::div_mod::lemma_div_pos_is_pos(lines, stride);
        lemma_strided(layers, next, from + 1);
        assert(stride * (next + 1) == stride * next + stride) by (nonlinear_arith);
        let dimensions = strided_lines(layers, next, from + 1);
        let later = stride_product(layers, from + 1);
        assert(stride * later > 0 && dimensions * (stride * later) <= lines && lines < (dimensions
            + 1) * (stride * later)) by (nonlinear_arith)
            requires
                stride > 0,
                later > 0,
                dimensions * later <= next,
                next + 1 <= (dimensions + 1) * later,
                stride * next <= lines < stride * (next + 1),
        ;
    } else {
        assert(lines * 1 == lines) by (nonlinear_arith);
        assert((lines + 1) * 1 == lines + 1) by (nonlinear_arith);
    }
}

/// Noise reaches the latent dimensions that its spectrum lines come from: as many as there are lines,
/// divided by the strides of all layers of the network and rounded down.
pub proof fn noise_reaches_its_lines(layers: Seq<LayerSyntax>, lines: int)
    requires
        0 <= lines,
        forall|i: int| 0 <= i < layers.len() ==> (#[trigger] layers[i]).stride > 0,
    ensures
        ({
            let dimensions = strided_lines(layers, lines, 0);
            let product = stride_product(layers, 0);
            dimensions * product <= lines < (dimensions + 1) * product
        }),
{
    lemma_strided(layers, lines, 0);
}

} // verus!
