//! Side information of an ambisonic frame: basis directions, coupled pairs, levels and byte ratios.

use crate::bitreader::{bit_at, bit_capacity, bits, lemma_span_values, BitReader};
use crate::error::CodecError;
use crate::hoa_side::{
    is_hoa_pair, pair_count, resolve_hoa_pair_index, HoaConfig, HoaGroupConfig, HOA_BASIS_TABLE_LEN,
};
use vstd::prelude::*;

verus! {

/// Where a pair is coupled.
#[derive(Clone, Copy, Debug, PartialEq, Eq, Structural)]
pub enum HoaDmxMode {
    FullBand,
    ScaleFactorBand,
}

/// One coupled pair of a group.
#[derive(Clone, Copy, Debug, PartialEq, Eq)]
pub struct HoaPairSideInfo {
    pub pair_index: u16,
    pub first: u8,
    pub second: u8,
    pub mode: HoaDmxMode,
    /// For each scale factor band, whether the pair is coupled there.
    pub sfb_mask: [bool; 21],
}

/// Side information of one group.
#[derive(Clone, Debug, PartialEq, Eq)]
pub struct HoaGroupSideInfo {
    pub channels: u8,
    pub channel_offset: u8,
    pub pairs: Vec<HoaPairSideInfo>,
    /// Level index of each channel; `None` leaves the level unchanged.
    pub ild_indices: Vec<Option<u8>>,
    pub group_bits_ratio: u8,
    pub channel_bits_ratio: Vec<u8>,
}

/// Side information of an ambisonic frame.
#[derive(Clone, Debug, PartialEq, Eq)]
pub struct HoaSideInfo {
    pub scene_type: u8,
    pub spatial_analysis: bool,
    pub vector_channels: u8,
    pub basis_indices: Vec<u16>,
    pub groups: Vec<HoaGroupSideInfo>,
    pub next_bit_offset: usize,
}

/// What a pair says, in terms of the bits it is written in.
pub struct PairSyntax {
    pub index: int,
    pub mode: HoaDmxMode,
    pub mask: Seq<bool>,
    pub end: int,
}

/// The pair written at bit `start`: its number, of which the low 16 bits count, a bit for the mode,
/// and one bit per band where the pair is not coupled everywhere.
pub open spec fn hoa_pair_at(
    bytes: Seq<u8>,
    end: int,
    start: int,
    group: HoaGroupConfig,
) -> Result<PairSyntax, CodecError> {
    let width = group.pair_index_bits as int;
    let index = bits(bytes, start, width as nat) as int % 0x1_0000;
    let mode = start + width;
    if mode > end {
        Err(CodecError::Truncated)
    } else if group.channels < 2 {
        Err(CodecError::InvalidData("HOA pair resolution requires at least two channels"))
    } else if index >= pair_count(group.channels as int) {
        Err(CodecError::InvalidData("HOA pair index exceeds available channel combinations"))
    } else if mode + 1 > end {
        Err(CodecError::Truncated)
    } else if !bit_at(bytes, mode) {
        Ok(
            PairSyntax {
                index,
                mode: HoaDmxMode::FullBand,
                mask: Seq::new(21, |i: int| true),
                end: mode + 1,
            },
        )
    } else if mode + 22 > end {
        Err(CodecError::Truncated)
    } else {
        Ok(
            PairSyntax {
                index,
                mode: HoaDmxMode::ScaleFactorBand,
                mask: Seq::new(21, |i: int| bit_at(bytes, mode + 1 + i)),
                end: mode + 22,
            },
        )
    }
}

impl HoaPairSideInfo {
    /// The pair holds exactly what `syntax` says.
    pub open spec fn matches(&self, syntax: PairSyntax) -> bool {
        &&& self.pair_index == syntax.index
        &&& is_hoa_pair(self.first as int, self.second as int, syntax.index)
        &&& self.mode == syntax.mode
        &&& self.sfb_mask@ == syntax.mask
    }
}

/// The last `count` pairs of a group, and the bit after them.
pub open spec fn hoa_pairs_at(
    bytes: Seq<u8>,
    end: int,
    position: int,
    group: HoaGroupConfig,
    count: int,
) -> Result<(Seq<PairSyntax>, int), CodecError>
    decreases count,
{
    if count <= 0 {
        Ok((Seq::empty(), position))
    } else {
        match hoa_pair_at(bytes, end, position, group) {
            Err(error) => Err(error),
            Ok(pair) => match hoa_pairs_at(bytes, end, pair.end, group, count - 1) {
                Err(error) => Err(error),
                Ok((rest, next)) => Ok((seq![pair] + rest, next)),
            },
        }
    }
}

/// The last `count` level indices of a group: five bits each, of which 31 is reserved.
pub open spec fn hoa_levels_at(bytes: Seq<u8>, end: int, position: int, count: int) -> Result<
    Seq<Option<u8>>,
    CodecError,
>
    decreases count,
{
    let index = bits(bytes, position, 5);
    if count <= 0 {
        Ok(Seq::empty())
    } else if position + 5 > end {
        Err(CodecError::Truncated)
    } else if index == 31 {
        Err(CodecError::InvalidData("HOA ILD index 31 is reserved"))
    } else {
        match hoa_levels_at(bytes, end, position + 5, count - 1) {
            Err(error) => Err(error),
            Ok(rest) => Ok(
                seq![
                    if index == 30 {
                        None
                    } else {
                        Some(index as u8)
                    },
                ] + rest,
            ),
        }
    }
}

/// What a group says, in terms of the bits it is written in.
pub struct HoaGroupSyntax {
    pub pairs: Seq<PairSyntax>,
    pub levels: Seq<Option<u8>>,
    pub group_ratio: u8,
    pub channel_ratios: Seq<u8>,
    pub end: int,
}

/// The group written at bit `start`: the number of pairs, the pairs, one level per channel where
/// there is any pair, the byte ratio of the group and that of each channel.
pub open spec fn hoa_group_at(
    bytes: Seq<u8>,
    end: int,
    start: int,
    group: HoaGroupConfig,
) -> Result<HoaGroupSyntax, CodecError> {
    let count = bits(bytes, start, 4) as int;
    let channels = group.channels as int;
    if start + 4 > end {
        Err(CodecError::Truncated)
    } else if count > 8 {
        Err(CodecError::InvalidData("HOA group pair count exceeds decoder capacity"))
    } else {
        match hoa_pairs_at(bytes, end, start + 4, group, count) {
            Err(error) => Err(error),
            Ok((pairs, levels_start)) => {
                let transmitted = if count != 0 {
                    channels
                } else {
                    0
                };
                let ratios = levels_start + 5 * transmitted;
                match hoa_levels_at(bytes, end, levels_start, transmitted) {
                    Err(error) => Err(error),
                    Ok(levels) => if ratios + 4 + 4 * channels > end {
                        Err(CodecError::Truncated)
                    } else {
                        Ok(
                            HoaGroupSyntax {
                                pairs,
                                levels: if count != 0 {
                                    levels
                                } else {
                                    Seq::new(channels as nat, |i: int| None)
                                },
                                group_ratio: bits(bytes, ratios, 4) as u8,
                                channel_ratios: Seq::new(
                                    channels as nat,
                                    |i: int| bits(bytes, ratios + 4 + 4 * i, 4) as u8,
                                ),
                                end: ratios + 4 + 4 * channels,
                            },
                        )
                    },
                }
            },
        }
    }
}

/// The pairs hold exactly what `syntax` says.
pub open spec fn pairs_match(pairs: Seq<HoaPairSideInfo>, syntax: Seq<PairSyntax>) -> bool {
    &&& pairs.len() == syntax.len()
    &&& forall|i: int| 0 <= i < syntax.len() ==> (#[trigger] pairs[i]).matches(syntax[i])
}

impl HoaGroupSideInfo {
    /// The group holds exactly what `syntax` says.
    pub open spec fn matches(&self, config: HoaGroupConfig, syntax: HoaGroupSyntax) -> bool {
        &&& self.channels == config.channels
        &&& self.channel_offset == config.channel_offset
        &&& pairs_match(self.pairs@, syntax.pairs)
        &&& self.ild_indices@ == syntax.levels
        &&& self.group_bits_ratio == syntax.group_ratio
        &&& self.channel_bits_ratio@ == syntax.channel_ratios
    }
}

/// The groups from `group` on, and the bit after them.
pub open spec fn hoa_groups_at(
    bytes: Seq<u8>,
    end: int,
    position: int,
    configs: Seq<HoaGroupConfig>,
    group: int,
) -> Result<(Seq<HoaGroupSyntax>, int), CodecError>
    decreases configs.len() - group,
{
    if group >= configs.len() {
        Ok((Seq::empty(), position))
    } else {
        match hoa_group_at(bytes, end, position, configs[group]) {
            Err(error) => Err(error),
            Ok(syntax) => match hoa_groups_at(bytes, end, syntax.end, configs, group + 1) {
                Err(error) => Err(error),
                Ok((rest, next)) => Ok((seq![syntax] + rest, next)),
            },
        }
    }
}

/// The last `count` basis indices: twelve bits each, of which 1343 directions exist.
pub open spec fn hoa_basis_at(bytes: Seq<u8>, end: int, position: int, count: int) -> Result<
    Seq<u16>,
    CodecError,
>
    decreases count,
{
    if count <= 0 {
        Ok(Seq::empty())
    } else if position + 12 > end {
        Err(CodecError::Truncated)
    } else if bits(bytes, position, 12) >= HOA_BASIS_TABLE_LEN {
        Err(CodecError::InvalidData("HOA basis index exceeds the normative fixed-angle table"))
    } else {
        match hoa_basis_at(bytes, end, position + 12, count - 1) {
            Err(error) => Err(error),
            Ok(rest) => Ok(seq![bits(bytes, position, 12) as u16] + rest),
        }
    }
}

/// Most vectors that a frame with explicit spatial analysis may carry.
pub open spec fn vector_limit(config: HoaConfig) -> int {
    let recovered = config.transport_channels - config.residual_channels;
    if recovered < 4 {
        recovered
    } else {
        4
    }
}

/// The number of basis vectors of the block written at bit `start`.
pub open spec fn vector_count_at(
    bytes: Seq<u8>,
    end: int,
    start: int,
    config: HoaConfig,
) -> Result<int, CodecError> {
    let transmitted = bits(bytes, start + 5, 4) as int;
    if start + 5 > end {
        Err(CodecError::Truncated)
    } else if !bit_at(bytes, start + 4) {
        let default = if config.default_spatial_analysis {
            config.foreground_channels as int
        } else {
            0
        };
        if default > 4 {
            Err(CodecError::InvalidData("HOA vector-channel count exceeds four basis vectors"))
        } else {
            Ok(default)
        }
    } else if start + 9 > end {
        Err(CodecError::Truncated)
    } else if config.residual_channels > config.transport_channels {
        Err(CodecError::InvalidData("HOA recovery layout underflow"))
    } else if transmitted == 0 || transmitted > vector_limit(config) {
        Err(
            CodecError::InvalidData(
                "HOA vector-channel count exceeds the configured recovery basis",
            ),
        )
    } else {
        Ok(transmitted)
    }
}

/// What an ambisonic side information block says, in terms of the bits it is written in.
pub struct HoaSyntax {
    pub scene_type: u8,
    pub spatial_analysis: bool,
    pub basis: Seq<u16>,
    pub groups: Seq<HoaGroupSyntax>,
    pub end: int,
}

/// The ambisonic side information block written at bit `start`.
pub open spec fn hoa_syntax_at(
    bytes: Seq<u8>,
    end: int,
    start: int,
    config: HoaConfig,
) -> Result<HoaSyntax, CodecError> {
    match vector_count_at(bytes, end, start, config) {
        Err(error) => Err(error),
        Ok(count) => {
            let basis_start = if bit_at(bytes, start + 4) {
                start + 9
            } else {
                start + 5
            };
            match hoa_basis_at(bytes, end, basis_start, count) {
                Err(error) => Err(error),
                Ok(basis) => match hoa_groups_at(
                    bytes,
                    end,
                    basis_start + 12 * count,
                    config.groups@,
                    0,
                ) {
                    Err(error) => Err(error),
                    Ok((groups, next)) => Ok(
                        HoaSyntax {
                            scene_type: bits(bytes, start, 4) as u8,
                            spatial_analysis: bit_at(bytes, start + 4),
                            basis,
                            groups,
                            end: next,
                        },
                    ),
                },
            }
        },
    }
}

/// The groups hold exactly what `syntax` says.
pub open spec fn hoa_groups_match(
    groups: Seq<HoaGroupSideInfo>,
    configs: Seq<HoaGroupConfig>,
    syntax: Seq<HoaGroupSyntax>,
) -> bool {
    &&& groups.len() == syntax.len()
    &&& forall|i: int|
        0 <= i < syntax.len() ==> (#[trigger] groups[i]).matches(configs[i], syntax[i])
}

impl HoaSideInfo {
    /// The side information holds exactly what `syntax` says.
    pub open spec fn matches(&self, config: HoaConfig, syntax: HoaSyntax) -> bool {
        &&& self.scene_type == syntax.scene_type
        &&& self.spatial_analysis == syntax.spatial_analysis
        &&& self.vector_channels == syntax.basis.len()
        &&& self.basis_indices@ == syntax.basis
        &&& hoa_groups_match(self.groups@, config.groups@, syntax.groups)
        &&& self.next_bit_offset == syntax.end
    }
}

/// Read one coupled pair.
fn read_hoa_pair(reader: &mut BitReader<'_>, group: &HoaGroupConfig) -> (result: Result<
    HoaPairSideInfo,
    CodecError,
>)
    requires
        old(reader).well_formed(),
        group.pair_index_bits <= 32,
    ensures
        final(reader).same_source(old(reader)),
        match hoa_pair_at(old(reader).source(), old(reader).end(), old(reader).cursor(), *group) {
            Ok(syntax) => result is Ok && result->Ok_0.matches(syntax) && final(reader).cursor()
                == syntax.end,
            Err(error) => result == Err::<HoaPairSideInfo, CodecError>(error),
        },
{
    proof {
        lemma_span_values();
    }
    let ghost bytes = reader.source();
    let field: u32 = reader.read_bits(group.pair_index_bits)?;
    assert(field as u16 == field % 0x1_0000) by (bit_vector);
    let pair_index: u16 = field as u16;
    let (first, second) = resolve_hoa_pair_index(group.channels, pair_index)?;
    let ghost mode_bit = reader.cursor();
    let banded: bool = reader.read_bit()?;
    let mut sfb_mask: [bool; 21] = [true;21];
    if !banded {
        assert(sfb_mask@ =~= Seq::new(21, |i: int| true));
        return Ok(
            HoaPairSideInfo { pair_index, first, second, mode: HoaDmxMode::FullBand, sfb_mask },
        );
    }
    let mut band: usize = 0;
    while band < 21
        invariant
            band <= 21,
            reader.same_source(old(reader)),
            bytes == reader.source(),
            mode_bit == old(reader).cursor() + group.pair_index_bits,
            reader.cursor() == mode_bit + 1 + band,
            bit_at(bytes, mode_bit),
            group.channels >= 2,
            bits(bytes, old(reader).cursor(), group.pair_index_bits as nat) as int % 0x1_0000
                < pair_count(group.channels as int),
            forall|i: int|
                0 <= i < band ==> #[trigger] sfb_mask[i] == bit_at(bytes, mode_bit + 1 + i),
        decreases 21 - band,
    {
        sfb_mask[band] = reader.read_bit()?;
        band = band + 1;
    }
    assert(sfb_mask@ =~= Seq::new(21, |i: int| bit_at(bytes, mode_bit + 1 + i)));
    Ok(
        HoaPairSideInfo {
            pair_index,
            first,
            second,
            mode: HoaDmxMode::ScaleFactorBand,
            sfb_mask,
        },
    )
}

/// Read `count` coupled pairs.
fn read_hoa_pairs(reader: &mut BitReader<'_>, group: &HoaGroupConfig, count: usize) -> (result:
    Result<Vec<HoaPairSideInfo>, CodecError>)
    requires
        old(reader).well_formed(),
        group.pair_index_bits <= 32,
    ensures
        final(reader).same_source(old(reader)),
        match hoa_pairs_at(
            old(reader).source(),
            old(reader).end(),
            old(reader).cursor(),
            *group,
            count as int,
        ) {
            Ok((syntax, next)) => result is Ok && pairs_match(result->Ok_0@, syntax)
                && final(reader).cursor() == next,
            Err(error) => result == Err::<Vec<HoaPairSideInfo>, CodecError>(error),
        },
{
    let ghost bytes = reader.source();
    let ghost end = reader.end();
    let ghost start = reader.cursor();
    let mut pairs: Vec<HoaPairSideInfo> = Vec::new();
    let mut done: usize = 0;
    let ghost mut read = Seq::<PairSyntax>::empty();
    while done < count
        invariant
            done <= count,
            group.pair_index_bits <= 32,
            reader.same_source(old(reader)),
            bytes == reader.source(),
            end == reader.end(),
            start == old(reader).cursor(),
            read.len() == done,
            pairs_match(pairs@, read),
            match hoa_pairs_at(bytes, end, reader.cursor(), *group, count - done) {
                Ok((rest, next)) => hoa_pairs_at(bytes, end, start, *group, count as int) == Ok::<
                    (Seq<PairSyntax>, int),
                    CodecError,
                >((read + rest, next)),
                Err(error) => hoa_pairs_at(bytes, end, start, *group, count as int) == Err::<
                    (Seq<PairSyntax>, int),
                    CodecError,
                >(error),
            },
        decreases count - done,
    {
        let ghost position = reader.cursor();
        let pair = read_hoa_pair(reader, group)?;
        proof {
            let syntax = hoa_pair_at(bytes, end, position, *group)->Ok_0;
            if let Ok((rest, _)) = hoa_pairs_at(bytes, end, syntax.end, *group, count - done - 1) {
                assert(read + (seq![syntax] + rest) =~= read.push(syntax) + rest);
            }
            read = read.push(syntax);
        }
        pairs.push(pair);
        done = done + 1;
    }
    assert(read + Seq::<PairSyntax>::empty() =~= read);
    Ok(pairs)
}

/// Read `count` level indices.
fn read_hoa_levels(reader: &mut BitReader<'_>, count: usize) -> (result: Result<
    Vec<Option<u8>>,
    CodecError,
>)
    requires
        old(reader).well_formed(),
    ensures
        final(reader).same_source(old(reader)),
        match hoa_levels_at(
            old(reader).source(),
            old(reader).end(),
            old(reader).cursor(),
            count as int,
        ) {
            Ok(levels) => result is Ok && result->Ok_0@ == levels && final(reader).cursor() == old(
                reader,
            ).cursor() + 5 * count,
            Err(error) => result == Err::<Vec<Option<u8>>, CodecError>(error),
        },
{
    let ghost bytes = reader.source();
    let ghost end = reader.end();
    let ghost start = reader.cursor();
    let mut levels: Vec<Option<u8>> = Vec::new();
    let mut done: usize = 0;
    while done < count
        invariant
            done <= count,
            reader.same_source(old(reader)),
            bytes == reader.source(),
            end == reader.end(),
            start == old(reader).cursor(),
            reader.cursor() == start + 5 * done,
            levels@.len() == done,
            match hoa_levels_at(bytes, end, reader.cursor(), count - done) {
                Ok(rest) => hoa_levels_at(bytes, end, start, count as int) == Ok::<
                    Seq<Option<u8>>,
                    CodecError,
                >(levels@ + rest),
                Err(error) => hoa_levels_at(bytes, end, start, count as int) == Err::<
                    Seq<Option<u8>>,
                    CodecError,
                >(error),
            },
        decreases count - done,
    {
        proof {
            lemma_span_values();
        }
        let ghost before = levels@;
        let index: u8 = reader.read_bits(5)? as u8;
        if index == 31 {
            return Err(CodecError::InvalidData("HOA ILD index 31 is reserved"));
        }
        let level: Option<u8> = if index == 30 {
            None
        } else {
            Some(index)
        };
        levels.push(level);
        proof {
            if let Ok(rest) = hoa_levels_at(bytes, end, reader.cursor(), count - done - 1) {
                assert(before + (seq![level] + rest) =~= levels@ + rest);
            }
        }
        done = done + 1;
    }
    assert(levels@ + Seq::<Option<u8>>::empty() =~= levels@);
    Ok(levels)
}

/// Read the side information of one group.
fn read_hoa_group(reader: &mut BitReader<'_>, group: &HoaGroupConfig) -> (result: Result<
    HoaGroupSideInfo,
    CodecError,
>)
    requires
        old(reader).well_formed(),
        group.pair_index_bits <= 32,
    ensures
        final(reader).same_source(old(reader)),
        match hoa_group_at(old(reader).source(), old(reader).end(), old(reader).cursor(), *group) {
            Ok(syntax) => result is Ok && result->Ok_0.matches(*group, syntax)
                && final(reader).cursor() == syntax.end,
            Err(error) => result == Err::<HoaGroupSideInfo, CodecError>(error),
        },
{
    proof {
        lemma_span_values();
    }
    let ghost bytes = reader.source();
    let pair_count: usize = reader.read_bits(4)? as usize;
    if pair_count > 8 {
        return Err(CodecError::InvalidData("HOA group pair count exceeds decoder capacity"));
    }
    let pairs = read_hoa_pairs(reader, group, pair_count)?;
    let channels: usize = group.channels as usize;
    let ild_indices: Vec<Option<u8>> = if pair_count != 0 {
        read_hoa_levels(reader, channels)?
    } else {
        let mut unchanged: Vec<Option<u8>> = Vec::new();
        let mut channel: usize = 0;
        while channel < channels
            invariant
                channel <= channels,
                unchanged@ == Seq::new(channel as nat, |i: int| None::<u8>),
            decreases channels - channel,
        {
            unchanged.push(None);
            channel = channel + 1;
            assert(unchanged@ =~= Seq::new(channel as nat, |i: int| None::<u8>));
        }
        unchanged
    };
    let ghost ratios = reader.cursor();
    let ghost goal = hoa_group_at(bytes, old(reader).end(), old(reader).cursor(), *group);
    assert(goal == if ratios + 4 + 4 * channels > old(reader).end() {
        Err::<HoaGroupSyntax, CodecError>(CodecError::Truncated)
    } else {
        goal
    });
    let group_bits_ratio: u8 = reader.read_bits(4)? as u8;
    let mut channel_bits_ratio: Vec<u8> = Vec::new();
    let mut channel: usize = 0;
    while channel < channels
        invariant
            channel <= channels,
            channels == group.channels,
            reader.same_source(old(reader)),
            bytes == reader.source(),
            reader.cursor() == ratios + 4 + 4 * channel,
            channel_bits_ratio@.len() == channel,
            goal == hoa_group_at(bytes, old(reader).end(), old(reader).cursor(), *group),
            goal == if ratios + 4 + 4 * channels > old(reader).end() {
                Err::<HoaGroupSyntax, CodecError>(CodecError::Truncated)
            } else {
                goal
            },
            forall|i: int|
                0 <= i < channel ==> #[trigger] channel_bits_ratio@[i] == bits(
                    bytes,
                    ratios + 4 + 4 * i,
                    4,
                ) as u8,
        decreases channels - channel,
    {
        proof {
            lemma_span_values();
        }
        let ratio: u8 = reader.read_bits(4)? as u8;
        channel_bits_ratio.push(ratio);
        channel = channel + 1;
    }
    proof {
        if let Ok(syntax) = goal {
            assert(channel_bits_ratio@ =~= syntax.channel_ratios);
            assert(ild_indices@ =~= syntax.levels);
        }
    }
    Ok(
        HoaGroupSideInfo {
            channels: group.channels,
            channel_offset: group.channel_offset,
            pairs,
            ild_indices,
            group_bits_ratio,
            channel_bits_ratio,
        },
    )
}

/// Read `count` basis indices.
fn read_hoa_basis(reader: &mut BitReader<'_>, count: usize) -> (result: Result<
    Vec<u16>,
    CodecError,
>)
    requires
        old(reader).well_formed(),
    ensures
        final(reader).same_source(old(reader)),
        match hoa_basis_at(
            old(reader).source(),
            old(reader).end(),
            old(reader).cursor(),
            count as int,
        ) {
            Ok(basis) => result is Ok && result->Ok_0@ == basis && basis.len() == count
                && final(reader).cursor() == old(reader).cursor() + 12 * count,
            Err(error) => result == Err::<Vec<u16>, CodecError>(error),
        },
{
    let ghost bytes = reader.source();
    let ghost end = reader.end();
    let ghost start = reader.cursor();
    let mut basis: Vec<u16> = Vec::new();
    let mut done: usize = 0;
    while done < count
        invariant
            done <= count,
            reader.same_source(old(reader)),
            bytes == reader.source(),
            end == reader.end(),
            start == old(reader).cursor(),
            reader.cursor() == start + 12 * done,
            basis@.len() == done,
            match hoa_basis_at(bytes, end, reader.cursor(), count - done) {
                Ok(rest) => hoa_basis_at(bytes, end, start, count as int) == Ok::<
                    Seq<u16>,
                    CodecError,
                >(basis@ + rest),
                Err(error) => hoa_basis_at(bytes, end, start, count as int) == Err::<
                    Seq<u16>,
                    CodecError,
                >(error),
            },
        decreases count - done,
    {
        proof {
            lemma_span_values();
        }
        let ghost before = basis@;
        let index: u16 = reader.read_bits(12)? as u16;
        if index as usize >= HOA_BASIS_TABLE_LEN {
            return Err(
                CodecError::InvalidData("HOA basis index exceeds the normative fixed-angle table"),
            );
        }
        basis.push(index);
        proof {
            if let Ok(rest) = hoa_basis_at(bytes, end, reader.cursor(), count - done - 1) {
                assert(before + (seq![index] + rest) =~= basis@ + rest);
            }
        }
        done = done + 1;
    }
    assert(basis@ + Seq::<u16>::empty() =~= basis@);
    Ok(basis)
}

/// Parse the ambisonic side information block that starts at bit `bit_offset` of `payload`.
pub fn parse_hoa_side_info_at(payload: &[u8], bit_offset: usize, config: &HoaConfig) -> (result:
    Result<HoaSideInfo, CodecError>)
    requires
        forall|i: int|
            0 <= i < config.groups@.len() ==> (#[trigger] config.groups@[i]).pair_index_bits <= 32,
    ensures
        match hoa_syntax_at(payload@, bit_capacity(payload@), bit_offset as int, *config) {
            Ok(syntax) => result is Ok && result->Ok_0.matches(*config, syntax),
            Err(error) => result == Err::<HoaSideInfo, CodecError>(error),
        },
{
    proof {
        lemma_span_values();
    }
    let ghost bytes = payload@;
    let ghost end = bit_capacity(payload@);
    let mut reader = BitReader::with_bit_position(payload, bit_offset)?;
    let scene_type: u8 = reader.read_bits(4)? as u8;
    let spatial_analysis: bool = reader.read_bit()?;
    let mut vector_channels: u8 = if config.default_spatial_analysis {
        config.foreground_channels
    } else {
        0
    };
    if spatial_analysis {
        vector_channels = reader.read_bits(4)? as u8;
        if config.residual_channels > config.transport_channels {
            return Err(CodecError::InvalidData("HOA recovery layout underflow"));
        }
        let recovered: u8 = config.transport_channels - config.residual_channels;
        let limit: u8 = if recovered < 4 {
            recovered
        } else {
            4
        };
        if vector_channels == 0 || vector_channels > limit {
            return Err(
                CodecError::InvalidData(
                    "HOA vector-channel count exceeds the configured recovery basis",
                ),
            );
        }
    }
    if vector_channels > 4 {
        return Err(CodecError::InvalidData("HOA vector-channel count exceeds four basis vectors"));
    }
    let ghost basis_start = reader.cursor();
    let basis_indices = read_hoa_basis(&mut reader, vector_channels as usize)?;
    let ghost groups_start = reader.cursor();
    let mut groups: Vec<HoaGroupSideInfo> = Vec::new();
    let mut index: usize = 0;
    let ghost mut read = Seq::<HoaGroupSyntax>::empty();
    while index < config.groups.len()
        invariant
            index <= config.groups@.len(),
            forall|i: int|
                0 <= i < config.groups@.len() ==> (#[trigger] config.groups@[i]).pair_index_bits
                    <= 32,
            reader.well_formed(),
            bytes == payload@,
            end == bit_capacity(payload@),
            bytes == reader.source(),
            end == reader.end(),
            vector_count_at(bytes, end, bit_offset as int, *config) == Ok::<int, CodecError>(
                vector_channels as int,
            ),
            basis_start == bit_offset + if bit_at(bytes, bit_offset + 4) {
                9int
            } else {
                5int
            },
            groups_start == basis_start + 12 * vector_channels,
            hoa_basis_at(bytes, end, basis_start, vector_channels as int) == Ok::<
                Seq<u16>,
                CodecError,
            >(basis_indices@),
            read.len() == index,
            hoa_groups_match(groups@, config.groups@, read),
            match hoa_groups_at(bytes, end, reader.cursor(), config.groups@, index as int) {
                Ok((rest, next)) => hoa_groups_at(bytes, end, groups_start, config.groups@, 0)
                    == Ok::<(Seq<HoaGroupSyntax>, int), CodecError>((read + rest, next)),
                Err(error) => hoa_groups_at(bytes, end, groups_start, config.groups@, 0) == Err::<
                    (Seq<HoaGroupSyntax>, int),
                    CodecError,
                >(error),
            },
        decreases config.groups@.len() - index,
    {
        let ghost position = reader.cursor();
        let group = read_hoa_group(&mut reader, &config.groups[index])?;
        proof {
            let syntax = hoa_group_at(bytes, end, position, config.groups@[index as int])->Ok_0;
            if let Ok((rest, _)) = hoa_groups_at(
                bytes,
                end,
                syntax.end,
                config.groups@,
                index as int + 1,
            ) {
                assert(read + (seq![syntax] + rest) =~= read.push(syntax) + rest);
            }
            read = read.push(syntax);
        }
        groups.push(group);
        index = index + 1;
    }
    assert(read + Seq::<HoaGroupSyntax>::empty() =~= read);
    Ok(
        HoaSideInfo {
            scene_type,
            spatial_analysis,
            vector_channels,
            basis_indices,
            groups,
            next_bit_offset: reader.position_bits(),
        },
    )
}

proof fn lemma_pairs_bounds(
    bytes: Seq<u8>,
    end: int,
    position: int,
    group: HoaGroupConfig,
    count: int,
)
    requires
        position <= end,
    ensures
        hoa_pairs_at(bytes, end, position, group, count) matches Ok((pairs, next)) ==> position
            <= next <= end,
    decreases count,
{
    if count > 0 {
        if let Ok(pair) = hoa_pair_at(bytes, end, position, group) {
            lemma_pairs_bounds(bytes, end, pair.end, group, count - 1);
        }
    }
}

proof fn lemma_groups_bounds(
    bytes: Seq<u8>,
    end: int,
    position: int,
    configs: Seq<HoaGroupConfig>,
    group: int,
)
    requires
        position <= end,
        0 <= group <= configs.len(),
    ensures
        hoa_groups_at(bytes, end, position, configs, group) matches Ok((groups, next)) ==> position
            <= next <= end && groups.len() == configs.len() - group,
    decreases configs.len() - group,
{
    if group < configs.len() {
        if let Ok(syntax) = hoa_group_at(bytes, end, position, configs[group]) {
            lemma_pairs_bounds(
                bytes,
                end,
                position + 4,
                configs[group],
                bits(bytes, position, 4) as int,
            );
            lemma_groups_bounds(bytes, end, syntax.end, configs, group + 1);
        }
    }
}

proof fn lemma_basis_bounds(bytes: Seq<u8>, end: int, position: int, count: int)
    requires
        position <= end,
        0 <= count,
    ensures
        hoa_basis_at(bytes, end, position, count) is Ok ==> position + 12 * count <= end,
    decreases count,
{
    if count > 0 && position + 12 <= end {
        lemma_basis_bounds(bytes, end, position + 12, count - 1);
    }
}

/// An ambisonic block that was read lies inside the data, behind its start, and has one entry per
/// configured group.
pub proof fn lemma_hoa_syntax_bounds(bytes: Seq<u8>, end: int, start: int, config: HoaConfig)
    ensures
        hoa_syntax_at(bytes, end, start, config) matches Ok(syntax) ==> start < syntax.end <= end
            && syntax.groups.len() == config.groups@.len(),
{
    if let Ok(count) = vector_count_at(bytes, end, start, config) {
        let basis_start = if bit_at(bytes, start + 4) {
            start + 9
        } else {
            start + 5
        };
        lemma_basis_bounds(bytes, end, basis_start, count);
        if hoa_basis_at(bytes, end, basis_start, count) is Ok {
            lemma_groups_bounds(bytes, end, basis_start + 12 * count, config.groups@, 0);
        }
    }
}

} // verus!
