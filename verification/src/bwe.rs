//! Bandwidth extension side information: envelope indices and whitening levels.

use crate::bitreader::{bit_at, bit_capacity, bits, lemma_span_values, BitReader};
use crate::error::CodecError;
use vstd::prelude::*;

verus! {

/// Most scale factor bands that a configuration can have.
pub const BWE_MAX_BANDS: usize = 16;

/// Most frequency tiles that a configuration can have.
pub const BWE_MAX_TILES: usize = 8;

/// How strongly a copied tile is whitened.
#[derive(Clone, Copy, Debug, PartialEq, Eq, Structural)]
pub enum WhiteningLevel {
    Off,
    Mid,
    High,
}

/// Which lines a frame extends, and from where.
#[derive(Clone, Copy, Debug, PartialEq, Eq)]
pub struct BweConfig {
    /// Number of scale factor bands.
    pub band_count: u8,
    /// Number of tiles.
    pub tile_count: u8,
    /// Band boundaries, one more than there are bands.
    pub scale_factor_bands: [Option<u16>; 17],
    /// Tile boundaries, one more than there are tiles.
    pub target_tiles: [Option<u16>; 9],
    /// First source line of each tile.
    pub source_tiles: [Option<u16>; 8],
}

/// Decoded bandwidth extension side information.
#[derive(Clone, Copy, Debug, PartialEq, Eq)]
pub struct BweSideInfo {
    /// Envelope index of each band; zero behind the last one.
    pub envelope_indices: [u8; 16],
    /// Whitening of each tile; off behind the last one.
    pub whitening: [WhiteningLevel; 8],
    pub next_bit_offset: usize,
}

/// The whitening level written at bit `position`: one bit for off, two for the others.
pub open spec fn whitening_at(bytes: Seq<u8>, position: int) -> WhiteningLevel {
    if !bit_at(bytes, position) {
        WhiteningLevel::Off
    } else if !bit_at(bytes, position + 1) {
        WhiteningLevel::Mid
    } else {
        WhiteningLevel::High
    }
}

/// How many bits that level takes.
pub open spec fn whitening_width(bytes: Seq<u8>, position: int) -> int {
    if bit_at(bytes, position) {
        2
    } else {
        1
    }
}

/// First bit of the whitening level of tile `tile`, where the first one is at `start`.
pub open spec fn whitening_start(bytes: Seq<u8>, start: int, tile: int) -> int
    decreases tile,
{
    if tile <= 0 {
        start
    } else {
        let previous = whitening_start(bytes, start, tile - 1);
        previous + whitening_width(bytes, previous)
    }
}

/// What a bandwidth extension block says, in terms of the bits it is written in.
pub struct BweSyntax {
    pub envelope: Seq<u8>,
    pub whitening: Seq<WhiteningLevel>,
    pub end: int,
}

/// The bandwidth extension block written at bit `start`: seven bits per band, then one whitening
/// level per tile.
#[verifier::opaque]
pub open spec fn bwe_syntax_at(
    bytes: Seq<u8>,
    end: int,
    start: int,
    config: BweConfig,
) -> Result<BweSyntax, CodecError> {
    let levels = start + 7 * config.band_count;
    if start > end {
        Err(CodecError::Truncated)
    } else if config.band_count > 16 || config.tile_count > 8 {
        Err(CodecError::InvalidData("BWE configuration exceeds decoder geometry"))
    } else if levels > end || whitening_start(bytes, levels, config.tile_count as int) > end {
        Err(CodecError::Truncated)
    } else {
        Ok(
            BweSyntax {
                envelope: Seq::new(
                    16,
                    |band: int|
                        if band < config.band_count {
                            bits(bytes, start + 7 * band, 7) as u8
                        } else {
                            0u8
                        },
                ),
                whitening: Seq::new(
                    8,
                    |tile: int|
                        if tile < config.tile_count {
                            whitening_at(bytes, whitening_start(bytes, levels, tile))
                        } else {
                            WhiteningLevel::Off
                        },
                ),
                end: whitening_start(bytes, levels, config.tile_count as int),
            },
        )
    }
}

impl BweSideInfo {
    /// The side information holds exactly what `syntax` says.
    pub open spec fn matches(&self, syntax: BweSyntax) -> bool {
        &&& self.envelope_indices@ == syntax.envelope
        &&& self.whitening@ == syntax.whitening
        &&& self.next_bit_offset == syntax.end
    }
}

/// Later whitening levels start later.
proof fn lemma_whitening_monotone(bytes: Seq<u8>, start: int, a: int, b: int)
    requires
        0 <= a <= b,
    ensures
        start <= whitening_start(bytes, start, a) <= whitening_start(bytes, start, b),
    decreases b,
{
    if a < b {
        lemma_whitening_monotone(bytes, start, a, b - 1);
    } else if a > 0 {
        lemma_whitening_monotone(bytes, start, a - 1, b - 1);
    }
}

/// A bandwidth extension block that was read lies inside the data, not before its start.
pub proof fn lemma_bwe_syntax_bounds(bytes: Seq<u8>, end: int, start: int, config: BweConfig)
    ensures
        bwe_syntax_at(bytes, end, start, config) matches Ok(syntax) ==> start <= syntax.end <= end,
{
    reveal(bwe_syntax_at);
    lemma_whitening_monotone(
        bytes,
        start + 7 * config.band_count,
        0,
        config.tile_count as int,
    );
}

impl BweConfig {
    /// Read the bandwidth extension block of one channel.
    pub fn read_side_info(&self, reader: &mut BitReader<'_>) -> (result: Result<
        BweSideInfo,
        CodecError,
    >)
        requires
            old(reader).well_formed(),
        ensures
            final(reader).same_source(old(reader)),
            match bwe_syntax_at(
                old(reader).source(),
                old(reader).end(),
                old(reader).cursor(),
                *self,
            ) {
                Ok(syntax) => result is Ok && result->Ok_0.matches(syntax)
                    && final(reader).cursor() == syntax.end,
                Err(error) => result == Err::<BweSideInfo, CodecError>(error),
            },
    {
        proof {
            reveal(bwe_syntax_at);
        }
        if self.band_count > 16 || self.tile_count > 8 {
            return Err(CodecError::InvalidData("BWE configuration exceeds decoder geometry"));
        }
        let ghost bytes = reader.source();
        let ghost start = reader.cursor();
        let ghost levels = start + 7 * self.band_count;
        let mut envelope_indices: [u8; 16] = [0;16];
        let mut band: usize = 0;
        while band < self.band_count as usize
            invariant
                band <= self.band_count <= 16,
                self.tile_count <= 8,
                reader.same_source(old(reader)),
                bytes == reader.source(),
                start == old(reader).cursor(),
                levels == start + 7 * self.band_count,
                reader.cursor() == start + 7 * band,
                forall|i: int|
                    0 <= i < 16 ==> #[trigger] envelope_indices[i] == if i < band {
                        bits(bytes, start + 7 * i, 7) as u8
                    } else {
                        0u8
                    },
            decreases self.band_count - band,
        {
            proof {
                lemma_span_values();
                reveal(bwe_syntax_at);
            }
            envelope_indices[band] = reader.read_bits(7)? as u8;
            band = band + 1;
        }
        let mut whitening: [WhiteningLevel; 8] = [WhiteningLevel::Off;8];
        let mut tile: usize = 0;
        while tile < self.tile_count as usize
            invariant
                tile <= self.tile_count <= 8,
                self.band_count <= 16,
                reader.same_source(old(reader)),
                bytes == reader.source(),
                start == old(reader).cursor(),
                levels == start + 7 * self.band_count,
                levels <= reader.end(),
                reader.cursor() == whitening_start(bytes, levels, tile as int),
                forall|i: int|
                    0 <= i < 8 ==> #[trigger] whitening[i] == if i < tile {
                        whitening_at(bytes, whitening_start(bytes, levels, i))
                    } else {
                        WhiteningLevel::Off
                    },
            decreases self.tile_count - tile,
        {
            proof {
                reveal(bwe_syntax_at);
                lemma_whitening_monotone(
                    bytes,
                    levels,
                    tile as int + 1,
                    self.tile_count as int,
                );
            }
            let present: bool = reader.read_bit()?;
            if present {
                let high: bool = reader.read_bit()?;
                whitening[tile] = if high {
                    WhiteningLevel::High
                } else {
                    WhiteningLevel::Mid
                };
            }
            tile = tile + 1;
        }
        let next_bit_offset: usize = reader.position_bits();
        proof {
            if let Ok(syntax) = bwe_syntax_at(bytes, old(reader).end(), start, *self) {
                assert(envelope_indices@ =~= syntax.envelope);
                assert(whitening@ =~= syntax.whitening);
            }
        }
        Ok(BweSideInfo { envelope_indices, whitening, next_bit_offset })
    }

    /// Parse the bandwidth extension block that starts at bit `bit_offset` of `bytes`.
    pub fn parse_side_info(&self, bytes: &[u8], bit_offset: usize) -> (result: Result<
        BweSideInfo,
        CodecError,
    >)
        ensures
            match bwe_syntax_at(bytes@, bit_capacity(bytes@), bit_offset as int, *self) {
                Ok(syntax) => result is Ok && result->Ok_0.matches(syntax),
                Err(error) => result == Err::<BweSideInfo, CodecError>(error),
            },
    {
        proof {
            reveal(bwe_syntax_at);
        }
        let mut reader = BitReader::with_bit_position(bytes, bit_offset)?;
        self.read_side_info(&mut reader)
    }
}

} // verus!
