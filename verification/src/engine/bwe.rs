//! Which bandwidth extension goes with which rate.

use crate::bwe::BweConfig;
use vstd::prelude::*;

verus! {

/// The band edges of the stereo configurations above the lowest one, and where the two part.
#[derive(Debug, Clone, Copy, PartialEq, Eq)]
pub struct StereoBweBands {
    /// Highest total rate of the middle configuration.
    pub middle_limit: u32,
    /// Number of bands of the middle configuration.
    pub middle_count: u8,
    pub middle: [Option<u16>; 17],
    /// Number of bands of the high configuration.
    pub high_count: u8,
    pub high: [Option<u16>; 17],
}

/// The edges that are listed, and nothing behind them.
pub open spec fn listed<const N: usize>(edges: [Option<u16>; N], values: Seq<u16>) -> bool {
    &&& values.len() <= N
    &&& forall|i: int| 0 <= i < values.len() ==> #[trigger] edges@[i] == Some(values[i])
    &&& forall|i: int| values.len() <= i < N ==> #[trigger] edges@[i] is None
}

/// This is the configuration for a total stereo rate in bits per second. High rates have none.
pub open spec fn is_stereo_config(
    config: Option<BweConfig>,
    bitrate: u32,
    bands: StereoBweBands,
) -> bool {
    if bitrate <= 64_000 {
        &&& config is Some
        &&& config->0.band_count == 6
        &&& config->0.has_tiles(seq![352u16, 480, 608, 768], seq![64u16, 96, 144])
        &&& listed(config->0.scale_factor_bands, seq![352u16, 416, 480, 544, 608, 672, 768])
    } else if bitrate > 128_000 {
        config is None
    } else if bitrate <= bands.middle_limit {
        &&& config is Some
        &&& config->0.band_count == bands.middle_count
        &&& config->0.has_tiles(seq![544u16, 672, 832], seq![144u16, 192])
        &&& config->0.scale_factor_bands == bands.middle
    } else {
        &&& config is Some
        &&& config->0.band_count == bands.high_count
        &&& config->0.has_tiles(seq![672u16, 832], seq![192u16])
        &&& config->0.scale_factor_bands == bands.high
    }
}

impl BweConfig {
    /// The configuration has these target tiles, source tiles and number of bands.
    pub open spec fn has_tiles(self, targets: Seq<u16>, sources: Seq<u16>) -> bool {
        &&& self.tile_count == sources.len()
        &&& targets.len() == sources.len() + 1
        &&& listed(self.target_tiles, targets)
        &&& listed(self.source_tiles, sources)
    }

    /// The configuration for a total stereo rate in bits per second. High rates have none.
    pub fn for_stereo_bitrate(bitrate: u32, bands: &StereoBweBands) -> (config: Option<Self>)
        ensures
            is_stereo_config(config, bitrate, *bands),
    {
        let mut target_tiles: [Option<u16>; 9] = [None;9];
        let mut source_tiles: [Option<u16>; 8] = [None;8];
        if bitrate <= 64_000 {
            let mut scale_factor_bands: [Option<u16>; 17] = [None;17];
            scale_factor_bands[0] = Some(352);
            scale_factor_bands[1] = Some(416);
            scale_factor_bands[2] = Some(480);
            scale_factor_bands[3] = Some(544);
            scale_factor_bands[4] = Some(608);
            scale_factor_bands[5] = Some(672);
            scale_factor_bands[6] = Some(768);
            target_tiles[0] = Some(352);
            target_tiles[1] = Some(480);
            target_tiles[2] = Some(608);
            target_tiles[3] = Some(768);
            source_tiles[0] = Some(64);
            source_tiles[1] = Some(96);
            source_tiles[2] = Some(144);
            return Some(
                BweConfig {
                    band_count: 6,
                    tile_count: 3,
                    scale_factor_bands,
                    target_tiles,
                    source_tiles,
                },
            );
        }
        if bitrate > 128_000 {
            return None;
        }
        if bitrate <= bands.middle_limit {
            target_tiles[0] = Some(544);
            target_tiles[1] = Some(672);
            target_tiles[2] = Some(832);
            source_tiles[0] = Some(144);
            source_tiles[1] = Some(192);
            return Some(
                BweConfig {
                    band_count: bands.middle_count,
                    tile_count: 2,
                    scale_factor_bands: bands.middle,
                    target_tiles,
                    source_tiles,
                },
            );
        }
        target_tiles[0] = Some(672);
        target_tiles[1] = Some(832);
        source_tiles[0] = Some(192);
        Some(
            BweConfig {
                band_count: bands.high_count,
                tile_count: 1,
                scale_factor_bands: bands.high,
                target_tiles,
                source_tiles,
            },
        )
    }
}

} // verus!
