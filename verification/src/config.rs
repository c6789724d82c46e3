//! Coding methods, profiles, channel layouts and sampling rates that frame headers refer to.

use vstd::prelude::*;

verus! {

/// The two coding methods that a frame can use.
#[derive(Clone, Copy, Debug, PartialEq, Eq, Structural)]
pub enum AudioCodingMethod {
    Lossless,
    GeneralFullRate,
}

/// The neural network behind a general full-rate frame.
#[derive(Clone, Copy, Debug, PartialEq, Eq, Structural)]
pub enum NeuralNetworkType {
    Basic,
    LowComplexity,
    Reserved(u8),
}

impl NeuralNetworkType {
    /// The network type that a three-bit code selects.
    pub open spec fn of_code(code: int) -> NeuralNetworkType {
        if code == 0 {
            NeuralNetworkType::Basic
        } else if code == 1 {
            NeuralNetworkType::LowComplexity
        } else {
            NeuralNetworkType::Reserved(code as u8)
        }
    }

    /// The network type that a three-bit code selects.
    pub fn from_code(code: u8) -> (nn_type: Self)
        ensures
            nn_type == Self::of_code(code as int),
    {
        if code == 0 {
            NeuralNetworkType::Basic
        } else if code == 1 {
            NeuralNetworkType::LowComplexity
        } else {
            NeuralNetworkType::Reserved(code)
        }
    }
}

/// What the frame carries: channels, objects or ambisonics.
#[derive(Clone, Copy, Debug, PartialEq, Eq, Structural)]
pub enum CodingProfile {
    Basic,
    ObjectMetadata,
    Hoa,
    Reserved(u8),
}

impl CodingProfile {
    /// The profile that a three-bit code selects.
    pub open spec fn of_code(code: int) -> CodingProfile {
        if code == 0 {
            CodingProfile::Basic
        } else if code == 1 {
            CodingProfile::ObjectMetadata
        } else if code == 2 {
            CodingProfile::Hoa
        } else {
            CodingProfile::Reserved(code as u8)
        }
    }

    /// The profile that a three-bit code selects.
    pub fn from_code(code: u8) -> (profile: Self)
        ensures
            profile == Self::of_code(code as int),
    {
        if code == 0 {
            CodingProfile::Basic
        } else if code == 1 {
            CodingProfile::ObjectMetadata
        } else if code == 2 {
            CodingProfile::Hoa
        } else {
            CodingProfile::Reserved(code)
        }
    }
}

/// The number of bits per PCM sample.
#[derive(Clone, Copy, Debug, PartialEq, Eq, Structural)]
pub enum QuantizationResolution {
    Pcm8,
    Pcm16,
    Pcm24,
    Reserved,
}

impl QuantizationResolution {
    /// The resolution that a two-bit code selects.
    pub open spec fn of_code(code: int) -> QuantizationResolution {
        if code == 0 {
            QuantizationResolution::Pcm8
        } else if code == 1 {
            QuantizationResolution::Pcm16
        } else if code == 2 {
            QuantizationResolution::Pcm24
        } else {
            QuantizationResolution::Reserved
        }
    }

    /// The resolution that a two-bit code selects.
    pub fn from_code(code: u8) -> (resolution: Self)
        ensures
            resolution == Self::of_code(code as int),
    {
        if code == 0 {
            QuantizationResolution::Pcm8
        } else if code == 1 {
            QuantizationResolution::Pcm16
        } else if code == 2 {
            QuantizationResolution::Pcm24
        } else {
            QuantizationResolution::Reserved
        }
    }

    /// Bits per sample, or `None` for the reserved code.
    pub fn bits_per_sample(self) -> (bits: Option<u8>)
        ensures
            bits == match self {
                QuantizationResolution::Pcm8 => Some(8u8),
                QuantizationResolution::Pcm16 => Some(16u8),
                QuantizationResolution::Pcm24 => Some(24u8),
                QuantizationResolution::Reserved => None::<u8>,
            },
    {
        match self {
            QuantizationResolution::Pcm8 => Some(8),
            QuantizationResolution::Pcm16 => Some(16),
            QuantizationResolution::Pcm24 => Some(24),
            QuantizationResolution::Reserved => None,
        }
    }
}

/// Loudspeaker layouts of the channel-based profile.
#[derive(Clone, Copy, Debug, PartialEq, Eq, Structural)]
pub enum ChannelConfiguration {
    Mono,
    Stereo,
    Surround5_1,
    Surround7_1,
    Surround10_2,
    Surround22_2,
    Surround4_0,
    Surround5_1_2,
    Surround5_1_4,
    Surround7_1_2,
    Surround7_1_4,
    Reserved(u8),
}

impl ChannelConfiguration {
    /// The layout that a seven-bit index selects.
    pub open spec fn of_index(index: int) -> ChannelConfiguration {
        if index == 0 {
            ChannelConfiguration::Mono
        } else if index == 1 {
            ChannelConfiguration::Stereo
        } else if index == 2 {
            ChannelConfiguration::Surround5_1
        } else if index == 3 {
            ChannelConfiguration::Surround7_1
        } else if index == 4 {
            ChannelConfiguration::Surround10_2
        } else if index == 5 {
            ChannelConfiguration::Surround22_2
        } else if index == 6 {
            ChannelConfiguration::Surround4_0
        } else if index == 7 {
            ChannelConfiguration::Surround5_1_2
        } else if index == 8 {
            ChannelConfiguration::Surround5_1_4
        } else if index == 9 {
            ChannelConfiguration::Surround7_1_2
        } else if index == 10 {
            ChannelConfiguration::Surround7_1_4
        } else {
            ChannelConfiguration::Reserved(index as u8)
        }
    }

    /// The layout that a seven-bit index selects.
    pub fn from_index(index: u8) -> (layout: Self)
        ensures
            layout == Self::of_index(index as int),
    {
        match index {
            0 => ChannelConfiguration::Mono,
            1 => ChannelConfiguration::Stereo,
            2 => ChannelConfiguration::Surround5_1,
            3 => ChannelConfiguration::Surround7_1,
            4 => ChannelConfiguration::Surround10_2,
            5 => ChannelConfiguration::Surround22_2,
            6 => ChannelConfiguration::Surround4_0,
            7 => ChannelConfiguration::Surround5_1_2,
            8 => ChannelConfiguration::Surround5_1_4,
            9 => ChannelConfiguration::Surround7_1_2,
            10 => ChannelConfiguration::Surround7_1_4,
            _ => ChannelConfiguration::Reserved(index),
        }
    }

    /// How many signals the layout has.
    pub open spec fn channel_count(self) -> Option<u16> {
        match self {
            ChannelConfiguration::Mono => Some(1u16),
            ChannelConfiguration::Stereo => Some(2u16),
            ChannelConfiguration::Surround4_0 => Some(4u16),
            ChannelConfiguration::Surround5_1 => Some(6u16),
            ChannelConfiguration::Surround7_1 => Some(8u16),
            ChannelConfiguration::Surround5_1_2 => Some(8u16),
            ChannelConfiguration::Surround5_1_4 => Some(10u16),
            ChannelConfiguration::Surround7_1_2 => Some(10u16),
            ChannelConfiguration::Surround10_2 => Some(12u16),
            ChannelConfiguration::Surround7_1_4 => Some(12u16),
            ChannelConfiguration::Surround22_2 => Some(24u16),
            ChannelConfiguration::Reserved(_) => None,
        }
    }

    /// How many signals the layout has, or `None` for a reserved index.
    pub fn channels(self) -> (channels: Option<u16>)
        ensures
            channels == self.channel_count(),
    {
        match self {
            ChannelConfiguration::Mono => Some(1),
            ChannelConfiguration::Stereo => Some(2),
            ChannelConfiguration::Surround4_0 => Some(4),
            ChannelConfiguration::Surround5_1 => Some(6),
            ChannelConfiguration::Surround7_1 | ChannelConfiguration::Surround5_1_2 => Some(8),
            ChannelConfiguration::Surround5_1_4 | ChannelConfiguration::Surround7_1_2 => Some(10),
            ChannelConfiguration::Surround10_2 | ChannelConfiguration::Surround7_1_4 => Some(12),
            ChannelConfiguration::Surround22_2 => Some(24),
            ChannelConfiguration::Reserved(_) => None,
        }
    }
}

/// Sampling rate in hertz of a general full-rate index.
pub open spec fn full_rate_hertz(index: int) -> Option<u32> {
    if index == 0 {
        Some(192_000u32)
    } else if index == 1 {
        Some(96_000u32)
    } else if index == 2 {
        Some(48_000u32)
    } else if index == 3 {
        Some(44_100u32)
    } else if index == 4 {
        Some(32_000u32)
    } else if index == 5 {
        Some(24_000u32)
    } else if index == 6 {
        Some(22_050u32)
    } else if index == 7 {
        Some(16_000u32)
    } else if index == 8 {
        Some(8_000u32)
    } else {
        None
    }
}

/// Sampling rate in hertz of a general full-rate index, or `None` for a reserved one.
pub fn full_rate_sample_rate(index: u8) -> (rate: Option<u32>)
    ensures
        rate == full_rate_hertz(index as int),
{
    match index {
        0 => Some(192_000),
        1 => Some(96_000),
        2 => Some(48_000),
        3 => Some(44_100),
        4 => Some(32_000),
        5 => Some(24_000),
        6 => Some(22_050),
        7 => Some(16_000),
        8 => Some(8_000),
        _ => None,
    }
}

/// Sampling rate in hertz of a lossless index; index 15 stands for the rate written out.
pub open spec fn lossless_hertz(index: int, explicit: Option<u32>) -> Option<u32> {
    if index < 4 {
        full_rate_hertz(index)
    } else if index == 15 {
        explicit
    } else {
        None
    }
}

/// Sampling rate in hertz of a lossless index, or `None` for a reserved one.
pub fn lossless_sample_rate(index: u8, explicit: Option<u32>) -> (rate: Option<u32>)
    ensures
        rate == lossless_hertz(index as int, explicit),
{
    if index < 4 {
        full_rate_sample_rate(index)
    } else if index == 15 {
        explicit
    } else {
        None
    }
}

} // verus!
