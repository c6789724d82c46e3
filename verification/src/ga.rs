//! Which decoder a general full-rate frame needs, and where its coded block lies.

use crate::config::{AudioCodingMethod, CodingProfile};
use crate::error::CodecError;
use crate::frame::{aatf_header, AatfFrameHeader, SoundBedType};
use vstd::prelude::*;

verus! {

/// Decoder branch of a general full-rate frame.
#[derive(Clone, Copy, Debug, PartialEq, Eq, Structural)]
pub enum GaCodecFormat {
    Mono,
    Stereo,
    Multichannel,
    Hoa,
}

/// What a general full-rate frame decodes to.
#[derive(Clone, Copy, Debug, PartialEq, Eq, Structural)]
pub struct GaDecodePlan {
    pub format: GaCodecFormat,
    /// Number of channel, object or ambisonic output signals. The transport channels of an
    /// ambisonic frame are another matter; its side information counts those.
    pub output_channels: Option<u16>,
}

/// The branch for `signals_less_one + 1` signals.
pub open spec fn format_for(signals_less_one: int) -> GaCodecFormat {
    if signals_less_one == 0 {
        GaCodecFormat::Mono
    } else if signals_less_one == 1 {
        GaCodecFormat::Stereo
    } else {
        GaCodecFormat::Multichannel
    }
}

/// The branch that a header selects, or what it lacks.
pub open spec fn ga_format(header: AatfFrameHeader) -> Result<GaCodecFormat, CodecError> {
    match (header.coding_method, header.coding_profile) {
        (AudioCodingMethod::Lossless, _) => Err(
            CodecError::InvalidData(
                "general full-rate decode plan requested for a non-GA AATF frame",
            ),
        ),
        (AudioCodingMethod::GeneralFullRate, CodingProfile::Basic) => {
            match header.channel_number_index {
                Some(index) => Ok(format_for(index as int)),
                None => Err(
                    CodecError::InvalidData("basic AVS3 profile is missing channel_number_index"),
                ),
            }
        },
        (AudioCodingMethod::GeneralFullRate, CodingProfile::ObjectMetadata) => {
            match (header.sound_bed_type, header.object_channel_number) {
                (None, _) => Err(
                    CodecError::InvalidData("object AVS3 profile is missing soundBedType"),
                ),
                (Some(SoundBedType::ObjectsOnly), Some(number)) => Ok(format_for(number as int)),
                (Some(SoundBedType::ObjectsOnly), None) => Err(
                    CodecError::InvalidData(
                        "object-only AVS3 frame is missing object_channel_number",
                    ),
                ),
                (Some(SoundBedType::ChannelBedAndObjects), _) => Ok(GaCodecFormat::Multichannel),
            }
        },
        (AudioCodingMethod::GeneralFullRate, CodingProfile::Hoa) => Ok(GaCodecFormat::Hoa),
        (AudioCodingMethod::GeneralFullRate, CodingProfile::Reserved(_)) => Err(
            CodecError::Unsupported("reserved AVS3 coding profile"),
        ),
    }
}

impl GaDecodePlan {
    /// Choose the decoder branch from a decoded header.
    pub fn from_header(header: &AatfFrameHeader) -> (result: Result<Self, CodecError>)
        ensures
            result == match ga_format(*header) {
                Ok(format) => Ok::<GaDecodePlan, CodecError>(
                    GaDecodePlan { format, output_channels: header.signal_count() },
                ),
                Err(error) => Err(error),
            },
    {
        if header.coding_method != AudioCodingMethod::GeneralFullRate {
            return Err(
                CodecError::InvalidData(
                    "general full-rate decode plan requested for a non-GA AATF frame",
                ),
            );
        }
        let format = match header.coding_profile {
            CodingProfile::Basic => match header.channel_number_index {
                Some(index) => match index {
                    0 => GaCodecFormat::Mono,
                    1 => GaCodecFormat::Stereo,
                    _ => GaCodecFormat::Multichannel,
                },
                None => {
                    return Err(
                        CodecError::InvalidData(
                            "basic AVS3 profile is missing channel_number_index",
                        ),
                    );
                },
            },
            CodingProfile::ObjectMetadata => match header.sound_bed_type {
                Some(SoundBedType::ObjectsOnly) => match header.object_channel_number {
                    Some(number) => match number {
                        0 => GaCodecFormat::Mono,
                        1 => GaCodecFormat::Stereo,
                        _ => GaCodecFormat::Multichannel,
                    },
                    None => {
                        return Err(
                            CodecError::InvalidData(
                                "object-only AVS3 frame is missing object_channel_number",
                            ),
                        );
                    },
                },
                Some(SoundBedType::ChannelBedAndObjects) => GaCodecFormat::Multichannel,
                None => {
                    return Err(
                        CodecError::InvalidData("object AVS3 profile is missing soundBedType"),
                    );
                },
            },
            CodingProfile::Hoa => GaCodecFormat::Hoa,
            CodingProfile::Reserved(_) => {
                return Err(CodecError::Unsupported("reserved AVS3 coding profile"));
            },
        };
        Ok(GaDecodePlan { format, output_channels: header.resolved_channels() })
    }
}

/// The coded block behind the header: metadata first, then the audio syntax.
pub fn coded_payload<'a>(packet: &'a [u8], header: &AatfFrameHeader) -> (result: Result<
    &'a [u8],
    CodecError,
>)
    ensures
        header.payload_offset_bytes <= packet@.len() <==> result is Ok,
        result matches Ok(payload) ==> payload@ == packet@.subrange(
            header.payload_offset_bytes as int,
            packet@.len() as int,
        ),
        result is Err ==> result == Err::<&'a [u8], CodecError>(CodecError::Truncated),
{
    if header.payload_offset_bytes > packet.len() {
        return Err(CodecError::Truncated);
    }
    Ok(vstd::slice::slice_subrange(packet, header.payload_offset_bytes, packet.len()))
}

/// A header that was parsed from a packet always points into that packet, so the coded block can
/// be taken.
pub proof fn parsed_header_leaves_a_payload(packet: Seq<u8>)
    ensures
        aatf_header(packet) matches Ok(header) ==> header.payload_offset_bytes <= packet.len(),
{
}

/// A full-rate header that was parsed always has a decode plan.
pub proof fn parsed_full_rate_header_has_a_format(packet: Seq<u8>)
    ensures
        aatf_header(packet) matches Ok(header) ==> (header.coding_method
            == AudioCodingMethod::GeneralFullRate ==> ga_format(header) is Ok),
{
}

} // verus!
