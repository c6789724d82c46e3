//! Writing a frame header, and what reading does with it.

use crate::bit_writing::{lemma_packed, lemma_strings, packed, put, put_flag, spells};
use crate::bitreader::{lemma_bits_bound, lemma_span_values};
use crate::config::{
    AudioCodingMethod, ChannelConfiguration, CodingProfile, NeuralNetworkType,
    QuantizationResolution,
};
use crate::error::CodecError;
use crate::frame::{aatf_header, longer_packets_parse_alike, AatfFrameHeader, SoundBedType};
use crate::ga::{ga_format, GaCodecFormat};
use vstd::prelude::*;

verus! {

/// The code of a network type.
pub open spec fn network_code(network: NeuralNetworkType) -> int {
    match network {
        NeuralNetworkType::Basic => 0,
        NeuralNetworkType::LowComplexity => 1,
        NeuralNetworkType::Reserved(code) => code as int,
    }
}

/// The code of a profile.
pub open spec fn profile_code(profile: CodingProfile) -> int {
    match profile {
        CodingProfile::Basic => 0,
        CodingProfile::ObjectMetadata => 1,
        CodingProfile::Hoa => 2,
        CodingProfile::Reserved(code) => code as int,
    }
}

/// The code of a resolution.
pub open spec fn resolution_code(resolution: QuantizationResolution) -> int {
    match resolution {
        QuantizationResolution::Pcm8 => 0,
        QuantizationResolution::Pcm16 => 1,
        QuantizationResolution::Pcm24 => 2,
        QuantizationResolution::Reserved => 3,
    }
}

/// The layouts in the order of their indexes; what lies behind them is reserved.
pub open spec fn layout_at(index: int) -> ChannelConfiguration {
    let layouts = seq![
        ChannelConfiguration::Mono,
        ChannelConfiguration::Stereo,
        ChannelConfiguration::Surround5_1,
        ChannelConfiguration::Surround7_1,
        ChannelConfiguration::Surround10_2,
        ChannelConfiguration::Surround22_2,
        ChannelConfiguration::Surround4_0,
        ChannelConfiguration::Surround5_1_2,
        ChannelConfiguration::Surround5_1_4,
        ChannelConfiguration::Surround7_1_2,
        ChannelConfiguration::Surround7_1_4,
    ];
    if index < layouts.len() {
        layouts[index]
    } else {
        ChannelConfiguration::Reserved(index as u8)
    }
}

/// The sampling rates in the order of their indexes; there is none behind them.
pub open spec fn rate_at(index: int) -> Option<u32> {
    let rates = seq![
        192_000u32,
        96_000,
        48_000,
        44_100,
        32_000,
        24_000,
        22_050,
        16_000,
        8_000,
    ];
    if index < rates.len() {
        Some(rates[index])
    } else {
        None
    }
}

/// The bits of a header's layout: what stands between the check byte of the header and the end of
/// the resolution, with the rate of the bits where it stands in between.
pub open spec fn layout_bits(header: AatfFrameHeader, rest: Seq<bool>) -> Seq<bool> {
    let resolution = resolution_code(header.resolution);
    match header.coding_profile {
        CodingProfile::Basic => put(
            header.channel_number_index->0 as int,
            7,
            put(resolution, 2, put(header.bitrate_index->0 as int, 4, rest)),
        ),
        CodingProfile::Hoa => put(
            header.hoa_order->0 - 1,
            4,
            put(resolution, 2, put(header.bitrate_index->0 as int, 4, rest)),
        ),
        _ => {
            let objects = put(
                header.object_channel_number->0 as int,
                7,
                put(header.bitrate_index_per_channel->0 as int, 4, put(resolution, 2, rest)),
            );
            match header.sound_bed_type {
                Some(SoundBedType::ChannelBedAndObjects) => put(
                    1,
                    2,
                    put(
                        header.channel_number_index->0 as int,
                        7,
                        put(header.bitrate_index->0 as int, 4, objects),
                    ),
                ),
                _ => put(0, 2, objects),
            }
        },
    }
}

/// The bits of a general full-rate header.
pub open spec fn full_rate_bits(header: AatfFrameHeader, rest: Seq<bool>) -> Seq<bool> {
    let layout = layout_bits(header, put(header.frame_crc->0 as int, 8, rest));
    let check = put(header.header_crc as int, 8, layout);
    let rate = put(header.sampling_frequency_index as int, 4, check);
    let profile = put(profile_code(header.coding_profile), 3, rate);
    let network = put(network_code(header.nn_type->0), 3, profile);
    put(0xFFF, 12, put(2, 4, put_flag(header.anc_data_index, network)))
}

/// The bits of a channel count: four, or four ones and eight more.
pub open spec fn channel_count_bits(count: int, rest: Seq<bool>) -> Seq<bool> {
    if count < 15 {
        put(count, 4, rest)
    } else {
        put(15, 4, put(count, 8, rest))
    }
}

/// The bits of a lossless header.
pub open spec fn lossless_bits(header: AatfFrameHeader, rest: Seq<bool>) -> Seq<bool> {
    let resolution = put(resolution_code(header.resolution), 2, rest);
    let channels = channel_count_bits(header.channel_number->0 as int, resolution);
    let check = put(header.header_crc as int, 8, channels);
    let length = put(header.raw_frame_length->0 as int, 16, check);
    let explicit = if header.sampling_frequency_index == 15 {
        put(header.sample_rate->0 as int, 24, length)
    } else {
        length
    };
    let rate = put(header.sampling_frequency_index as int, 4, explicit);
    let profile = put(profile_code(header.coding_profile), 3, rate);
    put(0xFFF, 12, put(1, 4, put_flag(header.anc_data_index, profile)))
}

/// The bits of a header.
pub open spec fn header_bits(header: AatfFrameHeader, rest: Seq<bool>) -> Seq<bool> {
    match header.coding_method {
        AudioCodingMethod::Lossless => lossless_bits(header, rest),
        AudioCodingMethod::GeneralFullRate => full_rate_bits(header, rest),
    }
}

/// A general full-rate header can be written: the fields are those of its profile, and each fits.
pub open spec fn full_rate_can_be_written(header: AatfFrameHeader) -> bool {
    &&& header.nn_type is Some
    &&& header.nn_type->0 matches NeuralNetworkType::Reserved(code) ==> 2 <= code < 8
    &&& header.sampling_frequency_index < 16
    &&& header.sample_rate == rate_at(header.sampling_frequency_index as int)
    &&& header.raw_frame_length is None
    &&& header.channel_number is None
    &&& header.frame_crc is Some
    &&& header.channel_number_index is Some <==> header.coding_profile is Basic
        || header.sound_bed_type == Some(SoundBedType::ChannelBedAndObjects)
    &&& header.channel_configuration == match header.channel_number_index {
        Some(index) => Some(layout_at(index as int)),
        None => None,
    }
    &&& header.channel_number_index matches Some(index) ==> index < 128
    &&& header.sound_bed_type is Some <==> header.coding_profile is ObjectMetadata
    &&& header.object_channel_number is Some <==> header.coding_profile is ObjectMetadata
    &&& header.object_channel_number matches Some(number) ==> number < 128
    &&& header.bitrate_index_per_channel is Some <==> header.coding_profile is ObjectMetadata
    &&& header.bitrate_index_per_channel matches Some(index) ==> index < 16
    &&& header.bitrate_index is Some <==> header.sound_bed_type != Some(SoundBedType::ObjectsOnly)
    &&& header.bitrate_index matches Some(index) ==> index < 16
    &&& header.hoa_order is Some <==> header.coding_profile is Hoa
    &&& header.hoa_order matches Some(order) ==> 1 <= order <= 16
}

/// A lossless header can be written: it has the fields of its kind, and each fits. A rate without
/// an index is written out.
pub open spec fn lossless_can_be_written(header: AatfFrameHeader) -> bool {
    &&& header.nn_type is None
    &&& header.sample_rate is Some
    &&& header.sampling_frequency_index < 4 || header.sampling_frequency_index == 15
    &&& header.sampling_frequency_index < 4 ==> header.sample_rate == rate_at(
        header.sampling_frequency_index as int,
    )
    &&& header.sample_rate->0 < 0xFF_FFFF
    &&& header.raw_frame_length is Some
    &&& header.channel_number is Some && header.channel_number->0 < 256
    &&& header.channel_number_index is None
    &&& header.channel_configuration is None
    &&& header.sound_bed_type is None
    &&& header.object_channel_number is None
    &&& header.bitrate_index_per_channel is None
    &&& header.hoa_order is None
    &&& header.bitrate_index is None
    &&& header.frame_crc is None
}

/// A header can be written, and the coded block starts at the first whole byte behind it.
pub open spec fn header_can_be_written(header: AatfFrameHeader) -> bool {
    &&& !(header.coding_profile is Reserved)
    &&& match header.coding_method {
        AudioCodingMethod::Lossless => lossless_can_be_written(header),
        AudioCodingMethod::GeneralFullRate => full_rate_can_be_written(header),
    }
    &&& 8 * header.payload_offset_bytes - 8 < header_bits(header, Seq::empty()).len() <= 8
        * header.payload_offset_bytes
}

proof fn lemma_full_rate(bytes: Seq<u8>, header: AatfFrameHeader, rest: Seq<bool>)
    requires
        header.coding_method is GeneralFullRate,
        header_can_be_written(header),
        spells(bytes, 0, full_rate_bits(header, rest)),
    ensures
        aatf_header(bytes) == Ok::<AatfFrameHeader, CodecError>(header),
{
    lemma_strings();
    lemma_span_values();
    crate::bit_writing::lemma_spelt_inside(bytes, 0, full_rate_bits(header, rest));
}

proof fn lemma_lossless(bytes: Seq<u8>, header: AatfFrameHeader, rest: Seq<bool>)
    requires
        header.coding_method is Lossless,
        header_can_be_written(header),
        spells(bytes, 0, lossless_bits(header, rest)),
    ensures
        aatf_header(bytes) == Ok::<AatfFrameHeader, CodecError>(header),
{
    lemma_strings();
    lemma_span_values();
    crate::bit_writing::lemma_spelt_inside(bytes, 0, lossless_bits(header, rest));
}

/// A header is read as it was written, whatever follows it.
pub proof fn written_headers_read_back(header: AatfFrameHeader, rest: Seq<bool>)
    requires
        header_can_be_written(header),
    ensures
        aatf_header(packed(header_bits(header, rest))) == Ok::<AatfFrameHeader, CodecError>(header),
{
    let string = header_bits(header, rest);
    lemma_packed(Seq::empty(), string);
    assert(Seq::<bool>::empty() + string =~= string);
    match header.coding_method {
        AudioCodingMethod::Lossless => lemma_lossless(packed(string), header, rest),
        AudioCodingMethod::GeneralFullRate => lemma_full_rate(packed(string), header, rest),
    }
}

/// The coded block of a header that was read starts inside the packet, or at its end.
proof fn lemma_payload_inside(packet: Seq<u8>)
    ensures
        aatf_header(packet) matches Ok(header) ==> header.payload_offset_bytes <= packet.len(),
{
    lemma_span_values();
}

/// A header that is cut is refused as such, wherever it is cut.
pub proof fn cut_headers_are_refused(header: AatfFrameHeader, rest: Seq<bool>, len: int)
    requires
        header_can_be_written(header),
        0 <= len < header.payload_offset_bytes,
    ensures
        aatf_header(packed(header_bits(header, rest)).take(len)) == Err::<
            AatfFrameHeader,
            CodecError,
        >(CodecError::Truncated),
{
    let all = packed(header_bits(header, rest));
    written_headers_read_back(header, rest);
    lemma_payload_inside(all);
    let cut = all.take(len);
    lemma_payload_inside(cut);
    assert(cut + all.skip(len) =~= all);
    if aatf_header(cut) != Err::<AatfFrameHeader, CodecError>(CodecError::Truncated) {
        longer_packets_parse_alike(cut, all.skip(len));
    }
}

/// A packet that does not open with twelve ones has no header.
pub proof fn frames_open_with_twelve_ones(start: int, rest: Seq<bool>)
    requires
        0 <= start < 0xFFF,
    ensures
        aatf_header(packed(put(start, 12, rest))) == Err::<AatfFrameHeader, CodecError>(
            CodecError::InvalidData("invalid AATF syncword"),
        ),
{
    let string = put(start, 12, rest);
    lemma_packed(Seq::empty(), string);
    assert(Seq::<bool>::empty() + string =~= string);
    lemma_strings();
    lemma_span_values();
    crate::bit_writing::lemma_spelt_inside(packed(string), 0, string);
}

/// A coding method that is neither lossless nor general full-rate is refused.
pub proof fn other_coding_methods_are_refused(method: int, rest: Seq<bool>)
    requires
        0 <= method < 16,
        method != 1,
        method != 2,
    ensures
        aatf_header(packed(put(0xFFF, 12, put(method, 4, rest)))) == Err::<
            AatfFrameHeader,
            CodecError,
        >(CodecError::Unsupported("reserved AATF audio_codec_id")),
{
    let string = put(0xFFF, 12, put(method, 4, rest));
    lemma_packed(Seq::empty(), string);
    assert(Seq::<bool>::empty() + string =~= string);
    lemma_strings();
    lemma_span_values();
    crate::bit_writing::lemma_spelt_inside(packed(string), 0, string);
}

/// An ambisonic header has an order of one to sixteen, and no other header has one. So it describes
/// at least four signals.
pub proof fn ambisonic_orders_are_positive(packet: Seq<u8>)
    ensures
        aatf_header(packet) matches Ok(header) ==> {
            &&& header.hoa_order is Some <==> header.coding_method is GeneralFullRate
                && header.coding_profile is Hoa
            &&& header.hoa_order matches Some(order) ==> {
                &&& 1 <= order <= 16
                &&& header.signal_count() == Some(((order + 1) * (order + 1)) as u16)
                &&& header.signal_count()->0 >= 4
            }
        },
{
    lemma_span_values();
    lemma_bits_bound(packet, 35, 4);
    if let Ok(header) = aatf_header(packet) {
        if let Some(order) = header.hoa_order {
            assert(4 <= (order + 1) * (order + 1) <= 289) by (nonlinear_arith)
                requires
                    1 <= order <= 16,
            ;
        }
    }
}

/// Number of loudspeakers of the layouts in the order of their indexes.
pub open spec fn loudspeakers_at(index: int) -> int {
    seq![1int, 2, 6, 8, 12, 24, 4, 8, 10, 10, 12][index]
}

/// The number of signals of a header: the loudspeakers of its layout, one object more than is
/// written, both together, or the signals of an ambisonic order.
pub proof fn headers_count_their_signals(header: AatfFrameHeader)
    requires
        header_can_be_written(header),
        header.coding_method is GeneralFullRate,
        header.channel_number_index matches Some(index) ==> index < 11,
    ensures
        ({
            let bed = match header.channel_number_index {
                Some(index) => loudspeakers_at(index as int),
                None => 0,
            };
            let objects = match header.object_channel_number {
                Some(number) => number + 1,
                None => 0,
            };
            let count = match header.hoa_order {
                Some(order) => (order + 1) * (order + 1),
                None => bed + objects,
            };
            header.signal_count() == Some(count as u16)
        }),
{
}

/// A frame is decoded by the number of its signals: one, two or more of them, where a bed with
/// objects always counts as more; ambisonics have a decoder of their own.
pub proof fn the_format_goes_by_the_signals(header: AatfFrameHeader)
    requires
        header_can_be_written(header),
        header.coding_method is GeneralFullRate,
        header.channel_number_index matches Some(index) ==> index < 11,
    ensures
        ({
            let count = header.signal_count()->0;
            ga_format(header) == Ok::<GaCodecFormat, CodecError>(
                if header.coding_profile is Hoa {
                    GaCodecFormat::Hoa
                } else if count == 1 {
                    GaCodecFormat::Mono
                } else if count == 2 && !(header.coding_profile is ObjectMetadata
                    && header.channel_number_index is Some) {
                    GaCodecFormat::Stereo
                } else {
                    GaCodecFormat::Multichannel
                },
            )
        }),
{
}

} // verus!
