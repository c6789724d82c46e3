//! What the engine makes of a frame header, said of the header and of the rates.

use crate::bit_writing::{lemma_strings, packed};
use crate::config::{CodingProfile, NeuralNetworkType};
use crate::engine::header::{header_at, BitrateTable, FrameHeader, SoundBedType};
use crate::frame::AatfFrameHeader;
use crate::frame_laws::{
    header_bits, header_can_be_written, loudspeakers_at, written_headers_read_back,
};
use vstd::prelude::*;

verus! {

/// What a frame carries, by profile: the loudspeakers of its layout, as many objects as are written
/// and one more, both, or the signals of an ambisonic order.
pub open spec fn signals_are(found: FrameHeader, header: AatfFrameHeader) -> bool {
    let bed = header.channel_number_index;
    &&& found.channels == found.bed_channels + found.objects
    &&& found.channel_config == header.channel_configuration
    &&& found.hoa_order == header.hoa_order
    &&& match header.coding_profile {
        CodingProfile::Basic => {
            &&& found.profile is ChannelBased
            &&& found.bed_channels == loudspeakers_at(bed->0 as int)
            &&& found.objects == 0
            &&& found.sound_bed_type is None
        },
        CodingProfile::Hoa => {
            &&& found.profile is Hoa
            &&& found.bed_channels == (header.hoa_order->0 + 1) * (header.hoa_order->0 + 1)
            &&& found.objects == 0
            &&& found.sound_bed_type is None
        },
        _ => {
            &&& found.profile is Mixed
            &&& found.objects == header.object_channel_number->0 + 1
            &&& found.sound_bed_type == Some(
                if bed is Some {
                    SoundBedType::ChannelBed
                } else {
                    SoundBedType::ObjectsOnly
                },
            )
            &&& found.bed_channels == if bed is Some {
                loudspeakers_at(bed->0 as int)
            } else {
                0
            }
        },
    }
}

/// The rates of a frame are those of the tables: that of its bed, and that of each of its objects.
pub open spec fn rates_are(
    found: FrameHeader,
    header: AatfFrameHeader,
    rates: BitrateTable,
) -> bool {
    let bed = match header.coding_profile {
        CodingProfile::Hoa => Some(
            rates.hoa@[header.hoa_order->0 as int]@[header.bitrate_index->0 as int],
        ),
        _ => match header.channel_number_index {
            Some(index) => Some(rates.channel@[index as int]@[header.bitrate_index->0 as int]),
            None => None,
        },
    };
    let object = match header.bitrate_index_per_channel {
        Some(index) => Some(rates.object@[index as int]),
        None => None,
    };
    &&& found.bed_bitrate == bed
    &&& found.object_bitrate == object
    &&& found.bitrate == (match bed {
        Some(rate) => rate as int,
        None => 0,
    }) + found.objects * (match object {
        Some(rate) => rate as int,
        None => 0,
    })
}

/// The size of a frame goes by its rate: it has as many bits as the rate yields in the time of 1024
/// samples, rounded down. The header comes off, and what is left is payload, rounded up to whole
/// bytes.
pub open spec fn sizes_are(found: FrameHeader, header: AatfFrameHeader) -> bool {
    let frame_bits = found.payload_bits + header_bits(header, Seq::empty()).len();
    &&& frame_bits * found.sample_rate <= 1024 * found.bitrate < (frame_bits + 1)
        * found.sample_rate
    &&& found.header_len == header.payload_offset_bytes
    &&& 8 * found.payload_len - 8 < found.payload_bits <= 8 * found.payload_len
    &&& found.frame_len == found.header_len + found.payload_len
    &&& found.samples_per_channel == 1024
}

/// The remaining fields are those that are written.
pub open spec fn fields_are(found: FrameHeader, header: AatfFrameHeader) -> bool {
    &&& Some(found.sample_rate) == header.sample_rate
    &&& found.nn_type is Main <==> header.nn_type == Some(NeuralNetworkType::Basic)
    &&& found.nn_type is LowComplexity <==> header.nn_type == Some(
        NeuralNetworkType::LowComplexity,
    )
    &&& found.bit_depth is Eight <==> header.resolution is Pcm8
    &&& found.bit_depth is Sixteen <==> header.resolution is Pcm16
    &&& found.bit_depth is TwentyFour <==> header.resolution is Pcm24
    &&& found.crc / 0x100 == header.header_crc
    &&& Some((found.crc % 0x100) as u8) == header.frame_crc
    &&& found.has_lfe <==> (found.channel_config is Some && found.bed_channels >= 6)
}

/// The number of bits of a general full-rate header.
proof fn lemma_header_len(header: AatfFrameHeader)
    requires
        header.coding_method is GeneralFullRate,
        header_can_be_written(header),
    ensures
        header_bits(header, Seq::empty()).len() == match header.coding_profile {
            CodingProfile::Basic => 56int,
            CodingProfile::Hoa => 53,
            _ => if header.channel_number_index is Some {
                69
            } else {
                58
            },
        },
{
    lemma_strings();
}

/// What the engine finds in a header that was written is what the header says, wherever the header
/// stands in a stream and whatever follows it.
pub proof fn the_engine_resolves_written_headers(
    header: AatfFrameHeader,
    rates: BitrateTable,
    rest: Seq<bool>,
    offset: int,
)
    requires
        header_can_be_written(header),
    ensures
        header_at(packed(header_bits(header, rest)), rates, offset) matches Ok(found) ==> {
            &&& header.coding_method is GeneralFullRate
            &&& signals_are(found, header)
            &&& rates_are(found, header, rates)
            &&& sizes_are(found, header)
            &&& fields_are(found, header)
        },
{
    reveal(header_at);
    written_headers_read_back(header, rest);
    if let Ok(found) = header_at(packed(header_bits(header, rest)), rates, offset) {
        lemma_header_len(header);
        let rate = found.sample_rate as int;
        let bits = 1024 * found.bitrate;
        vstd::arithmetic::div_mod::lemma_fundamental_div_mod(bits, rate);
        vstd::arithmetic::div_mod::lemma_mod_bound(bits, rate);
        let frame_bits = bits / rate;
        assert(rate * frame_bits == frame_bits * rate && (frame_bits + 1) * rate == frame_bits * rate
            + rate) by (nonlinear_arith);
        if let Some(order) = header.hoa_order {
            if order <= 14 {
                assert((order + 1) * (order + 1) <= 225) by (nonlinear_arith)
                    requires
                        0 <= order <= 14,
                ;
            }
        }
        if let Some(number) = header.object_channel_number {
            if let Some(index) = header.bitrate_index_per_channel {
                let one = rates.object@[index as int] as int;
                assert(one * (number + 1) == (number + 1) * one) by (nonlinear_arith);
            }
        }
        assert(found.objects * 0 == 0) by (nonlinear_arith);
        assert(sizes_are(found, header));
        assert(fields_are(found, header));
        assert(signals_are(found, header));
        assert(rates_are(found, header, rates));
    }
}

} // verus!
