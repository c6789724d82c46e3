//! Ambisonic recovery: the table of directions, the delay of the basis indices and the geometry of
//! a frame.

use crate::engine::range_coder::{le16, le32, signed16};
use crate::error::CodecError;
use crate::hoa_side::{hoa_row, HoaConfig, HOA_BASIS_TABLE_LEN, MAX_HOA_BASIS};
use crate::hoa_syntax::HoaSideInfo;
use vstd::prelude::*;

verus! {

/// Samples of a frame.
pub const HOA_FRAME_SAMPLES: usize = 1024;

/// Samples that two transforms share.
pub const HOA_OVERLAP_SIZE: usize = 512;

/// Bytes of the table of directions and sines.
pub const HOA_SPATIAL_TABLE_BYTES_LEN: usize = 6_400;

/// Fingerprint of the table of directions and sines.
pub const HOA_SPATIAL_TABLE_FNV1A: u64 = 0x91a0_296f_d4de_f1af;

/// Most channels of a recovered frame.
pub const HOA_MAX_OUTPUT_CHANNELS: usize = 16;

/// Frames by which basis indices are delayed.
pub const HOA_BASIS_DELAY_FRAMES: usize = 2;

/// Steps of a full turn.
pub const HOA_FULL_TURN: usize = 1_024;

/// The azimuth or elevation of a direction, in steps of a turn.
pub open spec fn table_angle(table: Seq<u8>, index: int, which: int) -> int {
    signed16(le16(table, 4 * index + 2 * which))
}

/// An angle that a direction can have.
pub open spec fn is_angle(angle: int) -> bool {
    0 <= angle <= HOA_FULL_TURN
}

/// Read a signed number of two bytes, the lower one first.
fn table_i16(table: &[u8; 6400], offset: usize) -> (value: i32)
    requires
        offset + 1 < 6400,
    ensures
        value == signed16(le16(table@, offset as int)),
{
    let raw: i32 = table[offset] as i32 + 0x100 * table[offset + 1] as i32;
    if raw < 0x8000 {
        raw
    } else {
        raw - 0x1_0000
    }
}

/// The azimuth and the elevation of direction `index`.
pub fn hoa_angle_pair(table: &[u8; 6400], index: usize) -> (result: Result<[usize; 2], CodecError>)
    ensures
        if index >= HOA_BASIS_TABLE_LEN {
            result is Err && result->Err_0 == CodecError::InvalidData(
                "HOA basis index exceeds the fixed-angle table",
            )
        } else if is_angle(table_angle(table@, index as int, 0)) && is_angle(
            table_angle(table@, index as int, 1),
        ) {
            &&& result is Ok
            &&& result->Ok_0@[0] == table_angle(table@, index as int, 0)
            &&& result->Ok_0@[1] == table_angle(table@, index as int, 1)
        } else {
            result is Err && result->Err_0 == CodecError::InvalidData(
                "HOA fixed-angle table contains an invalid trigonometric index",
            )
        },
{
    if index >= HOA_BASIS_TABLE_LEN {
        return Err(CodecError::InvalidData("HOA basis index exceeds the fixed-angle table"));
    }
    let azimuth: i32 = table_i16(table, index * 4);
    let elevation: i32 = table_i16(table, index * 4 + 2);
    if azimuth < 0 || elevation < 0 || azimuth > 1_024 || elevation > 1_024 {
        return Err(
            CodecError::InvalidData("HOA fixed-angle table contains an invalid trigonometric index"),
        );
    }
    Ok([azimuth as usize, elevation as usize])
}

/// The bits of entry `index` of the sine table, which stands behind the directions.
pub fn sine_table_bits(table: &[u8; 6400], index: usize) -> (bits: u32)
    requires
        index < 257,
    ensures
        bits == le32(table@, 4 * HOA_BASIS_TABLE_LEN + 4 * index),
{
    let at: usize = 5_372 + index * 4;
    table[at] as u32 + 0x100 * table[at + 1] as u32 + 0x1_0000 * table[at + 2] as u32 + 0x100_0000
        * table[at + 3] as u32
}

/// Which entry of a quarter wave gives the sine of an angle, and whether with the sign turned.
pub open spec fn folded_sine(angle: int) -> (int, bool) {
    if angle <= 256 {
        (angle, false)
    } else if angle <= 512 {
        (512 - angle, false)
    } else if angle <= 768 {
        (angle - 512, true)
    } else {
        (1_024 - angle, true)
    }
}

/// Which entry of a quarter wave gives the cosine of an angle, and whether with the sign turned.
pub open spec fn folded_cosine(angle: int) -> (int, bool) {
    if angle <= 256 {
        (256 - angle, false)
    } else if angle <= 512 {
        (angle - 256, true)
    } else if angle <= 768 {
        (768 - angle, true)
    } else {
        (angle - 768, false)
    }
}

/// The entry and the sign of the sine of an angle.
pub fn quantized_sine(angle: usize) -> (folded: (usize, bool))
    requires
        is_angle(angle as int),
    ensures
        folded.0 == folded_sine(angle as int).0,
        folded.1 == folded_sine(angle as int).1,
        folded.0 <= 256,
{
    if angle <= 256 {
        (angle, false)
    } else if angle <= 512 {
        (512 - angle, false)
    } else if angle <= 768 {
        (angle - 512, true)
    } else {
        (1_024 - angle, true)
    }
}

/// The entry and the sign of the cosine of an angle.
pub fn quantized_cosine(angle: usize) -> (folded: (usize, bool))
    requires
        is_angle(angle as int),
    ensures
        folded.0 == folded_cosine(angle as int).0,
        folded.1 == folded_cosine(angle as int).1,
        folded.0 <= 256,
{
    if angle <= 256 {
        (256 - angle, false)
    } else if angle <= 512 {
        (angle - 256, true)
    } else if angle <= 768 {
        (768 - angle, true)
    } else {
        (angle - 768, false)
    }
}

/// The cosine is the sine of an angle a quarter of a turn ahead.
pub proof fn cosine_is_a_quarter_turn_ahead(angle: int)
    requires
        is_angle(angle),
    ensures
        folded_cosine(angle) == folded_sine(
            if angle <= 768 {
                angle + 256
            } else {
                angle - 768
            },
        ),
{
}

/// In the first quarter of a turn the sine rises through the whole quarter wave, and in the second it
/// falls through it again.
pub proof fn the_sine_rises_and_falls(angle: int)
    requires
        0 <= angle <= 256,
    ensures
        folded_sine(angle) == (angle, false),
        folded_sine(512 - angle) == folded_sine(angle),
        folded_cosine(angle) == (256 - angle, false),
{
}

/// Half a turn ahead the sine has the other sign.
pub proof fn half_a_turn_changes_the_sign(angle: int)
    requires
        0 < angle <= 512,
    ensures
        folded_sine(angle + 512).0 == folded_sine(angle).0,
        folded_sine(angle + 512).1 == !folded_sine(angle).1,
{
}

/// The indices of a frame in four slots, with zeros behind them.
pub open spec fn in_slots(indices: Seq<u16>) -> Seq<u16> {
    Seq::new(
        MAX_HOA_BASIS as nat,
        |slot: int|
            if slot < indices.len() {
                indices[slot]
            } else {
                0u16
            },
    )
}

/// The basis indices of the two frames before the current one.
pub struct HoaBasisDelay {
    delayed: [[u16; 4]; 2],
}

impl HoaBasisDelay {
    /// The indices of the frame before the last one.
    pub closed spec fn older(&self) -> Seq<u16> {
        self.delayed@[0]@
    }

    /// The indices of the last frame.
    pub closed spec fn newer(&self) -> Seq<u16> {
        self.delayed@[1]@
    }

    /// After the indices of a frame are handed in, `next` is left.
    pub open spec fn takes(&self, indices: Seq<u16>, next: HoaBasisDelay) -> bool {
        &&& next.older() == self.newer()
        &&& next.newer() == in_slots(indices)
    }

    /// Before the first frame all indices are zero.
    pub fn new() -> (delay: Self)
        ensures
            delay.older() == in_slots(Seq::empty()),
            delay.newer() == in_slots(Seq::empty()),
    {
        let delay = HoaBasisDelay { delayed: [[0u16;4], [0u16;4]] };
        assert(delay.older() =~= in_slots(Seq::empty()));
        assert(delay.newer() =~= in_slots(Seq::empty()));
        delay
    }

    /// Forget all frames.
    pub fn reset(&mut self)
        ensures
            final(self).older() == in_slots(Seq::empty()),
            final(self).newer() == in_slots(Seq::empty()),
    {
        *self = HoaBasisDelay::new();
    }

    /// The indices of both frames, the older one first.
    pub fn delayed_basis_indices(&self) -> (delayed: [[u16; 4]; 2])
        ensures
            delayed@[0]@ == self.older(),
            delayed@[1]@ == self.newer(),
    {
        self.delayed
    }

    /// The indices with which the current frame is recovered.
    pub fn current(&self) -> (indices: [u16; 4])
        ensures
            indices@ == self.older(),
    {
        self.delayed[0]
    }

    /// Hand in the indices of the current frame.
    pub fn push(&mut self, indices: &[u16])
        ensures
            old(self).takes(indices@, *final(self)),
    {
        let last: [u16; 4] = self.delayed[1];
        let mut slots: [u16; 4] = [0u16;4];
        let mut slot: usize = 0;
        while slot < 4 && slot < indices.len()
            invariant
                slot <= 4,
                slot <= indices@.len(),
                forall|i: int| 0 <= i < slot ==> #[trigger] slots@[i] == indices@[i],
                forall|i: int| slot <= i < 4 ==> #[trigger] slots@[i] == 0,
            decreases 4 - slot,
        {
            slots[slot] = indices[slot];
            slot = slot + 1;
        }
        self.delayed = [last, slots];
        assert(self.newer() =~= in_slots(indices@));
    }
}

/// A frame is recovered with the indices that were handed in two frames before it.
pub proof fn basis_indices_arrive_two_frames_late(
    start: HoaBasisDelay,
    first: Seq<u16>,
    between: HoaBasisDelay,
    second: Seq<u16>,
    end: HoaBasisDelay,
)
    requires
        start.takes(first, between),
        between.takes(second, end),
    ensures
        end.older() == in_slots(first),
{
}

/// What is wrong with the channels of a frame that is to be recovered.
pub open spec fn post_geometry_error(
    config: HoaConfig,
    side: HoaSideInfo,
    transport: int,
    output: int,
) -> Option<CodecError> {
    if transport != config.transport_channels || output != config.output_channels {
        Some(CodecError::InvalidData("HOA post-synthesis channel geometry mismatch"))
    } else if config.output_channels > HOA_MAX_OUTPUT_CHANNELS || side.groups@.len()
        != config.groups@.len() {
        Some(CodecError::InvalidData("HOA post-synthesis configuration exceeds decoder geometry"))
    } else {
        None
    }
}

/// Check the channels of a frame that is to be recovered.
pub fn check_post_geometry(
    config: &HoaConfig,
    side: &HoaSideInfo,
    transport: usize,
    output: usize,
) -> (result: Result<(), CodecError>)
    ensures
        result == match post_geometry_error(*config, *side, transport as int, output as int) {
            Some(error) => Err::<(), CodecError>(error),
            None => Ok(()),
        },
{
    if transport != config.transport_channels as usize || output != config.output_channels as usize {
        return Err(CodecError::InvalidData("HOA post-synthesis channel geometry mismatch"));
    }
    if config.output_channels as usize > HOA_MAX_OUTPUT_CHANNELS || side.groups.len()
        != config.groups.len() {
        return Err(
            CodecError::InvalidData("HOA post-synthesis configuration exceeds decoder geometry"),
        );
    }
    Ok(())
}

/// The vectors and residuals of a frame fit its transport channels.
pub open spec fn recovery_fits(config: HoaConfig, side: HoaSideInfo) -> bool {
    &&& side.vector_channels <= MAX_HOA_BASIS
    &&& side.basis_indices@.len() == side.vector_channels
    &&& side.vector_channels + config.residual_channels <= config.transport_channels
}

/// Check that the vectors and residuals of a frame fit its transport channels.
pub fn check_spatial_recovery(config: &HoaConfig, side: &HoaSideInfo) -> (result: Result<
    (),
    CodecError,
>)
    ensures
        result == if recovery_fits(*config, *side) {
            Ok::<(), CodecError>(())
        } else {
            Err(CodecError::InvalidData("HOA spatial recovery vector/residual layout mismatch"))
        },
{
    let vectors: usize = side.vector_channels as usize;
    if vectors > MAX_HOA_BASIS || side.basis_indices.len() != vectors || vectors
        + config.residual_channels as usize > config.transport_channels as usize {
        return Err(
            CodecError::InvalidData("HOA spatial recovery vector/residual layout mismatch"),
        );
    }
    Ok(())
}

/// Choose the configuration of an ambisonic frame and check the room for its samples, before it is
/// parsed.
pub fn check_hoa_pcm_geometry(order: u8, total_bitrate_kbps: u32, pcm_len: usize) -> (result:
    Result<HoaConfig, CodecError>)
    ensures
        match hoa_row(order as int, total_bitrate_kbps as int) {
            None => result is Err && result->Err_0 == CodecError::Unsupported(
                "unsupported AVS3 HOA order/bitrate configuration",
            ),
            Some(row) => if pcm_len == (order + 1) * (order + 1) * HOA_FRAME_SAMPLES {
                &&& result is Ok
                &&& result->Ok_0.is_row(order as int, row)
                &&& result->Ok_0.well_formed()
            } else {
                result is Err && result->Err_0 == CodecError::InvalidData(
                    "HOA synthesis output has invalid interleaved PCM geometry",
                )
            },
        },
{
    let config = HoaConfig::for_order_bitrate(order, total_bitrate_kbps)?;
    let expected: usize = config.output_channels as usize * HOA_FRAME_SAMPLES;
    if pcm_len != expected {
        return Err(
            CodecError::InvalidData("HOA synthesis output has invalid interleaved PCM geometry"),
        );
    }
    Ok(config)
}

} // verus!
