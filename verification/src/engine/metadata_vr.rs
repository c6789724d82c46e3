//! The extension for virtual reality: the acoustic environment and how it is to be rendered.

use crate::bitreader::{bit_at, lemma_span_values, BitReader};
use crate::engine::metadata_static::{list_len, read_count};
use crate::engine::metadata_syntax::{
    at_most, block_read, block_viewed, chain_start, code, codes, lemma_chain_grows, lemma_code,
    option_code, option_width, read_code, read_option,
};
use crate::engine::metadata_values::{
    items_view, EffectSyntax, EnvironmentSyntax, ExtensionSyntax, MetadataList, RenderSyntax,
    SurfaceSyntax, VrAcousticEnvironmentMetadata, VrAudioEffectMetadata, VrDrcMetadata,
    VrEqBandMetadata, VrExtensionMetadata, VrRenderInfoMetadata, VrSurfaceMetadata, VrVertex,
};
use crate::error::CodecError;
use vstd::prelude::*;

verus! {

/// Every second one of `count` codes of seven bits.
pub open spec fn alternate_codes(bytes: Seq<u8>, at: int, count: int) -> Seq<u8> {
    Seq::new(count as nat, |i: int| code(bytes, at + 14 * i, 7))
}

/// A corner, in three codes of seven bits.
pub open spec fn vertex_of(bytes: Seq<u8>, at: int) -> VrVertex {
    VrVertex { x: code(bytes, at, 7), y: code(bytes, at + 7, 7), z: code(bytes, at + 14, 7) }
}

/// How many corners a surface has, if `written` of them are announced.
///
/// All surfaces together have at least eight and at most thirty-six.
pub open spec fn vertex_count(written: int, surfaces: int) -> int {
    let least = (8 + surfaces - 1) / surfaces;
    let most = 36int / surfaces;
    if written < least {
        least
    } else if written > most {
        most
    } else {
        written
    }
}

/// Bit at which the number of corners of a surface stands.
pub open spec fn surface_count_at(bytes: Seq<u8>, start: int) -> int {
    start + 5 + option_width(code(bytes, start, 5) == 31, 112)
}

/// How many corners the surface at bit `start` has.
pub open spec fn surface_vertices(bytes: Seq<u8>, start: int, surfaces: int) -> int {
    vertex_count(list_len(bytes, surface_count_at(bytes, start), 5), surfaces)
}

/// A material, its coefficients if it is described in full, and the corners.
pub open spec fn surface_of(bytes: Seq<u8>, start: int, surfaces: int) -> SurfaceSyntax {
    let described = code(bytes, start, 5) == 31;
    SurfaceSyntax {
        material: code(bytes, start, 5),
        absorption: if described {
            Some(alternate_codes(bytes, start + 5, 8))
        } else {
            None
        },
        scattering: if described {
            Some(alternate_codes(bytes, start + 12, 8))
        } else {
            None
        },
        vertices: Seq::new(
            surface_vertices(bytes, start, surfaces) as nat,
            |i: int| vertex_of(bytes, surface_count_at(bytes, start) + 5 + 21 * i),
        ),
    }
}

/// Bit behind a surface.
pub open spec fn surface_end(bytes: Seq<u8>, start: int, surfaces: int) -> int {
    surface_count_at(bytes, start) + 5 + 21 * surface_vertices(bytes, start, surfaces)
}

/// The number of corners is in range.
proof fn lemma_vertex_count(written: int, surfaces: int)
    requires
        1 <= written <= 32,
        1 <= surfaces <= 8,
    ensures
        1 <= vertex_count(written, surfaces) <= 32,
        (8 + surfaces - 1) / surfaces <= 36int / surfaces,
{
    let least = (8 + surfaces - 1) / surfaces;
    let most = 36int / surfaces;
    assert(1 <= least <= 8 && least <= most) by (nonlinear_arith)
        requires
            1 <= surfaces <= 8,
            least == (8 + surfaces - 1) / surfaces,
            most == 36int / surfaces,
    ;
}

/// A surface takes up room.
proof fn lemma_surface_grows(bytes: Seq<u8>, start: int, surfaces: int)
    requires
        1 <= surfaces <= 8,
    ensures
        surface_end(bytes, start, surfaces) >= start,
{
    lemma_code(bytes, surface_count_at(bytes, start), 5);
    lemma_span_values();
    lemma_vertex_count(list_len(bytes, surface_count_at(bytes, start), 5), surfaces);
}

/// Read the coefficients of a material that is described in full.
fn read_coefficients(reader: &mut BitReader<'_>) -> (result: Result<([u8; 8], [u8; 8]), CodecError>)
    requires
        old(reader).well_formed(),
    ensures
        final(reader).same_source(old(reader)),
        if old(reader).cursor() + 112 <= old(reader).end() {
            &&& result is Ok
            &&& (result->Ok_0).0@ == alternate_codes(
                old(reader).source(),
                old(reader).cursor(),
                8,
            )
            &&& (result->Ok_0).1@ == alternate_codes(
                old(reader).source(),
                old(reader).cursor() + 7,
                8,
            )
            &&& final(reader).cursor() == old(reader).cursor() + 112
        } else {
            result == Err::<([u8; 8], [u8; 8]), CodecError>(CodecError::Truncated)
        },
{
    let ghost bytes = reader.source();
    let ghost start = reader.cursor();
    let mut absorption: [u8; 8] = [0u8;8];
    let mut scattering: [u8; 8] = [0u8;8];
    let mut index: usize = 0;
    while index < 8
        invariant
            index <= 8,
            reader.same_source(old(reader)),
            bytes == old(reader).source(),
            start == old(reader).cursor(),
            reader.cursor() == start + 14 * index,
            forall|i: int|
                0 <= i < index ==> #[trigger] absorption@[i] == code(bytes, start + 14 * i, 7),
            forall|i: int|
                0 <= i < index ==> #[trigger] scattering@[i] == code(bytes, start + 7 + 14 * i, 7),
        decreases 8 - index,
    {
        absorption[index] = read_code(reader, 7)?;
        scattering[index] = read_code(reader, 7)?;
        index = index + 1;
    }
    assert(absorption@ =~= alternate_codes(bytes, start, 8));
    assert(scattering@ =~= alternate_codes(bytes, start + 7, 8));
    Ok((absorption, scattering))
}

/// Read a surface, one of `surfaces`.
fn parse_vr_surface(reader: &mut BitReader<'_>, surfaces: usize) -> (result: Result<
    VrSurfaceMetadata,
    CodecError,
>)
    requires
        old(reader).well_formed(),
        1 <= surfaces <= 8,
    ensures
        final(reader).same_source(old(reader)),
        block_viewed(
            old(reader),
            final(reader),
            result,
            surface_of(old(reader).source(), old(reader).cursor(), surfaces as int),
            surface_end(old(reader).source(), old(reader).cursor(), surfaces as int),
        ),
{
    let ghost bytes = reader.source();
    let ghost start = reader.cursor();
    let ghost goal = surface_of(bytes, start, surfaces as int);
    proof {
        let at = surface_count_at(bytes, start);
        lemma_code(bytes, at, 5);
        lemma_span_values();
        lemma_vertex_count(list_len(bytes, at, 5), surfaces as int);
    }
    let material: u8 = read_code(reader, 5)?;
    let mut absorption: Option<[u8; 8]> = None;
    let mut scattering: Option<[u8; 8]> = None;
    if material == 31 {
        let coefficients: ([u8; 8], [u8; 8]) = read_coefficients(reader)?;
        absorption = Some(coefficients.0);
        scattering = Some(coefficients.1);
    }
    let encoded_vertices: usize = read_count(reader, 5)?;
    let minimum_vertices: usize = (8 + surfaces - 1) / surfaces;
    let maximum_vertices: usize = 36 / surfaces;
    let count: usize = if encoded_vertices < minimum_vertices {
        minimum_vertices
    } else if encoded_vertices > maximum_vertices {
        maximum_vertices
    } else {
        encoded_vertices
    };
    assert(count == surface_vertices(bytes, start, surfaces as int));
    let ghost first = reader.cursor();
    let mut vertices: MetadataList<VrVertex, 32> = MetadataList::new();
    let mut index: usize = 0;
    while index < count
        invariant
            index <= count <= 32,
            reader.same_source(old(reader)),
            bytes == old(reader).source(),
            start == old(reader).cursor(),
            1 <= surfaces <= 8,
            count == surface_vertices(bytes, start, surfaces as int),
            first == surface_count_at(bytes, start) + 5,
            goal == surface_of(bytes, start, surfaces as int),
            reader.cursor() == first + 21 * index,
            vertices@ == goal.vertices.take(index as int),
        decreases count - index,
    {
        let x: u8 = read_code(reader, 7)?;
        let y: u8 = read_code(reader, 7)?;
        let z: u8 = read_code(reader, 7)?;
        vertices.push(VrVertex { x, y, z });
        index = index + 1;
        assert(vertices@ =~= goal.vertices.take(index as int));
    }
    assert(goal.vertices.take(count as int) =~= goal.vertices);
    let surface = VrSurfaceMetadata { material, absorption, scattering, vertices };
    assert(surface@ =~= goal);
    Ok(surface)
}

/// Where the surface behind the one at `at` starts.
pub open spec fn surface_step(bytes: Seq<u8>, surfaces: int) -> spec_fn(int) -> int {
    |at: int| surface_end(bytes, at, surfaces)
}

/// The surfaces at bit `at`, in front of which stands their number.
pub open spec fn surfaces_of(bytes: Seq<u8>, at: int) -> Seq<SurfaceSyntax> {
    let count = list_len(bytes, at, 3);
    Seq::new(
        count as nat,
        |i: int| surface_of(bytes, chain_start(surface_step(bytes, count), at + 3, i), count),
    )
}

/// Bit behind the surfaces.
pub open spec fn surfaces_end(bytes: Seq<u8>, at: int) -> int {
    let count = list_len(bytes, at, 3);
    chain_start(surface_step(bytes, count), at + 3, count)
}

/// Surfaces follow each other.
proof fn lemma_surface_chain(bytes: Seq<u8>, at: int)
    ensures
        1 <= list_len(bytes, at, 3) <= 8,
        forall|q: int|
            #[trigger] surface_step(bytes, list_len(bytes, at, 3))(q) >= q,
        surfaces_end(bytes, at) >= at + 3,
{
    let count = list_len(bytes, at, 3);
    lemma_code(bytes, at, 3);
    lemma_span_values();
    assert forall|q: int| #[trigger] surface_step(bytes, count)(q) >= q by {
        lemma_surface_grows(bytes, q, count);
    }
    lemma_chain_grows(surface_step(bytes, count), at + 3, 0, count);
}

/// Read the surfaces.
fn read_surfaces(reader: &mut BitReader<'_>) -> (result: Result<
    MetadataList<VrSurfaceMetadata, 8>,
    CodecError,
>)
    requires
        old(reader).well_formed(),
    ensures
        final(reader).same_source(old(reader)),
        if surfaces_end(old(reader).source(), old(reader).cursor()) <= old(reader).end() {
            &&& result is Ok
            &&& items_view(result->Ok_0@) == surfaces_of(old(reader).source(), old(reader).cursor())
            &&& final(reader).cursor() == surfaces_end(old(reader).source(), old(reader).cursor())
        } else {
            result == Err::<MetadataList<VrSurfaceMetadata, 8>, CodecError>(CodecError::Truncated)
        },
{
    let ghost bytes = reader.source();
    let ghost at = reader.cursor();
    let ghost step = surface_step(bytes, list_len(bytes, at, 3));
    let ghost goal = surfaces_of(bytes, at);
    proof {
        lemma_surface_chain(bytes, at);
    }
    let count: usize = read_count(reader, 3)?;
    let mut surfaces: MetadataList<VrSurfaceMetadata, 8> = MetadataList::new();
    let mut index: usize = 0;
    while index < count
        invariant
            index <= count,
            1 <= count <= 8,
            reader.same_source(old(reader)),
            bytes == old(reader).source(),
            at == old(reader).cursor(),
            count == list_len(bytes, at, 3),
            step == surface_step(bytes, count as int),
            forall|q: int| #[trigger] step(q) >= q,
            goal == surfaces_of(bytes, at),
            reader.cursor() == chain_start(step, at + 3, index as int),
            surfaces@.len() == index,
            items_view(surfaces@) == goal.take(index as int),
        decreases count - index,
    {
        proof {
            lemma_chain_grows(step, at + 3, index as int + 1, count as int);
        }
        let surface: VrSurfaceMetadata = parse_vr_surface(reader, count)?;
        surfaces.push(surface);
        index = index + 1;
        assert(items_view(surfaces@) =~= goal.take(index as int));
    }
    assert(goal.take(count as int) =~= goal);
    Ok(surfaces)
}

/// Bit at which the low frequency flag of an environment stands.
pub open spec fn environment_flag_at(bytes: Seq<u8>, start: int) -> int {
    start + 4 + option_width(bit_at(bytes, start), 7) + option_width(bit_at(bytes, start + 1), 7)
}

/// Bit at which the surfaces of an environment stand.
pub open spec fn environment_surfaces_at(bytes: Seq<u8>, start: int) -> int {
    environment_flag_at(bytes, start) + 1 + option_width(code(bytes, start + 2, 2) == 2, 5)
}

/// Two gains, the kind of reverberation and the surfaces.
pub open spec fn environment_of(bytes: Seq<u8>, start: int) -> EnvironmentSyntax {
    EnvironmentSyntax {
        early_reflection_gain: option_code(bytes, start + 4, 7, bit_at(bytes, start)),
        late_reverb_gain: option_code(
            bytes,
            start + 4 + option_width(bit_at(bytes, start), 7),
            7,
            bit_at(bytes, start + 1),
        ),
        reverb_type: code(bytes, start + 2, 2),
        low_frequency_processing: bit_at(bytes, environment_flag_at(bytes, start)),
        convolution_reverb_type: option_code(
            bytes,
            environment_flag_at(bytes, start) + 1,
            5,
            code(bytes, start + 2, 2) == 2,
        ),
        surfaces: surfaces_of(bytes, environment_surfaces_at(bytes, start)),
    }
}

/// Bit behind an environment.
pub open spec fn environment_end(bytes: Seq<u8>, start: int) -> int {
    surfaces_end(bytes, environment_surfaces_at(bytes, start))
}

/// Read the acoustic environment.
pub fn parse_vr_acoustic_environment(reader: &mut BitReader<'_>) -> (result: Result<
    VrAcousticEnvironmentMetadata,
    CodecError,
>)
    requires
        old(reader).well_formed(),
    ensures
        final(reader).same_source(old(reader)),
        block_viewed(
            old(reader),
            final(reader),
            result,
            environment_of(old(reader).source(), old(reader).cursor()),
            environment_end(old(reader).source(), old(reader).cursor()),
        ),
{
    proof {
        let bytes = reader.source();
        lemma_surface_chain(bytes, environment_surfaces_at(bytes, reader.cursor()));
    }
    let has_early_reflection_gain: bool = reader.read_bit()?;
    let has_late_reverb_gain: bool = reader.read_bit()?;
    let reverb_type: u8 = read_code(reader, 2)?;
    let early_reflection_gain: Option<u8> = read_option(reader, has_early_reflection_gain, 7)?;
    let late_reverb_gain: Option<u8> = read_option(reader, has_late_reverb_gain, 7)?;
    let low_frequency_processing: bool = reader.read_bit()?;
    let convolution_reverb_type: Option<u8> = read_option(reader, reverb_type == 2, 5)?;
    let surfaces: MetadataList<VrSurfaceMetadata, 8> = read_surfaces(reader)?;
    Ok(
        VrAcousticEnvironmentMetadata {
            early_reflection_gain,
            late_reverb_gain,
            reverb_type,
            low_frequency_processing,
            convolution_reverb_type,
            surfaces,
        },
    )
}

/// One band of the equaliser, in twenty-four bits.
pub open spec fn eq_band_of(bytes: Seq<u8>, at: int) -> VrEqBandMetadata {
    VrEqBandMetadata {
        eq_type: code(bytes, at, 3),
        center_frequency: code(bytes, at + 3, 7),
        upper_q_range: bit_at(bytes, at + 10),
        q: code(bytes, at + 11, 6),
        gain: code(bytes, at + 17, 7),
    }
}

/// The compressor, in thirty-six bits.
pub open spec fn drc_of(bytes: Seq<u8>, at: int) -> VrDrcMetadata {
    VrDrcMetadata {
        attack_time: code(bytes, at, 4),
        release_time: code(bytes, at + 4, 4),
        threshold: code(bytes, at + 8, 7),
        pre_gain: code(bytes, at + 15, 7),
        post_gain: code(bytes, at + 22, 7),
        ratio: code(bytes, at + 29, 7),
    }
}

/// At least one effect is announced.
pub open spec fn has_effect(bytes: Seq<u8>, start: int) -> bool {
    bit_at(bytes, start) || bit_at(bytes, start + 1) || bit_at(bytes, start + 2)
}

/// Bit at which the equaliser stands.
pub open spec fn effect_eq_at(bytes: Seq<u8>, start: int) -> int {
    start + 3 + option_width(has_effect(bytes, start), 3)
}

/// Number of bands of the equaliser, which are eleven at most.
pub open spec fn band_count(bytes: Seq<u8>, start: int) -> int {
    if bit_at(bytes, start) {
        at_most(code(bytes, effect_eq_at(bytes, start), 4), 10) + 1
    } else {
        0
    }
}

/// Bit at which the compressor stands.
pub open spec fn effect_drc_at(bytes: Seq<u8>, start: int) -> int {
    effect_eq_at(bytes, start) + option_width(bit_at(bytes, start), 4) + 24 * band_count(
        bytes,
        start,
    )
}

/// Bit at which the gain of the effects stands.
pub open spec fn effect_gain_at(bytes: Seq<u8>, start: int) -> int {
    effect_drc_at(bytes, start) + option_width(bit_at(bytes, start + 1), 36)
}

/// Three flags, the order of the effects, and those that are announced.
pub open spec fn effect_of(bytes: Seq<u8>, start: int) -> EffectSyntax {
    EffectSyntax {
        effect_chain: if has_effect(bytes, start) {
            Some(at_most(code(bytes, start + 3, 3), 5))
        } else {
            None
        },
        eq_bands: Seq::new(
            band_count(bytes, start) as nat,
            |i: int| eq_band_of(bytes, effect_eq_at(bytes, start) + 4 + 24 * i),
        ),
        drc: if bit_at(bytes, start + 1) {
            Some(drc_of(bytes, effect_drc_at(bytes, start)))
        } else {
            None
        },
        gain: option_code(bytes, effect_gain_at(bytes, start), 7, bit_at(bytes, start + 2)),
    }
}

/// Bit behind the effects.
pub open spec fn effect_end(bytes: Seq<u8>, start: int) -> int {
    effect_gain_at(bytes, start) + option_width(bit_at(bytes, start + 2), 7)
}

/// Read one band of the equaliser.
fn parse_vr_eq_band(reader: &mut BitReader<'_>) -> (result: Result<VrEqBandMetadata, CodecError>)
    requires
        old(reader).well_formed(),
    ensures
        final(reader).same_source(old(reader)),
        block_read(
            old(reader),
            final(reader),
            result,
            eq_band_of(old(reader).source(), old(reader).cursor()),
            old(reader).cursor() + 24,
        ),
{
    let eq_type: u8 = read_code(reader, 3)?;
    let center_frequency: u8 = read_code(reader, 7)?;
    let upper_q_range: bool = reader.read_bit()?;
    let q: u8 = read_code(reader, 6)?;
    let gain: u8 = read_code(reader, 7)?;
    Ok(VrEqBandMetadata { eq_type, center_frequency, upper_q_range, q, gain })
}

/// Read the compressor.
fn read_drc(reader: &mut BitReader<'_>) -> (result: Result<VrDrcMetadata, CodecError>)
    requires
        old(reader).well_formed(),
    ensures
        final(reader).same_source(old(reader)),
        block_read(
            old(reader),
            final(reader),
            result,
            drc_of(old(reader).source(), old(reader).cursor()),
            old(reader).cursor() + 36,
        ),
{
    let attack_time: u8 = read_code(reader, 4)?;
    let release_time: u8 = read_code(reader, 4)?;
    let threshold: u8 = read_code(reader, 7)?;
    let pre_gain: u8 = read_code(reader, 7)?;
    let post_gain: u8 = read_code(reader, 7)?;
    let ratio: u8 = read_code(reader, 7)?;
    Ok(VrDrcMetadata { attack_time, release_time, threshold, pre_gain, post_gain, ratio })
}

/// Read the effects of a renderer.
pub fn parse_vr_audio_effect(reader: &mut BitReader<'_>) -> (result: Result<
    VrAudioEffectMetadata,
    CodecError,
>)
    requires
        old(reader).well_formed(),
    ensures
        final(reader).same_source(old(reader)),
        block_viewed(
            old(reader),
            final(reader),
            result,
            effect_of(old(reader).source(), old(reader).cursor()),
            effect_end(old(reader).source(), old(reader).cursor()),
        ),
{
    let ghost bytes = reader.source();
    let ghost start = reader.cursor();
    let ghost goal = effect_of(bytes, start);
    let has_eq: bool = reader.read_bit()?;
    let has_drc: bool = reader.read_bit()?;
    let has_gain: bool = reader.read_bit()?;
    let effect_chain: Option<u8> = if has_eq || has_drc || has_gain {
        let value: u8 = read_code(reader, 3)?;
        if value > 5 {
            Some(5)
        } else {
            Some(value)
        }
    } else {
        None
    };
    let mut count: usize = 0;
    if has_eq {
        let value: u8 = read_code(reader, 4)?;
        count = if value > 10 {
            11
        } else {
            value as usize + 1
        };
    }
    assert(count == band_count(bytes, start));
    let ghost first = reader.cursor();
    let mut eq_bands: MetadataList<VrEqBandMetadata, 11> = MetadataList::new();
    let mut index: usize = 0;
    while index < count
        invariant
            index <= count <= 11,
            reader.same_source(old(reader)),
            bytes == old(reader).source(),
            start == old(reader).cursor(),
            count == band_count(bytes, start),
            count > 0 ==> first == effect_eq_at(bytes, start) + 4,
            goal == effect_of(bytes, start),
            reader.cursor() == first + 24 * index,
            eq_bands@ == goal.eq_bands.take(index as int),
        decreases count - index,
    {
        let band: VrEqBandMetadata = parse_vr_eq_band(reader)?;
        eq_bands.push(band);
        index = index + 1;
        assert(eq_bands@ =~= goal.eq_bands.take(index as int));
    }
    assert(goal.eq_bands.take(count as int) =~= goal.eq_bands);
    let drc: Option<VrDrcMetadata> = if has_drc {
        let value: VrDrcMetadata = read_drc(reader)?;
        Some(value)
    } else {
        None
    };
    let gain: Option<u8> = read_option(reader, has_gain, 7)?;
    let effect = VrAudioEffectMetadata { effect_chain, eq_bands, drc, gain };
    assert(effect@ =~= goal);
    Ok(effect)
}

/// A flag, two kinds of filters and the effects.
pub open spec fn render_of(bytes: Seq<u8>, start: int) -> RenderSyntax {
    RenderSyntax {
        target_device: bit_at(bytes, start),
        hrtf_type: code(bytes, start + 1, 4),
        headphone_types: codes(bytes, start + 5, 16, 7),
        audio_effect: effect_of(bytes, start + 117),
    }
}

/// Bit behind the rendering block.
pub open spec fn render_end(bytes: Seq<u8>, start: int) -> int {
    effect_end(bytes, start + 117)
}

/// Read how the frame is to be rendered.
pub fn parse_vr_render_info(reader: &mut BitReader<'_>) -> (result: Result<
    VrRenderInfoMetadata,
    CodecError,
>)
    requires
        old(reader).well_formed(),
    ensures
        final(reader).same_source(old(reader)),
        block_viewed(
            old(reader),
            final(reader),
            result,
            render_of(old(reader).source(), old(reader).cursor()),
            render_end(old(reader).source(), old(reader).cursor()),
        ),
{
    let ghost bytes = reader.source();
    let ghost start = reader.cursor();
    let target_device: bool = reader.read_bit()?;
    let hrtf_type: u8 = read_code(reader, 4)?;
    let mut headphone_types: [u8; 16] = [0u8;16];
    let mut index: usize = 0;
    while index < 16
        invariant
            index <= 16,
            reader.same_source(old(reader)),
            bytes == old(reader).source(),
            start == old(reader).cursor(),
            reader.cursor() == start + 5 + index * 7,
            forall|i: int|
                0 <= i < index ==> #[trigger] headphone_types@[i] == code(
                    bytes,
                    start + 5 + i * 7,
                    7,
                ),
        decreases 16 - index,
    {
        headphone_types[index] = read_code(reader, 7)?;
        index = index + 1;
    }
    assert(headphone_types@ =~= codes(bytes, start + 5, 16, 7));
    let audio_effect: VrAudioEffectMetadata = parse_vr_audio_effect(reader)?;
    Ok(VrRenderInfoMetadata { target_device, hrtf_type, headphone_types, audio_effect })
}

/// Bit at which the rendering block of the extension stands.
pub open spec fn extension_render_at(bytes: Seq<u8>, start: int) -> int {
    if bit_at(bytes, start) {
        environment_end(bytes, start + 5)
    } else {
        start + 5
    }
}

/// Two flags, an order, and the two blocks as far as they are there.
#[verifier::opaque]
pub open spec fn extension_of(bytes: Seq<u8>, start: int) -> ExtensionSyntax {
    ExtensionSyntax {
        ambisonic_order: code(bytes, start + 2, 3),
        acoustic_environment: if bit_at(bytes, start) {
            Some(environment_of(bytes, start + 5))
        } else {
            None
        },
        render_info: if bit_at(bytes, start + 1) {
            Some(render_of(bytes, extension_render_at(bytes, start)))
        } else {
            None
        },
    }
}

/// Bit behind the extension.
#[verifier::opaque]
pub open spec fn extension_end(bytes: Seq<u8>, start: int) -> int {
    if bit_at(bytes, start + 1) {
        render_end(bytes, extension_render_at(bytes, start))
    } else {
        extension_render_at(bytes, start)
    }
}

/// Read the extension for virtual reality.
pub fn parse_vr_extension_l1(reader: &mut BitReader<'_>) -> (result: Result<
    VrExtensionMetadata,
    CodecError,
>)
    requires
        old(reader).well_formed(),
    ensures
        final(reader).same_source(old(reader)),
        block_viewed(
            old(reader),
            final(reader),
            result,
            extension_of(old(reader).source(), old(reader).cursor()),
            extension_end(old(reader).source(), old(reader).cursor()),
        ),
{
    proof {
        reveal(extension_of);
        reveal(extension_end);
        let bytes = reader.source();
        lemma_surface_chain(bytes, environment_surfaces_at(bytes, reader.cursor() + 5));
    }
    let has_acoustic_environment: bool = reader.read_bit()?;
    let has_render_info: bool = reader.read_bit()?;
    let ambisonic_order: u8 = read_code(reader, 3)?;
    let acoustic_environment: Option<VrAcousticEnvironmentMetadata> = if has_acoustic_environment {
        let environment: VrAcousticEnvironmentMetadata = parse_vr_acoustic_environment(reader)?;
        Some(environment)
    } else {
        None
    };
    let render_info: Option<VrRenderInfoMetadata> = if has_render_info {
        let info: VrRenderInfoMetadata = parse_vr_render_info(reader)?;
        Some(info)
    } else {
        None
    };
    let extension = VrExtensionMetadata { ambisonic_order, acoustic_environment, render_info };
    assert(extension@ =~= extension_of(old(reader).source(), old(reader).cursor()));
    Ok(extension)
}

/// The extension takes up room.
pub proof fn lemma_extension_grows(bytes: Seq<u8>, start: int)
    ensures
        extension_end(bytes, start) >= start + 5,
{
    reveal(extension_end);
    lemma_surface_chain(bytes, environment_surfaces_at(bytes, start + 5));
}

} // verus!
