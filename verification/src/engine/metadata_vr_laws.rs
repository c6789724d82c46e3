//! Writing the extension for virtual reality, and what reading does with it.
//!
//! Each writer puts the bits of one block in front of `rest`, which is what follows the block. Each
//! law holds wherever the block stands.

use crate::bit_writing::{lemma_all, lemma_strings, put, put_all, put_flag, spells};
use crate::bitreader::{bit_at, bits, lemma_span_values};
use crate::engine::metadata_dynamic_laws::{option_below, put_option};
use crate::engine::metadata_static::list_len;
use crate::engine::metadata_syntax::{chain_start, code, codes};
use crate::engine::metadata_values::{
    EffectSyntax, EnvironmentSyntax, ExtensionSyntax, RenderSyntax, SurfaceSyntax, VrDrcMetadata,
    VrEqBandMetadata, VrVertex,
};
use crate::engine::metadata_vr::{
    alternate_codes, band_count, drc_of, effect_drc_at, effect_end, effect_eq_at, effect_gain_at,
    effect_of, environment_end, environment_of, environment_surfaces_at, eq_band_of, extension_end,
    extension_of, extension_render_at, render_end, render_of, surface_count_at, surface_end,
    surface_of, surface_step, surface_vertices, surfaces_of, vertex_of,
};
use vstd::prelude::*;

verus! {

/// The bits of the corners from `from` on, seven for each coordinate.
pub open spec fn vertices_bits(vertices: Seq<VrVertex>, from: int, rest: Seq<bool>) -> Seq<bool>
    decreases vertices.len() - from,
{
    if from >= vertices.len() {
        rest
    } else {
        let corner = vertices[from];
        put(
            corner.x as int,
            7,
            put(
                corner.y as int,
                7,
                put(corner.z as int, 7, vertices_bits(vertices, from + 1, rest)),
            ),
        )
    }
}

/// The coordinates of a corner fit.
pub open spec fn vertex_fits(corner: VrVertex) -> bool {
    corner.x < 128 && corner.y < 128 && corner.z < 128
}

proof fn lemma_vertices(
    bytes: Seq<u8>,
    at: int,
    vertices: Seq<VrVertex>,
    from: int,
    rest: Seq<bool>,
)
    requires
        forall|i: int| 0 <= i < vertices.len() ==> vertex_fits(#[trigger] vertices[i]),
        0 <= from <= vertices.len(),
        spells(bytes, at + 21 * from, vertices_bits(vertices, from, rest)),
    ensures
        forall|i: int|
            from <= i < vertices.len() ==> vertex_of(bytes, at + 21 * i) == #[trigger] vertices[i],
        spells(bytes, at + 21 * vertices.len(), rest),
        vertices_bits(vertices, from, rest).len() == 21 * (vertices.len() - from) + rest.len(),
    decreases vertices.len() - from,
{
    if from < vertices.len() {
        assert(vertex_fits(vertices[from]));
        let here = at + 21 * from;
        let later = vertices_bits(vertices, from + 1, rest);
        assert(vertex_of(bytes, here) == vertices[from] && spells(bytes, here + 21, later)
            && vertices_bits(vertices, from, rest).len() == 21 + later.len()) by {
            lemma_strings();
            lemma_span_values();
        }
        lemma_vertices(bytes, at, vertices, from + 1, rest);
    }
}

/// The bits of the coefficients from `from` on, absorption and scattering in turn.
pub open spec fn coefficients_bits(
    absorption: Seq<u8>,
    scattering: Seq<u8>,
    from: int,
    rest: Seq<bool>,
) -> Seq<bool>
    decreases absorption.len() - from,
{
    if from >= absorption.len() {
        rest
    } else {
        put(
            absorption[from] as int,
            7,
            put(
                scattering[from] as int,
                7,
                coefficients_bits(absorption, scattering, from + 1, rest),
            ),
        )
    }
}

proof fn lemma_coefficients(
    bytes: Seq<u8>,
    at: int,
    absorption: Seq<u8>,
    scattering: Seq<u8>,
    from: int,
    rest: Seq<bool>,
)
    requires
        absorption.len() == scattering.len(),
        forall|i: int|
            0 <= i < absorption.len() ==> #[trigger] absorption[i] < 128 && scattering[i] < 128,
        0 <= from <= absorption.len(),
        spells(bytes, at + 14 * from, coefficients_bits(absorption, scattering, from, rest)),
    ensures
        forall|i: int|
            from <= i < absorption.len() ==> code(bytes, at + 14 * i, 7) == #[trigger] absorption[i]
                && code(bytes, at + 7 + 14 * i, 7) == scattering[i],
        spells(bytes, at + 14 * absorption.len(), rest),
        coefficients_bits(absorption, scattering, from, rest).len() == 14 * (absorption.len()
            - from) + rest.len(),
    decreases absorption.len() - from,
{
    if from < absorption.len() {
        assert(absorption[from] < 128 && scattering[from] < 128);
        let here = at + 14 * from;
        let later = coefficients_bits(absorption, scattering, from + 1, rest);
        assert(code(bytes, here, 7) == absorption[from] && code(bytes, here + 7, 7)
            == scattering[from] && spells(bytes, here + 14, later) && coefficients_bits(
            absorption,
            scattering,
            from,
            rest,
        ).len() == 14 + later.len()) by {
            lemma_strings();
            lemma_span_values();
        }
        lemma_coefficients(bytes, at, absorption, scattering, from + 1, rest);
    }
}

/// The bits of a surface: its material, the coefficients of one that is described in full, one less
/// than the number of its corners, and the corners.
pub open spec fn surface_bits(surface: SurfaceSyntax, rest: Seq<bool>) -> Seq<bool> {
    let corners = put(
        surface.vertices.len() - 1,
        5,
        vertices_bits(surface.vertices, 0, rest),
    );
    put(
        surface.material as int,
        5,
        match (surface.absorption, surface.scattering) {
            (Some(absorption), Some(scattering)) => coefficients_bits(
                absorption,
                scattering,
                0,
                corners,
            ),
            _ => corners,
        },
    )
}

/// The parts of a surface fit. One with the last material is described in full, and all surfaces
/// together have at least eight and at most thirty-six corners.
pub open spec fn surface_fits(surface: SurfaceSyntax, surfaces: int) -> bool {
    &&& surface.material < 32
    &&& surface.absorption is Some <==> surface.material == 31
    &&& surface.scattering is Some <==> surface.material == 31
    &&& surface.material == 31 ==> {
        &&& surface.absorption->0.len() == 8
        &&& surface.scattering->0.len() == 8
        &&& forall|i: int|
            0 <= i < 8 ==> #[trigger] surface.absorption->0[i] < 128 && surface.scattering->0[i]
                < 128
    }
    &&& 1 <= surface.vertices.len() <= 32
    &&& 8 <= surface.vertices.len() * surfaces <= 36
    &&& forall|i: int|
        0 <= i < surface.vertices.len() ==> vertex_fits(#[trigger] surface.vertices[i])
}

/// A surface is read as it was written.
pub proof fn written_surfaces_read_back(
    bytes: Seq<u8>,
    at: int,
    surface: SurfaceSyntax,
    surfaces: int,
    rest: Seq<bool>,
)
    requires
        1 <= surfaces,
        surface_fits(surface, surfaces),
        spells(bytes, at, surface_bits(surface, rest)),
    ensures
        surface_of(bytes, at, surfaces) == surface,
        spells(bytes, surface_end(bytes, at, surfaces), rest),
        surface_end(bytes, at, surfaces) == at + surface_bits(surface, rest).len() - rest.len(),
{
    let list = vertices_bits(surface.vertices, 0, rest);
    let corners = put(surface.vertices.len() - 1, 5, list);
    let full = surface.material == 31;
    let body = match (surface.absorption, surface.scattering) {
        (Some(absorption), Some(scattering)) => coefficients_bits(
            absorption,
            scattering,
            0,
            corners,
        ),
        _ => corners,
    };
    assert(code(bytes, at, 5) == surface.material && spells(bytes, at + 5, body) && surface_bits(
        surface,
        rest,
    ).len() == 5 + body.len()) by {
        lemma_strings();
        lemma_span_values();
    }
    let found = surface_of(bytes, at, surfaces);
    if full {
        let absorption = surface.absorption->0;
        let scattering = surface.scattering->0;
        lemma_coefficients(bytes, at + 5, absorption, scattering, 0, corners);
        assert(alternate_codes(bytes, at + 5, 8) =~= absorption);
        let second = alternate_codes(bytes, at + 12, 8);
        assert forall|i: int| 0 <= i < 8 implies #[trigger] second[i] == scattering[i] by {
            assert(code(bytes, at + 5 + 14 * i, 7) == absorption[i]);
        }
        assert(second =~= scattering);
    }
    let count_at = surface_count_at(bytes, at);
    let count = surface.vertices.len() as int;
    assert(list_len(bytes, count_at, 5) == count && spells(bytes, count_at + 5, list)
        && corners.len() == 5 + list.len()) by {
        lemma_strings();
        lemma_span_values();
    }
    assert(surface_vertices(bytes, at, surfaces) == count) by {
        assert((8 + surfaces - 1) / surfaces <= count && count <= 36int / surfaces)
            by (nonlinear_arith)
            requires
                1 <= surfaces,
                8 <= count * surfaces <= 36,
                0 <= count,
        ;
    }
    lemma_vertices(bytes, count_at + 5, surface.vertices, 0, rest);
    assert(found.vertices =~= surface.vertices);
    assert(found =~= surface);
}

/// The bits of the surfaces from `from` on.
pub open spec fn surfaces_bits(surfaces: Seq<SurfaceSyntax>, from: int, rest: Seq<bool>) -> Seq<bool>
    decreases surfaces.len() - from,
{
    if from >= surfaces.len() {
        rest
    } else {
        surface_bits(surfaces[from], surfaces_bits(surfaces, from + 1, rest))
    }
}

proof fn lemma_surfaces(
    bytes: Seq<u8>,
    at: int,
    surfaces: Seq<SurfaceSyntax>,
    index: int,
    rest: Seq<bool>,
)
    requires
        surfaces.len() >= 1,
        forall|i: int|
            0 <= i < surfaces.len() ==> surface_fits(
                #[trigger] surfaces[i],
                surfaces.len() as int,
            ),
        spells(bytes, at, surfaces_bits(surfaces, 0, rest)),
        0 <= index <= surfaces.len(),
    ensures
        ({
            let count = surfaces.len() as int;
            let here = chain_start(surface_step(bytes, count), at, index);
            &&& spells(bytes, here, surfaces_bits(surfaces, index, rest))
            &&& here == at + surfaces_bits(surfaces, 0, rest).len() - surfaces_bits(
                surfaces,
                index,
                rest,
            ).len()
            &&& index < surfaces.len() ==> surface_of(bytes, here, count) == surfaces[index]
        }),
    decreases index,
{
    let count = surfaces.len() as int;
    let step = surface_step(bytes, count);
    if index > 0 {
        lemma_surfaces(bytes, at, surfaces, index - 1, rest);
        written_surfaces_read_back(
            bytes,
            chain_start(step, at, index - 1),
            surfaces[index - 1],
            count,
            surfaces_bits(surfaces, index, rest),
        );
    }
    if index < surfaces.len() {
        written_surfaces_read_back(
            bytes,
            chain_start(step, at, index),
            surfaces[index],
            count,
            surfaces_bits(surfaces, index + 1, rest),
        );
    }
}

/// The bits of an acoustic environment.
pub open spec fn environment_bits(environment: EnvironmentSyntax, rest: Seq<bool>) -> Seq<bool> {
    let surfaces = put(
        environment.surfaces.len() - 1,
        3,
        surfaces_bits(environment.surfaces, 0, rest),
    );
    let late = put_option(
        environment.late_reverb_gain,
        7,
        put_flag(
            environment.low_frequency_processing,
            put_option(environment.convolution_reverb_type, 5, surfaces),
        ),
    );
    put_flag(
        environment.early_reflection_gain is Some,
        put_flag(
            environment.late_reverb_gain is Some,
            put(
                environment.reverb_type as int,
                2,
                put_option(environment.early_reflection_gain, 7, late),
            ),
        ),
    )
}

/// The parts of an environment fit: only the second kind of reverberation has a kind of its own.
pub open spec fn environment_fits(environment: EnvironmentSyntax) -> bool {
    &&& option_below(environment.early_reflection_gain, 128)
    &&& option_below(environment.late_reverb_gain, 128)
    &&& environment.reverb_type < 4
    &&& environment.convolution_reverb_type is Some <==> environment.reverb_type == 2
    &&& option_below(environment.convolution_reverb_type, 32)
    &&& 1 <= environment.surfaces.len() <= 8
    &&& forall|i: int|
        0 <= i < environment.surfaces.len() ==> surface_fits(
            #[trigger] environment.surfaces[i],
            environment.surfaces.len() as int,
        )
}

proof fn lemma_environment_front(
    bytes: Seq<u8>,
    at: int,
    environment: EnvironmentSyntax,
    rest: Seq<bool>,
)
    requires
        environment_fits(environment),
        spells(bytes, at, environment_bits(environment, rest)),
    ensures
        ({
            let found = environment_of(bytes, at);
            let surfaces_at = environment_surfaces_at(bytes, at);
            let list = surfaces_bits(environment.surfaces, 0, rest);
            &&& found.early_reflection_gain == environment.early_reflection_gain
            &&& found.late_reverb_gain == environment.late_reverb_gain
            &&& found.reverb_type == environment.reverb_type
            &&& found.low_frequency_processing == environment.low_frequency_processing
            &&& found.convolution_reverb_type == environment.convolution_reverb_type
            &&& list_len(bytes, surfaces_at, 3) == environment.surfaces.len()
            &&& spells(bytes, surfaces_at + 3, list)
            &&& environment_bits(environment, rest).len() == surfaces_at + 3 - at + list.len()
        }),
{
    lemma_strings();
    lemma_span_values();
}

/// An acoustic environment is read as it was written.
pub proof fn written_environments_read_back(
    bytes: Seq<u8>,
    at: int,
    environment: EnvironmentSyntax,
    rest: Seq<bool>,
)
    requires
        environment_fits(environment),
        spells(bytes, at, environment_bits(environment, rest)),
    ensures
        environment_of(bytes, at) == environment,
        spells(bytes, environment_end(bytes, at), rest),
        environment_end(bytes, at) == at + environment_bits(environment, rest).len() - rest.len(),
{
    lemma_environment_front(bytes, at, environment, rest);
    let surfaces = environment.surfaces;
    let surfaces_at = environment_surfaces_at(bytes, at);
    lemma_surfaces(bytes, surfaces_at + 3, surfaces, surfaces.len() as int, rest);
    let found = surfaces_of(bytes, surfaces_at);
    assert forall|i: int| 0 <= i < surfaces.len() implies found[i] == #[trigger] surfaces[i] by {
        lemma_surfaces(bytes, surfaces_at + 3, surfaces, i, rest);
    }
    assert(found =~= surfaces);
    assert(environment_of(bytes, at) =~= environment);
}

/// The bits of one band of the equaliser.
pub open spec fn eq_band_bits(band: VrEqBandMetadata, rest: Seq<bool>) -> Seq<bool> {
    put(
        band.eq_type as int,
        3,
        put(
            band.center_frequency as int,
            7,
            put_flag(band.upper_q_range, put(band.q as int, 6, put(band.gain as int, 7, rest))),
        ),
    )
}

/// The codes of a band fit.
pub open spec fn eq_band_fits(band: VrEqBandMetadata) -> bool {
    band.eq_type < 8 && band.center_frequency < 128 && band.q < 64 && band.gain < 128
}

/// The bits of the bands from `from` on.
pub open spec fn eq_bands_bits(bands: Seq<VrEqBandMetadata>, from: int, rest: Seq<bool>) -> Seq<bool>
    decreases bands.len() - from,
{
    if from >= bands.len() {
        rest
    } else {
        eq_band_bits(bands[from], eq_bands_bits(bands, from + 1, rest))
    }
}

proof fn lemma_eq_band(bytes: Seq<u8>, at: int, band: VrEqBandMetadata, rest: Seq<bool>)
    requires
        eq_band_fits(band),
        spells(bytes, at, eq_band_bits(band, rest)),
    ensures
        eq_band_of(bytes, at) == band,
        spells(bytes, at + 24, rest),
        eq_band_bits(band, rest).len() == 24 + rest.len(),
{
    lemma_strings();
    lemma_span_values();
}

proof fn lemma_eq_bands(
    bytes: Seq<u8>,
    at: int,
    bands: Seq<VrEqBandMetadata>,
    from: int,
    rest: Seq<bool>,
)
    requires
        forall|i: int| 0 <= i < bands.len() ==> eq_band_fits(#[trigger] bands[i]),
        0 <= from <= bands.len(),
        spells(bytes, at + 24 * from, eq_bands_bits(bands, from, rest)),
    ensures
        forall|i: int|
            from <= i < bands.len() ==> eq_band_of(bytes, at + 24 * i) == #[trigger] bands[i],
        spells(bytes, at + 24 * bands.len(), rest),
        eq_bands_bits(bands, from, rest).len() == 24 * (bands.len() - from) + rest.len(),
    decreases bands.len() - from,
{
    if from < bands.len() {
        assert(eq_band_fits(bands[from]));
        lemma_eq_band(
            bytes,
            at + 24 * from,
            bands[from],
            eq_bands_bits(bands, from + 1, rest),
        );
        lemma_eq_bands(bytes, at, bands, from + 1, rest);
    }
}

/// The bits of the compressor.
pub open spec fn drc_bits(drc: VrDrcMetadata, rest: Seq<bool>) -> Seq<bool> {
    put(
        drc.attack_time as int,
        4,
        put(
            drc.release_time as int,
            4,
            put(
                drc.threshold as int,
                7,
                put(
                    drc.pre_gain as int,
                    7,
                    put(drc.post_gain as int, 7, put(drc.ratio as int, 7, rest)),
                ),
            ),
        ),
    )
}

/// The codes of the compressor fit.
pub open spec fn drc_fits(drc: VrDrcMetadata) -> bool {
    drc.attack_time < 16 && drc.release_time < 16 && drc.threshold < 128 && drc.pre_gain < 128
        && drc.post_gain < 128 && drc.ratio < 128
}

proof fn lemma_drc(bytes: Seq<u8>, at: int, drc: VrDrcMetadata, rest: Seq<bool>)
    requires
        drc_fits(drc),
        spells(bytes, at, drc_bits(drc, rest)),
    ensures
        drc_of(bytes, at) == drc,
        spells(bytes, at + 36, rest),
        drc_bits(drc, rest).len() == 36 + rest.len(),
{
    lemma_strings();
    lemma_span_values();
}

/// The bits of the effects: three flags, the order of the effects if there is any, and each of them.
pub open spec fn effect_bits(effect: EffectSyntax, rest: Seq<bool>) -> Seq<bool> {
    let gain = put_option(effect.gain, 7, rest);
    let drc = match effect.drc {
        Some(drc) => drc_bits(drc, gain),
        None => gain,
    };
    let bands = if effect.eq_bands.len() > 0 {
        put(effect.eq_bands.len() - 1, 4, eq_bands_bits(effect.eq_bands, 0, drc))
    } else {
        drc
    };
    put_flag(
        effect.eq_bands.len() > 0,
        put_flag(
            effect.drc is Some,
            put_flag(effect.gain is Some, put_option(effect.effect_chain, 3, bands)),
        ),
    )
}

/// The parts of the effects fit: there is an order if there is an effect.
pub open spec fn effect_fits(effect: EffectSyntax) -> bool {
    &&& effect.effect_chain is Some <==> effect.eq_bands.len() > 0 || effect.drc is Some
        || effect.gain is Some
    &&& option_below(effect.effect_chain, 6)
    &&& effect.eq_bands.len() <= 11
    &&& forall|i: int|
        0 <= i < effect.eq_bands.len() ==> eq_band_fits(#[trigger] effect.eq_bands[i])
    &&& effect.drc matches Some(drc) ==> drc_fits(drc)
    &&& option_below(effect.gain, 128)
}

/// The effects are read as they were written.
pub proof fn written_effects_read_back(
    bytes: Seq<u8>,
    at: int,
    effect: EffectSyntax,
    rest: Seq<bool>,
)
    requires
        effect_fits(effect),
        spells(bytes, at, effect_bits(effect, rest)),
    ensures
        effect_of(bytes, at) == effect,
        spells(bytes, effect_end(bytes, at), rest),
        effect_end(bytes, at) == at + effect_bits(effect, rest).len() - rest.len(),
{
    let gain = put_option(effect.gain, 7, rest);
    let drc = match effect.drc {
        Some(drc) => drc_bits(drc, gain),
        None => gain,
    };
    let list = eq_bands_bits(effect.eq_bands, 0, drc);
    let bands = if effect.eq_bands.len() > 0 {
        put(effect.eq_bands.len() - 1, 4, list)
    } else {
        drc
    };
    let found = effect_of(bytes, at);
    let eq_at = effect_eq_at(bytes, at);
    assert(bit_at(bytes, at) == (effect.eq_bands.len() > 0) && bit_at(bytes, at + 1) == (
    effect.drc is Some) && bit_at(bytes, at + 2) == (effect.gain is Some) && found.effect_chain
        == effect.effect_chain && spells(bytes, eq_at, bands) && effect_bits(effect, rest).len()
        == eq_at - at + bands.len()) by {
        lemma_strings();
        lemma_span_values();
    }
    if effect.eq_bands.len() > 0 {
        assert(code(bytes, eq_at, 4) == effect.eq_bands.len() - 1 && spells(
            bytes,
            eq_at + 4,
            list,
        ) && bands.len() == 4 + list.len()) by {
            lemma_strings();
            lemma_span_values();
        }
        lemma_eq_bands(bytes, eq_at + 4, effect.eq_bands, 0, drc);
    }
    assert(band_count(bytes, at) == effect.eq_bands.len());
    assert(found.eq_bands =~= effect.eq_bands);
    if let Some(value) = effect.drc {
        lemma_drc(bytes, effect_drc_at(bytes, at), value, gain);
    }
    assert(spells(bytes, effect_gain_at(bytes, at), gain));
    assert(found.gain == effect.gain && spells(bytes, effect_end(bytes, at), rest) && gain.len()
        == effect_end(bytes, at) - effect_gain_at(bytes, at) + rest.len()) by {
        lemma_strings();
        lemma_span_values();
    }
    assert(found =~= effect);
}

/// The bits of the rendering block.
pub open spec fn render_bits(render: RenderSyntax, rest: Seq<bool>) -> Seq<bool> {
    put_flag(
        render.target_device,
        put(
            render.hrtf_type as int,
            4,
            put_all(render.headphone_types, 7, 0, effect_bits(render.audio_effect, rest)),
        ),
    )
}

/// The parts of the rendering block fit.
pub open spec fn render_fits(render: RenderSyntax) -> bool {
    &&& render.hrtf_type < 16
    &&& render.headphone_types.len() == 16
    &&& forall|i: int| 0 <= i < 16 ==> #[trigger] render.headphone_types[i] < 128
    &&& effect_fits(render.audio_effect)
}

/// The rendering block is read as it was written.
pub proof fn written_rendering_reads_back(
    bytes: Seq<u8>,
    at: int,
    render: RenderSyntax,
    rest: Seq<bool>,
)
    requires
        render_fits(render),
        spells(bytes, at, render_bits(render, rest)),
    ensures
        render_of(bytes, at) == render,
        spells(bytes, render_end(bytes, at), rest),
        render_end(bytes, at) == at + render_bits(render, rest).len() - rest.len(),
{
    let tail = effect_bits(render.audio_effect, rest);
    let list = put_all(render.headphone_types, 7, 0, tail);
    assert(bit_at(bytes, at) == render.target_device && code(bytes, at + 1, 4) == render.hrtf_type
        && spells(bytes, at + 5, list) && render_bits(render, rest).len() == 5 + list.len()) by {
        lemma_strings();
        lemma_span_values();
    }
    lemma_span_values();
    assert(at + 5 + 0 * 7 == at + 5);
    lemma_all(bytes, at + 5, render.headphone_types, 7, 0, tail);
    let read = codes(bytes, at + 5, 16, 7);
    assert forall|i: int| 0 <= i < 16 implies #[trigger] read[i] == render.headphone_types[i] by {
        assert(bits(bytes, at + 5 + i * 7, 7) == render.headphone_types[i]);
    }
    assert(read =~= render.headphone_types);
    written_effects_read_back(bytes, at + 117, render.audio_effect, rest);
    assert(render_of(bytes, at) =~= render);
}

/// The bits of the extension: two flags, an order, and the two blocks.
pub open spec fn extension_bits(extension: ExtensionSyntax, rest: Seq<bool>) -> Seq<bool> {
    let render = match extension.render_info {
        Some(render) => render_bits(render, rest),
        None => rest,
    };
    let environment = match extension.acoustic_environment {
        Some(environment) => environment_bits(environment, render),
        None => render,
    };
    put_flag(
        extension.acoustic_environment is Some,
        put_flag(
            extension.render_info is Some,
            put(extension.ambisonic_order as int, 3, environment),
        ),
    )
}

/// The parts of the extension fit.
pub open spec fn extension_fits(extension: ExtensionSyntax) -> bool {
    &&& extension.ambisonic_order < 8
    &&& extension.acoustic_environment matches Some(environment) ==> environment_fits(environment)
    &&& extension.render_info matches Some(render) ==> render_fits(render)
}

/// The extension is read as it was written.
pub proof fn written_vr_extensions_read_back(
    bytes: Seq<u8>,
    at: int,
    extension: ExtensionSyntax,
    rest: Seq<bool>,
)
    requires
        extension_fits(extension),
        spells(bytes, at, extension_bits(extension, rest)),
    ensures
        extension_of(bytes, at) == extension,
        spells(bytes, extension_end(bytes, at), rest),
        extension_end(bytes, at) == at + extension_bits(extension, rest).len() - rest.len(),
{
    reveal(extension_of);
    reveal(extension_end);
    let render = match extension.render_info {
        Some(render) => render_bits(render, rest),
        None => rest,
    };
    let environment = match extension.acoustic_environment {
        Some(environment) => environment_bits(environment, render),
        None => render,
    };
    assert(bit_at(bytes, at) == (extension.acoustic_environment is Some) && bit_at(bytes, at + 1)
        == (extension.render_info is Some) && code(bytes, at + 2, 3) == extension.ambisonic_order
        && spells(bytes, at + 5, environment) && extension_bits(extension, rest).len() == 5
        + environment.len()) by {
        lemma_strings();
        lemma_span_values();
    }
    if let Some(value) = extension.acoustic_environment {
        written_environments_read_back(bytes, at + 5, value, render);
    }
    if let Some(value) = extension.render_info {
        written_rendering_reads_back(bytes, extension_render_at(bytes, at), value, rest);
    }
    assert(extension_of(bytes, at) =~= extension);
}

} // verus!
