//! Writing the metadata of a whole frame, and what reading does with it.

use crate::bit_writing::{lemma_strings, put, put_flag, spells};
use crate::bitreader::{bit_at, lemma_span_values};
use crate::engine::metadata::{metadata_at, static_at, MetadataError};
use crate::engine::metadata_basic::{
    basic_at, channels_at, content_step, contents_end, contents_of, object_step, objects_end,
    objects_of, pack_step, packs_end, packs_of,
};
use crate::engine::metadata_dynamic_laws::{
    dynamic_bits, object_bits, object_can_be_written, objects_bits,
    written_dynamic_metadata_is_found,
};
use crate::engine::metadata_static::{list_len, programme_end};
use crate::engine::metadata_static_laws::{
    channel_bits, channel_fits, content_bits, content_fits, pack_bits, pack_fits, programme_bits,
    programme_fits, static_object_bits, static_object_fits, written_channels_read_back,
    written_contents_read_back, written_objects_read_back, written_packs_read_back,
    written_programmes_read_back,
};
use crate::engine::metadata_syntax::{chain_start, code};
use crate::engine::metadata_values::{
    BasicSyntax, ChannelSyntax, ContentSyntax, DynamicObjectMetadata, ExtensionSyntax,
    ObjectSyntax, PackSyntax, StaticSyntax,
};
use crate::engine::metadata_vr_laws::{
    extension_bits, extension_fits, written_vr_extensions_read_back,
};
use vstd::prelude::*;

verus! {

/// The bits of the contents from `from` on.
pub open spec fn contents_bits(contents: Seq<ContentSyntax>, from: int, rest: Seq<bool>) -> Seq<bool>
    decreases contents.len() - from,
{
    if from >= contents.len() {
        rest
    } else {
        content_bits(contents[from], contents_bits(contents, from + 1, rest))
    }
}

proof fn lemma_content_chain(
    bytes: Seq<u8>,
    at: int,
    contents: Seq<ContentSyntax>,
    index: int,
    rest: Seq<bool>,
)
    requires
        forall|i: int| 0 <= i < contents.len() ==> content_fits(#[trigger] contents[i]),
        spells(bytes, at, contents_bits(contents, 0, rest)),
        0 <= index <= contents.len(),
    ensures
        ({
            let here = chain_start(content_step(bytes), at, index);
            &&& spells(bytes, here, contents_bits(contents, index, rest))
            &&& here == at + contents_bits(contents, 0, rest).len() - contents_bits(
                contents,
                index,
                rest,
            ).len()
            &&& index < contents.len() ==> crate::engine::metadata_static::content_of(bytes, here)
                == contents[index]
        }),
    decreases index,
{
    let step = content_step(bytes);
    if index > 0 {
        lemma_content_chain(bytes, at, contents, index - 1, rest);
        written_contents_read_back(
            bytes,
            chain_start(step, at, index - 1),
            contents[index - 1],
            contents_bits(contents, index, rest),
        );
    }
    if index < contents.len() {
        written_contents_read_back(
            bytes,
            chain_start(step, at, index),
            contents[index],
            contents_bits(contents, index + 1, rest),
        );
    }
}

/// The bits of the objects from `from` on.
pub open spec fn static_objects_bits(
    objects: Seq<ObjectSyntax>,
    from: int,
    rest: Seq<bool>,
) -> Seq<bool>
    decreases objects.len() - from,
{
    if from >= objects.len() {
        rest
    } else {
        static_object_bits(objects[from], static_objects_bits(objects, from + 1, rest))
    }
}

proof fn lemma_object_chain(
    bytes: Seq<u8>,
    at: int,
    objects: Seq<ObjectSyntax>,
    index: int,
    rest: Seq<bool>,
)
    requires
        forall|i: int| 0 <= i < objects.len() ==> static_object_fits(#[trigger] objects[i]),
        spells(bytes, at, static_objects_bits(objects, 0, rest)),
        0 <= index <= objects.len(),
    ensures
        ({
            let here = chain_start(object_step(bytes), at, index);
            &&& spells(bytes, here, static_objects_bits(objects, index, rest))
            &&& here == at + static_objects_bits(objects, 0, rest).len() - static_objects_bits(
                objects,
                index,
                rest,
            ).len()
            &&& index < objects.len() ==> crate::engine::metadata_static::object_of(bytes, here)
                == objects[index]
        }),
    decreases index,
{
    let step = object_step(bytes);
    if index > 0 {
        lemma_object_chain(bytes, at, objects, index - 1, rest);
        written_objects_read_back(
            bytes,
            chain_start(step, at, index - 1),
            objects[index - 1],
            static_objects_bits(objects, index, rest),
        );
    }
    if index < objects.len() {
        written_objects_read_back(
            bytes,
            chain_start(step, at, index),
            objects[index],
            static_objects_bits(objects, index + 1, rest),
        );
    }
}

/// The bits of the packs from `from` on.
pub open spec fn packs_bits(packs: Seq<PackSyntax>, from: int, rest: Seq<bool>) -> Seq<bool>
    decreases packs.len() - from,
{
    if from >= packs.len() {
        rest
    } else {
        pack_bits(packs[from], packs_bits(packs, from + 1, rest))
    }
}

proof fn lemma_pack_chain(
    bytes: Seq<u8>,
    at: int,
    packs: Seq<PackSyntax>,
    index: int,
    rest: Seq<bool>,
)
    requires
        forall|i: int| 0 <= i < packs.len() ==> pack_fits(#[trigger] packs[i]),
        spells(bytes, at, packs_bits(packs, 0, rest)),
        0 <= index <= packs.len(),
    ensures
        ({
            let here = chain_start(pack_step(bytes), at, index);
            &&& spells(bytes, here, packs_bits(packs, index, rest))
            &&& here == at + packs_bits(packs, 0, rest).len() - packs_bits(
                packs,
                index,
                rest,
            ).len()
            &&& index < packs.len() ==> crate::engine::metadata_static::pack_of(bytes, here)
                == packs[index]
        }),
    decreases index,
{
    let step = pack_step(bytes);
    if index > 0 {
        lemma_pack_chain(bytes, at, packs, index - 1, rest);
        written_packs_read_back(
            bytes,
            chain_start(step, at, index - 1),
            packs[index - 1],
            packs_bits(packs, index, rest),
        );
    }
    if index < packs.len() {
        written_packs_read_back(
            bytes,
            chain_start(step, at, index),
            packs[index],
            packs_bits(packs, index + 1, rest),
        );
    }
}

/// The bits of the channel formats from `from` on.
pub open spec fn channels_bits(channels: Seq<ChannelSyntax>, from: int, rest: Seq<bool>) -> Seq<bool>
    decreases channels.len() - from,
{
    if from >= channels.len() {
        rest
    } else {
        channel_bits(channels[from], channels_bits(channels, from + 1, rest))
    }
}

/// Pack `pick` is the last one with the channel, and the channel format fits it.
pub open spec fn pack_speaks(packs: Seq<PackSyntax>, pick: int, channel: ChannelSyntax) -> bool {
    &&& 0 <= pick < packs.len()
    &&& exists|i: int|
        0 <= i < packs[pick].channels.len() && #[trigger] packs[pick].channels[i].channel_index
            == channel.index
    &&& forall|j: int, i: int|
        pick < j < packs.len() && 0 <= i < packs[j].channels.len()
            ==> #[trigger] packs[j].channels[i].channel_index != channel.index
    &&& channel_fits(channel, packs[pick])
}

proof fn lemma_channel_len(channel: ChannelSyntax, rest: Seq<bool>)
    ensures
        channel_bits(channel, rest).len() >= rest.len(),
{
    lemma_put_all_grows(channel.matrix_coefficients, 8, 0, rest);
    lemma_strings();
}

proof fn lemma_put_all_grows(values: Seq<u8>, width: int, from: int, rest: Seq<bool>)
    requires
        0 <= width,
    ensures
        crate::bit_writing::put_all(values, width, from, rest).len() >= rest.len(),
    decreases values.len() - from,
{
    lemma_strings();
    if from < values.len() {
        lemma_put_all_grows(values, width, from + 1, rest);
    }
}

proof fn lemma_channels_len(channels: Seq<ChannelSyntax>, from: int, rest: Seq<bool>)
    ensures
        channels_bits(channels, from, rest).len() >= rest.len(),
    decreases channels.len() - from,
{
    if from < channels.len() {
        lemma_channels_len(channels, from + 1, rest);
        lemma_channel_len(channels[from], channels_bits(channels, from + 1, rest));
    }
}

proof fn lemma_channels(
    bytes: Seq<u8>,
    end: int,
    at: int,
    packs: Seq<PackSyntax>,
    picks: Seq<int>,
    channels: Seq<ChannelSyntax>,
    from: int,
    rest: Seq<bool>,
)
    requires
        picks.len() == channels.len(),
        forall|i: int|
            0 <= i < channels.len() ==> pack_speaks(packs, picks[i], #[trigger] channels[i]),
        0 <= from <= channels.len(),
        spells(bytes, at, channels_bits(channels, from, rest)),
        at + channels_bits(channels, from, rest).len() - rest.len() <= end,
    ensures
        channels_at(bytes, end, at, packs, channels.len() - from) == Ok::<
            (Seq<ChannelSyntax>, int),
            MetadataError,
        >((channels.skip(from), at + channels_bits(channels, from, rest).len() - rest.len())),
        spells(bytes, at + channels_bits(channels, from, rest).len() - rest.len(), rest),
    decreases channels.len() - from,
{
    if from < channels.len() {
        let channel = channels[from];
        let later = channels_bits(channels, from + 1, rest);
        lemma_channels_len(channels, from + 1, rest);
        assert(pack_speaks(packs, picks[from], channels[from]));
        written_channels_read_back(bytes, end, at, packs, picks[from], channel, later);
        let next = at + channels_bits(channels, from, rest).len() - later.len();
        lemma_channels(bytes, end, next, packs, picks, channels, from + 1, rest);
        assert(seq![channel] + channels.skip(from + 1) =~= channels.skip(from));
    } else {
        assert(channels.skip(from) =~= Seq::empty());
    }
}

/// The bits of a basic description: a programme, and the lists of contents, objects, packs and
/// channel formats, each behind one less than its length.
pub open spec fn basic_bits(basic: BasicSyntax, rest: Seq<bool>) -> Seq<bool> {
    let channels = put(basic.channels.len() - 1, 5, channels_bits(basic.channels, 0, rest));
    let packs = put(basic.packs.len() - 1, 3, packs_bits(basic.packs, 0, channels));
    let objects = put(basic.objects.len() - 1, 3, static_objects_bits(basic.objects, 0, packs));
    let contents = put(basic.contents.len() - 1, 2, contents_bits(basic.contents, 0, objects));
    programme_bits(basic.programme, contents)
}

/// The parts of a basic description fit; `picks` says which pack speaks for each channel.
pub open spec fn basic_fits(basic: BasicSyntax, picks: Seq<int>) -> bool {
    &&& programme_fits(basic.programme)
    &&& 1 <= basic.contents.len() <= 4
    &&& forall|i: int| 0 <= i < basic.contents.len() ==> content_fits(#[trigger] basic.contents[i])
    &&& 1 <= basic.objects.len() <= 8
    &&& forall|i: int|
        0 <= i < basic.objects.len() ==> static_object_fits(#[trigger] basic.objects[i])
    &&& 1 <= basic.packs.len() <= 8
    &&& forall|i: int| 0 <= i < basic.packs.len() ==> pack_fits(#[trigger] basic.packs[i])
    &&& 1 <= basic.channels.len() <= 32
    &&& picks.len() == basic.channels.len()
    &&& forall|i: int|
        0 <= i < basic.channels.len() ==> pack_speaks(
            basic.packs,
            picks[i],
            #[trigger] basic.channels[i],
        )
}

proof fn lemma_head(bytes: Seq<u8>, at: int, len: int, width: int, rest: Seq<bool>)
    requires
        spells(bytes, at, put(len - 1, width, rest)),
        width == 2 || width == 3 || width == 5,
        1 <= len <= crate::bitreader::span(width as nat),
    ensures
        list_len(bytes, at, width) == len,
        spells(bytes, at + width, rest),
        put(len - 1, width, rest).len() == width + rest.len(),
{
    lemma_strings();
    lemma_span_values();
}

proof fn lemma_content_list(bytes: Seq<u8>, at: int, list: Seq<ContentSyntax>, rest: Seq<bool>)
    requires
        1 <= list.len() <= crate::bitreader::span(2),
        forall|i: int| 0 <= i < list.len() ==> content_fits(#[trigger] list[i]),
        spells(bytes, at, put(list.len() - 1, 2, contents_bits(list, 0, rest))),
    ensures
        contents_of(bytes, at) == list,
        spells(bytes, contents_end(bytes, at), rest),
        contents_end(bytes, at) == at + put(list.len() - 1, 2, contents_bits(list, 0, rest)).len()
            - rest.len(),
{
    let count = list.len() as int;
    lemma_head(bytes, at, count, 2, contents_bits(list, 0, rest));
    lemma_content_chain(bytes, at + 2, list, count, rest);
    let found = contents_of(bytes, at);
    assert forall|i: int| 0 <= i < count implies found[i] == #[trigger] list[i] by {
        lemma_content_chain(bytes, at + 2, list, i, rest);
    }
    assert(found =~= list);
}

proof fn lemma_object_list(bytes: Seq<u8>, at: int, list: Seq<ObjectSyntax>, rest: Seq<bool>)
    requires
        1 <= list.len() <= crate::bitreader::span(3),
        forall|i: int| 0 <= i < list.len() ==> static_object_fits(#[trigger] list[i]),
        spells(bytes, at, put(list.len() - 1, 3, static_objects_bits(list, 0, rest))),
    ensures
        objects_of(bytes, at) == list,
        spells(bytes, objects_end(bytes, at), rest),
        objects_end(bytes, at) == at + put(list.len() - 1, 3, static_objects_bits(list, 0, rest)).len()
            - rest.len(),
{
    let count = list.len() as int;
    lemma_head(bytes, at, count, 3, static_objects_bits(list, 0, rest));
    lemma_object_chain(bytes, at + 3, list, count, rest);
    let found = objects_of(bytes, at);
    assert forall|i: int| 0 <= i < count implies found[i] == #[trigger] list[i] by {
        lemma_object_chain(bytes, at + 3, list, i, rest);
    }
    assert(found =~= list);
}

proof fn lemma_pack_list(bytes: Seq<u8>, at: int, list: Seq<PackSyntax>, rest: Seq<bool>)
    requires
        1 <= list.len() <= crate::bitreader::span(3),
        forall|i: int| 0 <= i < list.len() ==> pack_fits(#[trigger] list[i]),
        spells(bytes, at, put(list.len() - 1, 3, packs_bits(list, 0, rest))),
    ensures
        packs_of(bytes, at) == list,
        spells(bytes, packs_end(bytes, at), rest),
        packs_end(bytes, at) == at + put(list.len() - 1, 3, packs_bits(list, 0, rest)).len()
            - rest.len(),
{
    let count = list.len() as int;
    lemma_head(bytes, at, count, 3, packs_bits(list, 0, rest));
    lemma_pack_chain(bytes, at + 3, list, count, rest);
    let found = packs_of(bytes, at);
    assert forall|i: int| 0 <= i < count implies found[i] == #[trigger] list[i] by {
        lemma_pack_chain(bytes, at + 3, list, i, rest);
    }
    assert(found =~= list);
}

/// A basic description is read as it was written.
pub proof fn written_descriptions_read_back(
    bytes: Seq<u8>,
    end: int,
    at: int,
    basic: BasicSyntax,
    picks: Seq<int>,
    rest: Seq<bool>,
)
    requires
        basic_fits(basic, picks),
        spells(bytes, at, basic_bits(basic, rest)),
        at + basic_bits(basic, rest).len() - rest.len() <= end,
    ensures
        basic_at(bytes, end, at) == Ok::<(BasicSyntax, int), MetadataError>(
            (basic, at + basic_bits(basic, rest).len() - rest.len()),
        ),
        spells(bytes, at + basic_bits(basic, rest).len() - rest.len(), rest),
{
    lemma_span_values();
    let last = channels_bits(basic.channels, 0, rest);
    let channels = put(basic.channels.len() - 1, 5, last);
    let packs = put(basic.packs.len() - 1, 3, packs_bits(basic.packs, 0, channels));
    let objects = put(basic.objects.len() - 1, 3, static_objects_bits(basic.objects, 0, packs));
    let contents = put(basic.contents.len() - 1, 2, contents_bits(basic.contents, 0, objects));
    written_programmes_read_back(bytes, at, basic.programme, contents);
    let contents_at = programme_end(bytes, at);
    lemma_content_list(bytes, contents_at, basic.contents, objects);
    let objects_at = contents_end(bytes, contents_at);
    lemma_object_list(bytes, objects_at, basic.objects, packs);
    let packs_at = objects_end(bytes, objects_at);
    lemma_pack_list(bytes, packs_at, basic.packs, channels);
    let channels_from = packs_end(bytes, packs_at);
    lemma_head(bytes, channels_from, basic.channels.len() as int, 5, last);
    lemma_channels_len(basic.channels, 0, rest);
    lemma_channels(bytes, end, channels_from + 5, basic.packs, picks, basic.channels, 0, rest);
    assert(basic.channels.skip(0) =~= basic.channels);
    reveal(basic_at);
}

/// The bits of the static metadata: whether there is an extension, the level, the basic description,
/// and the level of the extension with what is in it. Only the lowest level has anything in it.
pub open spec fn static_bits(
    level: u8,
    basic: BasicSyntax,
    extension: Option<(u8, Option<ExtensionSyntax>)>,
    rest: Seq<bool>,
) -> Seq<bool> {
    let tail = match extension {
        Some((level, Some(extension))) => put(level as int, 3, extension_bits(extension, rest)),
        Some((level, None)) => put(level as int, 3, rest),
        None => rest,
    };
    put_flag(extension is Some, put(level as int, 3, basic_bits(basic, tail)))
}

/// The parts of the static metadata fit.
pub open spec fn static_fits(
    level: u8,
    basic: BasicSyntax,
    picks: Seq<int>,
    extension: Option<(u8, Option<ExtensionSyntax>)>,
) -> bool {
    &&& level <= 1
    &&& basic_fits(basic, picks)
    &&& extension matches Some((level, inside)) ==> {
        &&& level < 8
        &&& inside is Some <==> level == 0
        &&& inside matches Some(inside) ==> extension_fits(inside)
    }
}

/// The static metadata is read as it was written, and not a bit more.
pub proof fn written_static_metadata_reads_back(
    bytes: Seq<u8>,
    end: int,
    at: int,
    level: u8,
    basic: BasicSyntax,
    picks: Seq<int>,
    extension: Option<(u8, Option<ExtensionSyntax>)>,
    rest: Seq<bool>,
)
    requires
        static_fits(level, basic, picks, extension),
        spells(bytes, at, static_bits(level, basic, extension, rest)),
        at + static_bits(level, basic, extension, rest).len() - rest.len() <= end,
    ensures
        ({
            let size = static_bits(level, basic, extension, rest).len() - rest.len();
            &&& spells(bytes, at + size, rest)
            &&& static_at(bytes, end, at) == Ok::<(StaticSyntax, int), MetadataError>(
                (
                    StaticSyntax {
                        consumed_bits: size,
                        basic_level: level,
                        basic,
                        vr_extension_level: match extension {
                            Some((level, _)) => Some(level),
                            None => None,
                        },
                        vr_extension_l1: match extension {
                            Some((_, inside)) => inside,
                            None => None,
                        },
                    },
                    at + size,
                ),
            )
        }),
{
    let tail = match extension {
        Some((level, Some(extension))) => put(level as int, 3, extension_bits(extension, rest)),
        Some((level, None)) => put(level as int, 3, rest),
        None => rest,
    };
    let body = basic_bits(basic, tail);
    assert(bit_at(bytes, at) == (extension is Some) && code(bytes, at + 1, 3) == level && spells(
        bytes,
        at + 4,
        body,
    ) && static_bits(level, basic, extension, rest).len() == 4 + body.len()) by {
        lemma_strings();
        lemma_span_values();
    }
    assert(tail.len() >= rest.len() && (extension is Some ==> tail.len() >= 3 + rest.len())) by {
        lemma_strings();
        if let Some((_, Some(inside))) = extension {
            lemma_extension_len(inside, rest);
        }
    }
    written_descriptions_read_back(bytes, end, at + 4, basic, picks, tail);
    let next = at + 4 + body.len() - tail.len();
    if let Some((number, inside)) = extension {
        assert(code(bytes, next, 3) == number && spells(
            bytes,
            next + 3,
            match inside {
                Some(inside) => extension_bits(inside, rest),
                None => rest,
            },
        ) && tail.len() == 3 + (match inside {
            Some(inside) => extension_bits(inside, rest),
            None => rest,
        }).len()) by {
            lemma_strings();
            lemma_span_values();
        }
        if let Some(value) = inside {
            written_vr_extensions_read_back(bytes, next + 3, value, rest);
        } else {
            assert(number != 0);
        }
        assert(spells(bytes, next + tail.len() - rest.len(), rest));
    }
    crate::engine::metadata_basic::lemma_basic_forward(bytes, end, end, at + 4);
    let found = static_at(bytes, end, at);
    assert(found is Ok);
    assert(found->Ok_0.1 == next + tail.len() - rest.len());
    assert(found->Ok_0.0.basic == basic);
    assert(found->Ok_0.0.basic_level == level);
}

proof fn lemma_extension_len(extension: ExtensionSyntax, rest: Seq<bool>)
    ensures
        extension_bits(extension, rest).len() >= rest.len(),
{
    lemma_strings();
    let render = match extension.render_info {
        Some(render) => crate::engine::metadata_vr_laws::render_bits(render, rest),
        None => rest,
    };
    if let Some(value) = extension.render_info {
        let effect = value.audio_effect;
        let gain = crate::engine::metadata_dynamic_laws::put_option(effect.gain, 7, rest);
        let drc = match effect.drc {
            Some(drc) => crate::engine::metadata_vr_laws::drc_bits(drc, gain),
            None => gain,
        };
        lemma_bands_len(effect.eq_bands, 0, drc);
        lemma_put_all_grows(
            value.headphone_types,
            7,
            0,
            crate::engine::metadata_vr_laws::effect_bits(effect, rest),
        );
    }
    if let Some(value) = extension.acoustic_environment {
        lemma_surfaces_len(value.surfaces, 0, render);
    }
}

proof fn lemma_bands_len(
    bands: Seq<crate::engine::metadata_values::VrEqBandMetadata>,
    from: int,
    rest: Seq<bool>,
)
    ensures
        crate::engine::metadata_vr_laws::eq_bands_bits(bands, from, rest).len() >= rest.len(),
    decreases bands.len() - from,
{
    lemma_strings();
    if from < bands.len() {
        lemma_bands_len(bands, from + 1, rest);
    }
}

proof fn lemma_surfaces_len(
    surfaces: Seq<crate::engine::metadata_values::SurfaceSyntax>,
    from: int,
    rest: Seq<bool>,
)
    ensures
        crate::engine::metadata_vr_laws::surfaces_bits(surfaces, from, rest).len() >= rest.len(),
    decreases surfaces.len() - from,
{
    lemma_strings();
    if from < surfaces.len() {
        let surface = surfaces[from];
        let later = crate::engine::metadata_vr_laws::surfaces_bits(surfaces, from + 1, rest);
        lemma_surfaces_len(surfaces, from + 1, rest);
        lemma_vertices_len(surface.vertices, 0, later);
        let corners = put(
            surface.vertices.len() - 1,
            5,
            crate::engine::metadata_vr_laws::vertices_bits(surface.vertices, 0, later),
        );
        if surface.absorption is Some && surface.scattering is Some {
            lemma_coefficients_len(surface.absorption->0, surface.scattering->0, 0, corners);
        }
    }
}

proof fn lemma_vertices_len(
    vertices: Seq<crate::engine::metadata_values::VrVertex>,
    from: int,
    rest: Seq<bool>,
)
    ensures
        crate::engine::metadata_vr_laws::vertices_bits(vertices, from, rest).len() >= rest.len(),
    decreases vertices.len() - from,
{
    lemma_strings();
    if from < vertices.len() {
        lemma_vertices_len(vertices, from + 1, rest);
    }
}

proof fn lemma_coefficients_len(
    absorption: Seq<u8>,
    scattering: Seq<u8>,
    from: int,
    rest: Seq<bool>,
)
    ensures
        crate::engine::metadata_vr_laws::coefficients_bits(
            absorption,
            scattering,
            from,
            rest,
        ).len() >= rest.len(),
    decreases absorption.len() - from,
{
    lemma_strings();
    if from < absorption.len() {
        lemma_coefficients_len(absorption, scattering, from + 1, rest);
    }
}

/// Static metadata to be written.
pub ghost struct WrittenStatic {
    pub level: u8,
    pub basic: BasicSyntax,
    pub picks: Seq<int>,
    pub extension: Option<(u8, Option<ExtensionSyntax>)>,
}

/// The bits of the dynamic metadata, if there is any, behind a flag.
pub open spec fn moving_bits(
    moving: Option<(u8, Seq<DynamicObjectMetadata>)>,
    rest: Seq<bool>,
) -> Seq<bool> {
    match moving {
        Some((level, objects)) => put_flag(true, dynamic_bits(level, objects, rest)),
        None => put_flag(false, rest),
    }
}

/// The bits of the metadata of a frame: each of the two kinds behind a flag.
pub open spec fn metadata_bits(
    fixed: Option<WrittenStatic>,
    moving: Option<(u8, Seq<DynamicObjectMetadata>)>,
    rest: Seq<bool>,
) -> Seq<bool> {
    let later = moving_bits(moving, rest);
    match fixed {
        Some(fixed) => put_flag(
            true,
            static_bits(fixed.level, fixed.basic, fixed.extension, later),
        ),
        None => put_flag(false, later),
    }
}

/// The metadata of a frame is read as it was written, both kinds of it, and the audio starts right
/// behind it.
pub proof fn written_metadata_reads_back(
    bytes: Seq<u8>,
    end: int,
    fixed: Option<WrittenStatic>,
    moving: Option<(u8, Seq<DynamicObjectMetadata>)>,
    objects: int,
    rest: Seq<bool>,
)
    requires
        fixed matches Some(fixed) ==> static_fits(
            fixed.level,
            fixed.basic,
            fixed.picks,
            fixed.extension,
        ),
        moving matches Some((level, list)) ==> {
            &&& level < 8
            &&& list.len() == objects <= 32
            &&& forall|i: int|
                0 <= i < list.len() ==> object_can_be_written(#[trigger] list[i], level)
        },
        spells(bytes, 0, metadata_bits(fixed, moving, rest)),
        metadata_bits(fixed, moving, rest).len() - rest.len() <= end,
    ensures
        ({
            let found = metadata_at(bytes, end, objects);
            let size = metadata_bits(fixed, moving, rest).len() - rest.len();
            &&& found is Ok
            &&& found->Ok_0.1 == size
            &&& spells(bytes, size, rest)
            &&& match (fixed, found->Ok_0.0.static_metadata) {
                (Some(fixed), Some(read)) => {
                    &&& read.basic_level == fixed.level
                    &&& read.basic == fixed.basic
                    &&& read.vr_extension_level == match fixed.extension {
                        Some((level, _)) => Some(level),
                        None => None,
                    }
                    &&& read.vr_extension_l1 == match fixed.extension {
                        Some((_, inside)) => inside,
                        None => None,
                    }
                },
                (None, None) => true,
                _ => false,
            }
            &&& match (moving, found->Ok_0.0.dynamic_metadata) {
                (Some((level, list)), Some(read)) => read.level == level && read.objects == list,
                (None, None) => true,
                _ => false,
            }
        }),
{
    let later = moving_bits(moving, rest);
    lemma_moving_len(moving, rest);
    let at = metadata_bits(fixed, moving, rest).len() - later.len();
    if let Some(value) = fixed {
        let string = static_bits(value.level, value.basic, value.extension, later);
        assert(bit_at(bytes, 0) && spells(bytes, 1, string) && metadata_bits(
            fixed,
            moving,
            rest,
        ).len() == 1 + string.len()) by {
            lemma_strings();
        }
        written_static_metadata_reads_back(
            bytes,
            end,
            1,
            value.level,
            value.basic,
            value.picks,
            value.extension,
            later,
        );
    } else {
        lemma_strings();
    }
    assert(spells(bytes, at, later));
    if let Some((level, list)) = moving {
        let string = dynamic_bits(level, list, rest);
        assert(bit_at(bytes, at) && spells(bytes, at + 1, string) && later.len() == 1
            + string.len()) by {
            lemma_strings();
        }
        written_dynamic_metadata_is_found(bytes, end, at + 1, level, list, rest);
    } else {
        lemma_strings();
    }
}

proof fn lemma_moving_len(moving: Option<(u8, Seq<DynamicObjectMetadata>)>, rest: Seq<bool>)
    ensures
        moving_bits(moving, rest).len() > rest.len(),
{
    lemma_strings();
    if let Some((_, list)) = moving {
        lemma_objects_len(list, 0, rest);
    }
}

proof fn lemma_objects_len(objects: Seq<DynamicObjectMetadata>, from: int, rest: Seq<bool>)
    ensures
        objects_bits(objects, from, rest).len() >= rest.len(),
    decreases objects.len() - from,
{
    if from < objects.len() {
        lemma_objects_len(objects, from + 1, rest);
        lemma_object_len(objects[from], objects_bits(objects, from + 1, rest));
    }
}

proof fn lemma_object_len(object: DynamicObjectMetadata, rest: Seq<bool>)
    ensures
        object_bits(object, rest).len() >= rest.len(),
{
    lemma_strings();
}

} // verus!
