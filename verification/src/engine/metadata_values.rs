//! The values that frame metadata carries.
//!
//! Quantities such as angles, distances, gains and levels are kept as the codes that the frame
//! holds. A code is turned into a physical quantity where it is rendered.

use vstd::prelude::*;

verus! {

/// A list that holds no more than `CAPACITY` items.
#[derive(Debug, Clone, PartialEq)]
pub struct MetadataList<T, const CAPACITY: usize> {
    values: Vec<T>,
}

impl<T, const CAPACITY: usize> std::ops::Index<usize> for MetadataList<T, CAPACITY> {
    type Output = T;

    /// Item `index`.
    fn index(&self, index: usize) -> (item: &T)
        ensures
            *item == self@[index as int],
    {
        &self.values[index]
    }
}

impl<T, const CAPACITY: usize> vstd::std_specs::core::IndexSpecImpl<usize> for
    MetadataList<T, CAPACITY> {
    open spec fn index_req(&self, index: &usize) -> bool {
        *index < self@.len()
    }
}

impl<'a, T, const CAPACITY: usize> IntoIterator for &'a MetadataList<T, CAPACITY> {
    type Item = &'a T;

    type IntoIter = std::slice::Iter<'a, T>;

    fn into_iter(self) -> (items: std::slice::Iter<'a, T>)
        ensures
            vstd::std_specs::iter::IteratorSpec::remaining(&items).unref() == self@,
    {
        self.iter()
    }
}

impl<T, const CAPACITY: usize> View for MetadataList<T, CAPACITY> {
    type V = Seq<T>;

    closed spec fn view(&self) -> Seq<T> {
        self.values@
    }
}

impl<T, const CAPACITY: usize> MetadataList<T, CAPACITY> {
    /// The list does not exceed its capacity.
    pub open spec fn well_formed(&self) -> bool {
        self@.len() <= CAPACITY
    }

    /// The empty list.
    pub fn new() -> (list: Self)
        ensures
            list.well_formed(),
            list@ == Seq::<T>::empty(),
    {
        MetadataList { values: Vec::new() }
    }

    /// Put an item behind the others.
    pub fn push(&mut self, value: T)
        requires
            old(self)@.len() < CAPACITY,
        ensures
            final(self).well_formed(),
            final(self)@ == old(self)@.push(value),
    {
        self.values.push(value);
    }

    /// The items in order.
    pub fn as_slice(&self) -> (items: &[T])
        ensures
            items@ == self@,
    {
        self.values.as_slice()
    }

    /// Number of items.
    pub fn len(&self) -> (len: usize)
        ensures
            len == self@.len(),
    {
        self.values.len()
    }

    /// There are no items.
    pub fn is_empty(&self) -> (empty: bool)
        ensures
            empty == (self@.len() == 0),
    {
        self.values.len() == 0
    }

    /// The item at `index`, if there is one.
    pub fn get(&self, index: usize) -> (item: Option<&T>)
        ensures
            item is Some <==> index < self@.len(),
            item matches Some(value) ==> *value == self@[index as int],
    {
        if index < self.values.len() {
            Some(&self.values[index])
        } else {
            None
        }
    }

    /// The items one after another.
    pub fn iter(&self) -> (items: std::slice::Iter<'_, T>)
        ensures
            vstd::std_specs::iter::IteratorSpec::remaining(&items).unref() == self@,
    {
        let slice: &[T] = self.as_slice();
        let items = slice.iter();
        proof {
            vstd::std_specs::slice::axiom_spec_slice_iter(slice);
        }
        items
    }

    /// The largest number of items that the list takes.
    pub fn capacity(&self) -> (capacity: usize)
        ensures
            capacity == CAPACITY,
    {
        CAPACITY
    }
}

impl<T, const CAPACITY: usize> Default for MetadataList<T, CAPACITY> {
    fn default() -> (list: Self)
        ensures
            list.well_formed(),
            list@ == Seq::<T>::empty(),
    {
        MetadataList::new()
    }
}

/// The scale on which a gain is written.
#[derive(Debug, Clone, Copy, PartialEq, Eq)]
pub enum MetadataGainUnit {
    Linear,
    Decibels,
}

/// A gain code, which counts steps of the lower or of the upper half of the scale.
#[derive(Debug, Clone, Copy, PartialEq, Eq)]
pub struct MetadataGain {
    pub unit: MetadataGainUnit,
    pub upper_half: bool,
    pub value: u8,
}

/// Loudness codes.
#[derive(Debug, Clone, Copy, Default, PartialEq, Eq)]
pub struct LoudnessMetadata {
    pub integrated_loudness: Option<u8>,
    pub loudness_range: Option<u8>,
    pub max_true_peak: Option<u8>,
    pub max_momentary: Option<u8>,
    pub max_short_term: Option<u8>,
    pub dialogue_loudness: Option<u8>,
}

/// Where a loudspeaker stands.
#[derive(Debug, Clone, Copy, Default, PartialEq, Eq)]
pub struct DirectSpeakerPosition {
    pub azimuth: u8,
    pub elevation: u8,
    pub distance: u8,
    pub screen_edge_lock: u8,
}

/// Where the reference screen stands.
#[derive(Debug, Clone, Copy, PartialEq, Eq)]
pub enum ProgrammeScreenPosition {
    Polar { azimuth: u8, elevation: u8, distance: u8, width: u8 },
    Cartesian { x: u8, y: u8, z: u8, width: u8 },
}

/// The screen that a programme was made for.
#[derive(Debug, Clone, Copy, PartialEq, Eq)]
pub struct ProgrammeReferenceScreen {
    pub aspect_ratio: u8,
    pub position: ProgrammeScreenPosition,
}

/// What kind of dialogue a content holds.
#[derive(Debug, Clone, Copy, PartialEq, Eq)]
pub struct DialogueMetadata {
    pub attribute: u8,
    pub dialogue_type: u8,
}

/// A programme and the contents that it refers to.
#[derive(Debug, Clone, Default, PartialEq)]
pub struct AudioProgrammeMetadata {
    pub language: Option<u8>,
    pub max_ducking_depth: Option<u8>,
    pub loudness: Option<LoudnessMetadata>,
    pub reference_screen: Option<ProgrammeReferenceScreen>,
    pub content_references: MetadataList<u8, 4>,
}

/// What a programme says.
#[verifier::ext_equal]
pub ghost struct ProgrammeSyntax {
    pub language: Option<u8>,
    pub max_ducking_depth: Option<u8>,
    pub loudness: Option<LoudnessMetadata>,
    pub reference_screen: Option<ProgrammeReferenceScreen>,
    pub content_references: Seq<u8>,
}

impl View for AudioProgrammeMetadata {
    type V = ProgrammeSyntax;

    open spec fn view(&self) -> ProgrammeSyntax {
        ProgrammeSyntax {
            language: self.language,
            max_ducking_depth: self.max_ducking_depth,
            loudness: self.loudness,
            reference_screen: self.reference_screen,
            content_references: self.content_references@,
        }
    }
}

/// Objects of which only one is played.
#[derive(Debug, Clone, Default, PartialEq)]
pub struct ComplementaryObjectGroup {
    pub object_references: MetadataList<u8, 8>,
}

impl View for ComplementaryObjectGroup {
    type V = Seq<u8>;

    open spec fn view(&self) -> Seq<u8> {
        self.object_references@
    }
}

/// A content and the objects that it refers to.
#[derive(Debug, Clone, Default, PartialEq)]
pub struct AudioContentMetadata {
    pub index: u8,
    pub language: Option<u8>,
    pub loudness: Option<LoudnessMetadata>,
    pub dialogue: Option<DialogueMetadata>,
    pub complementary_object_groups: MetadataList<ComplementaryObjectGroup, 4>,
    pub object_references: MetadataList<u8, 8>,
}

/// What a content says.
#[verifier::ext_equal]
pub ghost struct ContentSyntax {
    pub index: u8,
    pub language: Option<u8>,
    pub loudness: Option<LoudnessMetadata>,
    pub dialogue: Option<DialogueMetadata>,
    pub complementary_object_groups: Seq<Seq<u8>>,
    pub object_references: Seq<u8>,
}

impl View for AudioContentMetadata {
    type V = ContentSyntax;

    open spec fn view(&self) -> ContentSyntax {
        ContentSyntax {
            index: self.index,
            language: self.language,
            loudness: self.loudness,
            dialogue: self.dialogue,
            complementary_object_groups: items_view(self.complementary_object_groups@),
            object_references: self.object_references@,
        }
    }
}

/// What each item of a list says.
pub open spec fn items_view<T: View>(items: Seq<T>) -> Seq<T::V> {
    Seq::new(items.len(), |i: int| items[i]@)
}

/// What an optional block says.
pub open spec fn option_view<T: View>(value: Option<T>) -> Option<T::V> {
    match value {
        Some(inner) => Some(inner@),
        None => None,
    }
}

/// How far a listener may change a gain.
#[derive(Debug, Clone, Copy, PartialEq, Eq)]
pub struct GainInteractionMetadata {
    pub unit: MetadataGainUnit,
    pub minimum: u8,
    pub maximum: u8,
}

/// How far a listener may move an object.
#[derive(Debug, Clone, Copy, PartialEq, Eq)]
pub enum PositionInteractionMetadata {
    Polar {
        azimuth_min: u8,
        azimuth_max: u8,
        elevation_min: u8,
        elevation_max: u8,
        distance_min: u8,
        distance_max: u8,
    },
    Cartesian { x_min: u8, x_max: u8, y_min: u8, y_max: u8, z_min: u8, z_max: u8 },
}

/// What a listener may do with an object.
#[derive(Debug, Clone, Copy, PartialEq, Eq)]
pub struct AudioObjectInteractionMetadata {
    pub on_off_interact: bool,
    pub gain: Option<GainInteractionMetadata>,
    pub position: Option<PositionInteractionMetadata>,
}

/// An object and the packs that it refers to.
#[derive(Debug, Clone, Default, PartialEq)]
pub struct AudioObjectMetadata {
    pub index: u8,
    pub language: Option<u8>,
    pub dialogue: Option<DialogueMetadata>,
    pub importance: Option<u8>,
    pub disable_ducking: bool,
    pub head_locked: bool,
    pub muted: bool,
    pub name: Option<[u8; 24]>,
    pub interaction: Option<AudioObjectInteractionMetadata>,
    pub gain: Option<MetadataGain>,
    pub pack_references: MetadataList<u8, 8>,
}

/// What an object says.
#[verifier::ext_equal]
pub ghost struct ObjectSyntax {
    pub index: u8,
    pub language: Option<u8>,
    pub dialogue: Option<DialogueMetadata>,
    pub importance: Option<u8>,
    pub disable_ducking: bool,
    pub head_locked: bool,
    pub muted: bool,
    pub name: Option<Seq<u8>>,
    pub interaction: Option<AudioObjectInteractionMetadata>,
    pub gain: Option<MetadataGain>,
    pub pack_references: Seq<u8>,
}

impl View for AudioObjectMetadata {
    type V = ObjectSyntax;

    open spec fn view(&self) -> ObjectSyntax {
        ObjectSyntax {
            index: self.index,
            language: self.language,
            dialogue: self.dialogue,
            importance: self.importance,
            disable_ducking: self.disable_ducking,
            head_locked: self.head_locked,
            muted: self.muted,
            name: match self.name {
                Some(name) => Some(name@),
                None => None,
            },
            interaction: self.interaction,
            gain: self.gain,
            pack_references: self.pack_references@,
        }
    }
}

/// How the channels of an ambisonic pack are to be read.
#[derive(Debug, Clone, Copy, PartialEq, Eq)]
pub struct HoaPackMetadata {
    pub normalization: u8,
    pub nfc_reference_distance: u8,
    pub screen_reference: bool,
    pub order: u8,
}

/// A channel that a pack refers to.
#[derive(Debug, Clone, Copy, Default, PartialEq, Eq)]
pub struct PackChannelReference {
    pub channel_index: u8,
    pub transformed_channel_reference: Option<u8>,
}

/// A pack and the channels that it refers to.
#[derive(Debug, Clone, Default, PartialEq)]
pub struct AudioPackMetadata {
    pub index: u8,
    pub importance: Option<u8>,
    pub channel_reuse: bool,
    pub type_label: u8,
    pub absolute_distance: u8,
    pub hoa: Option<HoaPackMetadata>,
    pub pack_format_id: Option<u8>,
    pub matrix_output_positions: MetadataList<DirectSpeakerPosition, 32>,
    pub pack_format_start_index: Option<u8>,
    pub channels: MetadataList<PackChannelReference, 32>,
}

/// What a pack says.
#[verifier::ext_equal]
pub ghost struct PackSyntax {
    pub index: u8,
    pub importance: Option<u8>,
    pub channel_reuse: bool,
    pub type_label: u8,
    pub absolute_distance: u8,
    pub hoa: Option<HoaPackMetadata>,
    pub pack_format_id: Option<u8>,
    pub matrix_output_positions: Seq<DirectSpeakerPosition>,
    pub pack_format_start_index: Option<u8>,
    pub channels: Seq<PackChannelReference>,
}

impl View for AudioPackMetadata {
    type V = PackSyntax;

    open spec fn view(&self) -> PackSyntax {
        PackSyntax {
            index: self.index,
            importance: self.importance,
            channel_reuse: self.channel_reuse,
            type_label: self.type_label,
            absolute_distance: self.absolute_distance,
            hoa: self.hoa,
            pack_format_id: self.pack_format_id,
            matrix_output_positions: self.matrix_output_positions@,
            pack_format_start_index: self.pack_format_start_index,
            channels: self.channels@,
        }
    }
}

/// A channel format.
#[derive(Debug, Clone, Default, PartialEq)]
pub struct AudioChannelMetadata {
    pub index: u8,
    pub gain: Option<MetadataGain>,
    pub direct_speaker_position: Option<DirectSpeakerPosition>,
    pub matrix_coefficients: MetadataList<u8, 32>,
}

/// What a channel format says.
#[verifier::ext_equal]
pub ghost struct ChannelSyntax {
    pub index: u8,
    pub gain: Option<MetadataGain>,
    pub direct_speaker_position: Option<DirectSpeakerPosition>,
    pub matrix_coefficients: Seq<u8>,
}

impl View for AudioChannelMetadata {
    type V = ChannelSyntax;

    open spec fn view(&self) -> ChannelSyntax {
        ChannelSyntax {
            index: self.index,
            gain: self.gain,
            direct_speaker_position: self.direct_speaker_position,
            matrix_coefficients: self.matrix_coefficients@,
        }
    }
}

/// The basic description of a frame.
#[derive(Debug, Clone, Default, PartialEq)]
pub struct BasicMetadata {
    pub programme: AudioProgrammeMetadata,
    pub contents: MetadataList<AudioContentMetadata, 4>,
    pub objects: MetadataList<AudioObjectMetadata, 8>,
    pub packs: MetadataList<AudioPackMetadata, 8>,
    pub channels: MetadataList<AudioChannelMetadata, 32>,
}

/// What the basic description says.
#[verifier::ext_equal]
pub ghost struct BasicSyntax {
    pub programme: ProgrammeSyntax,
    pub contents: Seq<ContentSyntax>,
    pub objects: Seq<ObjectSyntax>,
    pub packs: Seq<PackSyntax>,
    pub channels: Seq<ChannelSyntax>,
}

impl View for BasicMetadata {
    type V = BasicSyntax;

    open spec fn view(&self) -> BasicSyntax {
        BasicSyntax {
            programme: self.programme@,
            contents: items_view(self.contents@),
            objects: items_view(self.objects@),
            packs: items_view(self.packs@),
            channels: items_view(self.channels@),
        }
    }
}

/// One band of an equaliser, whose quality code counts steps of a lower or an upper range.
#[derive(Debug, Clone, Copy, Default, PartialEq, Eq)]
pub struct VrEqBandMetadata {
    pub eq_type: u8,
    pub center_frequency: u8,
    pub upper_q_range: bool,
    pub q: u8,
    pub gain: u8,
}

/// A dynamic range compressor.
#[derive(Debug, Clone, Copy, PartialEq, Eq)]
pub struct VrDrcMetadata {
    pub attack_time: u8,
    pub release_time: u8,
    pub threshold: u8,
    pub pre_gain: u8,
    pub post_gain: u8,
    pub ratio: u8,
}

/// The effects of a renderer.
#[derive(Debug, Clone, Default, PartialEq)]
pub struct VrAudioEffectMetadata {
    pub effect_chain: Option<u8>,
    pub eq_bands: MetadataList<VrEqBandMetadata, 11>,
    pub drc: Option<VrDrcMetadata>,
    pub gain: Option<u8>,
}

/// What the effects of a renderer say.
#[verifier::ext_equal]
pub ghost struct EffectSyntax {
    pub effect_chain: Option<u8>,
    pub eq_bands: Seq<VrEqBandMetadata>,
    pub drc: Option<VrDrcMetadata>,
    pub gain: Option<u8>,
}

impl View for VrAudioEffectMetadata {
    type V = EffectSyntax;

    open spec fn view(&self) -> EffectSyntax {
        EffectSyntax {
            effect_chain: self.effect_chain,
            eq_bands: self.eq_bands@,
            drc: self.drc,
            gain: self.gain,
        }
    }
}

/// A corner of a surface.
#[derive(Debug, Clone, Copy, Default, PartialEq, Eq)]
pub struct VrVertex {
    pub x: u8,
    pub y: u8,
    pub z: u8,
}

/// A surface of the acoustic environment.
#[derive(Debug, Clone, Default, PartialEq)]
pub struct VrSurfaceMetadata {
    pub material: u8,
    pub absorption: Option<[u8; 8]>,
    pub scattering: Option<[u8; 8]>,
    pub vertices: MetadataList<VrVertex, 32>,
}

/// What a surface says.
#[verifier::ext_equal]
pub ghost struct SurfaceSyntax {
    pub material: u8,
    pub absorption: Option<Seq<u8>>,
    pub scattering: Option<Seq<u8>>,
    pub vertices: Seq<VrVertex>,
}

impl View for VrSurfaceMetadata {
    type V = SurfaceSyntax;

    open spec fn view(&self) -> SurfaceSyntax {
        SurfaceSyntax {
            material: self.material,
            absorption: match self.absorption {
                Some(values) => Some(values@),
                None => None,
            },
            scattering: match self.scattering {
                Some(values) => Some(values@),
                None => None,
            },
            vertices: self.vertices@,
        }
    }
}

/// The room that is to be rendered.
#[derive(Debug, Clone, Default, PartialEq)]
pub struct VrAcousticEnvironmentMetadata {
    pub early_reflection_gain: Option<u8>,
    pub late_reverb_gain: Option<u8>,
    pub reverb_type: u8,
    pub low_frequency_processing: bool,
    pub convolution_reverb_type: Option<u8>,
    pub surfaces: MetadataList<VrSurfaceMetadata, 8>,
}

/// What the acoustic environment says.
#[verifier::ext_equal]
pub ghost struct EnvironmentSyntax {
    pub early_reflection_gain: Option<u8>,
    pub late_reverb_gain: Option<u8>,
    pub reverb_type: u8,
    pub low_frequency_processing: bool,
    pub convolution_reverb_type: Option<u8>,
    pub surfaces: Seq<SurfaceSyntax>,
}

impl View for VrAcousticEnvironmentMetadata {
    type V = EnvironmentSyntax;

    open spec fn view(&self) -> EnvironmentSyntax {
        EnvironmentSyntax {
            early_reflection_gain: self.early_reflection_gain,
            late_reverb_gain: self.late_reverb_gain,
            reverb_type: self.reverb_type,
            low_frequency_processing: self.low_frequency_processing,
            convolution_reverb_type: self.convolution_reverb_type,
            surfaces: items_view(self.surfaces@),
        }
    }
}

/// How the frame is to be rendered.
#[derive(Debug, Clone, Default, PartialEq)]
pub struct VrRenderInfoMetadata {
    pub target_device: bool,
    pub hrtf_type: u8,
    pub headphone_types: [u8; 16],
    pub audio_effect: VrAudioEffectMetadata,
}

/// What the rendering block says.
#[verifier::ext_equal]
pub ghost struct RenderSyntax {
    pub target_device: bool,
    pub hrtf_type: u8,
    pub headphone_types: Seq<u8>,
    pub audio_effect: EffectSyntax,
}

impl View for VrRenderInfoMetadata {
    type V = RenderSyntax;

    open spec fn view(&self) -> RenderSyntax {
        RenderSyntax {
            target_device: self.target_device,
            hrtf_type: self.hrtf_type,
            headphone_types: self.headphone_types@,
            audio_effect: self.audio_effect@,
        }
    }
}

/// The extension for virtual reality.
#[derive(Debug, Clone, Default, PartialEq)]
pub struct VrExtensionMetadata {
    pub ambisonic_order: u8,
    pub acoustic_environment: Option<VrAcousticEnvironmentMetadata>,
    pub render_info: Option<VrRenderInfoMetadata>,
}

/// What the extension for virtual reality says.
#[verifier::ext_equal]
pub ghost struct ExtensionSyntax {
    pub ambisonic_order: u8,
    pub acoustic_environment: Option<EnvironmentSyntax>,
    pub render_info: Option<RenderSyntax>,
}

impl View for VrExtensionMetadata {
    type V = ExtensionSyntax;

    open spec fn view(&self) -> ExtensionSyntax {
        ExtensionSyntax {
            ambisonic_order: self.ambisonic_order,
            acoustic_environment: option_view(self.acoustic_environment),
            render_info: option_view(self.render_info),
        }
    }
}

/// The metadata that holds until it is replaced.
#[derive(Debug, Clone, Default, PartialEq)]
pub struct StaticMetadata {
    pub consumed_bits: usize,
    pub basic_level: u8,
    pub basic: BasicMetadata,
    pub vr_extension_level: Option<u8>,
    pub vr_extension_l1: Option<VrExtensionMetadata>,
}

/// What the static metadata says, and how many bits it takes.
#[verifier::ext_equal]
pub ghost struct StaticSyntax {
    pub consumed_bits: int,
    pub basic_level: u8,
    pub basic: BasicSyntax,
    pub vr_extension_level: Option<u8>,
    pub vr_extension_l1: Option<ExtensionSyntax>,
}

impl View for StaticMetadata {
    type V = StaticSyntax;

    open spec fn view(&self) -> StaticSyntax {
        StaticSyntax {
            consumed_bits: self.consumed_bits as int,
            basic_level: self.basic_level,
            basic: self.basic@,
            vr_extension_level: self.vr_extension_level,
            vr_extension_l1: option_view(self.vr_extension_l1),
        }
    }
}

/// Where an object is in this frame.
#[derive(Debug, Clone, Copy, PartialEq, Eq)]
pub enum DynamicObjectPosition {
    Polar { azimuth: u8, elevation: u8, distance: u8 },
    Cartesian { x: u8, y: u8, z: u8 },
}

/// How large an object is in this frame.
#[derive(Debug, Clone, Copy, PartialEq, Eq)]
pub enum DynamicObjectExtent {
    Polar { width: u8, height: u8, depth: u8 },
    Cartesian { width_x: u8, height_y: u8, depth_z: u8 },
}

/// The first level of what is said of an object.
#[derive(Debug, Clone, Copy, PartialEq, Eq)]
pub struct DynamicLevel1Metadata {
    pub position: DynamicObjectPosition,
    pub extent: Option<DynamicObjectExtent>,
    pub gain: Option<u8>,
    pub diffuse: Option<u8>,
    pub jump_position: bool,
    pub importance: Option<u8>,
}

/// Whether an object is locked to a loudspeaker.
#[derive(Debug, Clone, Copy, PartialEq, Eq)]
pub struct ChannelLockMetadata {
    pub locked: bool,
    pub maximum_distance: Option<u8>,
}

/// How far an object is spread to its sides.
#[derive(Debug, Clone, Copy, PartialEq, Eq)]
pub struct ObjectDivergenceMetadata {
    pub divergence: u8,
    pub azimuth_range: Option<u8>,
}

/// The second level of what is said of an object.
#[derive(Debug, Clone, Copy, Default, PartialEq, Eq)]
pub struct DynamicLevel2Metadata {
    pub channel_lock: Option<ChannelLockMetadata>,
    pub object_divergence: Option<ObjectDivergenceMetadata>,
    pub object_screen_reference: Option<bool>,
    pub screen_edge_lock: Option<u8>,
}

/// What this frame says of one object.
#[derive(Debug, Clone, Copy, Default, PartialEq, Eq)]
pub struct DynamicObjectMetadata {
    pub muted: bool,
    pub transport_channel_reference: u8,
    pub level1: Option<DynamicLevel1Metadata>,
    pub level2: Option<DynamicLevel2Metadata>,
}

/// What this frame says of its objects.
#[derive(Debug, Clone, Default, PartialEq)]
pub struct DynamicMetadata {
    pub consumed_bits: usize,
    pub level: u8,
    pub objects: MetadataList<DynamicObjectMetadata, 32>,
}

/// What the dynamic metadata says, and how many bits it takes.
#[verifier::ext_equal]
pub ghost struct DynamicSyntax {
    pub consumed_bits: int,
    pub level: u8,
    pub objects: Seq<DynamicObjectMetadata>,
}

impl View for DynamicMetadata {
    type V = DynamicSyntax;

    open spec fn view(&self) -> DynamicSyntax {
        DynamicSyntax {
            consumed_bits: self.consumed_bits as int,
            level: self.level,
            objects: self.objects@,
        }
    }
}

/// The metadata of one frame.
#[derive(Debug, Clone, Default, PartialEq)]
pub struct FrameMetadata {
    pub(crate) static_metadata: Option<StaticMetadata>,
    pub(crate) dynamic_metadata: Option<DynamicMetadata>,
}

/// What the metadata of a frame says.
#[verifier::ext_equal]
pub ghost struct FrameMetadataSyntax {
    pub static_metadata: Option<StaticSyntax>,
    pub dynamic_metadata: Option<DynamicSyntax>,
}

impl View for FrameMetadata {
    type V = FrameMetadataSyntax;

    closed spec fn view(&self) -> FrameMetadataSyntax {
        FrameMetadataSyntax {
            static_metadata: option_view(self.static_metadata),
            dynamic_metadata: option_view(self.dynamic_metadata),
        }
    }
}

impl FrameMetadata {
    /// The metadata of a frame with the given parts.
    pub fn new(
        static_metadata: Option<StaticMetadata>,
        dynamic_metadata: Option<DynamicMetadata>,
    ) -> (metadata: Self)
        ensures
            metadata@ == (FrameMetadataSyntax {
                static_metadata: option_view(static_metadata),
                dynamic_metadata: option_view(dynamic_metadata),
            }),
    {
        FrameMetadata { static_metadata, dynamic_metadata }
    }

    /// The frame holds static metadata.
    pub fn has_static_metadata(&self) -> (present: bool)
        ensures
            present == (self@.static_metadata is Some),
    {
        self.static_metadata.is_some()
    }

    /// The frame holds dynamic metadata.
    pub fn has_dynamic_metadata(&self) -> (present: bool)
        ensures
            present == (self@.dynamic_metadata is Some),
    {
        self.dynamic_metadata.is_some()
    }

    /// The static metadata, if the frame holds any.
    pub fn static_metadata(&self) -> (metadata: Option<&StaticMetadata>)
        ensures
            metadata is Some <==> self@.static_metadata is Some,
            metadata matches Some(value) ==> value@ == self@.static_metadata->0,
    {
        match &self.static_metadata {
            Some(value) => Some(value),
            None => None,
        }
    }

    /// The dynamic metadata, if the frame holds any.
    pub fn dynamic_metadata(&self) -> (metadata: Option<&DynamicMetadata>)
        ensures
            metadata is Some <==> self@.dynamic_metadata is Some,
            metadata matches Some(value) ==> value@ == self@.dynamic_metadata->0,
    {
        match &self.dynamic_metadata {
            Some(value) => Some(value),
            None => None,
        }
    }
}

} // verus!
