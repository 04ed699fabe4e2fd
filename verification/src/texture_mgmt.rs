//! Texture assignment state of the viewer: the thumbnail caches kept aligned
//! with the model's textures, the material info cache, the drag-and-drop
//! preview, the package-texture match dialog, the queue of PSD conversions,
//! the history of manual assignments, and the matching of dropped image files
//! to materials by name.
//!
//! Texture bytes are decoded and thumbnails scaled here; the renderer side
//! (PSD reading and conversion, uploads of decoded pixels, thumbnail
//! registration, bind groups) is reached through [`TextureBackend`].
use vstd::prelude::*;
use std::collections::HashMap;
use vstd::std_specs::iter::IteratorSpec;
use crate::texture::{
    create_thumbnail_rgba, decoded_guessed, decode_view, load_guessed, holds_rgba, scaling_fits, thumbnail_from_rgba,
    thumbnail_outcome, triangle_resized, DecodeError, DecodeView, RgbaImageData, ThumbnailError,
};
use crate::text::{
    clone_opt_string, extension, extension_of, file_name, file_name_of, file_stem, file_stem_of,
    lowercase, opt_view, push_char, str_eq, to_lowercase, bytes_eq, chars_of, contains_chars,
    is_infix, chars_eq,
};

verus! {

broadcast use vstd::std_specs::hash::group_hash_axioms;

// ---------------------------------------------------------------------------
// Model data
// ---------------------------------------------------------------------------

/// Pixel payload of a model texture.
pub enum TextureData {
    /// Decoded RGBA8 pixels.
    RawRgba { pixels: Vec<u8>, width: u32, height: u32 },
    /// Encoded file bytes (PNG, JPEG, PSD, ...).
    Encoded(Vec<u8>),
}

/// One texture of the loaded model.
pub struct IrTexture {
    pub filename: String,
    pub data: TextureData,
    pub mime_type: String,
    pub source_path: String,
}

/// The UV transform of a texture reference (offset, scale, rotation in radians),
/// each value held as the bit pattern of its `f32`; the library carries these
/// values unchanged.
#[derive(Clone, Copy, PartialEq, Eq, Structural, Debug)]
pub struct TexTransform {
    pub offset_x: u32,
    pub offset_y: u32,
    pub scale_x: u32,
    pub scale_y: u32,
    pub rotation: u32,
}

/// Bit pattern of the `f32` value 1.0.
pub const F32_ONE_BITS: u32 = 0x3F80_0000u32;

impl TexTransform {
    /// No offset, unit scale, no rotation.
    pub open spec fn identity_spec() -> Self {
        TexTransform { offset_x: 0, offset_y: 0, scale_x: F32_ONE_BITS, scale_y: F32_ONE_BITS, rotation: 0 }
    }

    /// No offset, unit scale, no rotation.
    pub fn identity() -> (r: Self)
        ensures
            r == Self::identity_spec(),
    {
        TexTransform { offset_x: 0, offset_y: 0, scale_x: F32_ONE_BITS, scale_y: F32_ONE_BITS, rotation: 0 }
    }
}

/// Reference from a material slot to a model texture.
#[derive(Clone, Copy, PartialEq, Eq, Structural, Debug)]
pub struct IrTextureInfo {
    /// Index into the model's textures.
    pub index: usize,
    /// UV set the slot samples.
    pub tex_coord: u32,
    /// UV transform of the reference.
    pub transform: TexTransform,
    /// Sampler settings key (0: the default sampler).
    pub sampler: u32,
}

impl IrTextureInfo {
    /// A reference to texture `index`: UV set 0, no UV transform, the default sampler.
    pub open spec fn from_index_spec(index: usize) -> Self {
        IrTextureInfo { index, tex_coord: 0, transform: TexTransform::identity_spec(), sampler: 0 }
    }

    /// A reference to texture `index`: UV set 0, no UV transform, the default sampler.
    pub fn from_index(index: usize) -> (r: Self)
        ensures
            r == Self::from_index_spec(index),
    {
        IrTextureInfo { index, tex_coord: 0, transform: TexTransform::identity(), sampler: 0 }
    }
}

/// The MToon texture slots of a material.
#[derive(Clone, Copy, PartialEq, Eq, Structural, Debug)]
pub struct MtoonTextures {
    pub shade_texture: Option<IrTextureInfo>,
    pub shading_shift_texture: Option<IrTextureInfo>,
    pub rim_multiply_texture: Option<IrTextureInfo>,
    pub outline_width_texture: Option<IrTextureInfo>,
    pub matcap_texture: Option<IrTextureInfo>,
    pub uv_animation_mask_texture: Option<IrTextureInfo>,
}

impl MtoonTextures {
    /// No MToon texture set.
    pub open spec fn empty() -> Self {
        MtoonTextures {
            shade_texture: None,
            shading_shift_texture: None,
            rim_multiply_texture: None,
            outline_width_texture: None,
            matcap_texture: None,
            uv_animation_mask_texture: None,
        }
    }

    /// No MToon texture set.
    pub fn new() -> (r: Self)
        ensures
            r == Self::empty(),
    {
        MtoonTextures {
            shade_texture: None,
            shading_shift_texture: None,
            rim_multiply_texture: None,
            outline_width_texture: None,
            matcap_texture: None,
            uv_animation_mask_texture: None,
        }
    }
}

/// Shader family of a material.
#[derive(Clone, Copy, PartialEq, Eq, Structural, Debug)]
pub enum ShaderFamily {
    Mtoon,
    Uts2,
    LilToon,
    Poiyomi,
    /// Any other family.
    Other,
}

/// The texture-related part of a model material.
pub struct IrMaterial {
    pub name: String,
    /// Material group the material belongs to (same-name linking stays within a group).
    pub group: usize,
    /// Base color texture index.
    pub texture_index: Option<usize>,
    pub base_color_tex_info: Option<IrTextureInfo>,
    /// Texture file name recorded by the source format (FBX origin).
    pub source_texture_name: Option<String>,
    pub emissive_texture: Option<IrTextureInfo>,
    pub normal_texture: Option<IrTextureInfo>,
    /// Shader family the material is drawn with.
    pub shader_family: ShaderFamily,
    pub mtoon: Option<MtoonTextures>,
    pub sphere_texture_index: Option<usize>,
    /// Sphere blending: 0 none, 1 multiply, 2 add.
    pub sphere_mode: u8,
    pub toon_texture_index: Option<usize>,
    pub toon_shared_index: Option<usize>,
    /// The material's colors and factors (diffuse, specular, ambient, edge,
    /// emissive, MToon colors and the like) as `f32` bit patterns, in the order
    /// the model format stores them. Nothing here reads them; they travel with
    /// the material unchanged.
    pub colors: Vec<u32>,
}

/// The texture slots a texture can be assigned to.
#[derive(Clone, Copy, PartialEq, Eq, Structural, Debug)]
pub enum TextureSlot {
    BaseColor,
    Emissive,
    Normal,
    ShadeMultiply,
    ShadingShift,
    RimMultiply,
    OutlineWidth,
    Matcap,
    UvAnimMask,
    Sphere,
    Toon,
}

/// A draw call of the GPU model, with the bind groups that the preview swaps.
pub struct DrawSlot<B> {
    pub material_index: usize,
    pub texture_bind_group: Option<B>,
    pub mmd_texture_bind_group: Option<B>,
}

/// Where the loaded model came from.
pub enum ReloadableSource {
    /// A model file on disk.
    File(String),
    /// Any other origin (dropped bytes, a package entry, ...).
    Other,
}

/// Where a manually assigned texture came from, kept so that a reload can
/// assign it again.
#[derive(Debug, Clone, PartialEq, Eq)]
pub enum TextureSource {
    /// A file, read again on reload.
    File(String),
    /// Bytes kept in memory (the file may be gone, such as a temporary one).
    Cached { original_name: String, data: Vec<u8>, is_psd: bool },
}

/// What a texture source names or holds.
pub enum SourceView {
    File(Seq<char>),
    Cached { original_name: Seq<char>, data: Seq<u8>, is_psd: bool },
}

impl View for TextureSource {
    type V = SourceView;

    open spec fn view(&self) -> SourceView {
        match self {
            TextureSource::File(p) => SourceView::File(p@),
            TextureSource::Cached { original_name, data, is_psd } => SourceView::Cached {
                original_name: original_name@,
                data: data@,
                is_psd: *is_psd,
            },
        }
    }
}

impl TextureSource {
    /// A copy of this source.
    pub fn duplicate(&self) -> (r: Self)
        ensures
            r@ == self@,
    {
        match self {
            TextureSource::File(p) => TextureSource::File(p.clone()),
            TextureSource::Cached { original_name, data, is_psd } => TextureSource::Cached {
                original_name: original_name.clone(),
                data: copy_bytes(data),
                is_psd: *is_psd,
            },
        }
    }
}

/// The assignment history (material index to texture source) as views.
pub open spec fn history_view(m: Map<usize, TextureSource>) -> Map<usize, SourceView> {
    m.map_values(|s: TextureSource| s@)
}

/// The source recorded for a committed drag-and-drop preview: the bytes read when
/// the preview opened for a temporary file, the file itself otherwise.
pub open spec fn preview_source(path: Seq<char>, data: Seq<u8>, is_psd: bool, was_temp: bool) -> SourceView {
    if was_temp {
        SourceView::Cached { original_name: path, data, is_psd }
    } else {
        SourceView::File(path)
    }
}

/// Inserting into the history inserts the source's view.
proof fn lemma_history_insert(m: Map<usize, TextureSource>, k: usize, v: TextureSource)
    ensures
        history_view(m.insert(k, v)) == history_view(m).insert(k, v@),
{
    assert(history_view(m.insert(k, v)) =~= history_view(m).insert(k, v@));
}

/// The history after recording `src` for every material in `targets`.
pub open spec fn recorded(h: Map<usize, SourceView>, targets: Set<usize>, src: SourceView) -> Map<usize, SourceView> {
    Map::new(|k: usize| h.dom().contains(k) || targets.contains(k), |k: usize| if targets.contains(k) { src } else { h[k] })
}

/// The loaded model as the texture logic sees it. `V` is a GPU texture view.
pub struct LoadedModel<B, V> {
    pub textures: Vec<IrTexture>,
    pub materials: Vec<IrMaterial>,
    pub draws: Vec<DrawSlot<B>>,
    /// GPU views of the textures (srgb, unorm), index-aligned with `textures`.
    pub texture_views: Vec<(V, V)>,
    /// Number of models appended to the base model.
    pub appended_models: usize,
    pub source: ReloadableSource,
    pub mat_cache: CachedMaterialInfo,
}

/// Material info cached for the UI.
pub struct CachedMaterialInfo {
    /// `(draw_index, material_index)` of every draw.
    pub draw_indices: Vec<(usize, usize)>,
    /// Material names.
    pub names: Vec<String>,
    /// Base color texture index of each material.
    pub tex_indices: Vec<Option<usize>>,
    /// Source texture file name of each material (FBX origin).
    pub source_tex_names: Vec<Option<String>>,
    /// Number of materials with a base color texture.
    pub tex_set_count: usize,
    /// Status-bar text `Tex:{set}/{total}`.
    pub tex_status_text: String,
}

/// Pending PSD -> PNG conversion of one texture.
pub struct PendingPsdConversion {
    /// Ticket of the conversion job handed out by the backend.
    pub ticket: u64,
    /// Index of the texture to swap once the conversion completes.
    pub tex_idx: usize,
    /// PNG file name to set after the conversion (e.g. "foo.png").
    pub png_filename: String,
    /// Original display name.
    pub display_name: String,
}

/// State of a PSD conversion job, as reported by the backend.
pub enum PsdPoll {
    /// Still converting.
    Pending,
    /// Converted PNG bytes.
    Done(Vec<u8>),
    /// The conversion failed.
    Failed(String),
    /// The worker went away without a result.
    Disconnected,
}

/// Texture drag-and-drop preview state.
pub struct PendingTexPreview<T, B, V> {
    pub path: String,
    /// Bytes read when the preview opened.
    pub cached_data: Vec<u8>,
    pub is_psd: bool,
    pub was_temp: bool,
    /// Per-material selection (checkboxes).
    pub selection: Vec<bool>,
    /// Materials currently shown with the preview texture.
    pub previewed: Vec<bool>,
    /// GPU view of the preview texture.
    pub texture_view: V,
    /// Original texture bind group of each draw, by draw index: `Some` where
    /// the preview has put its own bind group in place.
    pub saved_binds: Vec<Option<Option<B>>>,
    /// Thumbnail of the preview texture.
    pub preview_tex_id: Option<T>,
}

/// State of the manual package-texture assignment dialog.
pub struct PendingTexMatch<B, V> {
    /// Indices of the unassigned materials.
    pub mat_indices: Vec<usize>,
    /// Selected package texture of each listed material.
    pub selections: Vec<Option<usize>>,
    pub tex_filter: String,
    /// Selection currently previewed for each listed material.
    pub previewed: Vec<Option<usize>>,
    /// Original `(texture, mmd texture)` bind groups of each draw, by draw
    /// index: `Some` where the dialog has put its own bind group in place.
    pub saved_binds: Vec<Option<(Option<B>, Option<B>)>>,
    /// GPU views of the package textures (index-aligned, uploaded on demand).
    pub texture_views: Vec<Option<V>>,
    /// Package textures whose upload failed.
    pub failed_uploads: Vec<usize>,
}

/// Texture assignment state.
pub struct TextureState<T, B, V> {
    /// Manual texture assignments, by material index (restored on reload).
    pub assignments: HashMap<usize, TextureSource>,
    pub pending_preview: Option<PendingTexPreview<T, B, V>>,
    pub pending_match: Option<PendingTexMatch<B, V>>,
    /// Textures of a unitypackage, held while the model is loaded.
    pub pkg_textures: Option<Vec<(String, Vec<u8>)>>,
    /// Thumbnails of `pkg_textures`.
    pub pkg_thumb_cache: Vec<Option<T>>,
    /// Thumbnails of the model's textures, index-aligned with them.
    pub ir_thumb_cache: Vec<Option<T>>,
    /// Assign a texture to same-name materials of the same group too.
    pub link_same_name: bool,
    pub pending_psd_conversions: Vec<PendingPsdConversion>,
}

impl<T, B, V> Default for TextureState<T, B, V> {
    /// No assignments, no dialogs, no package textures, empty caches, and
    /// same-name linking on.
    fn default() -> (r: Self)
        ensures
            r.assignments@ == Map::<usize, TextureSource>::empty(),
            r.pending_preview is None,
            r.pending_match is None,
            r.pkg_textures is None,
            r.pkg_thumb_cache@.len() == 0,
            r.ir_thumb_cache@.len() == 0,
            r.link_same_name,
            r.pending_psd_conversions@.len() == 0,
    {
        TextureState {
            assignments: HashMap::new(),
            pending_preview: None,
            pending_match: None,
            pkg_textures: None,
            pkg_thumb_cache: Vec::new(),
            ir_thumb_cache: Vec::new(),
            link_same_name: true,
            pending_psd_conversions: Vec::new(),
        }
    }
}

/// The renderer side of texture handling: PSD decoding and conversion (the PSD
/// reader lives with the renderer), uploads of decoded pixels, thumbnail
/// registration, and bind-group creation. The library decodes and scales
/// everything else itself and hands the renderer finished RGBA8 pixels.
/// An implementation keeps three records, which exist only for the proofs: the
/// pixels of every thumbnail registered, the pixels and size of every upload,
/// and the thumbnails released, each oldest first. Every method adds its own
/// call to its record and leaves the others as they were, and `decode_psd`
/// gives what `psd_decoded` names; this is what an implementation owes, and the
/// library's contracts state what it hands to the renderer through these records.
pub trait TextureBackend<T, B, V> {
    /// What decoding PSD bytes gives (pixels, width, height, or an error message).
    spec fn psd_decoded(data: Seq<u8>) -> DecodeView;

    /// The RGBA8 pixels of every registered thumbnail.
    spec fn thumbs(&self) -> Seq<Seq<u8>>;

    /// The RGBA8 pixels, width and height of every upload.
    spec fn uploads(&self) -> Seq<(Seq<u8>, u32, u32)>;

    /// The thumbnails released.
    spec fn freed(&self) -> Seq<T>;

    /// Decode PSD bytes to RGBA8.
    fn decode_psd(data: &[u8]) -> (r: Result<RgbaImageData, DecodeError>)
        ensures
            decode_view(r) == Self::psd_decoded(data@),
            r matches Ok(img) ==> img.pixels@.len() == 4 * img.width * img.height,
    ;

    /// Upload a `size` x `size` RGBA8 thumbnail and register it for display.
    fn register_thumbnail(&mut self, rgba: &Vec<u8>, size: u32) -> (r: T)
        requires
            rgba@.len() == 4 * size * size,
        ensures
            final(self).thumbs() == old(self).thumbs().push(rgba@),
            final(self).uploads() == old(self).uploads(),
            final(self).freed() == old(self).freed(),
    ;

    /// Release a registered thumbnail.
    fn free_thumbnail(&mut self, id: T)
        ensures
            final(self).thumbs() == old(self).thumbs(),
            final(self).uploads() == old(self).uploads(),
            final(self).freed() == old(self).freed().push(id),
    ;

    /// Upload a `width` x `height` RGBA8 image; its srgb and unorm views.
    fn upload_rgba(&mut self, rgba: &Vec<u8>, width: u32, height: u32) -> (r: (V, V))
        requires
            rgba@.len() == 4 * width * height,
        ensures
            final(self).thumbs() == old(self).thumbs(),
            final(self).uploads() == old(self).uploads().push((rgba@, width, height)),
            final(self).freed() == old(self).freed(),
    ;

    /// A texture bind group sampling `view`; `sampler` is a material's sampler
    /// settings key, or `None` for the renderer's shared sampler.
    fn texture_bind_group(&mut self, view: &V, sampler: Option<u32>) -> (r: B)
        ensures
            final(self).thumbs() == old(self).thumbs(),
            final(self).uploads() == old(self).uploads(),
            final(self).freed() == old(self).freed(),
    ;

    /// Start converting PSD bytes to PNG; the ticket of the job.
    fn start_psd_conversion(&mut self, psd: &Vec<u8>) -> (r: u64)
        ensures
            final(self).thumbs() == old(self).thumbs(),
            final(self).uploads() == old(self).uploads(),
            final(self).freed() == old(self).freed(),
    ;

    /// State of a conversion job.
    fn poll_psd_conversion(&mut self, ticket: u64) -> (r: PsdPoll)
        ensures
            final(self).thumbs() == old(self).thumbs(),
            final(self).uploads() == old(self).uploads(),
            final(self).freed() == old(self).freed(),
    ;
}

/// What decoding texture bytes gives: PSD bytes through the renderer's PSD
/// reader, anything else as the format guessed from the bytes.
pub open spec fn texture_decoded<T, B, V, Bk: TextureBackend<T, B, V>>(data: Seq<u8>, is_psd: bool) -> DecodeView {
    if is_psd {
        Bk::psd_decoded(data)
    } else {
        decoded_guessed(data)
    }
}

/// The thumbnail pixels of a model texture (PSD by its file name), if one can be made.
pub open spec fn ir_thumb<T, B, V, Bk: TextureBackend<T, B, V>>(tex: IrTexture) -> Option<Seq<u8>> {
    match tex.data {
        TextureData::RawRgba { pixels, width, height } => thumbnail_of(Ok((pixels@, width, height)), THUMB_SIZE),
        TextureData::Encoded(d) => thumbnail_of(
            texture_decoded::<T, B, V, Bk>(d@, psd_by_extension(tex.filename@)),
            THUMB_SIZE,
        ),
    }
}

/// The thumbnail pixels of a package texture (PSD by its name), if one can be made.
pub open spec fn pkg_thumb<T, B, V, Bk: TextureBackend<T, B, V>>(name: Seq<char>, data: Seq<u8>) -> Option<Seq<u8>> {
    thumbnail_of(texture_decoded::<T, B, V, Bk>(data, psd_by_extension(name)), THUMB_SIZE)
}

/// The thumbnails of a run of model textures.
pub open spec fn ir_thumbs<T, B, V, Bk: TextureBackend<T, B, V>>(texs: Seq<IrTexture>) -> Seq<Option<Seq<u8>>> {
    texs.map_values(|t: IrTexture| ir_thumb::<T, B, V, Bk>(t))
}

/// The thumbnails of a run of package textures.
pub open spec fn pkg_thumbs<T, B, V, Bk: TextureBackend<T, B, V>>(pkg: Seq<(String, Vec<u8>)>) -> Seq<Option<Seq<u8>>> {
    pkg.map_values(|p: (String, Vec<u8>)| pkg_thumb::<T, B, V, Bk>(p.0@, p.1@))
}

/// A thumbnail cache entry is there exactly where a thumbnail can be made.
pub open spec fn entries_match<T>(cache: Seq<Option<T>>, thumbs: Seq<Option<Seq<u8>>>) -> bool {
    &&& cache.len() == thumbs.len()
    &&& forall|i: int| 0 <= i < cache.len() ==> (#[trigger] cache[i] is Some) == (thumbs[i] is Some)
}

/// The registered thumbnails a cache holds, in cache order.
pub open spec fn thumb_ids<T>(cache: Seq<Option<T>>) -> Seq<T>
    decreases cache.len(),
{
    if cache.len() == 0 {
        Seq::empty()
    } else {
        let prev = thumb_ids(cache.drop_last());
        match cache.last() {
            Some(id) => prev.push(id),
            None => prev,
        }
    }
}

/// The element of an option, as a sequence of at most one.
pub open spec fn opt_seq<X>(o: Option<X>) -> Seq<X> {
    match o {
        Some(x) => seq![x],
        None => Seq::empty(),
    }
}

/// The viewer state that the texture logic reads and changes.
pub struct ViewerApp<T, B, V> {
    pub loaded: Option<LoadedModel<B, V>>,
    pub tex: TextureState<T, B, V>,
    /// Whether the GPU renderer is up.
    pub has_renderer: bool,
    /// Materials queued for a bind-group rebuild on the next frame.
    pub dirty_materials: Vec<usize>,
    /// The status shown to the user after a texture operation.
    pub convert_message: Option<ConvertMessage>,
}

/// A status message: what succeeded, or why something failed (for a failed
/// texture load, the decoder's message).
pub enum ConvertMessage {
    Success(String),
    Failure(String),
}

/// A status message as (succeeded, text).
pub open spec fn message_view(m: Option<ConvertMessage>) -> Option<(bool, Seq<char>)> {
    match m {
        Some(ConvertMessage::Success(t)) => Some((true, t@)),
        Some(ConvertMessage::Failure(t)) => Some((false, t@)),
        None => None,
    }
}

/// The status after loading texture bytes that decoded to `dv`: a failure
/// carrying the decoder's message when they did not decode, the status `before`
/// otherwise.
pub open spec fn load_status(before: Option<ConvertMessage>, dv: DecodeView) -> Option<(bool, Seq<char>)> {
    match dv {
        Err(msg) => Some((false, msg)),
        Ok(_) => message_view(before),
    }
}

// ---------------------------------------------------------------------------
// Decimal text
// ---------------------------------------------------------------------------

/// Character of a decimal digit.
pub open spec fn digit_char(d: nat) -> char {
    if d == 0 { '0' } else if d == 1 { '1' } else if d == 2 { '2' } else if d == 3 { '3' }
    else if d == 4 { '4' } else if d == 5 { '5' } else if d == 6 { '6' } else if d == 7 { '7' }
    else if d == 8 { '8' } else { '9' }
}

/// Decimal representation of `n`, without leading zeros.
pub open spec fn decimal(n: nat) -> Seq<char>
    decreases n,
{
    if n < 10 {
        seq![digit_char(n)]
    } else {
        decimal(n / 10).push(digit_char(n % 10))
    }
}

fn digit_of(d: usize) -> (c: char)
    requires
        d < 10,
    ensures
        c == digit_char(d as nat),
{
    if d == 0 { '0' } else if d == 1 { '1' } else if d == 2 { '2' } else if d == 3 { '3' }
    else if d == 4 { '4' } else if d == 5 { '5' } else if d == 6 { '6' } else if d == 7 { '7' }
    else if d == 8 { '8' } else { '9' }
}

/// Appends the decimal representation of `n` to `s`.
pub fn push_decimal(s: &mut String, n: usize)
    ensures
        final(s)@ == old(s)@ + decimal(n as nat),
    decreases n,
{
    if n >= 10 {
        push_decimal(s, n / 10);
    }
    push_char(s, digit_of(n % 10));
    assert(final(s)@ =~= old(s)@ + decimal(n as nat));
}

/// Status-bar text `Tex:{set}/{total}`.
pub open spec fn tex_status(set: nat, total: nat) -> Seq<char> {
    seq!['T', 'e', 'x', ':'] + decimal(set) + seq!['/'] + decimal(total)
}

// ---------------------------------------------------------------------------
// Material info cache
// ---------------------------------------------------------------------------

/// Number of materials in `mats[..n]` with a base color texture.
pub open spec fn count_textured(mats: Seq<IrMaterial>, n: int) -> nat
    decreases n,
{
    if n <= 0 {
        0
    } else {
        count_textured(mats, n - 1) + if mats[n - 1].texture_index is Some { 1nat } else { 0nat }
    }
}

proof fn lemma_count_textured_bound(mats: Seq<IrMaterial>, n: int)
    requires
        0 <= n,
    ensures
        count_textured(mats, n) <= n,
    decreases n,
{
    if n > 0 {
        lemma_count_textured_bound(mats, n - 1);
    }
}

/// What the material info cache holds for a model.
pub open spec fn mat_cache_matches<B>(
    c: CachedMaterialInfo,
    mats: Seq<IrMaterial>,
    draws: Seq<DrawSlot<B>>,
) -> bool {
    &&& c.draw_indices@.len() == draws.len()
    &&& forall|i: int| 0 <= i < draws.len()
        ==> #[trigger] c.draw_indices@[i] == (i as usize, draws[i].material_index)
    &&& c.names@.len() == mats.len()
    &&& forall|i: int| 0 <= i < mats.len() ==> #[trigger] c.names@[i]@ == mats[i].name@
    &&& c.tex_indices@.len() == mats.len()
    &&& forall|i: int| 0 <= i < mats.len() ==> #[trigger] c.tex_indices@[i] == mats[i].texture_index
    &&& c.source_tex_names@.len() == mats.len()
    &&& forall|i: int| 0 <= i < mats.len() ==> opt_view(#[trigger] c.source_tex_names@[i]) == opt_view(mats[i].source_texture_name)
    &&& c.tex_set_count == count_textured(mats, mats.len() as int)
    &&& c.tex_status_text@ == tex_status(count_textured(mats, mats.len() as int), mats.len())
}

impl CachedMaterialInfo {
    /// Build the material info cache of a model.
    pub fn build<B>(mats: &Vec<IrMaterial>, draws: &Vec<DrawSlot<B>>) -> (c: Self)
        ensures
            mat_cache_matches(c, mats@, draws@),
    {
        let mut draw_indices: Vec<(usize, usize)> = Vec::new();
        for i in 0..draws.len()
            invariant
                draw_indices@.len() == i,
                forall|k: int| 0 <= k < i ==> #[trigger] draw_indices@[k] == (k as usize, draws@[k].material_index),
        {
            draw_indices.push((i, draws[i].material_index));
        }
        let mut names: Vec<String> = Vec::new();
        let mut tex_indices: Vec<Option<usize>> = Vec::new();
        let mut source_tex_names: Vec<Option<String>> = Vec::new();
        let mut tex_set_count: usize = 0;
        for i in 0..mats.len()
            invariant
                names@.len() == i,
                tex_indices@.len() == i,
                source_tex_names@.len() == i,
                forall|k: int| 0 <= k < i ==> #[trigger] names@[k]@ == mats@[k].name@,
                forall|k: int| 0 <= k < i ==> #[trigger] tex_indices@[k] == mats@[k].texture_index,
                forall|k: int| 0 <= k < i ==> opt_view(#[trigger] source_tex_names@[k]) == opt_view(mats@[k].source_texture_name),
                tex_set_count == count_textured(mats@, i as int),
                i <= mats.len(),
        {
            proof {
                lemma_count_textured_bound(mats@, i as int);
            }
            names.push(mats[i].name.clone());
            tex_indices.push(mats[i].texture_index);
            source_tex_names.push(clone_opt_string(&mats[i].source_texture_name));
            if mats[i].texture_index.is_some() {
                tex_set_count = tex_set_count + 1;
            }
        }
        let mut text = String::new();
        push_char(&mut text, 'T');
        push_char(&mut text, 'e');
        push_char(&mut text, 'x');
        push_char(&mut text, ':');
        push_decimal(&mut text, tex_set_count);
        push_char(&mut text, '/');
        push_decimal(&mut text, mats.len());
        assert(text@ =~= tex_status(count_textured(mats@, mats@.len() as int), mats@.len()));
        CachedMaterialInfo {
            draw_indices,
            names,
            tex_indices,
            source_tex_names,
            tex_set_count,
            tex_status_text: text,
        }
    }
}

// ---------------------------------------------------------------------------
// Thumbnail caches
// ---------------------------------------------------------------------------

/// Size in pixels of the square thumbnails.
pub const THUMB_SIZE: u32 = 64;

impl<T, B, V> ViewerApp<T, B, V> {
    /// `self` and `other` differ at most in the two thumbnail caches.
    pub open spec fn same_but_thumbs(self, other: Self) -> bool {
        &&& other.loaded == self.loaded
        &&& other.has_renderer == self.has_renderer
        &&& other.dirty_materials == self.dirty_materials
        &&& other.tex.pending_preview == self.tex.pending_preview
        &&& other.tex.pending_match == self.tex.pending_match
        &&& other.tex.pkg_textures == self.tex.pkg_textures
        &&& other.tex.link_same_name == self.tex.link_same_name
        &&& other.tex.assignments == self.tex.assignments
        &&& other.tex.pending_psd_conversions == self.tex.pending_psd_conversions
    }

    /// Number of model textures, 0 without a model.
    pub open spec fn texture_count(self) -> nat {
        match self.loaded {
            Some(l) => l.textures@.len(),
            None => 0,
        }
    }

    /// Number of package textures, 0 without a package.
    pub open spec fn pkg_count(self) -> nat {
        match self.tex.pkg_textures {
            Some(p) => p@.len(),
            None => 0,
        }
    }

    /// The thumbnails of the model textures from `start` on (none without a model).
    pub open spec fn ir_thumbs_from<Bk: TextureBackend<T, B, V>>(self, start: usize) -> Seq<Option<Seq<u8>>> {
        match self.loaded {
            Some(l) => if start < l.textures@.len() {
                ir_thumbs::<T, B, V, Bk>(l.textures@.subrange(start as int, l.textures@.len() as int))
            } else {
                Seq::empty()
            },
            None => Seq::empty(),
        }
    }

    /// The thumbnails of the package textures from `start` on (none without a package).
    pub open spec fn pkg_thumbs_from<Bk: TextureBackend<T, B, V>>(self, start: usize) -> Seq<Option<Seq<u8>>> {
        match self.tex.pkg_textures {
            Some(p) => if start < p@.len() {
                pkg_thumbs::<T, B, V, Bk>(p@.subrange(start as int, p@.len() as int))
            } else {
                Seq::empty()
            },
            None => Seq::empty(),
        }
    }

    /// Discard the model-texture thumbnails, releasing each registered one.
    pub fn clear_ir_thumb_cache<Bk: TextureBackend<T, B, V>>(&mut self, backend: &mut Bk)
        ensures
            old(self).same_but_thumbs(*final(self)),
            final(self).tex.pkg_thumb_cache == old(self).tex.pkg_thumb_cache,
            final(self).tex.ir_thumb_cache@.len() == 0,
            final(backend).freed() == old(backend).freed() + thumb_ids(old(self).tex.ir_thumb_cache@),
            final(backend).thumbs() == old(backend).thumbs(),
            final(backend).uploads() == old(backend).uploads(),
    {
        let mut old_cache: Vec<Option<T>> = Vec::new();
        std::mem::swap(&mut old_cache, &mut self.tex.ir_thumb_cache);
        free_thumbnails(backend, old_cache);
    }

    /// Discard the package-texture thumbnails, releasing each registered one.
    pub fn clear_pkg_thumb_cache<Bk: TextureBackend<T, B, V>>(&mut self, backend: &mut Bk)
        ensures
            old(self).same_but_thumbs(*final(self)),
            final(self).tex.ir_thumb_cache == old(self).tex.ir_thumb_cache,
            final(self).tex.pkg_thumb_cache@.len() == 0,
            final(backend).freed() == old(backend).freed() + thumb_ids(old(self).tex.pkg_thumb_cache@),
            final(backend).thumbs() == old(backend).thumbs(),
            final(backend).uploads() == old(backend).uploads(),
    {
        let mut old_cache: Vec<Option<T>> = Vec::new();
        std::mem::swap(&mut old_cache, &mut self.tex.pkg_thumb_cache);
        free_thumbnails(backend, old_cache);
    }

    /// Append a thumbnail for each model texture from `start_index` on: an entry
    /// is registered exactly where the texture's thumbnail can be made, and the
    /// registered pixels are those thumbnails, in texture order.
    pub fn append_ir_thumb_cache<Bk: TextureBackend<T, B, V>>(&mut self, backend: &mut Bk, start_index: usize)
        ensures
            old(self).same_but_thumbs(*final(self)),
            final(self).tex.pkg_thumb_cache == old(self).tex.pkg_thumb_cache,
            start_index >= old(self).texture_count() ==> final(self).tex.ir_thumb_cache == old(self).tex.ir_thumb_cache,
            start_index < old(self).texture_count() ==> {
                let c0 = old(self).tex.ir_thumb_cache@;
                let c1 = final(self).tex.ir_thumb_cache@;
                &&& c1.len() == c0.len() + old(self).texture_count() - start_index
                &&& c1.subrange(0, c0.len() as int) == c0
                &&& entries_match(c1.subrange(c0.len() as int, c1.len() as int), old(self).ir_thumbs_from::<Bk>(start_index))
            },
            final(backend).thumbs() == old(backend).thumbs() + thumb_ids(old(self).ir_thumbs_from::<Bk>(start_index)),
            final(backend).uploads() == old(backend).uploads(),
            final(backend).freed() == old(backend).freed(),
    {
        match &self.loaded {
            None => {
                assert(old(backend).thumbs() + thumb_ids(Seq::<Option<Seq<u8>>>::empty()) =~= old(backend).thumbs());
            },
            Some(loaded) => {
                let n = loaded.textures.len();
                if start_index < n {
                    let ghost base = self.tex.ir_thumb_cache@;
                    let ghost all = ir_thumbs::<T, B, V, Bk>(loaded.textures@.subrange(start_index as int, n as int));
                    let mut i = start_index;
                    while i < n
                        invariant
                            start_index <= i <= n,
                            n == loaded.textures@.len(),
                            all == ir_thumbs::<T, B, V, Bk>(loaded.textures@.subrange(start_index as int, n as int)),
                            self.tex.ir_thumb_cache@.len() == base.len() + i - start_index,
                            self.tex.ir_thumb_cache@.subrange(0, base.len() as int) == base,
                            entries_match(
                                self.tex.ir_thumb_cache@.subrange(base.len() as int, self.tex.ir_thumb_cache@.len() as int),
                                all.take(i - start_index),
                            ),
                            old(self).same_but_thumbs(*self),
                            self.tex.pkg_thumb_cache == old(self).tex.pkg_thumb_cache,
                            self.loaded == Some(*loaded),
                            backend.thumbs() == old(backend).thumbs() + thumb_ids(all.take(i - start_index)),
                            backend.uploads() == old(backend).uploads(),
                            backend.freed() == old(backend).freed(),
                        decreases n - i,
                    {
                        let ghost c_before = self.tex.ir_thumb_cache@;
                        let ghost th_before = backend.thumbs();
                        let thumb = build_ir_thumb_entry(&loaded.textures[i], backend);
                        self.tex.ir_thumb_cache.push(thumb);
                        proof {
                            let k = i - start_index;
                            assert(all[k] == ir_thumb::<T, B, V, Bk>(loaded.textures@[i as int]));
                            assert(all.take(k + 1).drop_last() =~= all.take(k));
                            assert(all.take(k + 1).last() == all[k]);
                            assert(backend.thumbs() =~= old(backend).thumbs() + thumb_ids(all.take(k + 1)));
                            let c1 = self.tex.ir_thumb_cache@;
                            assert(c1.subrange(0, base.len() as int) =~= base);
                            assert forall|q: int| 0 <= q < k + 1 implies
                                (#[trigger] c1.subrange(base.len() as int, c1.len() as int)[q] is Some)
                                    == (all.take(k + 1)[q] is Some) by {
                                if q < k {
                                    assert(c1.subrange(base.len() as int, c1.len() as int)[q]
                                        == c_before.subrange(base.len() as int, c_before.len() as int)[q]);
                                }
                            }
                        }
                        i = i + 1;
                    }
                    assert(all.take(n - start_index) =~= all);
                } else {
                    assert(old(backend).thumbs() + thumb_ids(Seq::<Option<Seq<u8>>>::empty()) =~= old(backend).thumbs());
                }
            },
        }
    }

    /// Rebuild the model-texture thumbnails from scratch: every registered one is
    /// released, then one entry per texture as `append_ir_thumb_cache` builds it.
    pub fn rebuild_ir_thumb_cache<Bk: TextureBackend<T, B, V>>(&mut self, backend: &mut Bk)
        ensures
            old(self).same_but_thumbs(*final(self)),
            final(self).tex.pkg_thumb_cache == old(self).tex.pkg_thumb_cache,
            entries_match(final(self).tex.ir_thumb_cache@, old(self).ir_thumbs_from::<Bk>(0)),
            final(self).tex.ir_thumb_cache@.len() == old(self).texture_count(),
            final(backend).freed() == old(backend).freed() + thumb_ids(old(self).tex.ir_thumb_cache@),
            final(backend).thumbs() == old(backend).thumbs() + thumb_ids(old(self).ir_thumbs_from::<Bk>(0)),
            final(backend).uploads() == old(backend).uploads(),
    {
        self.clear_ir_thumb_cache(backend);
        let ghost mid = self.tex.ir_thumb_cache@;
        self.append_ir_thumb_cache(backend, 0);
        proof {
            let c1 = self.tex.ir_thumb_cache@;
            assert(c1.subrange(0, c1.len() as int) =~= c1);
            if old(self).texture_count() == 0 {
                assert(c1.len() == 0);
            }
        }
    }

    /// Bring the model-texture thumbnails in line with the model's textures:
    /// cleared without a model, rebuilt when there are more thumbnails than
    /// textures, and only the missing tail appended when there are fewer.
    pub fn sync_ir_thumb_cache<Bk: TextureBackend<T, B, V>>(&mut self, backend: &mut Bk)
        ensures
            old(self).same_but_thumbs(*final(self)),
            final(self).tex.pkg_thumb_cache == old(self).tex.pkg_thumb_cache,
            final(self).tex.ir_thumb_cache@.len() == old(self).texture_count(),
            old(self).tex.ir_thumb_cache@.len() <= old(self).texture_count() ==>
                final(self).tex.ir_thumb_cache@.subrange(0, old(self).tex.ir_thumb_cache@.len() as int)
                    == old(self).tex.ir_thumb_cache@,
            // without a model, or with more thumbnails than textures, all are released and rebuilt
            old(self).loaded is None || old(self).texture_count() < old(self).tex.ir_thumb_cache@.len() ==> {
                &&& final(backend).freed() == old(backend).freed() + thumb_ids(old(self).tex.ir_thumb_cache@)
                &&& final(backend).thumbs() == old(backend).thumbs() + thumb_ids(old(self).ir_thumbs_from::<Bk>(0))
                &&& entries_match(final(self).tex.ir_thumb_cache@, old(self).ir_thumbs_from::<Bk>(0))
            },
            // otherwise only the missing tail is built
            old(self).loaded is Some && old(self).tex.ir_thumb_cache@.len() <= old(self).texture_count() ==> {
                let k = old(self).tex.ir_thumb_cache@.len();
                &&& final(backend).freed() == old(backend).freed()
                &&& final(backend).thumbs() == old(backend).thumbs() + thumb_ids(old(self).ir_thumbs_from::<Bk>(k as usize))
                &&& entries_match(
                    final(self).tex.ir_thumb_cache@.subrange(k as int, final(self).tex.ir_thumb_cache@.len() as int),
                    old(self).ir_thumbs_from::<Bk>(k as usize),
                )
            },
            final(backend).uploads() == old(backend).uploads(),
    {
        let target_len: usize = match &self.loaded {
            None => {
                if self.tex.ir_thumb_cache.len() > 0 {
                    self.clear_ir_thumb_cache(backend);
                } else {
                    assert(thumb_ids(self.tex.ir_thumb_cache@) =~= Seq::<T>::empty());
                    assert(old(backend).freed() + Seq::<T>::empty() =~= old(backend).freed());
                }
                assert(old(backend).thumbs() + thumb_ids(Seq::<Option<Seq<u8>>>::empty()) =~= old(backend).thumbs());
                return;
            },
            Some(loaded) => loaded.textures.len(),
        };
        let cache_len = self.tex.ir_thumb_cache.len();
        if cache_len == target_len {
            assert(self.tex.ir_thumb_cache@.subrange(0, cache_len as int) =~= self.tex.ir_thumb_cache@);
            assert(old(backend).thumbs() + thumb_ids(Seq::<Option<Seq<u8>>>::empty()) =~= old(backend).thumbs());
            return;
        }
        if cache_len > target_len {
            self.rebuild_ir_thumb_cache(backend);
            return;
        }
        self.append_ir_thumb_cache(backend, cache_len);
    }

    /// Append a thumbnail for each package texture from `start_index` on: an
    /// entry is registered exactly where the texture's thumbnail can be made, and
    /// the registered pixels are those thumbnails, in package order.
    pub fn append_pkg_thumb_cache<Bk: TextureBackend<T, B, V>>(&mut self, backend: &mut Bk, start_index: usize)
        ensures
            old(self).same_but_thumbs(*final(self)),
            final(self).tex.ir_thumb_cache == old(self).tex.ir_thumb_cache,
            start_index >= old(self).pkg_count() ==> final(self).tex.pkg_thumb_cache == old(self).tex.pkg_thumb_cache,
            start_index < old(self).pkg_count() ==> {
                let c0 = old(self).tex.pkg_thumb_cache@;
                let c1 = final(self).tex.pkg_thumb_cache@;
                &&& c1.len() == c0.len() + old(self).pkg_count() - start_index
                &&& c1.subrange(0, c0.len() as int) == c0
                &&& entries_match(c1.subrange(c0.len() as int, c1.len() as int), old(self).pkg_thumbs_from::<Bk>(start_index))
            },
            final(backend).thumbs() == old(backend).thumbs() + thumb_ids(old(self).pkg_thumbs_from::<Bk>(start_index)),
            final(backend).uploads() == old(backend).uploads(),
            final(backend).freed() == old(backend).freed(),
    {
        match &self.tex.pkg_textures {
            None => {
                assert(old(backend).thumbs() + thumb_ids(Seq::<Option<Seq<u8>>>::empty()) =~= old(backend).thumbs());
            },
            Some(pkg) => {
                let n = pkg.len();
                if start_index < n {
                    let ghost base = self.tex.pkg_thumb_cache@;
                    let ghost all = pkg_thumbs::<T, B, V, Bk>(pkg@.subrange(start_index as int, n as int));
                    let mut i = start_index;
                    while i < n
                        invariant
                            start_index <= i <= n,
                            n == pkg@.len(),
                            all == pkg_thumbs::<T, B, V, Bk>(pkg@.subrange(start_index as int, n as int)),
                            self.tex.pkg_thumb_cache@.len() == base.len() + i - start_index,
                            self.tex.pkg_thumb_cache@.subrange(0, base.len() as int) == base,
                            entries_match(
                                self.tex.pkg_thumb_cache@.subrange(base.len() as int, self.tex.pkg_thumb_cache@.len() as int),
                                all.take(i - start_index),
                            ),
                            old(self).same_but_thumbs(*self),
                            self.tex.ir_thumb_cache == old(self).tex.ir_thumb_cache,
                            self.tex.pkg_textures == Some(*pkg),
                            backend.thumbs() == old(backend).thumbs() + thumb_ids(all.take(i - start_index)),
                            backend.uploads() == old(backend).uploads(),
                            backend.freed() == old(backend).freed(),
                        decreases n - i,
                    {
                        let ghost c_before = self.tex.pkg_thumb_cache@;
                        let thumb = build_pkg_thumb_entry(&pkg[i].0, &pkg[i].1, backend);
                        self.tex.pkg_thumb_cache.push(thumb);
                        proof {
                            let k = i - start_index;
                            assert(all[k] == pkg_thumb::<T, B, V, Bk>(pkg@[i as int].0@, pkg@[i as int].1@));
                            assert(all.take(k + 1).drop_last() =~= all.take(k));
                            assert(all.take(k + 1).last() == all[k]);
                            assert(backend.thumbs() =~= old(backend).thumbs() + thumb_ids(all.take(k + 1)));
                            let c1 = self.tex.pkg_thumb_cache@;
                            assert(c1.subrange(0, base.len() as int) =~= base);
                            assert forall|q: int| 0 <= q < k + 1 implies
                                (#[trigger] c1.subrange(base.len() as int, c1.len() as int)[q] is Some)
                                    == (all.take(k + 1)[q] is Some) by {
                                if q < k {
                                    assert(c1.subrange(base.len() as int, c1.len() as int)[q]
                                        == c_before.subrange(base.len() as int, c_before.len() as int)[q]);
                                }
                            }
                        }
                        i = i + 1;
                    }
                    assert(all.take(n - start_index) =~= all);
                } else {
                    assert(old(backend).thumbs() + thumb_ids(Seq::<Option<Seq<u8>>>::empty()) =~= old(backend).thumbs());
                }
            },
        }
    }

    /// Rebuild the package-texture thumbnails from scratch.
    pub fn rebuild_pkg_thumb_cache<Bk: TextureBackend<T, B, V>>(&mut self, backend: &mut Bk)
        ensures
            old(self).same_but_thumbs(*final(self)),
            final(self).tex.ir_thumb_cache == old(self).tex.ir_thumb_cache,
            final(self).tex.pkg_thumb_cache@.len() == old(self).pkg_count(),
            entries_match(final(self).tex.pkg_thumb_cache@, old(self).pkg_thumbs_from::<Bk>(0)),
            final(backend).freed() == old(backend).freed() + thumb_ids(old(self).tex.pkg_thumb_cache@),
            final(backend).thumbs() == old(backend).thumbs() + thumb_ids(old(self).pkg_thumbs_from::<Bk>(0)),
            final(backend).uploads() == old(backend).uploads(),
    {
        self.clear_pkg_thumb_cache(backend);
        self.append_pkg_thumb_cache(backend, 0);
        proof {
            let c1 = self.tex.pkg_thumb_cache@;
            assert(c1.subrange(0, c1.len() as int) =~= c1);
        }
    }
}

/// The thumbnail entry of a model texture: its thumbnail (PSD by the file name)
/// decoded and scaled here, then registered; `None` when none can be made.
fn build_ir_thumb_entry<T, B, V, Bk: TextureBackend<T, B, V>>(tex: &IrTexture, backend: &mut Bk) -> (r: Option<T>)
    ensures
        (r is Some) == (ir_thumb::<T, B, V, Bk>(*tex) is Some),
        final(backend).thumbs() == old(backend).thumbs() + opt_seq(ir_thumb::<T, B, V, Bk>(*tex)),
        final(backend).uploads() == old(backend).uploads(),
        final(backend).freed() == old(backend).freed(),
{
    let is_psd = is_psd_path(&tex.filename);
    let decode = |d: &[u8]| -> (r: Result<RgbaImageData, DecodeError>)
        ensures
            decode_view(r) == Bk::psd_decoded(d@),
            r matches Ok(img) ==> img.pixels@.len() == 4 * img.width * img.height,
        { Bk::decode_psd(d) };
    let rgba = ir_thumbnail_rgba(tex, THUMB_SIZE, is_psd, decode);
    proof {
        if tex.data is Encoded && is_psd {
            let d = tex.data.bytes();
            let (s, dr) = choose|s: &[u8], dr: Result<RgbaImageData, DecodeError>|
                s@ == d && #[trigger] decode.ensures((s,), dr) && opt_bytes(rgba) == thumbnail_of(
                    decode_view(dr),
                    THUMB_SIZE,
                );
            assert(decode_view(dr) == Bk::psd_decoded(s@));
        }
    }
    match rgba {
        Some(px) => {
            let id = backend.register_thumbnail(&px, THUMB_SIZE);
            assert(opt_seq(ir_thumb::<T, B, V, Bk>(*tex)) =~= seq![px@]);
            Some(id)
        },
        None => {
            assert(old(backend).thumbs() + Seq::<Seq<u8>>::empty() =~= old(backend).thumbs());
            None
        },
    }
}

/// The thumbnail entry of a package texture (PSD by its name): decoded and
/// scaled here, then registered; `None` when no thumbnail can be made.
fn build_pkg_thumb_entry<T, B, V, Bk: TextureBackend<T, B, V>>(name: &String, data: &Vec<u8>, backend: &mut Bk) -> (r: Option<T>)
    ensures
        (r is Some) == (pkg_thumb::<T, B, V, Bk>(name@, data@) is Some),
        final(backend).thumbs() == old(backend).thumbs() + opt_seq(pkg_thumb::<T, B, V, Bk>(name@, data@)),
        final(backend).uploads() == old(backend).uploads(),
        final(backend).freed() == old(backend).freed(),
{
    let is_psd = is_psd_path(name);
    let decode = |d: &[u8]| -> (r: Result<RgbaImageData, DecodeError>)
        ensures
            decode_view(r) == Bk::psd_decoded(d@),
            r matches Ok(img) ==> img.pixels@.len() == 4 * img.width * img.height,
        { Bk::decode_psd(d) };
    let bytes = data.as_slice();
    let t = create_thumbnail_rgba(bytes, is_psd, THUMB_SIZE, decode);
    proof {
        if is_psd {
            let dr = choose|dr: Result<RgbaImageData, DecodeError>|
                decode.ensures((bytes,), dr) && #[trigger] thumbnail_outcome(decode_view(dr), THUMB_SIZE, t);
            assert(decode_view(dr) == Bk::psd_decoded(data@));
            lemma_outcome_thumbnail(decode_view(dr), THUMB_SIZE, t);
        } else {
            lemma_outcome_thumbnail(decoded_guessed(data@), THUMB_SIZE, t);
        }
    }
    match t {
        Ok(px) => {
            let id = backend.register_thumbnail(&px, THUMB_SIZE);
            assert(opt_seq(pkg_thumb::<T, B, V, Bk>(name@, data@)) =~= seq![px@]);
            Some(id)
        },
        Err(_) => {
            assert(old(backend).thumbs() + Seq::<Seq<u8>>::empty() =~= old(backend).thumbs());
            None
        },
    }
}

/// Release every registered thumbnail of `cache`, in cache order.
fn free_thumbnails<T, B, V, Bk: TextureBackend<T, B, V>>(backend: &mut Bk, cache: Vec<Option<T>>)
    ensures
        final(backend).freed() == old(backend).freed() + thumb_ids(cache@),
        final(backend).thumbs() == old(backend).thumbs(),
        final(backend).uploads() == old(backend).uploads(),
{
    let mut cache = cache;
    let ghost c0 = cache@;
    let n = cache.len();
    let mut i: usize = 0;
    while i < n
        invariant
            i <= n == c0.len() == cache@.len(),
            forall|k: int| i <= k < n ==> #[trigger] cache@[k] == c0[k],
            backend.freed() == old(backend).freed() + thumb_ids(c0.take(i as int)),
            backend.thumbs() == old(backend).thumbs(),
            backend.uploads() == old(backend).uploads(),
        decreases n - i,
    {
        let mut slot: Option<T> = None;
        std::mem::swap(&mut slot, &mut cache[i]);
        proof {
            assert(c0.take(i + 1).drop_last() =~= c0.take(i as int));
            assert(c0.take(i + 1).last() == c0[i as int]);
        }
        match slot {
            Some(id) => {
                let ghost f0 = backend.freed();
                backend.free_thumbnail(id);
                assert(backend.freed() =~= old(backend).freed() + thumb_ids(c0.take(i + 1)));
            },
            None => {},
        }
        i = i + 1;
    }
    assert(c0.take(n as int) =~= c0);
}

// ---------------------------------------------------------------------------
// Drag-and-drop preview
// ---------------------------------------------------------------------------

/// Whether flag `m` is set (indices past the end count as unset).
pub open spec fn is_marked(flags: Seq<bool>, m: usize) -> bool {
    (m as int) < flags.len() && flags[m as int]
}

/// Entry `d` of a by-index table (indices past the end hold nothing).
pub open spec fn saved_at<X>(saved: Seq<Option<X>>, d: int) -> Option<X> {
    if 0 <= d < saved.len() {
        saved[d]
    } else {
        None
    }
}

/// Texture bind groups of the draws.
pub open spec fn binds_of<B>(draws: Seq<DrawSlot<B>>) -> Seq<Option<B>> {
    Seq::new(draws.len(), |d: int| draws[d].texture_bind_group)
}

/// The texture bind groups the draws had before the preview replaced any:
/// the saved one where the preview holds one, the current one elsewhere.
pub open spec fn original_binds<B>(draws: Seq<DrawSlot<B>>, saved: Seq<Option<Option<B>>>) -> Seq<Option<B>> {
    Seq::new(
        draws.len(),
        |d: int|
            match saved_at(saved, d) {
                Some(orig) => orig,
                None => draws[d].texture_bind_group,
            },
    )
}

/// `new` keeps the draw list of `old` (count, materials, MMD bind groups).
pub open spec fn same_draw_shape<B>(old: Seq<DrawSlot<B>>, new: Seq<DrawSlot<B>>) -> bool {
    &&& new.len() == old.len()
    &&& forall|d: int| 0 <= d < old.len() ==> (#[trigger] new[d]).material_index == old[d].material_index
    &&& forall|d: int| 0 <= d < old.len() ==> (#[trigger] new[d]).mmd_texture_bind_group == old[d].mmd_texture_bind_group
}

impl<T, B, V> PendingTexPreview<T, B, V> {
    /// The preview holds a saved bind group exactly for the draws of the
    /// previewed materials.
    pub open spec fn wf(self, draws: Seq<DrawSlot<B>>) -> bool {
        &&& self.selection@.len() == self.previewed@.len()
        &&& forall|d: int| 0 <= d < draws.len() ==>
            (#[trigger] saved_at(self.saved_binds@, d) is Some <==> is_marked(self.previewed@, draws[d].material_index))
    }

    /// `other` is `self` with other selection/preview bookkeeping only.
    pub open spec fn same_source(self, other: Self) -> bool {
        &&& other.path == self.path
        &&& other.cached_data == self.cached_data
        &&& other.is_psd == self.is_psd
        &&& other.was_temp == self.was_temp
        &&& other.texture_view == self.texture_view
        &&& other.preview_tex_id == self.preview_tex_id
    }
}

/// Put the preview bind group on every draw of material `m`, saving the
/// draw's own bind group first unless one is saved already.
fn preview_material<T, B, V, Bk: TextureBackend<T, B, V>>(
    preview: &mut PendingTexPreview<T, B, V>,
    draws: &mut Vec<DrawSlot<B>>,
    m: usize,
    backend: &mut Bk,
)
    requires
        old(preview).saved_binds@.len() >= old(draws)@.len(),
    ensures
        final(preview).saved_binds@.len() == old(preview).saved_binds@.len(),
        old(preview).same_source(*final(preview)),
        final(preview).selection == old(preview).selection,
        final(preview).previewed == old(preview).previewed,
        same_draw_shape(old(draws)@, final(draws)@),
        original_binds(final(draws)@, final(preview).saved_binds@) == original_binds(old(draws)@, old(preview).saved_binds@),
        forall|d: int| 0 <= d < old(draws)@.len() ==> {
            if old(draws)@[d].material_index == m {
                &&& (#[trigger] final(draws)@[d]).texture_bind_group is Some
                &&& saved_at(final(preview).saved_binds@, d) is Some
            } else {
                &&& final(draws)@[d] == old(draws)@[d]
                &&& saved_at(final(preview).saved_binds@, d) == saved_at(old(preview).saved_binds@, d)
            }
        },
        forall|d: int| old(draws)@.len() <= d < old(preview).saved_binds@.len()
            ==> #[trigger] final(preview).saved_binds@[d] == old(preview).saved_binds@[d],
{
    let n = draws.len();
    let mut d: usize = 0;
    while d < n
        invariant
            0 <= d <= n,
            n == old(draws)@.len(),
            preview.saved_binds@.len() == old(preview).saved_binds@.len(),
            preview.saved_binds@.len() >= n,
            old(preview).same_source(*preview),
            preview.selection == old(preview).selection,
            preview.previewed == old(preview).previewed,
            same_draw_shape(old(draws)@, draws@),
            original_binds(draws@, preview.saved_binds@) == original_binds(old(draws)@, old(preview).saved_binds@),
            forall|k: int| 0 <= k < n ==> {
                if k < d && old(draws)@[k].material_index == m {
                    &&& (#[trigger] draws@[k]).texture_bind_group is Some
                    &&& saved_at(preview.saved_binds@, k) is Some
                } else {
                    &&& draws@[k] == old(draws)@[k]
                    &&& saved_at(preview.saved_binds@, k) == saved_at(old(preview).saved_binds@, k)
                }
            },
            forall|k: int| n <= k < old(preview).saved_binds@.len()
                ==> #[trigger] preview.saved_binds@[k] == old(preview).saved_binds@[k],
        decreases n - d,
    {
        if draws[d].material_index == m {
            let ghost before_draws = draws@;
            let ghost before_saved = preview.saved_binds@;
            if preview.saved_binds[d].is_none() {
                let orig = draws[d].texture_bind_group.take();
                preview.saved_binds.set(d, Some(orig));
            }
            let bg = backend.texture_bind_group(&preview.texture_view, None);
            draws[d].texture_bind_group = Some(bg);
            assert(original_binds(draws@, preview.saved_binds@) =~= original_binds(before_draws, before_saved));
        }
        d = d + 1;
    }
}

/// Give every draw of material `m` back the bind group saved for it.
fn restore_material<T, B, V>(
    preview: &mut PendingTexPreview<T, B, V>,
    draws: &mut Vec<DrawSlot<B>>,
    m: usize,
)
    requires
        old(preview).saved_binds@.len() >= old(draws)@.len(),
    ensures
        final(preview).saved_binds@.len() == old(preview).saved_binds@.len(),
        old(preview).same_source(*final(preview)),
        final(preview).selection == old(preview).selection,
        final(preview).previewed == old(preview).previewed,
        same_draw_shape(old(draws)@, final(draws)@),
        original_binds(final(draws)@, final(preview).saved_binds@) == original_binds(old(draws)@, old(preview).saved_binds@),
        forall|d: int| 0 <= d < old(draws)@.len() ==> {
            if old(draws)@[d].material_index == m {
                &&& (#[trigger] final(draws)@[d]).texture_bind_group
                    == original_binds(old(draws)@, old(preview).saved_binds@)[d]
                &&& saved_at(final(preview).saved_binds@, d) is None
            } else {
                &&& final(draws)@[d] == old(draws)@[d]
                &&& saved_at(final(preview).saved_binds@, d) == saved_at(old(preview).saved_binds@, d)
            }
        },
        forall|d: int| old(draws)@.len() <= d < old(preview).saved_binds@.len()
            ==> #[trigger] final(preview).saved_binds@[d] == old(preview).saved_binds@[d],
{
    let n = draws.len();
    let mut d: usize = 0;
    while d < n
        invariant
            0 <= d <= n,
            n == old(draws)@.len(),
            preview.saved_binds@.len() == old(preview).saved_binds@.len(),
            preview.saved_binds@.len() >= n,
            old(preview).same_source(*preview),
            preview.selection == old(preview).selection,
            preview.previewed == old(preview).previewed,
            same_draw_shape(old(draws)@, draws@),
            original_binds(draws@, preview.saved_binds@) == original_binds(old(draws)@, old(preview).saved_binds@),
            forall|k: int| 0 <= k < n ==> {
                if k < d && old(draws)@[k].material_index == m {
                    &&& (#[trigger] draws@[k]).texture_bind_group
                        == original_binds(old(draws)@, old(preview).saved_binds@)[k]
                    &&& saved_at(preview.saved_binds@, k) is None
                } else {
                    &&& draws@[k] == old(draws)@[k]
                    &&& saved_at(preview.saved_binds@, k) == saved_at(old(preview).saved_binds@, k)
                }
            },
            forall|k: int| n <= k < old(preview).saved_binds@.len()
                ==> #[trigger] preview.saved_binds@[k] == old(preview).saved_binds@[k],
        decreases n - d,
    {
        if draws[d].material_index == m {
            let ghost before_draws = draws@;
            let ghost before_saved = preview.saved_binds@;
            if preview.saved_binds[d].is_some() {
                let mut slot: Option<Option<B>> = None;
                std::mem::swap(&mut slot, &mut preview.saved_binds[d]);
                match slot {
                    Some(orig) => {
                        draws[d].texture_bind_group = orig;
                    },
                    None => {},
                }
            }
            assert(original_binds(draws@, preview.saved_binds@) =~= original_binds(before_draws, before_saved));
        }
        d = d + 1;
    }
}

/// Every draw of a material below `m` is synced, every other draw untouched.
pub open spec fn synced_below<B>(
    sel: Seq<bool>,
    prev: Seq<bool>,
    orig0: Seq<Option<B>>,
    d0: Seq<DrawSlot<B>>,
    sv0: Seq<Option<Option<B>>>,
    draws: Seq<DrawSlot<B>>,
    saved: Seq<Option<Option<B>>>,
    m: int,
) -> bool {
    forall|d: int| 0 <= d < d0.len() ==> {
        if d0[d].material_index < m {
            synced_draw(
                sel, prev, d0[d].material_index, orig0[d],
                d0[d], saved_at(sv0, d),
                #[trigger] draws[d], saved_at(saved, d),
            )
        } else {
            draws[d] == d0[d] && saved_at(saved, d) == saved_at(sv0, d)
        }
    }
}

/// What one sync leaves on a draw of material `m`, given the selection `sel`,
/// the previewed flags `prev` before the sync, the draw's bind group `orig` before
/// the preview, the draw and its saved entry before (`d0`, `s0`) and after (`d1`, `s1`).
pub open spec fn synced_draw<B>(
    sel: Seq<bool>,
    prev: Seq<bool>,
    m: usize,
    orig: Option<B>,
    d0: DrawSlot<B>,
    s0: Option<Option<B>>,
    d1: DrawSlot<B>,
    s1: Option<Option<B>>,
) -> bool {
    if (m as int) >= sel.len() {
        d1 == d0 && s1 == s0
    } else if sel[m as int] && !is_marked(prev, m) {
        d1.texture_bind_group is Some && s1 is Some
    } else if !sel[m as int] && is_marked(prev, m) {
        d1.texture_bind_group == orig && s1 is None
    } else {
        d1 == d0 && s1 == s0
    }
}

impl<B, V> LoadedModel<B, V> {
    /// `other` differs from `self` at most in its draws.
    pub open spec fn same_but_draws(self, other: Self) -> bool {
        &&& other.textures == self.textures
        &&& other.materials == self.materials
        &&& other.texture_views == self.texture_views
        &&& other.appended_models == self.appended_models
        &&& other.source == self.source
        &&& other.mat_cache == self.mat_cache
    }
}

impl<T, B, V> ViewerApp<T, B, V> {
    /// A preview, a model and a renderer are all there.
    pub open spec fn preview_active(self) -> bool {
        self.tex.pending_preview is Some && self.loaded is Some && self.has_renderer
    }

    /// `other` differs from `self` at most in the preview and the model's draws.
    pub open spec fn same_but_preview(self, other: Self) -> bool {
        &&& other.has_renderer == self.has_renderer
        &&& other.dirty_materials == self.dirty_materials
        &&& other.tex.pending_match == self.tex.pending_match
        &&& other.tex.pkg_textures == self.tex.pkg_textures
        &&& other.tex.pkg_thumb_cache == self.tex.pkg_thumb_cache
        &&& other.tex.ir_thumb_cache == self.tex.ir_thumb_cache
        &&& other.tex.link_same_name == self.tex.link_same_name
        &&& other.tex.assignments == self.tex.assignments
        &&& other.tex.pending_psd_conversions == self.tex.pending_psd_conversions
        &&& other.loaded is Some <==> self.loaded is Some
        &&& self.loaded is Some ==> self.loaded->0.same_but_draws(other.loaded->0)
    }

    /// Bring the GPU in line with the preview checkboxes: materials newly
    /// checked get the preview bind group (their own saved aside), materials
    /// newly unchecked get their saved bind group back.
    #[verifier::spinoff_prover]
    pub fn sync_tex_preview<Bk: TextureBackend<T, B, V>>(&mut self, backend: &mut Bk)
        requires
            old(self).tex.pending_preview is Some ==>
                old(self).tex.pending_preview->0.selection@.len() <= old(self).tex.pending_preview->0.previewed@.len(),
        ensures
            !old(self).preview_active() ==> *final(self) == *old(self),
            old(self).preview_active() ==> {
                let p0 = old(self).tex.pending_preview->0;
                let p1 = final(self).tex.pending_preview->0;
                let d0 = old(self).loaded->0.draws@;
                let d1 = final(self).loaded->0.draws@;
                &&& final(self).tex.pending_preview is Some
                &&& old(self).same_but_preview(*final(self))
                &&& p0.same_source(p1)
                &&& p1.selection == p0.selection
                &&& p1.previewed@.len() == p0.previewed@.len()
                &&& forall|i: int| 0 <= i < p0.selection@.len() ==> #[trigger] p1.previewed@[i] == p0.selection@[i]
                &&& forall|i: int| p0.selection@.len() <= i < p0.previewed@.len()
                    ==> #[trigger] p1.previewed@[i] == p0.previewed@[i]
                &&& same_draw_shape(d0, d1)
                &&& original_binds(d1, p1.saved_binds@) == original_binds(d0, p0.saved_binds@)
                &&& forall|d: int| 0 <= d < d0.len() ==> synced_draw(
                    p0.selection@, p0.previewed@, d0[d].material_index,
                    original_binds(d0, p0.saved_binds@)[d],
                    d0[d], saved_at(p0.saved_binds@, d),
                    #[trigger] d1[d], saved_at(p1.saved_binds@, d),
                )
                &&& p0.wf(d0) ==> p1.wf(d1)
                &&& p0.wf(d0) ==> forall|d: int| 0 <= d < d0.len()
                    && !is_marked(p0.selection@, d0[d].material_index)
                    ==> (#[trigger] d1[d]).texture_bind_group == original_binds(d0, p0.saved_binds@)[d]
            },
    {
        if self.tex.pending_preview.is_none() || self.loaded.is_none() || !self.has_renderer {
            return;
        }
        let ghost app0 = *self;
        let mut preview = self.tex.pending_preview.take().unwrap();
        let mut loaded = self.loaded.take().unwrap();
        let ghost p0 = preview;
        let ghost l0 = loaded;
        let ghost d0 = loaded.draws@;
        let ghost orig0 = original_binds(d0, p0.saved_binds@);
        while preview.saved_binds.len() < loaded.draws.len()
            invariant
                loaded.draws@ == d0,
                p0.same_source(preview),
                preview.selection == p0.selection,
                preview.previewed == p0.previewed,
                preview.saved_binds@.len() >= p0.saved_binds@.len(),
                forall|d: int| #[trigger] saved_at(preview.saved_binds@, d) == saved_at(p0.saved_binds@, d),
            decreases loaded.draws@.len() - preview.saved_binds@.len(),
        {
            let ghost before = preview.saved_binds@;
            preview.saved_binds.push(None);
            assert forall|d: int| #[trigger] saved_at(preview.saved_binds@, d) == saved_at(before, d) by {
                if 0 <= d < before.len() {
                    assert(preview.saved_binds@[d] == before[d]);
                }
            }
        }
        assert(original_binds(d0, preview.saved_binds@) =~= orig0);
        let ghost sv0 = preview.saved_binds@;
        let n = preview.selection.len();
        let mut m: usize = 0;
        while m < n
            invariant
                0 <= m <= n,
                n == p0.selection@.len(),
                n <= p0.previewed@.len(),
                p0.same_source(preview),
                preview.selection == p0.selection,
                preview.previewed@.len() == p0.previewed@.len(),
                forall|i: int| 0 <= i < m ==> #[trigger] preview.previewed@[i] == p0.selection@[i],
                forall|i: int| m <= i < p0.previewed@.len() ==> #[trigger] preview.previewed@[i] == p0.previewed@[i],
                same_draw_shape(d0, loaded.draws@),
                l0.same_but_draws(loaded),
                preview.saved_binds@.len() == sv0.len(),
                sv0.len() >= d0.len(),
                forall|d: int| #[trigger] saved_at(sv0, d) == saved_at(p0.saved_binds@, d),
                original_binds(loaded.draws@, preview.saved_binds@) == orig0,
                synced_below(p0.selection@, p0.previewed@, orig0, d0, sv0, loaded.draws@, preview.saved_binds@, m as int),
                forall|d: int| d0.len() <= d < sv0.len() ==> #[trigger] preview.saved_binds@[d] == sv0[d],
            decreases n - m,
        {
            let sel = preview.selection[m];
            let prev = preview.previewed[m];
            let ghost dm = loaded.draws@;
            let ghost sm = preview.saved_binds@;
            if sel && !prev {
                preview_material(&mut preview, &mut loaded.draws, m, backend);
                preview.previewed.set(m, true);
            } else if !sel && prev {
                restore_material(&mut preview, &mut loaded.draws, m);
                preview.previewed.set(m, false);
            }
            proof {
                assert(synced_below(p0.selection@, p0.previewed@, orig0, d0, sv0, dm, sm, m as int));
            }
            assert forall|d: int| 0 <= d < d0.len() implies {
                if d0[d].material_index < m + 1 {
                    synced_draw(
                        p0.selection@, p0.previewed@, d0[d].material_index, orig0[d],
                        d0[d], saved_at(sv0, d),
                        #[trigger] loaded.draws@[d], saved_at(preview.saved_binds@, d),
                    )
                } else {
                    loaded.draws@[d] == d0[d] && saved_at(preview.saved_binds@, d) == saved_at(sv0, d)
                }
            } by {
                assert(dm[d].material_index == d0[d].material_index);
                if d0[d].material_index == m {
                    assert(original_binds(dm, sm)[d] == orig0[d]);
                } else {
                    assert(loaded.draws@[d] == dm[d]);
                    assert(saved_at(preview.saved_binds@, d) == saved_at(sm, d));
                }
            }
            assert(synced_below(p0.selection@, p0.previewed@, orig0, d0, sv0, loaded.draws@, preview.saved_binds@, m + 1));
            m = m + 1;
        }
        proof {
            assert forall|d: int| 0 <= d < d0.len() implies synced_draw(
                p0.selection@, p0.previewed@, d0[d].material_index, orig0[d],
                d0[d], saved_at(p0.saved_binds@, d),
                #[trigger] loaded.draws@[d], saved_at(preview.saved_binds@, d),
            ) by {
                assert(saved_at(sv0, d) == saved_at(p0.saved_binds@, d));
            }
            if p0.wf(d0) {
                assert forall|d: int| 0 <= d < d0.len() && !is_marked(p0.selection@, d0[d].material_index)
                    implies (#[trigger] loaded.draws@[d]).texture_bind_group == orig0[d] by {
                    assert(saved_at(sv0, d) == saved_at(p0.saved_binds@, d));
                }
                assert forall|d: int| 0 <= d < loaded.draws@.len() implies
                    (#[trigger] saved_at(preview.saved_binds@, d) is Some
                        <==> is_marked(preview.previewed@, loaded.draws@[d].material_index)) by {
                    assert(saved_at(sv0, d) == saved_at(p0.saved_binds@, d));
                    assert(loaded.draws@[d].material_index == d0[d].material_index);
                }
            }
        }
        self.loaded = Some(loaded);
        self.tex.pending_preview = Some(preview);
        proof {
            assert(app0.loaded->0.same_but_draws(self.loaded->0));
        }
    }
}

impl<T, B, V> ViewerApp<T, B, V> {
    /// Close the preview and give every draw its own bind group back.
    pub fn cancel_tex_preview<Bk: TextureBackend<T, B, V>>(&mut self, backend: &mut Bk)
        ensures
            final(self).tex.pending_preview is None,
            old(self).tex.pending_preview is None ==> *final(self) == *old(self),
            old(self).tex.pending_preview is None ==> final(backend).freed() == old(backend).freed(),
            final(backend).thumbs() == old(backend).thumbs(),
            final(backend).uploads() == old(backend).uploads(),
            old(self).tex.pending_preview is Some ==> {
                let p0 = old(self).tex.pending_preview->0;
                &&& final(backend).freed() == old(backend).freed() + opt_seq(p0.preview_tex_id)
                &&& old(self).same_but_preview(*final(self))
                &&& old(self).loaded is Some ==> {
                    let d0 = old(self).loaded->0.draws@;
                    let d1 = final(self).loaded->0.draws@;
                    &&& same_draw_shape(d0, d1)
                    &&& binds_of(d1) == original_binds(d0, p0.saved_binds@)
                }
            },
    {
        match self.tex.pending_preview.take() {
            None => {},
            Some(preview) => self.cancel_tex_preview_inner(preview, backend),
        }
    }

    /// Release the preview thumbnail and restore every saved bind group.
    pub fn cancel_tex_preview_inner<Bk: TextureBackend<T, B, V>>(
        &mut self,
        preview: PendingTexPreview<T, B, V>,
        backend: &mut Bk,
    )
        ensures
            old(self).same_but_preview(*final(self)),
            final(self).tex.pending_preview == old(self).tex.pending_preview,
            final(backend).freed() == old(backend).freed() + opt_seq(preview.preview_tex_id),
            final(backend).thumbs() == old(backend).thumbs(),
            final(backend).uploads() == old(backend).uploads(),
            old(self).loaded is Some ==> {
                let d0 = old(self).loaded->0.draws@;
                let d1 = final(self).loaded->0.draws@;
                &&& same_draw_shape(d0, d1)
                &&& binds_of(d1) == original_binds(d0, preview.saved_binds@)
            },
    {
        let PendingTexPreview { saved_binds, preview_tex_id, .. } = preview;
        match preview_tex_id {
            Some(id) => {
                backend.free_thumbnail(id);
                assert(backend.freed() =~= old(backend).freed() + opt_seq(preview.preview_tex_id));
            },
            None => {
                assert(backend.freed() =~= old(backend).freed() + opt_seq(preview.preview_tex_id));
            },
        }
        if self.loaded.is_none() {
            return;
        }
        let mut loaded = self.loaded.take().unwrap();
        let ghost l0 = loaded;
        let ghost d0 = loaded.draws@;
        let ghost sv = saved_binds@;
        let mut saved = saved_binds;
        let n = loaded.draws.len();
        let mut d: usize = 0;
        while d < n
            invariant
                0 <= d <= n,
                n == d0.len(),
                l0.same_but_draws(loaded),
                same_draw_shape(d0, loaded.draws@),
                saved@.len() == sv.len(),
                forall|k: int| 0 <= k < n ==> {
                    if k < d {
                        (#[trigger] loaded.draws@[k]).texture_bind_group == original_binds(d0, sv)[k]
                    } else {
                        loaded.draws@[k] == d0[k] && saved_at(saved@, k) == saved_at(sv, k)
                    }
                },
            decreases n - d,
        {
            if d < saved.len() {
                let mut slot: Option<Option<B>> = None;
                std::mem::swap(&mut slot, &mut saved[d]);
                match slot {
                    Some(orig) => {
                        loaded.draws[d].texture_bind_group = orig;
                    },
                    None => {},
                }
            }
            d = d + 1;
        }
        assert(binds_of(loaded.draws@) =~= original_binds(d0, sv));
        self.loaded = Some(loaded);
    }
}

/// A preview that has saved nothing yet gives back, on cancel, exactly the
/// bind groups the draws had when it opened.
pub proof fn fresh_preview_restores_current<B>(draws: Seq<DrawSlot<B>>, saved: Seq<Option<Option<B>>>)
    requires
        forall|d: int| 0 <= d < saved.len() ==> #[trigger] saved[d] is None,
    ensures
        original_binds(draws, saved) == binds_of(draws),
{
    assert(original_binds(draws, saved) =~= binds_of(draws));
}

/// Cancelling a preview after any number of syncs restores the bind groups
/// the draws had when the preview opened: a sync keeps `original_binds`, a
/// cancel puts `original_binds` back, and a fresh preview's `original_binds`
/// are the draws' bind groups.
pub proof fn preview_cancel_round_trip<B>(
    draws_open: Seq<DrawSlot<B>>,
    saved_open: Seq<Option<Option<B>>>,
    draws_synced: Seq<DrawSlot<B>>,
    saved_synced: Seq<Option<Option<B>>>,
    draws_cancelled: Seq<DrawSlot<B>>,
)
    requires
        forall|d: int| 0 <= d < saved_open.len() ==> #[trigger] saved_open[d] is None,
        original_binds(draws_synced, saved_synced) == original_binds(draws_open, saved_open),
        binds_of(draws_cancelled) == original_binds(draws_synced, saved_synced),
    ensures
        binds_of(draws_cancelled) == binds_of(draws_open),
{
    fresh_preview_restores_current(draws_open, saved_open);
}

// ---------------------------------------------------------------------------
// Package-texture match dialog
// ---------------------------------------------------------------------------

impl<T, B, V> ViewerApp<T, B, V> {
    /// `other` differs from `self` at most in the match dialog.
    pub open spec fn same_but_match(self, other: Self) -> bool {
        &&& other.loaded == self.loaded
        &&& other.has_renderer == self.has_renderer
        &&& other.dirty_materials == self.dirty_materials
        &&& other.tex.pending_preview == self.tex.pending_preview
        &&& other.tex.pkg_textures == self.tex.pkg_textures
        &&& other.tex.pkg_thumb_cache == self.tex.pkg_thumb_cache
        &&& other.tex.ir_thumb_cache == self.tex.ir_thumb_cache
        &&& other.tex.link_same_name == self.tex.link_same_name
        &&& other.tex.assignments == self.tex.assignments
        &&& other.tex.pending_psd_conversions == self.tex.pending_psd_conversions
    }

    /// Give the match dialog one (not yet uploaded) view slot per package
    /// texture, unless it has its slots already.
    pub fn prepare_tex_match_views(&mut self)
        ensures
            old(self).same_but_match(*final(self)),
            final(self).tex.pending_match is Some <==> old(self).tex.pending_match is Some,
            old(self).tex.pending_match is Some ==> {
                let m0 = old(self).tex.pending_match->0;
                let m1 = final(self).tex.pending_match->0;
                &&& m1.mat_indices == m0.mat_indices
                &&& m1.selections == m0.selections
                &&& m1.tex_filter == m0.tex_filter
                &&& m1.previewed == m0.previewed
                &&& m1.saved_binds == m0.saved_binds
                &&& m1.failed_uploads == m0.failed_uploads
                &&& if m0.texture_views@.len() == 0 {
                    &&& m1.texture_views@.len() == old(self).pkg_count()
                    &&& forall|i: int| 0 <= i < m1.texture_views@.len() ==> #[trigger] m1.texture_views@[i] is None
                } else {
                    m1.texture_views == m0.texture_views
                }
            },
    {
        let pkg_count: usize = match &self.tex.pkg_textures {
            Some(p) => p.len(),
            None => 0,
        };
        match &mut self.tex.pending_match {
            None => {},
            Some(pending) => {
                if pending.texture_views.len() == 0 && pkg_count > 0 {
                    let mut views: Vec<Option<V>> = Vec::new();
                    let mut i: usize = 0;
                    while i < pkg_count
                        invariant
                            i <= pkg_count,
                            views@.len() == i,
                            forall|k: int| 0 <= k < i ==> #[trigger] views@[k] is None,
                        decreases pkg_count - i,
                    {
                        views.push(None);
                        i = i + 1;
                    }
                    pending.texture_views = views;
                }
            },
        }
    }

    /// Close the match dialog and give every draw its saved bind groups back.
    /// A drag-and-drop preview open at the same time is marked as not applied,
    /// so that its next sync applies it again.
    #[verifier::spinoff_prover]
    pub fn cancel_tex_match_preview(&mut self)
        ensures
            final(self).tex.pending_match is None,
            old(self).tex.pending_match is None ==> *final(self) == *old(self),
            old(self).tex.pending_match is Some && old(self).loaded is None ==> {
                &&& old(self).same_but_match(*final(self))
            },
            old(self).tex.pending_match is Some && old(self).loaded is Some ==> {
                let sv = old(self).tex.pending_match->0.saved_binds@;
                let l0 = old(self).loaded->0;
                let l1 = final(self).loaded->0;
                &&& final(self).loaded is Some
                &&& l0.same_but_draws(l1)
                &&& l1.draws@.len() == l0.draws@.len()
                &&& forall|d: int| 0 <= d < l0.draws@.len() ==> {
                    &&& (#[trigger] l1.draws@[d]).material_index == l0.draws@[d].material_index
                    &&& match saved_at(sv, d) {
                        Some(orig) => l1.draws@[d].texture_bind_group == orig.0
                            && l1.draws@[d].mmd_texture_bind_group == orig.1,
                        None => l1.draws@[d] == l0.draws@[d],
                    }
                }
                &&& pairs_of(l1.draws@) == original_pairs(l0.draws@, sv)
                &&& final(self).has_renderer == old(self).has_renderer
                &&& final(self).tex.pkg_textures == old(self).tex.pkg_textures
                &&& final(self).tex.pkg_thumb_cache == old(self).tex.pkg_thumb_cache
                &&& final(self).tex.ir_thumb_cache == old(self).tex.ir_thumb_cache
                &&& final(self).tex.link_same_name == old(self).tex.link_same_name
                &&& final(self).tex.assignments == old(self).tex.assignments
                &&& final(self).tex.pending_psd_conversions == old(self).tex.pending_psd_conversions
                &&& final(self).tex.pending_preview is Some <==> old(self).tex.pending_preview is Some
                &&& old(self).tex.pending_preview is Some ==> {
                    let p0 = old(self).tex.pending_preview->0;
                    let p1 = final(self).tex.pending_preview->0;
                    &&& p0.same_source(p1)
                    &&& p1.selection == p0.selection
                    &&& p1.saved_binds == p0.saved_binds
                    &&& p1.previewed@.len() == p0.previewed@.len()
                    &&& forall|i: int| 0 <= i < p1.previewed@.len() ==> !(#[trigger] p1.previewed@[i])
                }
            },
    {
        let pending = match self.tex.pending_match.take() {
            None => return,
            Some(p) => p,
        };
        if self.loaded.is_none() {
            return;
        }
        let mut loaded = self.loaded.take().unwrap();
        let ghost l0 = loaded;
        let ghost d0 = loaded.draws@;
        let ghost sv = pending.saved_binds@;
        let mut saved = pending.saved_binds;
        let n = loaded.draws.len();
        let mut d: usize = 0;
        while d < n
            invariant
                0 <= d <= n,
                n == d0.len(),
                l0.same_but_draws(loaded),
                loaded.draws@.len() == n,
                saved@.len() == sv.len(),
                forall|k: int| 0 <= k < n ==> {
                    &&& (#[trigger] loaded.draws@[k]).material_index == d0[k].material_index
                    &&& if k < d {
                        match saved_at(sv, k) {
                            Some(orig) => loaded.draws@[k].texture_bind_group == orig.0
                                && loaded.draws@[k].mmd_texture_bind_group == orig.1,
                            None => loaded.draws@[k] == d0[k],
                        }
                    } else {
                        loaded.draws@[k] == d0[k] && saved_at(saved@, k) == saved_at(sv, k)
                    }
                },
            decreases n - d,
        {
            if d < saved.len() {
                let mut slot: Option<(Option<B>, Option<B>)> = None;
                std::mem::swap(&mut slot, &mut saved[d]);
                match slot {
                    Some(orig) => {
                        let (orig_tex, orig_mmd) = orig;
                        loaded.draws[d].texture_bind_group = orig_tex;
                        loaded.draws[d].mmd_texture_bind_group = orig_mmd;
                    },
                    None => {},
                }
            }
            d = d + 1;
        }
        assert(pairs_of(loaded.draws@) =~= original_pairs(d0, sv));
        self.loaded = Some(loaded);
        if self.tex.pending_preview.is_some() {
            let mut preview = self.tex.pending_preview.take().unwrap();
            let ghost p0 = preview;
            let len = preview.previewed.len();
            let mut i: usize = 0;
            while i < len
                invariant
                    i <= len,
                    len == p0.previewed@.len(),
                    p0.same_source(preview),
                    preview.selection == p0.selection,
                    preview.saved_binds == p0.saved_binds,
                    preview.previewed@.len() == len,
                    forall|k: int| 0 <= k < i ==> !(#[trigger] preview.previewed@[k]),
                decreases len - i,
            {
                preview.previewed.set(i, false);
                i = i + 1;
            }
            self.tex.pending_preview = Some(preview);
        }
    }
}

// ---------------------------------------------------------------------------
// Texture history key
// ---------------------------------------------------------------------------

impl<T, B, V> ViewerApp<T, B, V> {
    /// Key under which the current model's texture assignments are kept in
    /// the history: the normalized path of a model loaded from a file, with
    /// no other model appended to it.
    pub fn texture_history_key<F: Fn(&String) -> String>(&self, normalize: F) -> (r: Option<String>)
        requires
            forall|p: &String| #[trigger] normalize.requires((p,)),
        ensures
            r is Some <==> (self.loaded is Some && self.loaded->0.appended_models == 0
                && self.loaded->0.source is File),
            r is Some ==> normalize.ensures((&self.loaded->0.source->File_0,), r->0),
    {
        match &self.loaded {
            None => None,
            Some(loaded) => {
                if loaded.appended_models != 0 {
                    return None;
                }
                match &loaded.source {
                    ReloadableSource::File(path) => Some(normalize(path)),
                    ReloadableSource::Other => None,
                }
            },
        }
    }
}

// ---------------------------------------------------------------------------
// Texture assignment
// ---------------------------------------------------------------------------

impl TextureData {
    /// The bytes of the payload.
    pub open spec fn bytes(self) -> Seq<u8> {
        match self {
            TextureData::RawRgba { pixels, .. } => pixels@,
            TextureData::Encoded(d) => d@,
        }
    }

    /// The bytes of the payload.
    pub fn as_bytes(&self) -> (r: &Vec<u8>)
        ensures
            r@ == self.bytes(),
    {
        match self {
            TextureData::RawRgba { pixels, .. } => pixels,
            TextureData::Encoded(d) => d,
        }
    }
}

/// The MToon-side slots; assigning one switches the material to MToon shading.
pub open spec fn is_mtoon_slot(slot: TextureSlot) -> bool {
    match slot {
        TextureSlot::ShadeMultiply | TextureSlot::ShadingShift | TextureSlot::RimMultiply
        | TextureSlot::OutlineWidth | TextureSlot::Matcap | TextureSlot::UvAnimMask => true,
        _ => false,
    }
}

/// The material after texture `idx` is assigned to `slot`.
pub open spec fn with_slot_texture(mat: IrMaterial, slot: TextureSlot, idx: usize) -> IrMaterial {
    let m = if is_mtoon_slot(slot) { IrMaterial { shader_family: ShaderFamily::Mtoon, ..mat } } else { mat };
    let mt = match m.mtoon {
        Some(t) => t,
        None => MtoonTextures::empty(),
    };
    let info = IrTextureInfo::from_index_spec(idx);
    match slot {
        TextureSlot::BaseColor => IrMaterial {
            texture_index: Some(idx),
            base_color_tex_info: Some(
                match m.base_color_tex_info {
                    Some(i) => IrTextureInfo { index: idx, ..i },
                    None => info,
                },
            ),
            ..m
        },
        TextureSlot::Emissive => IrMaterial { emissive_texture: Some(info), ..m },
        TextureSlot::Normal => IrMaterial { normal_texture: Some(info), ..m },
        TextureSlot::ShadeMultiply => IrMaterial {
            mtoon: Some(MtoonTextures { shade_texture: Some(info), ..mt }),
            ..m
        },
        TextureSlot::ShadingShift => IrMaterial {
            mtoon: Some(MtoonTextures { shading_shift_texture: Some(info), ..mt }),
            ..m
        },
        TextureSlot::RimMultiply => IrMaterial {
            mtoon: Some(MtoonTextures { rim_multiply_texture: Some(info), ..mt }),
            ..m
        },
        TextureSlot::OutlineWidth => IrMaterial {
            mtoon: Some(MtoonTextures { outline_width_texture: Some(info), ..mt }),
            ..m
        },
        TextureSlot::Matcap => IrMaterial {
            mtoon: Some(MtoonTextures { matcap_texture: Some(info), ..mt }),
            ..m
        },
        TextureSlot::UvAnimMask => IrMaterial {
            mtoon: Some(MtoonTextures { uv_animation_mask_texture: Some(info), ..mt }),
            ..m
        },
        TextureSlot::Sphere => IrMaterial {
            sphere_texture_index: Some(idx),
            sphere_mode: if m.sphere_mode == 0 { 1 } else { m.sphere_mode },
            ..m
        },
        TextureSlot::Toon => IrMaterial {
            toon_texture_index: Some(idx),
            toon_shared_index: None,
            ..m
        },
    }
}

/// Set texture `tex_idx` on the material field of `slot`.
pub fn apply_texture_to_slot(mat: &mut IrMaterial, slot: TextureSlot, tex_idx: usize)
    ensures
        *final(mat) == with_slot_texture(*old(mat), slot, tex_idx),
        slot == TextureSlot::BaseColor ==> {
            &&& final(mat).texture_index == Some(tex_idx)
            &&& final(mat).base_color_tex_info matches Some(n) && n.index == tex_idx
            &&& old(mat).base_color_tex_info matches Some(i) ==> final(mat).base_color_tex_info
                == Some(IrTextureInfo { index: tex_idx, ..i })
        },
{
    let is_mtoon_slot = match slot {
        TextureSlot::ShadeMultiply | TextureSlot::ShadingShift | TextureSlot::RimMultiply
        | TextureSlot::OutlineWidth | TextureSlot::Matcap | TextureSlot::UvAnimMask => true,
        _ => false,
    };
    if is_mtoon_slot {
        mat.shader_family = ShaderFamily::Mtoon;
    }
    let mut mt = match mat.mtoon {
        Some(t) => t,
        None => MtoonTextures::new(),
    };
    let info = IrTextureInfo::from_index(tex_idx);
    match slot {
        TextureSlot::BaseColor => {
            mat.texture_index = Some(tex_idx);
            let new_info = match mat.base_color_tex_info {
                Some(i) => IrTextureInfo { index: tex_idx, ..i },
                None => info,
            };
            mat.base_color_tex_info = Some(new_info);
        },
        TextureSlot::Emissive => {
            mat.emissive_texture = Some(info);
        },
        TextureSlot::Normal => {
            mat.normal_texture = Some(info);
        },
        TextureSlot::ShadeMultiply => {
            mt.shade_texture = Some(info);
            mat.mtoon = Some(mt);
        },
        TextureSlot::ShadingShift => {
            mt.shading_shift_texture = Some(info);
            mat.mtoon = Some(mt);
        },
        TextureSlot::RimMultiply => {
            mt.rim_multiply_texture = Some(info);
            mat.mtoon = Some(mt);
        },
        TextureSlot::OutlineWidth => {
            mt.outline_width_texture = Some(info);
            mat.mtoon = Some(mt);
        },
        TextureSlot::Matcap => {
            mt.matcap_texture = Some(info);
            mat.mtoon = Some(mt);
        },
        TextureSlot::UvAnimMask => {
            mt.uv_animation_mask_texture = Some(info);
            mat.mtoon = Some(mt);
        },
        TextureSlot::Sphere => {
            mat.sphere_texture_index = Some(tex_idx);
            if mat.sphere_mode == 0 {
                mat.sphere_mode = 1;
            }
        },
        TextureSlot::Toon => {
            mat.toon_texture_index = Some(tex_idx);
            mat.toon_shared_index = None;
        },
    }
}

/// Assigning a base color texture points the material at it and keeps
/// everything else of its existing base color reference (UV set, sampler,
/// texture transform); a material without one gets a plain reference. No other
/// slot of the material changes.
pub proof fn base_color_assignment_keeps_reference_settings(mat: IrMaterial, idx: usize)
    ensures
        ({
            let m = with_slot_texture(mat, TextureSlot::BaseColor, idx);
            &&& m.texture_index == Some(idx)
            &&& m.base_color_tex_info matches Some(n) && n.index == idx
            &&& mat.base_color_tex_info matches Some(i) ==> (m.base_color_tex_info matches Some(n) && n.tex_coord
                == i.tex_coord && n.sampler == i.sampler && n.transform == i.transform)
            &&& mat.base_color_tex_info is None ==> m.base_color_tex_info == Some(IrTextureInfo::from_index_spec(idx))
            &&& m.emissive_texture == mat.emissive_texture
            &&& m.normal_texture == mat.normal_texture
            &&& m.mtoon == mat.mtoon
            &&& m.shader_family == mat.shader_family
            &&& m.sphere_texture_index == mat.sphere_texture_index
            &&& m.toon_texture_index == mat.toon_texture_index
            &&& m.name == mat.name
            &&& m.colors == mat.colors
        }),
{
}

/// Whether material `j` shares the name and group of material `i` (and is not `i`).
pub open spec fn is_sibling(mats: Seq<IrMaterial>, i: int, j: int) -> bool {
    &&& 0 <= j < mats.len()
    &&& j != i
    &&& mats[j].name@ == mats[i].name@
    &&& mats[j].group == mats[i].group
}

/// The siblings of material `i` among `mats[..n]`, in increasing order.
pub open spec fn siblings_upto(mats: Seq<IrMaterial>, i: int, n: int) -> Seq<usize>
    decreases n,
{
    if n <= 0 {
        Seq::empty()
    } else if is_sibling(mats, i, n - 1) {
        siblings_upto(mats, i, n - 1).push((n - 1) as usize)
    } else {
        siblings_upto(mats, i, n - 1)
    }
}

/// The siblings of material `i`, in increasing order.
pub open spec fn siblings(mats: Seq<IrMaterial>, i: int) -> Seq<usize> {
    siblings_upto(mats, i, mats.len() as int)
}

proof fn lemma_siblings_upto(mats: Seq<IrMaterial>, i: int, n: int)
    requires
        0 <= n <= mats.len() <= usize::MAX,
    ensures
        forall|k: int| 0 <= k < siblings_upto(mats, i, n).len()
            ==> is_sibling(mats, i, #[trigger] siblings_upto(mats, i, n)[k] as int)
                && siblings_upto(mats, i, n)[k] < n,
        forall|a: int, b: int| 0 <= a < b < siblings_upto(mats, i, n).len()
            ==> #[trigger] siblings_upto(mats, i, n)[a] < #[trigger] siblings_upto(mats, i, n)[b],
        forall|j: int| 0 <= j < n && is_sibling(mats, i, j)
            ==> #[trigger] siblings_upto(mats, i, n).contains(j as usize),
    decreases n,
{
    if n > 0 {
        lemma_siblings_upto(mats, i, n - 1);
        let prev = siblings_upto(mats, i, n - 1);
        if is_sibling(mats, i, n - 1) {
            assert forall|j: int| 0 <= j < n && is_sibling(mats, i, j)
                implies #[trigger] siblings_upto(mats, i, n).contains(j as usize) by {
                if j < n - 1 {
                    assert(prev.contains(j as usize));
                    let k = choose|k: int| 0 <= k < prev.len() && prev[k] == j as usize;
                    assert(siblings_upto(mats, i, n) == prev.push((n - 1) as usize));
                    assert(siblings_upto(mats, i, n)[k] == j as usize);
                } else {
                    assert(siblings_upto(mats, i, n)[prev.len() as int] == j as usize);
                }
            }
        }
    }
}

/// Siblings only depend on the names and groups of the materials.
proof fn lemma_siblings_frame(a: Seq<IrMaterial>, b: Seq<IrMaterial>, i: int, n: int)
    requires
        a.len() == b.len(),
        0 <= n <= a.len(),
        0 <= i < a.len(),
        forall|k: int| 0 <= k < a.len() ==> (#[trigger] a[k]).name@ == b[k].name@ && a[k].group == b[k].group,
    ensures
        siblings_upto(a, i, n) == siblings_upto(b, i, n),
    decreases n,
{
    if n > 0 {
        lemma_siblings_frame(a, b, i, n - 1);
    }
}

impl<B, V> LoadedModel<B, V> {
    /// Materials of the same name as material `i` within its group, other
    /// than `i` itself, in increasing order.
    pub fn same_name_siblings(&self, i: usize) -> (r: Vec<usize>)
        requires
            i < self.materials@.len(),
        ensures
            r@ == siblings(self.materials@, i as int),
    {
        let mut r: Vec<usize> = Vec::new();
        let n = self.materials.len();
        let mut j: usize = 0;
        while j < n
            invariant
                j <= n == self.materials@.len(),
                i < n,
                r@ == siblings_upto(self.materials@, i as int, j as int),
            decreases n - j,
        {
            if j != i && self.materials[j].group == self.materials[i].group
                && str_eq(&self.materials[j].name, &self.materials[i].name) {
                r.push(j);
            }
            j = j + 1;
        }
        r
    }
}

/// Index of the first texture in `texs[k..]` named `name` holding `data`;
/// `texs.len()` when there is none.
pub open spec fn find_texture(texs: Seq<IrTexture>, name: Seq<char>, data: Seq<u8>, k: int) -> int
    decreases texs.len() - k,
{
    if k >= texs.len() {
        texs.len() as int
    } else if texs[k].filename@ == name && texs[k].data.bytes() == data {
        k
    } else {
        find_texture(texs, name, data, k + 1)
    }
}

proof fn lemma_find_texture_bounds(texs: Seq<IrTexture>, name: Seq<char>, data: Seq<u8>, k: int)
    requires
        0 <= k <= texs.len(),
    ensures
        k <= find_texture(texs, name, data, k) <= texs.len(),
    decreases texs.len() - k,
{
    if k < texs.len() {
        lemma_find_texture_bounds(texs, name, data, k + 1);
    }
}

/// The file name a texture is recorded under: `<stem>.psd` for PSD data,
/// the display name's file name otherwise.
pub open spec fn recorded_name(display: Seq<char>, is_psd: bool) -> Seq<char> {
    if is_psd {
        file_stem(file_name(display)) + seq!['.', 'p', 's', 'd']
    } else {
        file_name(display)
    }
}

/// The PNG file name a PSD texture gets once converted.
pub open spec fn png_name(display: Seq<char>) -> Seq<char> {
    file_stem(file_name(display)) + seq!['.', 'p', 'n', 'g']
}

fn with_suffix(base: &String, c1: char, c2: char, c3: char, c4: char) -> (r: String)
    ensures
        r@ == base@ + seq![c1, c2, c3, c4],
{
    let mut r = base.clone();
    push_char(&mut r, c1);
    push_char(&mut r, c2);
    push_char(&mut r, c3);
    push_char(&mut r, c4);
    assert(r@ =~= base@ + seq![c1, c2, c3, c4]);
    r
}

fn copy_bytes(v: &Vec<u8>) -> (r: Vec<u8>)
    ensures
        r@ == v@,
{
    let mut r: Vec<u8> = Vec::new();
    for i in 0..v.len()
        invariant
            r@ == v@.subrange(0, i as int),
    {
        r.push(v[i]);
        assert(r@ =~= v@.subrange(0, i + 1));
    }
    assert(r@ =~= v@);
    r
}

/// Where `catch_up_thumbs` starts building: after the cache, or from the first
/// texture when the cache is longer than the texture list.
pub open spec fn catch_up_start(cache_len: nat, n: nat) -> nat {
    if cache_len <= n { cache_len } else { 0 }
}

/// Thumbnails for every texture missing from `cache` (all of them rebuilt when
/// the cache is longer than the texture list), built as `build_ir_thumb_entry`
/// builds them.
fn catch_up_thumbs<T, B, V, Bk: TextureBackend<T, B, V>>(
    cache: &mut Vec<Option<T>>,
    textures: &Vec<IrTexture>,
    backend: &mut Bk,
)
    ensures
        final(cache)@.len() == textures@.len(),
        old(cache)@.len() <= textures@.len()
            ==> final(cache)@.subrange(0, old(cache)@.len() as int) == old(cache)@,
        ({
            let s = catch_up_start(old(cache)@.len(), textures@.len()) as int;
            entries_match(
                final(cache)@.subrange(s, textures@.len() as int),
                ir_thumbs::<T, B, V, Bk>(textures@.subrange(s, textures@.len() as int)),
            )
        }),
        final(backend).uploads() == old(backend).uploads(),
{
    if cache.len() > textures.len() {
        let mut old_cache: Vec<Option<T>> = Vec::new();
        std::mem::swap(&mut old_cache, cache);
        free_thumbnails(backend, old_cache);
    }
    let ghost base = cache@;
    let start = cache.len();
    let n = textures.len();
    let ghost all = ir_thumbs::<T, B, V, Bk>(textures@.subrange(start as int, n as int));
    let mut i = start;
    while i < n
        invariant
            start <= i <= n,
            n == textures@.len(),
            start == base.len(),
            start == catch_up_start(old(cache)@.len(), textures@.len()),
            all == ir_thumbs::<T, B, V, Bk>(textures@.subrange(start as int, n as int)),
            cache@.len() == i,
            cache@.subrange(0, start as int) == base,
            forall|q: int| start <= q < i ==> (#[trigger] cache@[q] is Some) == (all[q - start] is Some),
            backend.uploads() == old(backend).uploads(),
        decreases n - i,
    {
        let thumb = build_ir_thumb_entry(&textures[i], backend);
        let ghost c_before = cache@;
        cache.push(thumb);
        proof {
            assert(all[i - start] == ir_thumb::<T, B, V, Bk>(textures@[i as int]));
            assert forall|q: int| start <= q < i + 1 implies (#[trigger] cache@[q] is Some) == (all[q - start] is Some) by {
                if q < i {
                    assert(cache@[q] == c_before[q]);
                }
            }
        }
        i = i + 1;
    }
    assert(cache@.subrange(0, start as int) == base);
    assert forall|q: int| 0 <= q < n - start implies
        (#[trigger] cache@.subrange(start as int, n as int)[q] is Some) == (all[q] is Some) by {
        assert(cache@.subrange(start as int, n as int)[q] == cache@[q + start]);
    }
}

/// MIME type recorded for PSD data.
pub open spec fn psd_mime() -> Seq<char> {
    seq!['i', 'm', 'a', 'g', 'e', '/', 'v', 'n', 'd', '.', 'a', 'd', 'o', 'b', 'e', '.',
        'p', 'h', 'o', 't', 'o', 's', 'h', 'o', 'p']
}

fn psd_mime_string() -> (r: String)
    ensures
        r@ == psd_mime(),
{
    let r = "image/vnd.adobe.photoshop".to_owned();
    proof {
        reveal_strlit("image/vnd.adobe.photoshop");
    }
    assert(r@ =~= psd_mime());
    r
}

/// MIME type recorded for a texture file with the lower-case extension `ext`; the
/// formats the decoder reads back from a MIME type get theirs, any other extension
/// `application/octet-stream`.
pub open spec fn mime_of_ext(ext: Seq<char>) -> Seq<char> {
    if ext == "png"@ {
        "image/png"@
    } else if ext == "jpg"@ || ext == "jpeg"@ {
        "image/jpeg"@
    } else if ext == "bmp"@ {
        "image/bmp"@
    } else if ext == "tga"@ {
        "image/x-tga"@
    } else if ext == "dds"@ {
        "image/vnd.ms-dds"@
    } else {
        "application/octet-stream"@
    }
}

/// Whether the characters `cs` spell `lit`.
fn spells(cs: &Vec<char>, lit: &str) -> (r: bool)
    ensures
        r == (cs@ == lit@),
{
    let l = chars_of(lit);
    chars_eq(cs, l.as_slice())
}

/// The MIME type recorded for a texture file with the lower-case extension `ext`.
pub fn mime_for_ext(ext: &String) -> (r: String)
    ensures
        r@ == mime_of_ext(ext@),
{
    let cs = chars_of(ext.as_str());
    if spells(&cs, "png") {
        "image/png".to_owned()
    } else if spells(&cs, "jpg") || spells(&cs, "jpeg") {
        "image/jpeg".to_owned()
    } else if spells(&cs, "bmp") {
        "image/bmp".to_owned()
    } else if spells(&cs, "tga") {
        "image/x-tga".to_owned()
    } else if spells(&cs, "dds") {
        "image/vnd.ms-dds".to_owned()
    } else {
        "application/octet-stream".to_owned()
    }
}

/// Every draw of a material in `mats` gets a new texture bind group and no MMD
/// bind group; the other draws keep theirs.
pub open spec fn rebound_draws<B>(d0: Seq<DrawSlot<B>>, d1: Seq<DrawSlot<B>>, mats: spec_fn(usize) -> bool) -> bool {
    &&& d1.len() == d0.len()
    &&& forall|d: int| 0 <= d < d0.len() ==> {
        &&& (#[trigger] d1[d]).material_index == d0[d].material_index
        &&& if mats(d0[d].material_index) {
            d1[d].texture_bind_group is Some && d1[d].mmd_texture_bind_group is None
        } else {
            d1[d] == d0[d]
        }
    }
}

/// Give every draw of material `m` a new bind group sampling `view` (with
/// the material's base color sampler), and drop its MMD bind group.
fn update_gpu_bind<T, B, V, Bk: TextureBackend<T, B, V>>(
    draws: &mut Vec<DrawSlot<B>>,
    m: usize,
    view: &V,
    sampler: u32,
    backend: &mut Bk,
)
    ensures
        rebound_draws(old(draws)@, final(draws)@, |x: usize| x == m),
        final(backend).uploads() == old(backend).uploads(),
{
    let n = draws.len();
    let mut d: usize = 0;
    while d < n
        invariant
            backend.uploads() == old(backend).uploads(),
            d <= n == old(draws)@.len(),
            draws@.len() == n,
            forall|k: int| 0 <= k < n ==> {
                &&& (#[trigger] draws@[k]).material_index == old(draws)@[k].material_index
                &&& if k < d && old(draws)@[k].material_index == m {
                    draws@[k].texture_bind_group is Some && draws@[k].mmd_texture_bind_group is None
                } else {
                    draws@[k] == old(draws)@[k]
                }
            },
        decreases n - d,
    {
        if draws[d].material_index == m {
            let bg = backend.texture_bind_group(view, Some(sampler));
            draws[d].texture_bind_group = Some(bg);
            draws[d].mmd_texture_bind_group = None;
        }
        d = d + 1;
    }
}

impl<T, B, V> ViewerApp<T, B, V> {
    /// What a successful upload of `data` (named `display`) assigned to `slot`
    /// of material `mi` makes of the viewer state; the assignment history is
    /// left as it was.
    pub open spec fn assigned(
        self,
        new: Self,
        mi: usize,
        slot: TextureSlot,
        data: Seq<u8>,
        is_psd: bool,
        display: Seq<char>,
    ) -> bool {
        &&& self.assigned_textures(new, mi, slot, data, is_psd, display)
        &&& new.tex.assignments == self.tex.assignments
    }

    /// What a successful upload of `data` (named `display`) assigned to `slot`
    /// of material `mi` makes of the viewer state, apart from the assignment history.
    pub open spec fn assigned_textures(
        self,
        new: Self,
        mi: usize,
        slot: TextureSlot,
        data: Seq<u8>,
        is_psd: bool,
        display: Seq<char>,
    ) -> bool {
        let l0 = self.loaded->0;
        let l1 = new.loaded->0;
        let n0 = l0.textures@.len();
        let k = find_texture(l0.textures@, recorded_name(display, is_psd), data, 0);
        let fresh = k == n0;
        let sibs = siblings(l0.materials@, mi as int);
        let link = self.tex.link_same_name;
        let rebind = slot == TextureSlot::BaseColor && self.has_renderer;
        let spread = |j: usize| link && sibs.contains(j);
        &&& new.loaded is Some
        &&& new.has_renderer == self.has_renderer
        &&& new.tex.pending_preview == self.tex.pending_preview
        &&& new.tex.pending_match == self.tex.pending_match
        &&& new.tex.pkg_textures == self.tex.pkg_textures
        &&& new.tex.pkg_thumb_cache == self.tex.pkg_thumb_cache
        &&& new.tex.link_same_name == self.tex.link_same_name
        &&& l1.appended_models == l0.appended_models
        &&& l1.source == l0.source
        // the texture: reused when one of the same name and bytes exists, appended otherwise
        &&& if fresh {
            let t = l1.textures@[n0 as int];
            &&& l1.textures@.len() == n0 + 1
            &&& l1.textures@.subrange(0, n0 as int) == l0.textures@
            &&& t.filename@ == recorded_name(display, is_psd)
            &&& t.data is Encoded
            &&& t.data.bytes() == data
            &&& t.source_path@ == display
            &&& is_psd ==> t.mime_type@ == psd_mime()
            &&& l1.texture_views@.len() == l0.texture_views@.len() + 1
            &&& l1.texture_views@.subrange(0, l0.texture_views@.len() as int) == l0.texture_views@
            &&& new.tex.ir_thumb_cache@.len() == n0 + 1
            &&& self.tex.ir_thumb_cache@.len() <= n0 + 1 ==> new.tex.ir_thumb_cache@.subrange(
                0,
                self.tex.ir_thumb_cache@.len() as int,
            ) == self.tex.ir_thumb_cache@
        } else {
            &&& l1.textures == l0.textures
            &&& l1.texture_views == l0.texture_views
            &&& new.tex.ir_thumb_cache == self.tex.ir_thumb_cache
        }
        // PSD data is queued for conversion to PNG
        &&& if is_psd {
            let c = new.tex.pending_psd_conversions@.last();
            &&& new.tex.pending_psd_conversions@.len() == self.tex.pending_psd_conversions@.len() + 1
            &&& new.tex.pending_psd_conversions@.drop_last() == self.tex.pending_psd_conversions@
            &&& c.tex_idx == k
            &&& c.png_filename@ == png_name(display)
            &&& c.display_name@ == display
        } else {
            new.tex.pending_psd_conversions == self.tex.pending_psd_conversions
        }
        // the material, and its same-name siblings when linked
        &&& l1.materials@.len() == l0.materials@.len()
        &&& l1.materials@[mi as int] == with_slot_texture(l0.materials@[mi as int], slot, k as usize)
        &&& forall|j: int| 0 <= j < l0.materials@.len() && j != mi ==> #[trigger] l1.materials@[j] == if spread(
            j as usize,
        ) {
            with_slot_texture(l0.materials@[j], slot, k as usize)
        } else {
            l0.materials@[j]
        }
        // base color: the draws are rebound at once; other slots: queued for a rebuild
        &&& if rebind {
            rebound_draws(l0.draws@, l1.draws@, |m: usize| m == mi || (link && sibs.contains(m)))
        } else {
            l1.draws == l0.draws
        }
        &&& new.dirty_materials@ == if !rebind {
            self.dirty_materials@.push(mi) + if link { sibs } else { Seq::empty() }
        } else {
            self.dirty_materials@
        }
    }

}

/// The pixels, width and height a decode gave, if it succeeded.
pub open spec fn decoded_pixels(dv: DecodeView) -> Option<(Seq<u8>, u32, u32)> {
    match dv {
        Ok(v) => Some(v),
        Err(_) => None,
    }
}

/// Decode texture bytes to RGBA8: PSD bytes through the renderer's PSD reader,
/// anything else as the format guessed from its leading bytes.
pub fn decode_texture_bytes<T, B, V, Bk: TextureBackend<T, B, V>>(data: &Vec<u8>, is_psd: bool) -> (r: Result<
    RgbaImageData,
    DecodeError,
>)
    ensures
        decode_view(r) == texture_decoded::<T, B, V, Bk>(data@, is_psd),
        r matches Ok(img) ==> img.pixels@.len() == 4 * img.width * img.height,
{
    if is_psd {
        Bk::decode_psd(data.as_slice())
    } else {
        load_guessed(data.as_slice())
    }
}

/// Decode texture bytes and upload the pixels: the srgb and unorm views, or the
/// decoder's message. Exactly the decoded pixels are uploaded, once, and only
/// when the bytes decode.
pub fn upload_texture_from_bytes<T, B, V, Bk: TextureBackend<T, B, V>>(
    backend: &mut Bk,
    data: &Vec<u8>,
    is_psd: bool,
) -> (r: Result<(V, V), String>)
    ensures
        (r is Ok) == (texture_decoded::<T, B, V, Bk>(data@, is_psd) is Ok),
        r matches Err(m) ==> texture_decoded::<T, B, V, Bk>(data@, is_psd) == Err::<(Seq<u8>, u32, u32), Seq<char>>(m@),
        final(backend).uploads() == old(backend).uploads() + opt_seq(
            decoded_pixels(texture_decoded::<T, B, V, Bk>(data@, is_psd)),
        ),
        final(backend).thumbs() == old(backend).thumbs(),
        final(backend).freed() == old(backend).freed(),
{
    match decode_texture_bytes::<T, B, V, Bk>(data, is_psd) {
        Ok(img) => {
            let views = backend.upload_rgba(&img.pixels, img.width, img.height);
            assert(backend.uploads() =~= old(backend).uploads() + seq![(img.pixels@, img.width, img.height)]);
            Ok(views)
        },
        Err(e) => {
            assert(old(backend).uploads() + Seq::<(Seq<u8>, u32, u32)>::empty() =~= old(backend).uploads());
            Err(e.detail)
        },
    }
}

impl<T, B, V: Clone> ViewerApp<T, B, V> {
    /// Assign uploaded texture bytes to `slot` of a material: record the
    /// texture (reusing one of the same name and bytes), queue PSD data for
    /// conversion, set the slot on the material and, when linked, on its
    /// same-name siblings, and rebind or queue the draws.
    /// `upload` is what uploading the bytes gave. `false`, with nothing changed,
    /// when the upload failed or there is no model; `true` otherwise. Without a
    /// renderer a base color texture queues its materials for a rebuild.
    #[verifier::spinoff_prover]
    pub fn assign_uploaded_texture<Bk: TextureBackend<T, B, V>>(
        &mut self,
        backend: &mut Bk,
        material_index: usize,
        slot: TextureSlot,
        tex_data: &Vec<u8>,
        is_psd: bool,
        display_name: &String,
        upload: Result<(V, V), String>,
    ) -> (r: bool)
        requires
            old(self).loaded is Some ==> material_index < old(self).loaded->0.materials@.len(),
        ensures
            upload is Err || old(self).loaded is None ==> !r && *final(self) == *old(self),
            upload is Ok && old(self).loaded is Some ==> {
                &&& old(self).assigned(*final(self), material_index, slot, tex_data@, is_psd, display_name@)
                &&& final(self).loaded->0.mat_cache == old(self).loaded->0.mat_cache
                &&& r
                &&& final(self).loaded->0.textures@.len() == old(self).loaded->0.textures@.len() + 1 ==> ({
                    let n1 = final(self).loaded->0.textures@.len();
                    let s = catch_up_start(old(self).tex.ir_thumb_cache@.len(), n1) as int;
                    entries_match(
                        final(self).tex.ir_thumb_cache@.subrange(s, n1 as int),
                        ir_thumbs::<T, B, V, Bk>(final(self).loaded->0.textures@.subrange(s, n1 as int)),
                    )
                })
            },
            final(backend).uploads() == old(backend).uploads(),
            final(self).convert_message == old(self).convert_message,
    {
        let (view, view_unorm) = match upload {
            Ok(v) => v,
            Err(_) => return false,
        };
        if self.loaded.is_none() {
            return false;
        }
        let ghost app0 = *self;
        let mut loaded = self.loaded.take().unwrap();
        let ghost l0 = loaded;
        let _nmats = loaded.materials.len();
        proof {
            lemma_siblings_upto(l0.materials@, material_index as int, l0.materials@.len() as int);
        }
        let fname = file_name_of(display_name);
        let basename = file_stem_of(&fname);
        let (ir_filename, ir_mime) = if is_psd {
            (with_suffix(&basename, '.', 'p', 's', 'd'), psd_mime_string())
        } else {
            let ext_lower = to_lowercase(extension_of(&fname).as_str());
            let mime = mime_for_ext(&ext_lower);
            (fname, mime)
        };
        let ghost mime_v = ir_mime@;
        let tex_idx = record_texture(
            &mut loaded.textures,
            &mut loaded.texture_views,
            &mut self.tex.ir_thumb_cache,
            ir_filename,
            ir_mime,
            tex_data,
            display_name,
            &view,
            &view_unorm,
            backend,
        );
        // queue the PSD -> PNG conversion
        if is_psd {
            let ticket = backend.start_psd_conversion(loaded.textures[tex_idx].data.as_bytes());
            let png = with_suffix(&basename, '.', 'p', 'n', 'g');
            self.tex.pending_psd_conversions.push(PendingPsdConversion {
                ticket,
                tex_idx,
                png_filename: png,
                display_name: display_name.clone(),
            });
            assert(self.tex.pending_psd_conversions@.drop_last() =~= app0.tex.pending_psd_conversions@);
        }
        // the material itself
        apply_texture_to_slot(&mut loaded.materials[material_index], slot, tex_idx);
        let is_base = match slot {
            TextureSlot::BaseColor => true,
            _ => false,
        };
        // with a renderer a base color is rebound at once; otherwise the
        // material's bind groups are rebuilt on the next frame
        let rebind = is_base && self.has_renderer;
        let ghost l_one = loaded;
        if rebind {
            let sampler = match loaded.materials[material_index].base_color_tex_info {
                Some(info) => info.sampler,
                None => 0,
            };
            update_gpu_bind(&mut loaded.draws, material_index, &view, sampler, backend);
        } else {
            self.dirty_materials.push(material_index);
        }
        let ghost l_mat = loaded;
        let ghost dirty_mid = self.dirty_materials@;
        // the same-name siblings
        if self.tex.link_same_name {
            let sibs = loaded.same_name_siblings(material_index);
            proof {
                lemma_siblings_frame(l0.materials@, l_mat.materials@, material_index as int, l0.materials@.len() as int);
            }
            apply_slot_to_all(&mut loaded.materials, &sibs, slot, tex_idx);
            if rebind {
                rebind_materials(&mut loaded.draws, &loaded.materials, &sibs, &view, backend);
                proof {
                    lemma_rebound_compose(
                        l0.draws@, l_mat.draws@, loaded.draws@,
                        |x: usize| x == material_index,
                        |m: usize| sibs@.contains(m),
                        |m: usize| m == material_index || (true && sibs@.contains(m)),
                    );
                }
            } else {
                append_all(&mut self.dirty_materials, &sibs);
            }
        } else if rebind {
            proof {
                lemma_rebound_same(l0.draws@, loaded.draws@, |x: usize| x == material_index,
                    |m: usize| m == material_index || (false && siblings(l0.materials@, material_index as int).contains(m)));
            }
        }
        self.loaded = Some(loaded);
        true
    }
}

impl<T, B, V: Clone> ViewerApp<T, B, V> {
    /// Decode texture bytes (PSD bytes through the renderer's PSD reader), upload
    /// the pixels and assign them to `slot` of a material (see
    /// [`ViewerApp::assign_uploaded_texture`]). With a model loaded, `true`
    /// exactly when the bytes decode; `false`, with the state unchanged, when
    /// they do not or there is no model. The decoded pixels are what is uploaded.
    pub fn assign_texture_core<Bk: TextureBackend<T, B, V>>(
        &mut self,
        backend: &mut Bk,
        material_index: usize,
        slot: TextureSlot,
        tex_data: &Vec<u8>,
        is_psd: bool,
        display_name: &String,
    ) -> (r: bool)
        requires
            old(self).loaded is Some ==> material_index < old(self).loaded->0.materials@.len(),
        ensures
            old(self).loaded is None ==> !r,
            old(self).loaded is Some ==> (r <==> texture_decoded::<T, B, V, Bk>(tex_data@, is_psd) is Ok),
            !r ==> *final(self) == (ViewerApp { convert_message: final(self).convert_message, ..*old(self) }),
            message_view(final(self).convert_message) == load_status(
                old(self).convert_message,
                texture_decoded::<T, B, V, Bk>(tex_data@, is_psd),
            ),
            r ==> {
                &&& old(self).loaded is Some
                &&& old(self).assigned(*final(self), material_index, slot, tex_data@, is_psd, display_name@)
                &&& final(self).loaded->0.mat_cache == old(self).loaded->0.mat_cache
                &&& final(self).loaded->0.textures@.len() == old(self).loaded->0.textures@.len() + 1 ==> ({
                    let n1 = final(self).loaded->0.textures@.len();
                    let s = catch_up_start(old(self).tex.ir_thumb_cache@.len(), n1) as int;
                    entries_match(
                        final(self).tex.ir_thumb_cache@.subrange(s, n1 as int),
                        ir_thumbs::<T, B, V, Bk>(final(self).loaded->0.textures@.subrange(s, n1 as int)),
                    )
                })
            },
            final(backend).uploads() == old(backend).uploads() + opt_seq(
                decoded_pixels(texture_decoded::<T, B, V, Bk>(tex_data@, is_psd)),
            ),
    {
        let upload = upload_texture_from_bytes(backend, tex_data, is_psd);
        match upload {
            Err(msg) => {
                self.convert_message = Some(ConvertMessage::Failure(msg));
                false
            },
            Ok(views) => self.assign_uploaded_texture(backend, material_index, slot, tex_data, is_psd, display_name, Ok(views)),
        }
    }

    /// Assign package texture bytes to the base color of a material (PSD data by
    /// the name's extension), then refresh the material info cache. With a model
    /// loaded, `true` exactly when the bytes decode; `false`, with the state
    /// unchanged, when they do not or there is no model.
    pub fn assign_texture_data_to_material<Bk: TextureBackend<T, B, V>>(
        &mut self,
        backend: &mut Bk,
        material_index: usize,
        tex_name: &String,
        tex_data: &Vec<u8>,
    ) -> (r: bool)
        requires
            old(self).loaded is Some ==> material_index < old(self).loaded->0.materials@.len(),
        ensures
            old(self).loaded is None ==> !r,
            old(self).loaded is Some ==> (r <==> texture_decoded::<T, B, V, Bk>(
                tex_data@,
                psd_by_extension(tex_name@),
            ) is Ok),
            !r ==> *final(self) == (ViewerApp { convert_message: final(self).convert_message, ..*old(self) }),
            message_view(final(self).convert_message) == load_status(
                old(self).convert_message,
                texture_decoded::<T, B, V, Bk>(tex_data@, psd_by_extension(tex_name@)),
            ),
            final(backend).uploads() == old(backend).uploads() + opt_seq(
                decoded_pixels(texture_decoded::<T, B, V, Bk>(tex_data@, psd_by_extension(tex_name@))),
            ),
            r ==> {
                &&& old(self).loaded is Some
                &&& old(self).assigned(
                    *final(self),
                    material_index,
                    TextureSlot::BaseColor,
                    tex_data@,
                    psd_by_extension(tex_name@),
                    tex_name@,
                )
                &&& mat_cache_matches(
                    final(self).loaded->0.mat_cache,
                    final(self).loaded->0.materials@,
                    final(self).loaded->0.draws@,
                )
            },
    {
        let is_psd = is_psd_path(tex_name);
        let ghost app0 = *self;
        if !self.assign_texture_core(backend, material_index, TextureSlot::BaseColor, tex_data, is_psd, tex_name) {
            return false;
        }
        let ghost mid = *self;
        self.update_mat_cache();
        proof {
            assert(app0.assigned(mid, material_index, TextureSlot::BaseColor, tex_data@, is_psd, tex_name@));
            assert(app0.assigned(*self, material_index, TextureSlot::BaseColor, tex_data@, is_psd, tex_name@));
        }
        true
    }
}

impl<T, B, V> ViewerApp<T, B, V> {
    /// Rebuild the material info cache of the loaded model.
    pub fn update_mat_cache(&mut self)
        ensures
            final(self).loaded is Some <==> old(self).loaded is Some,
            final(self).tex == old(self).tex,
            final(self).has_renderer == old(self).has_renderer,
            final(self).dirty_materials == old(self).dirty_materials,
            final(self).convert_message == old(self).convert_message,
            old(self).loaded is Some ==> {
                let l0 = old(self).loaded->0;
                let l1 = final(self).loaded->0;
                &&& l1.textures == l0.textures
                &&& l1.materials == l0.materials
                &&& l1.draws == l0.draws
                &&& l1.texture_views == l0.texture_views
                &&& l1.appended_models == l0.appended_models
                &&& l1.source == l0.source
                &&& mat_cache_matches(l1.mat_cache, l1.materials@, l1.draws@)
            },
    {
        match &mut self.loaded {
            None => {},
            Some(loaded) => {
                let cache = CachedMaterialInfo::build(&loaded.materials, &loaded.draws);
                loaded.mat_cache = cache;
            },
        }
    }
}

/// Record texture bytes: the index of a texture of the same name and bytes
/// when there is one; otherwise the texture is appended (with its GPU views
/// and the missing thumbnails) and its new index returned.
fn record_texture<T, B, V: Clone, Bk: TextureBackend<T, B, V>>(
    textures: &mut Vec<IrTexture>,
    views: &mut Vec<(V, V)>,
    cache: &mut Vec<Option<T>>,
    filename: String,
    mime: String,
    data: &Vec<u8>,
    display: &String,
    view: &V,
    view_unorm: &V,
    backend: &mut Bk,
) -> (k: usize)
    ensures
        k == find_texture(old(textures)@, filename@, data@, 0),
        k <= old(textures)@.len(),
        k < final(textures)@.len(),
        k < old(textures)@.len() ==> {
            &&& *final(textures) == *old(textures)
            &&& *final(views) == *old(views)
            &&& *final(cache) == *old(cache)
        },
        k == old(textures)@.len() ==> {
            let t = final(textures)@[k as int];
            &&& final(textures)@.len() == old(textures)@.len() + 1
            &&& final(textures)@.subrange(0, k as int) == old(textures)@
            &&& t.filename@ == filename@
            &&& t.data is Encoded
            &&& t.data.bytes() == data@
            &&& t.mime_type@ == mime@
            &&& t.source_path@ == display@
            &&& final(views)@.len() == old(views)@.len() + 1
            &&& final(views)@.subrange(0, old(views)@.len() as int) == old(views)@
            &&& final(cache)@.len() == final(textures)@.len()
            &&& old(cache)@.len() <= final(textures)@.len() ==>
                final(cache)@.subrange(0, old(cache)@.len() as int) == old(cache)@
            &&& ({
                let s = catch_up_start(old(cache)@.len(), final(textures)@.len()) as int;
                entries_match(
                    final(cache)@.subrange(s, final(textures)@.len() as int),
                    ir_thumbs::<T, B, V, Bk>(final(textures)@.subrange(s, final(textures)@.len() as int)),
                )
            })
        },
        final(backend).uploads() == old(backend).uploads(),
{
    let n0 = textures.len();
    let mut k: usize = 0;
    while k < n0
        invariant
            k <= n0 == textures@.len(),
            *textures == *old(textures),
            find_texture(textures@, filename@, data@, k as int) == find_texture(textures@, filename@, data@, 0),
        ensures
            k <= n0,
            k as int == find_texture(textures@, filename@, data@, 0),
        decreases n0 - k,
    {
        if str_eq(&textures[k].filename, &filename) && bytes_eq(textures[k].data.as_bytes(), data) {
            break;
        }
        k = k + 1;
    }
    proof {
        lemma_find_texture_bounds(textures@, filename@, data@, k as int);
    }
    if k == n0 {
        textures.push(IrTexture {
            filename,
            data: TextureData::Encoded(copy_bytes(data)),
            mime_type: mime,
            source_path: display.clone(),
        });
        views.push((view.clone(), view_unorm.clone()));
        catch_up_thumbs(cache, textures, backend);
        assert(textures@.subrange(0, k as int) =~= old(textures)@);
        assert(views@.subrange(0, old(views)@.len() as int) =~= old(views)@);
    }
    k
}

/// Set texture `tex_idx` on `slot` of every material listed in `which`.
fn apply_slot_to_all(mats: &mut Vec<IrMaterial>, which: &Vec<usize>, slot: TextureSlot, tex_idx: usize)
    requires
        forall|q: int| 0 <= q < which@.len() ==> (#[trigger] which@[q] as int) < old(mats)@.len(),
        forall|a: int, b: int| 0 <= a < b < which@.len() ==> #[trigger] which@[a] != #[trigger] which@[b],
    ensures
        final(mats)@.len() == old(mats)@.len(),
        forall|j: int| 0 <= j < old(mats)@.len() ==> #[trigger] final(mats)@[j] == if which@.contains(j as usize) {
            with_slot_texture(old(mats)@[j], slot, tex_idx)
        } else {
            old(mats)@[j]
        },
{
    let _n = mats.len();
    let mut t: usize = 0;
    while t < which.len()
        invariant
            t <= which@.len(),
            old(mats)@.len() <= usize::MAX,
            forall|q: int| 0 <= q < which@.len() ==> (#[trigger] which@[q] as int) < old(mats)@.len(),
            forall|a: int, b: int| 0 <= a < b < which@.len() ==> #[trigger] which@[a] != #[trigger] which@[b],
            mats@.len() == old(mats)@.len(),
            forall|j: int| 0 <= j < old(mats)@.len() ==> #[trigger] mats@[j] == if which@.subrange(0, t as int).contains(j as usize) {
                with_slot_texture(old(mats)@[j], slot, tex_idx)
            } else {
                old(mats)@[j]
            },
        decreases which@.len() - t,
    {
        let j = which[t];
        let ghost before = mats@;
        apply_texture_to_slot(&mut mats[j], slot, tex_idx);
        proof {
            assert(!which@.subrange(0, t as int).contains(j)) by {
                if which@.subrange(0, t as int).contains(j) {
                    let q = choose|q: int| 0 <= q < t && #[trigger] which@.subrange(0, t as int)[q] == j;
                    assert(which@[q] != which@[t as int]);
                }
            }
            assert forall|i: int| 0 <= i < old(mats)@.len() implies #[trigger] mats@[i] == if which@.subrange(0, t + 1).contains(i as usize) {
                with_slot_texture(old(mats)@[i], slot, tex_idx)
            } else {
                old(mats)@[i]
            } by {
                lemma_prefix_contains(which@, t as int, i as usize);
                let bi = before[i];
                if i == j as int {
                    assert(mats@[i] == with_slot_texture(bi, slot, tex_idx));
                } else {
                    assert(mats@[i] == bi);
                }
            }
        }
        t = t + 1;
    }
    assert(which@.subrange(0, which@.len() as int) =~= which@);
}

/// Rebind the draws of every material listed in `which` to `view`.
fn rebind_materials<T, B, V, Bk: TextureBackend<T, B, V>>(
    draws: &mut Vec<DrawSlot<B>>,
    mats: &Vec<IrMaterial>,
    which: &Vec<usize>,
    view: &V,
    backend: &mut Bk,
)
    requires
        forall|q: int| 0 <= q < which@.len() ==> (#[trigger] which@[q] as int) < mats@.len(),
    ensures
        rebound_draws(old(draws)@, final(draws)@, |m: usize| which@.contains(m)),
        final(backend).uploads() == old(backend).uploads(),
{
    let mut t: usize = 0;
    while t < which.len()
        invariant
            backend.uploads() == old(backend).uploads(),
            t <= which@.len(),
            forall|q: int| 0 <= q < which@.len() ==> (#[trigger] which@[q] as int) < mats@.len(),
            rebound_draws(old(draws)@, draws@, |m: usize| which@.subrange(0, t as int).contains(m)),
        decreases which@.len() - t,
    {
        let j = which[t];
        let ghost before = draws@;
        let sampler = match mats[j].base_color_tex_info {
            Some(info) => info.sampler,
            None => 0,
        };
        update_gpu_bind(draws, j, view, sampler, backend);
        proof {
            assert forall|m: usize| #[trigger] which@.subrange(0, t + 1).contains(m)
                == (which@.subrange(0, t as int).contains(m) || m == j) by {
                lemma_prefix_contains(which@, t as int, m);
            }
            lemma_rebound_compose(
                old(draws)@, before, draws@,
                |m: usize| which@.subrange(0, t as int).contains(m),
                |x: usize| x == j,
                |m: usize| which@.subrange(0, t + 1).contains(m),
            );
        }
        t = t + 1;
    }
    proof {
        assert(which@.subrange(0, which@.len() as int) =~= which@);
        lemma_rebound_same(old(draws)@, draws@,
            |m: usize| which@.subrange(0, which@.len() as int).contains(m),
            |m: usize| which@.contains(m));
    }
}

proof fn lemma_rebound_compose<B>(
    a: Seq<DrawSlot<B>>,
    b: Seq<DrawSlot<B>>,
    c: Seq<DrawSlot<B>>,
    p: spec_fn(usize) -> bool,
    q: spec_fn(usize) -> bool,
    r: spec_fn(usize) -> bool,
)
    requires
        rebound_draws(a, b, p),
        rebound_draws(b, c, q),
        forall|m: usize| #[trigger] r(m) == (p(m) || q(m)),
    ensures
        rebound_draws(a, c, r),
{
    assert forall|d: int| 0 <= d < a.len() implies {
        &&& (#[trigger] c[d]).material_index == a[d].material_index
        &&& if r(a[d].material_index) {
            c[d].texture_bind_group is Some && c[d].mmd_texture_bind_group is None
        } else {
            c[d] == a[d]
        }
    } by {
        assert(b[d].material_index == a[d].material_index);
        assert(r(a[d].material_index) == (p(a[d].material_index) || q(a[d].material_index)));
    }
}

proof fn lemma_rebound_same<B>(
    a: Seq<DrawSlot<B>>,
    b: Seq<DrawSlot<B>>,
    p: spec_fn(usize) -> bool,
    q: spec_fn(usize) -> bool,
)
    requires
        rebound_draws(a, b, p),
        forall|m: usize| #[trigger] q(m) == p(m),
    ensures
        rebound_draws(a, b, q),
{
    assert forall|d: int| 0 <= d < a.len() implies {
        &&& (#[trigger] b[d]).material_index == a[d].material_index
        &&& if q(a[d].material_index) {
            b[d].texture_bind_group is Some && b[d].mmd_texture_bind_group is None
        } else {
            b[d] == a[d]
        }
    } by {
        assert(q(a[d].material_index) == p(a[d].material_index));
    }
}

proof fn lemma_prefix_contains(s: Seq<usize>, t: int, x: usize)
    requires
        0 <= t < s.len(),
    ensures
        s.subrange(0, t + 1).contains(x) == (s.subrange(0, t).contains(x) || x == s[t]),
{
    let a = s.subrange(0, t);
    let b = s.subrange(0, t + 1);
    if b.contains(x) {
        let q = choose|q: int| 0 <= q < b.len() && b[q] == x;
        if q < t {
            assert(a[q] == x);
        }
    }
    if a.contains(x) {
        let q = choose|q: int| 0 <= q < a.len() && a[q] == x;
        assert(b[q] == x);
    }
    if x == s[t] {
        assert(b[t] == x);
    }
}

/// Append every element of `extra` to `v`.
fn append_all(v: &mut Vec<usize>, extra: &Vec<usize>)
    ensures
        final(v)@ == old(v)@ + extra@,
{
    let mut t: usize = 0;
    while t < extra.len()
        invariant
            t <= extra@.len(),
            v@ == old(v)@ + extra@.subrange(0, t as int),
        decreases extra@.len() - t,
    {
        v.push(extra[t]);
        t = t + 1;
        assert(v@ =~= old(v)@ + extra@.subrange(0, t as int));
    }
    assert(extra@.subrange(0, extra@.len() as int) =~= extra@);
}

// ---------------------------------------------------------------------------
// PSD -> PNG conversions
// ---------------------------------------------------------------------------

/// MIME type of PNG data.
pub open spec fn png_mime() -> Seq<char> {
    seq!['i', 'm', 'a', 'g', 'e', '/', 'p', 'n', 'g']
}

fn png_mime_string() -> (r: String)
    ensures
        r@ == png_mime(),
{
    let r = "image/png".to_owned();
    proof {
        reveal_strlit("image/png");
    }
    assert(r@ =~= png_mime());
    r
}

/// Texture `t1` is texture `t0` swapped to the converted PNG named `png_name`.
pub open spec fn converted_texture(t0: IrTexture, t1: IrTexture, png_name: Seq<char>) -> bool {
    &&& t1.filename@ == png_name
    &&& t1.data is Encoded
    &&& t1.mime_type@ == png_mime()
    &&& t1.source_path == t0.source_path
}

impl<T, B, V> ViewerApp<T, B, V> {
    /// `other` differs from `self` at most in the PSD queue, the model's
    /// textures and the model-texture thumbnails.
    pub open spec fn same_but_conversions(self, other: Self) -> bool {
        &&& other.has_renderer == self.has_renderer
        &&& other.dirty_materials == self.dirty_materials
        &&& other.tex.pending_preview == self.tex.pending_preview
        &&& other.tex.pending_match == self.tex.pending_match
        &&& other.tex.pkg_textures == self.tex.pkg_textures
        &&& other.tex.pkg_thumb_cache == self.tex.pkg_thumb_cache
        &&& other.tex.link_same_name == self.tex.link_same_name
        &&& other.tex.assignments == self.tex.assignments
        &&& other.loaded is Some <==> self.loaded is Some
        &&& self.loaded is Some ==> {
            let l0 = self.loaded->0;
            let l1 = other.loaded->0;
            &&& l1.materials == l0.materials
            &&& l1.draws == l0.draws
            &&& l1.texture_views == l0.texture_views
            &&& l1.appended_models == l0.appended_models
            &&& l1.source == l0.source
            &&& l1.mat_cache == l0.mat_cache
            &&& l1.textures@.len() == l0.textures@.len()
        }
    }

    /// Act on the reported state of pending conversion `i`. A finished one
    /// leaves the queue and, when its texture still exists, puts the PNG bytes,
    /// the PNG file name and `image/png` on the texture and rebuilds that
    /// texture's thumbnail; a failed or abandoned one just leaves the queue (the
    /// PSD bytes stay); a running one stays. Whether the entry left the queue.
    pub fn settle_psd_conversion<Bk: TextureBackend<T, B, V>>(
        &mut self,
        backend: &mut Bk,
        i: usize,
        state: PsdPoll,
    ) -> (removed: bool)
        requires
            old(self).loaded is Some,
            i < old(self).tex.pending_psd_conversions@.len(),
        ensures
            old(self).same_but_conversions(*final(self)),
            removed == !(state is Pending),
            removed ==> final(self).tex.pending_psd_conversions@ == old(self).tex.pending_psd_conversions@.remove(i as int),
            !removed ==> final(self).tex.pending_psd_conversions == old(self).tex.pending_psd_conversions,
            ({
                let c = old(self).tex.pending_psd_conversions@[i as int];
                let t0 = old(self).loaded->0.textures@;
                let t1 = final(self).loaded->0.textures@;
                let k = c.tex_idx as int;
                if state is Done && k < t0.len() {
                    &&& converted_texture(t0[k], t1[k], c.png_filename@)
                    &&& t1[k].data.bytes() == state->Done_0@
                    &&& forall|j: int| 0 <= j < t0.len() && j != k ==> #[trigger] t1[j] == t0[j]
                    &&& final(self).tex.ir_thumb_cache@.len() == old(self).tex.ir_thumb_cache@.len()
                    &&& forall|j: int| 0 <= j < old(self).tex.ir_thumb_cache@.len() && j != k
                        ==> #[trigger] final(self).tex.ir_thumb_cache@[j] == old(self).tex.ir_thumb_cache@[j]
                    &&& k < old(self).tex.ir_thumb_cache@.len() ==> {
                        &&& (final(self).tex.ir_thumb_cache@[k] is Some) == (ir_thumb::<T, B, V, Bk>(t1[k]) is Some)
                        &&& final(backend).freed() == old(backend).freed() + opt_seq(old(self).tex.ir_thumb_cache@[k])
                    }
                } else {
                    &&& t1 == t0
                    &&& final(self).tex.ir_thumb_cache == old(self).tex.ir_thumb_cache
                }
            }),
    {
        let ghost app0 = *self;
        match state {
            PsdPoll::Pending => false,
            PsdPoll::Failed(_) | PsdPoll::Disconnected => {
                let _conv = self.tex.pending_psd_conversions.remove(i);
                true
            },
            PsdPoll::Done(png) => {
                let conv = self.tex.pending_psd_conversions.remove(i);
                let mut loaded = self.loaded.take().unwrap();
                let idx = conv.tex_idx;
                if idx < loaded.textures.len() {
                    loaded.textures[idx].data = TextureData::Encoded(png);
                    loaded.textures[idx].filename = conv.png_filename;
                    loaded.textures[idx].mime_type = png_mime_string();
                    if idx < self.tex.ir_thumb_cache.len() {
                        let mut old_thumb: Option<T> = None;
                        std::mem::swap(&mut old_thumb, &mut self.tex.ir_thumb_cache[idx]);
                        let ghost prev = old_thumb;
                        match old_thumb {
                            Some(id) => backend.free_thumbnail(id),
                            None => {},
                        }
                        assert(backend.freed() =~= old(backend).freed() + opt_seq(prev));
                        let new_id = build_ir_thumb_entry(&loaded.textures[idx], backend);
                        self.tex.ir_thumb_cache.set(idx, new_id);
                    } else {
                        let _unused = build_ir_thumb_entry(&loaded.textures[idx], backend);
                    }
                }
                self.loaded = Some(loaded);
                true
            },
        }
    }

    /// Collect the finished PSD -> PNG conversions (see
    /// [`ViewerApp::settle_psd_conversion`]); without a model the queue is dropped.
    pub fn poll_pending_psd_conversions<Bk: TextureBackend<T, B, V>>(&mut self, backend: &mut Bk)
        ensures
            old(self).same_but_conversions(*final(self)),
            old(self).tex.pending_psd_conversions@.len() == 0 ==> *final(self) == *old(self),
            old(self).loaded is None ==> final(self).tex.pending_psd_conversions@.len() == 0
                && final(self).tex.ir_thumb_cache == old(self).tex.ir_thumb_cache,
            final(self).tex.pending_psd_conversions@.len() <= old(self).tex.pending_psd_conversions@.len(),
            forall|j: int| 0 <= j < final(self).tex.pending_psd_conversions@.len()
                ==> old(self).tex.pending_psd_conversions@.contains(
                    #[trigger] final(self).tex.pending_psd_conversions@[j]),
            final(self).tex.ir_thumb_cache@.len() == old(self).tex.ir_thumb_cache@.len(),
    {
        if self.tex.pending_psd_conversions.len() == 0 {
            return;
        }
        if self.loaded.is_none() {
            self.tex.pending_psd_conversions.clear();
            return;
        }
        let ghost app0 = *self;
        let mut i: usize = 0;
        while i < self.tex.pending_psd_conversions.len()
            invariant
                self.loaded is Some,
                i <= self.tex.pending_psd_conversions@.len(),
                app0.same_but_conversions(*self),
                self.tex.pending_psd_conversions@.len() <= app0.tex.pending_psd_conversions@.len(),
                forall|j: int| 0 <= j < self.tex.pending_psd_conversions@.len()
                    ==> app0.tex.pending_psd_conversions@.contains(#[trigger] self.tex.pending_psd_conversions@[j]),
                self.tex.ir_thumb_cache@.len() == app0.tex.ir_thumb_cache@.len(),
            decreases self.tex.pending_psd_conversions@.len() - i,
        {
            let ticket = self.tex.pending_psd_conversions[i].ticket;
            let state = backend.poll_psd_conversion(ticket);
            let ghost q0 = self.tex.pending_psd_conversions@;
            let removed = self.settle_psd_conversion(backend, i, state);
            if !removed {
                i = i + 1;
            } else {
                proof {
                    assert forall|j: int| 0 <= j < self.tex.pending_psd_conversions@.len()
                        implies app0.tex.pending_psd_conversions@.contains(#[trigger] self.tex.pending_psd_conversions@[j]) by {
                        if j < i {
                            assert(self.tex.pending_psd_conversions@[j] == q0[j]);
                        } else {
                            assert(self.tex.pending_psd_conversions@[j] == q0[j + 1]);
                        }
                    }
                }
            }
        }
    }
}

// ---------------------------------------------------------------------------
// Package-texture match preview
// ---------------------------------------------------------------------------

/// The `(texture, mmd texture)` bind groups the draws had before the match
/// dialog replaced any: the saved pair where it holds one, the current one elsewhere.
pub open spec fn original_pairs<B>(
    draws: Seq<DrawSlot<B>>,
    saved: Seq<Option<(Option<B>, Option<B>)>>,
) -> Seq<(Option<B>, Option<B>)> {
    Seq::new(
        draws.len(),
        |d: int|
            match saved_at(saved, d) {
                Some(p) => p,
                None => (draws[d].texture_bind_group, draws[d].mmd_texture_bind_group),
            },
    )
}

/// The `(texture, mmd texture)` bind groups of the draws.
pub open spec fn pairs_of<B>(draws: Seq<DrawSlot<B>>) -> Seq<(Option<B>, Option<B>)> {
    Seq::new(draws.len(), |d: int| (draws[d].texture_bind_group, draws[d].mmd_texture_bind_group))
}

/// Cancelling the match dialog after any number of syncs gives the draws the
/// bind groups they had when the dialog opened: a sync keeps
/// `original_pairs`, a cancel puts `original_pairs` back, and a dialog that
/// saved nothing has the draws' own pairs as `original_pairs`.
pub proof fn match_cancel_round_trip<B>(
    draws_open: Seq<DrawSlot<B>>,
    saved_open: Seq<Option<(Option<B>, Option<B>)>>,
    draws_synced: Seq<DrawSlot<B>>,
    saved_synced: Seq<Option<(Option<B>, Option<B>)>>,
    draws_cancelled: Seq<DrawSlot<B>>,
)
    requires
        forall|d: int| 0 <= d < saved_open.len() ==> #[trigger] saved_open[d] is None,
        original_pairs(draws_synced, saved_synced) == original_pairs(draws_open, saved_open),
        pairs_of(draws_cancelled) == original_pairs(draws_synced, saved_synced),
    ensures
        pairs_of(draws_cancelled) == pairs_of(draws_open),
{
    assert(original_pairs(draws_open, saved_open) =~= pairs_of(draws_open));
}

/// Whether `v` holds `x`.
fn contains_index(v: &Vec<usize>, x: usize) -> (r: bool)
    ensures
        r == v@.contains(x),
{
    let mut i: usize = 0;
    while i < v.len()
        invariant
            i <= v@.len(),
            forall|k: int| 0 <= k < i ==> v@[k] != x,
        decreases v@.len() - i,
    {
        if v[i] == x {
            assert(v@[i as int] == x);
            return true;
        }
        i = i + 1;
    }
    false
}

/// A draw after the match dialog previewed material `m`: a draw of `m` has a new
/// texture bind group and no MMD bind group, its own pair saved aside unless a pair
/// was saved already; any other draw is untouched.
pub open spec fn previewed_on<B>(
    d0: DrawSlot<B>,
    s0: Option<(Option<B>, Option<B>)>,
    d1: DrawSlot<B>,
    s1: Option<(Option<B>, Option<B>)>,
    m: usize,
) -> bool {
    if d0.material_index == m {
        &&& d1.material_index == m
        &&& d1.texture_bind_group is Some
        &&& d1.mmd_texture_bind_group is None
        &&& s1 == if s0 is None { Some((d0.texture_bind_group, d0.mmd_texture_bind_group)) } else { s0 }
    } else {
        d1 == d0 && s1 == s0
    }
}

/// A draw after its saved pair was given back, where `chosen`: a draw with a
/// saved pair gets that pair and nothing stays saved for it; otherwise the draw
/// and its entry are untouched.
pub open spec fn restored_if<B>(
    d0: DrawSlot<B>,
    s0: Option<(Option<B>, Option<B>)>,
    d1: DrawSlot<B>,
    s1: Option<(Option<B>, Option<B>)>,
    chosen: bool,
) -> bool {
    match s0 {
        Some((t, mm)) if chosen => {
            &&& d1 == DrawSlot { material_index: d0.material_index, texture_bind_group: t, mmd_texture_bind_group: mm }
            &&& s1 is None
        },
        _ => d1 == d0 && s1 == s0,
    }
}

/// Put a bind group on `view` on every draw of material `m` (and drop its MMD
/// bind group), saving the draw's pair first unless one is saved already.
fn match_preview_material<T, B, V, Bk: TextureBackend<T, B, V>>(
    saved: &mut Vec<Option<(Option<B>, Option<B>)>>,
    draws: &mut Vec<DrawSlot<B>>,
    m: usize,
    view: &V,
    sampler: u32,
    backend: &mut Bk,
)
    requires
        old(saved)@.len() >= old(draws)@.len(),
    ensures
        final(saved)@.len() == old(saved)@.len(),
        final(draws)@.len() == old(draws)@.len(),
        forall|d: int| 0 <= d < old(draws)@.len()
            ==> (#[trigger] final(draws)@[d]).material_index == old(draws)@[d].material_index,
        original_pairs(final(draws)@, final(saved)@) == original_pairs(old(draws)@, old(saved)@),
        forall|d: int| old(draws)@.len() <= d < old(saved)@.len() ==> #[trigger] final(saved)@[d] == old(saved)@[d],
        forall|d: int| 0 <= d < old(draws)@.len() ==> previewed_on(old(draws)@[d], old(saved)@[d], #[trigger] final(draws)@[d],
            final(saved)@[d], m),
{
    let n = draws.len();
    let mut d: usize = 0;
    while d < n
        invariant
            d <= n == old(draws)@.len(),
            saved@.len() == old(saved)@.len(),
            saved@.len() >= n,
            draws@.len() == n,
            forall|k: int| 0 <= k < n ==> (#[trigger] draws@[k]).material_index == old(draws)@[k].material_index,
            original_pairs(draws@, saved@) == original_pairs(old(draws)@, old(saved)@),
            forall|k: int| n <= k < old(saved)@.len() ==> #[trigger] saved@[k] == old(saved)@[k],
            forall|k: int| 0 <= k < d ==> previewed_on(old(draws)@[k], old(saved)@[k], #[trigger] draws@[k], saved@[k], m),
            forall|k: int| d <= k < n ==> #[trigger] draws@[k] == old(draws)@[k],
            forall|k: int| d <= k < n ==> #[trigger] saved@[k] == old(saved)@[k],
        decreases n - d,
    {
        if draws[d].material_index == m {
            let ghost before_draws = draws@;
            let ghost before_saved = saved@;
            if saved[d].is_none() {
                let t = draws[d].texture_bind_group.take();
                let mm = draws[d].mmd_texture_bind_group.take();
                saved.set(d, Some((t, mm)));
            }
            let bg = backend.texture_bind_group(view, Some(sampler));
            draws[d].texture_bind_group = Some(bg);
            draws[d].mmd_texture_bind_group = None;
            assert(original_pairs(draws@, saved@) =~= original_pairs(before_draws, before_saved));
        }
        d = d + 1;
    }
}

/// Give every draw of material `m` its saved pair back.
fn match_restore_material<B>(
    saved: &mut Vec<Option<(Option<B>, Option<B>)>>,
    draws: &mut Vec<DrawSlot<B>>,
    m: usize,
)
    requires
        old(saved)@.len() >= old(draws)@.len(),
    ensures
        final(saved)@.len() == old(saved)@.len(),
        final(draws)@.len() == old(draws)@.len(),
        forall|d: int| 0 <= d < old(draws)@.len()
            ==> (#[trigger] final(draws)@[d]).material_index == old(draws)@[d].material_index,
        original_pairs(final(draws)@, final(saved)@) == original_pairs(old(draws)@, old(saved)@),
        forall|d: int| old(draws)@.len() <= d < old(saved)@.len() ==> #[trigger] final(saved)@[d] == old(saved)@[d],
        forall|d: int| 0 <= d < old(draws)@.len() ==> restored_if(old(draws)@[d], old(saved)@[d], #[trigger] final(draws)@[d],
            final(saved)@[d], old(draws)@[d].material_index == m),
{
    let n = draws.len();
    let mut d: usize = 0;
    while d < n
        invariant
            d <= n == old(draws)@.len(),
            saved@.len() == old(saved)@.len(),
            saved@.len() >= n,
            draws@.len() == n,
            forall|k: int| 0 <= k < n ==> (#[trigger] draws@[k]).material_index == old(draws)@[k].material_index,
            original_pairs(draws@, saved@) == original_pairs(old(draws)@, old(saved)@),
            forall|k: int| n <= k < old(saved)@.len() ==> #[trigger] saved@[k] == old(saved)@[k],
            forall|k: int| 0 <= k < d ==> restored_if(old(draws)@[k], old(saved)@[k], #[trigger] draws@[k], saved@[k],
                old(draws)@[k].material_index == m),
            forall|k: int| d <= k < n ==> #[trigger] draws@[k] == old(draws)@[k],
            forall|k: int| d <= k < n ==> #[trigger] saved@[k] == old(saved)@[k],
        decreases n - d,
    {
        if draws[d].material_index == m {
            let ghost before_draws = draws@;
            let ghost before_saved = saved@;
            if saved[d].is_some() {
                let mut slot: Option<(Option<B>, Option<B>)> = None;
                std::mem::swap(&mut slot, &mut saved[d]);
                match slot {
                    Some(pair) => {
                        let (t, mm) = pair;
                        draws[d].texture_bind_group = t;
                        draws[d].mmd_texture_bind_group = mm;
                    },
                    None => {},
                }
            }
            assert(original_pairs(draws@, saved@) =~= original_pairs(before_draws, before_saved));
        }
        d = d + 1;
    }
}

/// Give the draws of every listed material their saved pairs back.
fn restore_all<B>(
    saved: &mut Vec<Option<(Option<B>, Option<B>)>>,
    draws: &mut Vec<DrawSlot<B>>,
    which: &Vec<usize>,
)
    requires
        old(saved)@.len() >= old(draws)@.len(),
    ensures
        final(saved)@.len() == old(saved)@.len(),
        final(draws)@.len() == old(draws)@.len(),
        forall|d: int| 0 <= d < old(draws)@.len()
            ==> (#[trigger] final(draws)@[d]).material_index == old(draws)@[d].material_index,
        original_pairs(final(draws)@, final(saved)@) == original_pairs(old(draws)@, old(saved)@),
        forall|d: int| old(draws)@.len() <= d < old(saved)@.len() ==> #[trigger] final(saved)@[d] == old(saved)@[d],
        forall|d: int| 0 <= d < old(draws)@.len() ==> restored_if(old(draws)@[d], old(saved)@[d], #[trigger] final(draws)@[d],
            final(saved)@[d], which@.contains(old(draws)@[d].material_index)),
{
    let mut t: usize = 0;
    while t < which.len()
        invariant
            t <= which@.len(),
            saved@.len() == old(saved)@.len(),
            draws@.len() == old(draws)@.len(),
            saved@.len() >= draws@.len(),
            forall|d: int| 0 <= d < old(draws)@.len()
                ==> (#[trigger] draws@[d]).material_index == old(draws)@[d].material_index,
            original_pairs(draws@, saved@) == original_pairs(old(draws)@, old(saved)@),
            forall|d: int| old(draws)@.len() <= d < old(saved)@.len() ==> #[trigger] saved@[d] == old(saved)@[d],
            forall|d: int| 0 <= d < old(draws)@.len() ==> restored_if(old(draws)@[d], old(saved)@[d], #[trigger] draws@[d],
                saved@[d], which@.take(t as int).contains(old(draws)@[d].material_index)),
        decreases which@.len() - t,
    {
        let ghost dr0 = draws@;
        let ghost sv0 = saved@;
        match_restore_material(saved, draws, which[t]);
        proof {
            assert forall|d: int| 0 <= d < old(draws)@.len() implies restored_if(old(draws)@[d], old(saved)@[d],
                #[trigger] draws@[d], saved@[d], which@.take(t + 1).contains(old(draws)@[d].material_index)) by {
                let mi = old(draws)@[d].material_index;
                assert(which@.take(t + 1) =~= which@.take(t as int).push(which@[t as int]));
                if which@.take(t as int).contains(mi) {
                    let q = choose|q: int| 0 <= q < t && #[trigger] which@.take(t as int)[q] == mi;
                    assert(which@.take(t + 1)[q] == mi);
                }
                if mi == which@[t as int] {
                    assert(which@.take(t + 1)[t as int] == mi);
                }
                if which@.take(t + 1).contains(mi) && !which@.take(t as int).contains(mi) {
                    let q = choose|q: int| 0 <= q < t + 1 && #[trigger] which@.take(t + 1)[q] == mi;
                    if q < t {
                        assert(which@.take(t as int)[q] == mi);
                    }
                }
                assert(dr0[d].material_index == mi);
            }
        }
        t = t + 1;
    }
    assert(which@.take(which@.len() as int) =~= which@);
}

impl<T, B, V> ViewerApp<T, B, V> {
    /// Bring the GPU in line with the match dialog's selections. A newly
    /// selected package texture is uploaded on first use (a failed upload is
    /// not retried) and put on the draws of the listed material (and, when
    /// linked, of its same-name siblings), their own bind groups saved aside;
    /// a cleared selection gives the saved bind groups back. When the texture
    /// cannot be shown, an earlier preview of the entry is taken back.
    #[verifier::spinoff_prover]
    pub fn sync_tex_match_preview<Bk: TextureBackend<T, B, V>>(&mut self, backend: &mut Bk)
        requires
            old(self).tex.pending_match is Some && old(self).loaded is Some ==> {
                let pm = old(self).tex.pending_match->0;
                &&& pm.selections@.len() >= pm.mat_indices@.len()
                &&& pm.previewed@.len() >= pm.mat_indices@.len()
                &&& forall|i: int| 0 <= i < pm.mat_indices@.len()
                    ==> (#[trigger] pm.mat_indices@[i] as int) < old(self).loaded->0.materials@.len()
            },
        ensures
            !(old(self).tex.pending_match is Some && old(self).loaded is Some && old(self).has_renderer)
                ==> *final(self) == *old(self),
            old(self).tex.pending_match is Some && old(self).loaded is Some && old(self).has_renderer ==> {
                let m0 = old(self).tex.pending_match->0;
                let m1 = final(self).tex.pending_match->0;
                let l0 = old(self).loaded->0;
                let l1 = final(self).loaded->0;
                &&& final(self).tex.pending_match is Some
                &&& final(self).loaded is Some
                &&& l0.same_but_draws(l1)
                &&& final(self).has_renderer == old(self).has_renderer
                &&& final(self).dirty_materials == old(self).dirty_materials
                &&& final(self).tex.pending_preview == old(self).tex.pending_preview
                &&& final(self).tex.pkg_textures == old(self).tex.pkg_textures
                &&& final(self).tex.pkg_thumb_cache == old(self).tex.pkg_thumb_cache
                &&& final(self).tex.ir_thumb_cache == old(self).tex.ir_thumb_cache
                &&& final(self).tex.link_same_name == old(self).tex.link_same_name
                &&& final(self).tex.assignments == old(self).tex.assignments
                &&& final(self).tex.pending_psd_conversions == old(self).tex.pending_psd_conversions
                &&& m1.mat_indices == m0.mat_indices
                &&& m1.selections == m0.selections
                &&& m1.tex_filter == m0.tex_filter
                // draws keep their materials, and the bind groups from before the dialog stay recoverable
                &&& l1.draws@.len() == l0.draws@.len()
                &&& forall|d: int| 0 <= d < l0.draws@.len()
                    ==> (#[trigger] l1.draws@[d]).material_index == l0.draws@[d].material_index
                &&& original_pairs(l1.draws@, m1.saved_binds@) == original_pairs(l0.draws@, m0.saved_binds@)
                // uploaded views stay, failed uploads stay failed
                &&& m1.texture_views@.len() == m0.texture_views@.len()
                &&& forall|t: int| 0 <= t < m0.texture_views@.len() && m0.texture_views@[t] is Some
                    ==> #[trigger] m1.texture_views@[t] == m0.texture_views@[t]
                &&& forall|t: usize| m0.failed_uploads@.contains(t) ==> #[trigger] m1.failed_uploads@.contains(t)
                // each entry now shows its selection, or nothing when that cannot be shown
                &&& m1.previewed@.len() == m0.previewed@.len()
                &&& forall|i: int| 0 <= i < m0.mat_indices@.len() ==> {
                    let sel = m0.selections@[i];
                    #[trigger] m1.previewed@[i] == if sel == m0.previewed@[i] || sel is None {
                        sel
                    } else if (sel->0 as int) < m1.texture_views@.len() && m1.texture_views@[sel->0 as int] is Some {
                        sel
                    } else {
                        None
                    }
                }
                &&& forall|i: int| m0.mat_indices@.len() <= i < m0.previewed@.len()
                    ==> #[trigger] m1.previewed@[i] == m0.previewed@[i]
                // a view is made only for a package texture that decodes, and an
                // upload is marked failed only when the texture does not decode
                &&& forall|t: int| 0 <= t < m0.texture_views@.len() && m0.texture_views@[t] is None
                    && #[trigger] m1.texture_views@[t] is Some ==> old(self).pkg_decodes::<Bk>(t, true)
                &&& forall|t: usize| #[trigger] m1.failed_uploads@.contains(t) && !m0.failed_uploads@.contains(t)
                    ==> old(self).pkg_decodes::<Bk>(t as int, false)
                // a newly selected package texture that decodes is shown
                &&& forall|i: int| 0 <= i < m0.mat_indices@.len() && m0.selections@[i] != m0.previewed@[i]
                    && m0.selections@[i] is Some && (m0.selections@[i]->0 as int) < m0.texture_views@.len()
                    && !m0.failed_uploads@.contains(m0.selections@[i]->0)
                    && old(self).pkg_decodes::<Bk>(m0.selections@[i]->0 as int, true)
                    ==> #[trigger] m1.previewed@[i] == m0.selections@[i]
                        && m1.texture_views@[m0.selections@[i]->0 as int] is Some
            },
    {
        if self.tex.pending_match.is_none() || self.loaded.is_none() || !self.has_renderer {
            return;
        }
        let mut pending = self.tex.pending_match.take().unwrap();
        let mut loaded = self.loaded.take().unwrap();
        let ghost m0 = pending;
        let ghost l0 = loaded;
        let ghost orig0 = original_pairs(l0.draws@, m0.saved_binds@);
        let _nmats = loaded.materials.len();
        while pending.saved_binds.len() < loaded.draws.len()
            invariant
                loaded == l0,
                pending.mat_indices == m0.mat_indices,
                pending.selections == m0.selections,
                pending.tex_filter == m0.tex_filter,
                pending.previewed == m0.previewed,
                pending.texture_views == m0.texture_views,
                pending.failed_uploads == m0.failed_uploads,
                forall|d: int| #[trigger] saved_at(pending.saved_binds@, d) == saved_at(m0.saved_binds@, d),
            decreases loaded.draws@.len() - pending.saved_binds@.len(),
        {
            let ghost before = pending.saved_binds@;
            pending.saved_binds.push(None);
            assert forall|d: int| #[trigger] saved_at(pending.saved_binds@, d) == saved_at(before, d) by {
                if 0 <= d < before.len() {
                    assert(pending.saved_binds@[d] == before[d]);
                }
            }
        }
        assert(original_pairs(loaded.draws@, pending.saved_binds@) =~= orig0);
        let mut saved: Vec<Option<(Option<B>, Option<B>)>> = Vec::new();
        std::mem::swap(&mut saved, &mut pending.saved_binds);
        let mut draws: Vec<DrawSlot<B>> = Vec::new();
        std::mem::swap(&mut draws, &mut loaded.draws);
        let ghost lm = loaded;
        let ghost pm = pending;
        let n = pending.mat_indices.len();
        let mut i: usize = 0;
        while i < n
            invariant
                i <= n == m0.mat_indices@.len(),
                m0.selections@.len() >= n,
                m0.previewed@.len() >= n,
                forall|k: int| 0 <= k < n ==> (#[trigger] m0.mat_indices@[k] as int) < l0.materials@.len(),
                l0.materials@.len() <= usize::MAX,
                loaded == lm,
                lm.materials == l0.materials,
                pending.mat_indices == m0.mat_indices,
                pending.selections == m0.selections,
                pending.tex_filter == m0.tex_filter,
                pending.saved_binds == pm.saved_binds,
                saved@.len() >= draws@.len(),
                draws@.len() == l0.draws@.len(),
                forall|d: int| 0 <= d < l0.draws@.len()
                    ==> (#[trigger] draws@[d]).material_index == l0.draws@[d].material_index,
                original_pairs(draws@, saved@) == orig0,
                pending.texture_views@.len() == m0.texture_views@.len(),
                forall|t: int| 0 <= t < m0.texture_views@.len() && m0.texture_views@[t] is Some
                    ==> #[trigger] pending.texture_views@[t] == m0.texture_views@[t],
                forall|t: usize| m0.failed_uploads@.contains(t) ==> #[trigger] pending.failed_uploads@.contains(t),
                pending.previewed@.len() == m0.previewed@.len(),
                forall|k: int| 0 <= k < i ==> {
                    let sel = m0.selections@[k];
                    #[trigger] pending.previewed@[k] == if sel == m0.previewed@[k] || sel is None {
                        sel
                    } else if (sel->0 as int) < pending.texture_views@.len() && pending.texture_views@[sel->0 as int] is Some {
                        sel
                    } else {
                        None
                    }
                },
                forall|k: int| 0 <= k < i && m0.selections@[k] != m0.previewed@[k] && m0.selections@[k] is Some
                    && #[trigger] pending.previewed@[k] is None ==> self.never_shown(
                        pending.texture_views@, pending.failed_uploads@, m0.selections@[k]->0),
                forall|k: int| i <= k < m0.previewed@.len() ==> #[trigger] pending.previewed@[k] == m0.previewed@[k],
                forall|t: int| 0 <= t < m0.texture_views@.len() && m0.texture_views@[t] is None
                    && #[trigger] pending.texture_views@[t] is Some ==> self.pkg_decodes::<Bk>(t, true),
                forall|t: usize| #[trigger] pending.failed_uploads@.contains(t) && !m0.failed_uploads@.contains(t)
                    ==> self.pkg_decodes::<Bk>(t as int, false),
            decreases n - i,
        {
            let mat_idx = pending.mat_indices[i];
            let sel = pending.selections[i];
            let prev = pending.previewed[i];
            let ghost views_before = pending.texture_views@;
            let ghost failed_before = pending.failed_uploads@;
            let same = match (sel, prev) {
                (Some(a), Some(b)) => a == b,
                (None, None) => true,
                _ => false,
            };
            if !same {
                let targets = self.match_targets(&loaded, mat_idx);
                match sel {
                    Some(tex_idx) => {
                        // upload on first use
                        if tex_idx < pending.texture_views.len() && pending.texture_views[tex_idx].is_none()
                            && !contains_index(&pending.failed_uploads, tex_idx) {
                            match &self.tex.pkg_textures {
                                Some(pkg) => {
                                    if tex_idx < pkg.len() {
                                        let is_psd = is_psd_path(&pkg[tex_idx].0);
                                        match upload_texture_from_bytes(backend, &pkg[tex_idx].1, is_psd) {
                                            Ok(views) => {
                                                let (view, _unorm) = views;
                                                pending.texture_views.set(tex_idx, Some(view));
                                            },
                                            Err(_) => {
                                                let ghost fb = pending.failed_uploads@;
                                                pending.failed_uploads.push(tex_idx);
                                                proof {
                                                    assert forall|x: usize| fb.contains(x)
                                                        implies #[trigger] pending.failed_uploads@.contains(x) by {
                                                        let q = choose|q: int| 0 <= q < fb.len() && fb[q] == x;
                                                        assert(pending.failed_uploads@[q] == x);
                                                    }
                                                    assert(pending.failed_uploads@[fb.len() as int] == tex_idx);
                                                    assert forall|x: usize| #[trigger] pending.failed_uploads@.contains(x)
                                                        implies fb.contains(x) || x == tex_idx by {
                                                        let q = choose|q: int| 0 <= q < pending.failed_uploads@.len()
                                                            && pending.failed_uploads@[q] == x;
                                                        if q < fb.len() {
                                                            assert(fb[q] == x);
                                                        }
                                                    }
                                                }
                                            },
                                        }
                                    }
                                },
                                None => {},
                            }
                        }
                        proof {
                            assert forall|u: int| 0 <= u < views_before.len()
                                && #[trigger] pending.texture_views@[u] != views_before[u]
                                implies !self.never_shown(views_before, failed_before, u as usize) by {
                                assert(u == tex_idx as int);
                            }
                            self.lemma_never_shown_kept(views_before, failed_before,
                                pending.texture_views@, pending.failed_uploads@, tex_idx);
                        }
                        let available = tex_idx < pending.texture_views.len() && pending.texture_views[tex_idx].is_some();
                        if !available {
                            if prev.is_some() {
                                restore_all(&mut saved, &mut draws, &targets);
                                pending.previewed.set(i, None);
                            }
                            proof {
                                assert(self.never_shown(pending.texture_views@, pending.failed_uploads@, tex_idx));
                            }
                        } else {
                            let mut t: usize = 0;
                            while t < targets.len()
                                invariant
                                    t <= targets@.len(),
                                    forall|q: int| 0 <= q < targets@.len() ==> (#[trigger] targets@[q] as int) < loaded.materials@.len(),
                                    tex_idx < pending.texture_views@.len(),
                                    saved@.len() >= draws@.len(),
                                    draws@.len() == l0.draws@.len(),
                                    forall|d: int| 0 <= d < l0.draws@.len()
                                        ==> (#[trigger] draws@[d]).material_index == l0.draws@[d].material_index,
                                    original_pairs(draws@, saved@) == orig0,
                                decreases targets@.len() - t,
                            {
                                let target = targets[t];
                                let sampler = match loaded.materials[target].base_color_tex_info {
                                    Some(info) => info.sampler,
                                    None => 0,
                                };
                                match &pending.texture_views[tex_idx] {
                                    Some(view) => {
                                        match_preview_material(&mut saved, &mut draws, target, view, sampler, backend);
                                    },
                                    None => {},
                                }
                                t = t + 1;
                            }
                            pending.previewed.set(i, sel);
                        }
                    },
                    None => {
                        restore_all(&mut saved, &mut draws, &targets);
                        pending.previewed.set(i, sel);
                    },
                }
            }
            proof {
                assert forall|t: int| 0 <= t < m0.texture_views@.len() && m0.texture_views@[t] is Some
                    implies #[trigger] pending.texture_views@[t] == m0.texture_views@[t] by {
                    assert(views_before[t] == m0.texture_views@[t]);
                }
                assert forall|k: int| 0 <= k < i + 1 && m0.selections@[k] != m0.previewed@[k] && m0.selections@[k] is Some
                    && #[trigger] pending.previewed@[k] is None implies self.never_shown(
                        pending.texture_views@, pending.failed_uploads@, m0.selections@[k]->0) by {
                    if k < i {
                        self.lemma_never_shown_kept(views_before, failed_before,
                            pending.texture_views@, pending.failed_uploads@, m0.selections@[k]->0);
                    }
                }
                assert forall|k: int| 0 <= k < i implies {
                    let sel = m0.selections@[k];
                    #[trigger] pending.previewed@[k] == if sel == m0.previewed@[k] || sel is None {
                        sel
                    } else if (sel->0 as int) < pending.texture_views@.len() && pending.texture_views@[sel->0 as int] is Some {
                        sel
                    } else {
                        None
                    }
                } by {
                    let sel = m0.selections@[k];
                    if sel is Some && (sel->0 as int) < views_before.len() && views_before[sel->0 as int] is Some {
                        assert(pending.texture_views@[sel->0 as int] is Some);
                    }
                }
            }
            i = i + 1;
        }
        std::mem::swap(&mut saved, &mut pending.saved_binds);
        std::mem::swap(&mut draws, &mut loaded.draws);
        self.loaded = Some(loaded);
        self.tex.pending_match = Some(pending);
    }

    /// Package texture `t` exists and decodes (`ok`), or exists and does not (`!ok`).
    pub open spec fn pkg_decodes<Bk: TextureBackend<T, B, V>>(self, t: int, ok: bool) -> bool {
        &&& self.tex.pkg_textures is Some
        &&& 0 <= t < self.tex.pkg_textures->0@.len()
        &&& (texture_decoded::<T, B, V, Bk>(
            self.tex.pkg_textures->0@[t].1@,
            psd_by_extension(self.tex.pkg_textures->0@[t].0@),
        ) is Ok) == ok
    }

    /// Package texture `t` cannot be shown now and never will be in this
    /// dialog: it is out of range, or has no view and its upload already failed
    /// or cannot be tried.
    pub open spec fn never_shown(self, views: Seq<Option<V>>, failed: Seq<usize>, t: usize) -> bool {
        ||| (t as int) >= views.len()
        ||| views[t as int] is None && (failed.contains(t) || self.tex.pkg_textures is None
            || (t as int) >= self.tex.pkg_textures->0@.len())
    }

    proof fn lemma_never_shown_kept(
        self,
        views0: Seq<Option<V>>,
        failed0: Seq<usize>,
        views1: Seq<Option<V>>,
        failed1: Seq<usize>,
        t: usize,
    )
        requires
            views1.len() == views0.len(),
            forall|x: usize| failed0.contains(x) ==> #[trigger] failed1.contains(x),
            forall|u: int| 0 <= u < views0.len() && #[trigger] views1[u] != views0[u]
                ==> !self.never_shown(views0, failed0, u as usize),
        ensures
            self.never_shown(views0, failed0, t) ==> self.never_shown(views1, failed1, t),
    {
    }

    /// The listed material and, when linked, its same-name siblings.
    fn match_targets(&self, loaded: &LoadedModel<B, V>, mat_idx: usize) -> (r: Vec<usize>)
        requires
            mat_idx < loaded.materials@.len() <= usize::MAX,
        ensures
            r@ == if self.tex.link_same_name {
                seq![mat_idx] + siblings(loaded.materials@, mat_idx as int)
            } else {
                seq![mat_idx]
            },
            forall|q: int| 0 <= q < r@.len() ==> (#[trigger] r@[q] as int) < loaded.materials@.len(),
    {
        let mut r: Vec<usize> = Vec::new();
        r.push(mat_idx);
        if self.tex.link_same_name {
            let sibs = loaded.same_name_siblings(mat_idx);
            proof {
                lemma_siblings_upto(loaded.materials@, mat_idx as int, loaded.materials@.len() as int);
            }
            let ghost r1 = r@;
            append_all(&mut r, &sibs);
            assert(r@ =~= seq![mat_idx] + siblings(loaded.materials@, mat_idx as int));
        } else {
            assert(r@ =~= seq![mat_idx]);
        }
        r
    }
}

// ---------------------------------------------------------------------------
// Committing the drag-and-drop preview
// ---------------------------------------------------------------------------

/// Material `m1` is `m0` with base color texture `idx`.
pub open spec fn with_base_index(m0: IrMaterial, m1: IrMaterial, idx: usize) -> bool {
    m1 == IrMaterial { texture_index: Some(idx), ..m0 }
}

impl<T, B, V> ViewerApp<T, B, V> {
    /// Commit the preview: the dropped file becomes a new texture of the
    /// model (PSD data queued for conversion), every checked material takes
    /// it as its base color texture, the draws of unchecked materials get
    /// their saved bind groups back, and the material cache is refreshed. With
    /// nothing checked the preview is cancelled instead.
    #[verifier::spinoff_prover]
    pub fn apply_tex_preview<Bk: TextureBackend<T, B, V>>(&mut self, backend: &mut Bk)
        requires
            old(self).tex.pending_preview is Some && old(self).loaded is Some ==> {
                let p = old(self).tex.pending_preview->0;
                let l = old(self).loaded->0;
                &&& p.selection@.len() <= l.materials@.len()
                &&& forall|d: int| l.draws@.len() <= d ==> #[trigger] saved_at(p.saved_binds@, d) is None
            },
        ensures
            final(self).tex.pending_preview is None,
            old(self).tex.pending_preview is None ==> *final(self) == *old(self),
            old(self).tex.pending_preview is Some && old(self).loaded is None ==> {
                &&& final(self).loaded is None
                &&& old(self).same_but_preview(*final(self))
                &&& final(self).dirty_materials == old(self).dirty_materials
            },
            old(self).tex.pending_preview is Some && old(self).loaded is Some ==> {
                let p = old(self).tex.pending_preview->0;
                let l0 = old(self).loaded->0;
                let l1 = final(self).loaded->0;
                let n0 = l0.textures@.len();
                let any = exists|i: int| 0 <= i < p.selection@.len() && #[trigger] p.selection@[i];
                &&& final(self).loaded is Some
                &&& final(self).has_renderer == old(self).has_renderer
                &&& final(self).dirty_materials == old(self).dirty_materials
                &&& final(self).tex.pending_match == old(self).tex.pending_match
                &&& final(self).tex.pkg_textures == old(self).tex.pkg_textures
                &&& final(self).tex.pkg_thumb_cache == old(self).tex.pkg_thumb_cache
                &&& final(self).tex.link_same_name == old(self).tex.link_same_name
                &&& l1.texture_views == l0.texture_views
                &&& l1.appended_models == l0.appended_models
                &&& l1.source == l0.source
                &&& l1.draws@.len() == l0.draws@.len()
                &&& if !any {
                    // cancelled
                    &&& final(self).tex.assignments == old(self).tex.assignments
                    &&& same_draw_shape(l0.draws@, l1.draws@)
                    &&& binds_of(l1.draws@) == original_binds(l0.draws@, p.saved_binds@)
                    &&& l1.textures == l0.textures
                    &&& l1.materials == l0.materials
                    &&& l1.mat_cache == l0.mat_cache
                    &&& final(self).tex.ir_thumb_cache == old(self).tex.ir_thumb_cache
                    &&& final(self).tex.pending_psd_conversions == old(self).tex.pending_psd_conversions
                } else {
                    let t = l1.textures@[n0 as int];
                    // the checked materials remember where their texture came from
                    &&& history_view(final(self).tex.assignments@) == recorded(
                        history_view(old(self).tex.assignments@),
                        Set::new(|j: usize| is_marked(p.selection@, j)),
                        preview_source(p.path@, p.cached_data@, p.is_psd, p.was_temp),
                    )
                    // the new texture
                    &&& l1.textures@.len() == n0 + 1
                    &&& l1.textures@.subrange(0, n0 as int) == l0.textures@
                    &&& t.filename@ == recorded_name(p.path@, p.is_psd)
                    &&& t.data is Encoded
                    &&& t.data.bytes() == p.cached_data@
                    &&& t.source_path@ == p.path@
                    &&& p.is_psd ==> t.mime_type@ == psd_mime()
                    &&& final(self).tex.ir_thumb_cache@.len() == n0 + 1
                    &&& old(self).tex.ir_thumb_cache@.len() <= n0 + 1 ==> final(self).tex.ir_thumb_cache@.subrange(
                        0,
                        old(self).tex.ir_thumb_cache@.len() as int,
                    ) == old(self).tex.ir_thumb_cache@
                    &&& if p.is_psd {
                        let c = final(self).tex.pending_psd_conversions@.last();
                        &&& final(self).tex.pending_psd_conversions@.drop_last() == old(self).tex.pending_psd_conversions@
                        &&& final(self).tex.pending_psd_conversions@.len() == old(self).tex.pending_psd_conversions@.len() + 1
                        &&& c.tex_idx == n0
                        &&& c.png_filename@ == png_name(p.path@)
                        &&& c.display_name@ == p.path@
                    } else {
                        final(self).tex.pending_psd_conversions == old(self).tex.pending_psd_conversions
                    }
                    // the checked materials take it
                    &&& l1.materials@.len() == l0.materials@.len()
                    &&& forall|i: int| 0 <= i < l0.materials@.len() ==> if is_marked(p.selection@, i as usize) {
                        with_base_index(l0.materials@[i], #[trigger] l1.materials@[i], n0 as usize)
                    } else {
                        l1.materials@[i] == l0.materials@[i]
                    }
                    // draws of unchecked materials get their own bind groups back
                    &&& forall|d: int| 0 <= d < l0.draws@.len() ==> {
                        &&& (#[trigger] l1.draws@[d]).material_index == l0.draws@[d].material_index
                        &&& l1.draws@[d].mmd_texture_bind_group == l0.draws@[d].mmd_texture_bind_group
                        &&& l1.draws@[d].texture_bind_group == if saved_at(p.saved_binds@, d) is Some
                            && !is_marked(p.selection@, l0.draws@[d].material_index) {
                            saved_at(p.saved_binds@, d)->0
                        } else {
                            l0.draws@[d].texture_bind_group
                        }
                    }
                    &&& mat_cache_matches(l1.mat_cache, l1.materials@, l1.draws@)
                }
            },
    {
        let preview = match self.tex.pending_preview.take() {
            None => return,
            Some(p) => p,
        };
        let ghost p0 = preview;
        let ghost app0 = *self;
        // is anything checked?
        let mut any = false;
        let mut k: usize = 0;
        while k < preview.selection.len()
            invariant
                k <= preview.selection@.len(),
                any == exists|i: int| 0 <= i < k && #[trigger] preview.selection@[i],
            decreases preview.selection@.len() - k,
        {
            if preview.selection[k] {
                any = true;
            }
            k = k + 1;
        }
        if !any {
            self.cancel_tex_preview_inner(preview, backend);
            return;
        }
        if self.loaded.is_none() {
            return;
        }
        let mut loaded = self.loaded.take().unwrap();
        let ghost l0 = loaded;
        let PendingTexPreview { path, cached_data, is_psd, was_temp, selection, saved_binds, preview_tex_id, .. } = preview;
        let src = if was_temp {
            TextureSource::Cached { original_name: path.clone(), data: copy_bytes(&cached_data), is_psd }
        } else {
            TextureSource::File(path.clone())
        };
        let basename = file_stem_of(&file_name_of(&path));
        let (ir_filename, ir_mime) = if is_psd {
            (with_suffix(&basename, '.', 'p', 's', 'd'), psd_mime_string())
        } else {
            let fname = file_name_of(&path);
            let ext_lower = to_lowercase(extension_of(&fname).as_str());
            let mime = mime_for_ext(&ext_lower);
            (fname, mime)
        };
        let tex_idx = loaded.textures.len();
        loaded.textures.push(IrTexture {
            filename: ir_filename,
            data: TextureData::Encoded(cached_data),
            mime_type: ir_mime,
            source_path: path.clone(),
        });
        assert(loaded.textures@.subrange(0, tex_idx as int) =~= l0.textures@);
        catch_up_thumbs(&mut self.tex.ir_thumb_cache, &loaded.textures, backend);
        if is_psd {
            let ticket = backend.start_psd_conversion(loaded.textures[tex_idx].data.as_bytes());
            let png = with_suffix(&basename, '.', 'p', 'n', 'g');
            self.tex.pending_psd_conversions.push(PendingPsdConversion {
                ticket,
                tex_idx,
                png_filename: png,
                display_name: path.clone(),
            });
            assert(self.tex.pending_psd_conversions@.drop_last() =~= app0.tex.pending_psd_conversions@);
        }
        // the checked materials take the texture
        let ghost lt = loaded.textures;
        let ghost mats0 = loaded.materials@;
        let _nm = loaded.materials.len();
        let mut i: usize = 0;
        while i < selection.len()
            invariant
                i <= selection@.len() <= mats0.len(),
                mats0.len() <= usize::MAX,
                loaded.textures@.subrange(0, tex_idx as int) == l0.textures@,
                loaded.materials@.len() == mats0.len(),
                forall|j: int| 0 <= j < mats0.len() ==> if j < i && is_marked(selection@, j as usize) {
                    with_base_index(mats0[j], #[trigger] loaded.materials@[j], tex_idx)
                } else {
                    loaded.materials@[j] == mats0[j]
                },
                loaded.textures == lt,
                loaded.draws == l0.draws,
                loaded.texture_views == l0.texture_views,
                loaded.appended_models == l0.appended_models,
                loaded.source == l0.source,
                loaded.textures@[tex_idx as int].filename@ == recorded_name(p0.path@, p0.is_psd),
            decreases selection@.len() - i,
        {
            if selection[i] {
                loaded.materials[i].texture_index = Some(tex_idx);
            }
            i = i + 1;
        }
        // the checked materials remember where their texture came from
        let mut hist: HashMap<usize, TextureSource> = HashMap::new();
        std::mem::swap(&mut hist, &mut self.tex.assignments);
        let ghost h0 = history_view(hist@);
        let mut i: usize = 0;
        while i < selection.len()
            invariant
                i <= selection@.len(),
                src@ == preview_source(p0.path@, p0.cached_data@, p0.is_psd, p0.was_temp),
                history_view(hist@) == recorded(h0, Set::new(|j: usize| j < i && is_marked(selection@, j)), src@),
            decreases selection@.len() - i,
        {
            if selection[i] {
                let ghost before = hist@;
                let d = src.duplicate();
                hist.insert(i, d);
                proof {
                    assert(hist@ == before.insert(i, d));
                    lemma_history_insert(before, i, d);
                    assert(history_view(hist@) =~= recorded(
                        h0,
                        Set::new(|j: usize| j < i + 1 && is_marked(selection@, j)),
                        src@,
                    ));
                }
            } else {
                assert(recorded(h0, Set::new(|j: usize| j < i && is_marked(selection@, j)), src@) =~= recorded(
                    h0,
                    Set::new(|j: usize| j < i + 1 && is_marked(selection@, j)),
                    src@,
                ));
            }
            i = i + 1;
        }
        assert(recorded(h0, Set::new(|j: usize| j < i && is_marked(selection@, j)), src@) =~= recorded(
            h0,
            Set::new(|j: usize| is_marked(selection@, j)),
            src@,
        ));
        self.tex.assignments = hist;
        match preview_tex_id {
            Some(id) => backend.free_thumbnail(id),
            None => {},
        }
        // unchecked materials' draws get their own bind groups back
        let mut saved = saved_binds;
        let n = loaded.draws.len();
        let ghost d0 = loaded.draws@;
        let ghost sv = saved@;
        let mut d: usize = 0;
        while d < n
            invariant
                d <= n == d0.len(),
                saved@.len() == sv.len(),
                loaded.draws@.len() == n,
                forall|q: int| 0 <= q < n ==> {
                    &&& (#[trigger] loaded.draws@[q]).material_index == d0[q].material_index
                    &&& loaded.draws@[q].mmd_texture_bind_group == d0[q].mmd_texture_bind_group
                    &&& if q < d {
                        loaded.draws@[q].texture_bind_group == if saved_at(sv, q) is Some
                            && !is_marked(selection@, d0[q].material_index) {
                            saved_at(sv, q)->0
                        } else {
                            d0[q].texture_bind_group
                        }
                    } else {
                        loaded.draws@[q] == d0[q] && saved_at(saved@, q) == saved_at(sv, q)
                    }
                },
                loaded.textures == lt,
                loaded.materials@.len() == mats0.len(),
                forall|j: int| 0 <= j < mats0.len() ==> if is_marked(selection@, j as usize) {
                    with_base_index(mats0[j], #[trigger] loaded.materials@[j], tex_idx)
                } else {
                    loaded.materials@[j] == mats0[j]
                },
                loaded.texture_views == l0.texture_views,
                loaded.appended_models == l0.appended_models,
                loaded.source == l0.source,
                loaded.textures@[tex_idx as int].filename@ == recorded_name(p0.path@, p0.is_psd),
                loaded.textures@.subrange(0, tex_idx as int) == l0.textures@,
            decreases n - d,
        {
            if d < saved.len() && saved[d].is_some() {
                let m = loaded.draws[d].material_index;
                let checked = m < selection.len() && selection[m];
                if !checked {
                    let mut slot: Option<Option<B>> = None;
                    std::mem::swap(&mut slot, &mut saved[d]);
                    match slot {
                        Some(orig) => {
                            loaded.draws[d].texture_bind_group = orig;
                        },
                        None => {},
                    }
                }
            }
            d = d + 1;
        }
        self.loaded = Some(loaded);
        self.update_mat_cache();
    }
}

// ---------------------------------------------------------------------------
// Automatic assignment of dropped image files by name
// ---------------------------------------------------------------------------

/// The key of an image file: the lower-cased stem of its file name.
pub open spec fn stem_key(path: Seq<char>) -> Seq<char> {
    lowercase(file_stem(file_name(path)))
}

/// A material matches a file when either lower-cased name contains the other.
pub open spec fn name_matches(material: Seq<char>, stem: Seq<char>) -> bool {
    is_infix(stem, material) || is_infix(material, stem)
}

/// Indices (ascending) of the lower-cased material names that match `stem`.
pub open spec fn matching_materials(names: Seq<Seq<char>>, stem: Seq<char>) -> Seq<usize>
    decreases names.len(),
{
    if names.len() == 0 {
        Seq::empty()
    } else {
        let prev = matching_materials(names.drop_last(), stem);
        if name_matches(names.last(), stem) {
            prev.push((names.len() - 1) as usize)
        } else {
            prev
        }
    }
}

/// Per file with a non-empty key and at least one matching material: the file's
/// index and the materials it goes to, in file order.
pub open spec fn planned_matches(paths: Seq<Seq<char>>, names: Seq<Seq<char>>) -> Seq<(usize, Seq<usize>)>
    decreases paths.len(),
{
    if paths.len() == 0 {
        Seq::empty()
    } else {
        let prev = planned_matches(paths.drop_last(), names);
        let stem = stem_key(paths.last());
        let m = matching_materials(names, stem);
        if stem.len() > 0 && m.len() > 0 {
            prev.push(((paths.len() - 1) as usize, m))
        } else {
            prev
        }
    }
}

/// File names of the files with a non-empty key that match no material, in file order.
pub open spec fn planned_unmatched(paths: Seq<Seq<char>>, names: Seq<Seq<char>>) -> Seq<Seq<char>>
    decreases paths.len(),
{
    if paths.len() == 0 {
        Seq::empty()
    } else {
        let prev = planned_unmatched(paths.drop_last(), names);
        let stem = stem_key(paths.last());
        if stem.len() > 0 && matching_materials(names, stem).len() == 0 {
            prev.push(file_name(paths.last()))
        } else {
            prev
        }
    }
}

/// The lower-cased material names.
pub open spec fn lowered(names: Seq<String>) -> Seq<Seq<char>> {
    names.map_values(|n: String| lowercase(n@))
}

/// The paths as character sequences.
pub open spec fn path_views(paths: Seq<String>) -> Seq<Seq<char>> {
    paths.map_values(|p: String| p@)
}

/// Which materials each dropped image file is assigned to.
pub struct AutoAssignPlan {
    /// Per matched file: its index among the dropped files and the materials it goes to.
    pub matches: Vec<(usize, Vec<usize>)>,
    /// File names of the files that matched no material.
    pub unmatched: Vec<String>,
}

/// Indices of the materials whose lower-cased name matches `stem`.
fn matching_material_indices(names: &Vec<Vec<char>>, stem: &Vec<char>) -> (r: Vec<usize>)
    ensures
        r@ == matching_materials(names@.map_values(|n: Vec<char>| n@), stem@),
{
    let ghost nv = names@.map_values(|n: Vec<char>| n@);
    let mut r: Vec<usize> = Vec::new();
    let mut i: usize = 0;
    while i < names.len()
        invariant
            i <= names@.len(),
            nv == names@.map_values(|n: Vec<char>| n@),
            r@ == matching_materials(nv.take(i as int), stem@),
        decreases names.len() - i,
    {
        proof {
            assert(nv.take(i + 1).drop_last() =~= nv.take(i as int));
            assert(nv.take(i + 1).last() == names@[i as int]@);
        }
        if contains_chars(&names[i], stem) || contains_chars(stem, &names[i]) {
            r.push(i);
        }
        i = i + 1;
    }
    assert(nv.take(names@.len() as int) =~= nv);
    r
}

/// Match dropped image files to materials by name: a file goes to every material whose
/// lower-cased name contains the lower-cased stem of the file's name, or is contained in
/// it. Files whose stem is empty are skipped; files that match nothing are listed by
/// file name.
pub fn auto_assign_plan(material_names: &Vec<String>, image_files: &Vec<String>) -> (r: AutoAssignPlan)
    ensures
        r.matches@.len() == planned_matches(path_views(image_files@), lowered(material_names@)).len(),
        forall|k: int|
            #![trigger r.matches@[k]]
            0 <= k < r.matches@.len() ==> {
                let p = planned_matches(path_views(image_files@), lowered(material_names@))[k];
                r.matches@[k].0 == p.0 && r.matches@[k].1@ == p.1
            },
        r.unmatched@.map_values(|s: String| s@) == planned_unmatched(
            path_views(image_files@),
            lowered(material_names@),
        ),
{
    let ghost names_l = lowered(material_names@);
    let ghost paths = path_views(image_files@);
    let mut lowered_names: Vec<Vec<char>> = Vec::new();
    let mut i: usize = 0;
    while i < material_names.len()
        invariant
            i <= material_names@.len(),
            names_l == lowered(material_names@),
            lowered_names@.len() == i,
            forall|j: int| 0 <= j < i ==> (#[trigger] lowered_names@[j])@ == names_l[j],
        decreases material_names.len() - i,
    {
        let l = to_lowercase(material_names[i].as_str());
        lowered_names.push(chars_of(l.as_str()));
        i = i + 1;
    }
    assert(lowered_names@.map_values(|n: Vec<char>| n@) =~= names_l);
    let mut matches: Vec<(usize, Vec<usize>)> = Vec::new();
    let mut unmatched: Vec<String> = Vec::new();
    let mut f: usize = 0;
    while f < image_files.len()
        invariant
            f <= image_files@.len(),
            names_l == lowered(material_names@),
            paths == path_views(image_files@),
            lowered_names@.map_values(|n: Vec<char>| n@) == names_l,
            matches@.len() == planned_matches(paths.take(f as int), names_l).len(),
            forall|k: int|
                #![trigger matches@[k]]
                0 <= k < matches@.len() ==> {
                    let p = planned_matches(paths.take(f as int), names_l)[k];
                    matches@[k].0 == p.0 && matches@[k].1@ == p.1
                },
            unmatched@.map_values(|s: String| s@) == planned_unmatched(paths.take(f as int), names_l),
        decreases image_files.len() - f,
    {
        let ghost pre = paths.take(f as int);
        let ghost cur = paths.take(f + 1);
        proof {
            assert(cur.drop_last() =~= pre);
            assert(cur.last() == image_files@[f as int]@);
        }
        let fname = file_name_of(&image_files[f]);
        let stem = file_stem_of(&fname);
        let stem_l = to_lowercase(stem.as_str());
        let sc = chars_of(stem_l.as_str());
        if sc.len() > 0 {
            let m = matching_material_indices(&lowered_names, &sc);
            if m.len() == 0 {
                let ghost u0 = unmatched@;
                unmatched.push(fname);
                proof {
                    assert(unmatched@.map_values(|s: String| s@) =~= u0.map_values(|s: String| s@).push(
                        file_name(cur.last()),
                    ));
                }
            } else {
                matches.push((f, m));
            }
        }
        f = f + 1;
    }
    proof {
        assert(paths.take(image_files@.len() as int) =~= paths);
    }
    AutoAssignPlan { matches, unmatched }
}

// ---------------------------------------------------------------------------
// Assigning a texture source, with the assignment history
// ---------------------------------------------------------------------------

/// Whether a path names a PSD file by its extension (compared lower-cased).
pub open spec fn psd_by_extension(path: Seq<char>) -> bool {
    lowercase(extension(file_name(path))) == seq!['p', 's', 'd']
}

/// The name a source is shown and recorded under.
pub open spec fn source_name(s: SourceView) -> Seq<char> {
    match s {
        SourceView::File(p) => p,
        SourceView::Cached { original_name, .. } => original_name,
    }
}

/// The bytes of a source: those read from the file for a file source, the
/// kept ones otherwise.
pub open spec fn source_bytes(s: SourceView, file_data: Seq<u8>) -> Seq<u8> {
    match s {
        SourceView::File(_) => file_data,
        SourceView::Cached { data, .. } => data,
    }
}

/// Whether a source holds PSD data: by the file's extension, or as recorded.
pub open spec fn source_psd(s: SourceView) -> bool {
    match s {
        SourceView::File(p) => psd_by_extension(p),
        SourceView::Cached { is_psd, .. } => is_psd,
    }
}

/// The materials an assignment to `mi` is recorded for: `mi`, and with same-name
/// linking on, its same-name siblings.
pub open spec fn history_targets<T, B, V>(app: ViewerApp<T, B, V>, mi: usize) -> Set<usize> {
    Set::new(
        |j: usize|
            j == mi || (app.tex.link_same_name && app.loaded is Some && siblings(
                app.loaded->0.materials@,
                mi as int,
            ).contains(j)),
    )
}

/// Whether the path `path` names a PSD file by its extension.
pub fn is_psd_path(path: &String) -> (r: bool)
    ensures
        r == psd_by_extension(path@),
{
    let ext = to_lowercase(extension_of(&file_name_of(path)).as_str());
    let cs = chars_of(ext.as_str());
    let psd: Vec<char> = vec!['p', 's', 'd'];
    assert(psd@ =~= seq!['p', 's', 'd']);
    chars_eq(&cs, psd.as_slice())
}

/// Recording a source for one more material.
proof fn lemma_recorded_insert(h: Map<usize, SourceView>, targets: Set<usize>, x: usize, src: SourceView)
    ensures
        recorded(h, targets, src).insert(x, src) == recorded(h, targets.insert(x), src),
{
    assert(recorded(h, targets, src).insert(x, src) =~= recorded(h, targets.insert(x), src));
}

impl<T, B, V> ViewerApp<T, B, V> {
    /// Record `src` in the assignment history for material `mi` and, with same-name
    /// linking on, for its same-name siblings; nothing else changes.
    fn record_assignment(&mut self, mi: usize, src: &TextureSource)
        requires
            old(self).loaded is Some ==> mi < old(self).loaded->0.materials@.len(),
        ensures
            history_view(final(self).tex.assignments@) == recorded(
                history_view(old(self).tex.assignments@),
                history_targets(*old(self), mi),
                src@,
            ),
            final(self).loaded == old(self).loaded,
            final(self).has_renderer == old(self).has_renderer,
            final(self).dirty_materials == old(self).dirty_materials,
            final(self).tex.pending_preview == old(self).tex.pending_preview,
            final(self).tex.pending_match == old(self).tex.pending_match,
            final(self).tex.pkg_textures == old(self).tex.pkg_textures,
            final(self).tex.pkg_thumb_cache == old(self).tex.pkg_thumb_cache,
            final(self).tex.ir_thumb_cache == old(self).tex.ir_thumb_cache,
            final(self).tex.link_same_name == old(self).tex.link_same_name,
            final(self).tex.pending_psd_conversions == old(self).tex.pending_psd_conversions,
            final(self).convert_message == old(self).convert_message,
    {
        let ghost app0 = *self;
        let mut hist: HashMap<usize, TextureSource> = HashMap::new();
        std::mem::swap(&mut hist, &mut self.tex.assignments);
        let ghost h0 = history_view(hist@);
        let ghost before = hist@;
        let d = src.duplicate();
        hist.insert(mi, d);
        proof {
            lemma_history_insert(before, mi, d);
            lemma_recorded_insert(h0, Set::empty(), mi, src@);
            assert(recorded(h0, Set::empty(), src@) =~= h0);
        }
        let ghost base: Set<usize> = Set::empty().insert(mi);
        assert(history_view(hist@) == recorded(h0, base, src@));
        if self.tex.link_same_name {
            match &self.loaded {
                Some(l) => {
                    let sibs = l.same_name_siblings(mi);
                    let mut k: usize = 0;
                    while k < sibs.len()
                        invariant
                            k <= sibs@.len(),
                            history_view(hist@) == recorded(
                                h0,
                                Set::new(|j: usize| j == mi || sibs@.take(k as int).contains(j)),
                                src@,
                            ),
                        decreases sibs.len() - k,
                    {
                        let ghost prev = hist@;
                        let e = src.duplicate();
                        hist.insert(sibs[k], e);
                        proof {
                            lemma_history_insert(prev, sibs@[k as int], e);
                            let t0 = Set::new(|j: usize| j == mi || sibs@.take(k as int).contains(j));
                            let t1 = Set::new(|j: usize| j == mi || sibs@.take(k + 1).contains(j));
                            lemma_recorded_insert(h0, t0, sibs@[k as int], src@);
                            assert forall|j: usize| t1.contains(j) <==> t0.insert(sibs@[k as int]).contains(j) by {
                                if sibs@.take(k + 1).contains(j) && j != sibs@[k as int] {
                                    let q = choose|q: int| 0 <= q < k + 1 && #[trigger] sibs@.take(k + 1)[q] == j;
                                    assert(sibs@.take(k as int)[q] == j);
                                }
                                if sibs@.take(k as int).contains(j) {
                                    let q = choose|q: int| 0 <= q < k && #[trigger] sibs@.take(k as int)[q] == j;
                                    assert(sibs@.take(k + 1)[q] == j);
                                }
                                if j == sibs@[k as int] {
                                    assert(sibs@.take(k + 1)[k as int] == j);
                                }
                            }
                            assert(t1 =~= t0.insert(sibs@[k as int]));
                        }
                        k = k + 1;
                    }
                    proof {
                        assert(sibs@.take(k as int) =~= sibs@);
                        assert(Set::new(|j: usize| j == mi || sibs@.take(k as int).contains(j)) =~= history_targets(
                            app0,
                            mi,
                        ));
                    }
                },
                None => {
                    assert(base =~= history_targets(app0, mi));
                },
            }
        } else {
            assert(base =~= history_targets(app0, mi));
        }
        self.tex.assignments = hist;
    }
}

impl<T, B, V> ViewerApp<T, B, V> {
    /// Everything but the assignment history is as in `self`.
    pub open spec fn same_but_history(self, other: Self) -> bool {
        &&& other.loaded == self.loaded
        &&& other.has_renderer == self.has_renderer
        &&& other.dirty_materials == self.dirty_materials
        &&& other.tex.pending_preview == self.tex.pending_preview
        &&& other.tex.pending_match == self.tex.pending_match
        &&& other.tex.pkg_textures == self.tex.pkg_textures
        &&& other.tex.pkg_thumb_cache == self.tex.pkg_thumb_cache
        &&& other.tex.ir_thumb_cache == self.tex.ir_thumb_cache
        &&& other.tex.link_same_name == self.tex.link_same_name
        &&& other.tex.pending_psd_conversions == self.tex.pending_psd_conversions
    }

    /// What assigning `data` (PSD or not, named `name`) to the base color of
    /// material `mi` made of the textures, materials and draws: with a model and
    /// bytes that decode, the assignment, with the material info cache refreshed;
    /// otherwise nothing.
    pub open spec fn base_color_outcome<Bk: TextureBackend<T, B, V>>(
        self,
        new: Self,
        mi: usize,
        data: Seq<u8>,
        psd: bool,
        name: Seq<char>,
    ) -> bool {
        if self.loaded is Some && texture_decoded::<T, B, V, Bk>(data, psd) is Ok {
            &&& self.assigned_textures(new, mi, TextureSlot::BaseColor, data, psd, name)
            &&& mat_cache_matches(new.loaded->0.mat_cache, new.loaded->0.materials@, new.loaded->0.draws@)
        } else {
            self.same_but_history(new)
        }
    }

}

impl<T, B, V: Clone> ViewerApp<T, B, V> {
    /// Assign a texture source to the base color of material `mi`. A file
    /// source's bytes are `file_data` (read by the caller; the file is PSD by its
    /// extension); a cached source holds its own. Only when there is a model and
    /// the bytes decode is the texture assigned and the source recorded in the
    /// assignment history (for
    /// the material, and its same-name siblings when linked) and the material
    /// info cache refreshed.
    pub fn assign_texture_source_to_material<Bk: TextureBackend<T, B, V>>(
        &mut self,
        backend: &mut Bk,
        material_index: usize,
        tex_source: &TextureSource,
        file_data: &Vec<u8>,
    )
        requires
            old(self).loaded is Some ==> material_index < old(self).loaded->0.materials@.len(),
        ensures
            old(self).loaded is None ==> *final(self) == (ViewerApp { convert_message: final(self).convert_message, ..*old(self) }),
            ({
                let v = tex_source@;
                let data = source_bytes(v, file_data@);
                let psd = source_psd(v);
                let name = source_name(v);
                let h0 = history_view(old(self).tex.assignments@);
                if old(self).loaded is Some && texture_decoded::<T, B, V, Bk>(data, psd) is Ok {
                    // assigned, recorded, and the material info cache refreshed
                    &&& old(self).assigned_textures(*final(self), material_index, TextureSlot::BaseColor, data, psd, name)
                    &&& history_view(final(self).tex.assignments@) == recorded(
                        h0,
                        history_targets(*old(self), material_index),
                        v,
                    )
                    &&& mat_cache_matches(
                        final(self).loaded->0.mat_cache,
                        final(self).loaded->0.materials@,
                        final(self).loaded->0.draws@,
                    )
                } else {
                    // no model, or the bytes do not decode
                    *final(self) == (ViewerApp { convert_message: final(self).convert_message, ..*old(self) })
                }
            }),
            message_view(final(self).convert_message) == load_status(
                old(self).convert_message,
                texture_decoded::<T, B, V, Bk>(source_bytes(tex_source@, file_data@), source_psd(tex_source@)),
            ),
    {
        let ghost app0 = *self;
        let ok = match tex_source {
            TextureSource::File(path) => {
                let psd = is_psd_path(path);
                self.assign_texture_core(backend, material_index, TextureSlot::BaseColor, file_data, psd, path)
            },
            TextureSource::Cached { original_name, data, is_psd } => {
                self.assign_texture_core(backend, material_index, TextureSlot::BaseColor, data, *is_psd, original_name)
            },
        };
        if !ok {
            return;
        }
        let ghost mid = *self;
        proof {
            let m0 = app0.loaded->0.materials@;
            let m1 = mid.loaded->0.materials@;
            assert forall|k: int| 0 <= k < m0.len() implies (#[trigger] m0[k]).name@ == m1[k].name@ && m0[k].group
                == m1[k].group by {
                if k == material_index {
                } else {
                    assert(m1[k] == m1[k]);
                }
            }
            lemma_siblings_frame(m0, m1, material_index as int, m0.len() as int);
            assert(history_targets(mid, material_index) =~= history_targets(app0, material_index));
        }
        self.record_assignment(material_index, tex_source);
        self.update_mat_cache();
    }

    /// Assign an image file to the base color of material `mi`: `tex_data` are
    /// the bytes read from `path` (by the caller), PSD by the path's extension,
    /// and `is_temp` tells whether the path is a temporary file. The file is
    /// assigned as bytes in memory; the history then records, for the material
    /// (and its same-name siblings when linked), the bytes for a temporary file
    /// and the path otherwise, whether or not the bytes decoded.
    pub fn assign_texture_to_material<Bk: TextureBackend<T, B, V>>(
        &mut self,
        backend: &mut Bk,
        material_index: usize,
        path: &String,
        tex_data: Vec<u8>,
        is_temp: bool,
    )
        requires
            old(self).loaded is Some ==> material_index < old(self).loaded->0.materials@.len(),
        ensures
            ({
                let psd = psd_by_extension(path@);
                let kept = SourceView::Cached { original_name: path@, data: tex_data@, is_psd: psd };
                let hist = if is_temp { kept } else { SourceView::File(path@) };
                &&& old(self).base_color_outcome::<Bk>(*final(self), material_index, tex_data@, psd, path@)
                &&& message_view(final(self).convert_message) == load_status(
                    old(self).convert_message,
                    texture_decoded::<T, B, V, Bk>(tex_data@, psd),
                )
                &&& history_view(final(self).tex.assignments@) == recorded(
                    history_view(old(self).tex.assignments@),
                    history_targets(*old(self), material_index),
                    hist,
                )
            }),
    {
        let ghost app0 = *self;
        let is_psd = is_psd_path(path);
        let data_copy = copy_bytes(&tex_data);
        let cached = TextureSource::Cached { original_name: path.clone(), data: tex_data, is_psd };
        let history = if is_temp {
            TextureSource::Cached { original_name: path.clone(), data: data_copy, is_psd }
        } else {
            TextureSource::File(path.clone())
        };
        let no_file: Vec<u8> = Vec::new();
        self.assign_texture_source_to_material(backend, material_index, &cached, &no_file);
        let ghost mid = *self;
        proof {
            if app0.loaded is Some && !app0.same_but_history(mid) {
                let m0 = app0.loaded->0.materials@;
                let m1 = mid.loaded->0.materials@;
                assert forall|k: int| 0 <= k < m0.len() implies (#[trigger] m0[k]).name@ == m1[k].name@
                    && m0[k].group == m1[k].group by {
                    if k == material_index {
                    } else {
                        assert(m1[k] == m1[k]);
                    }
                }
                lemma_siblings_frame(m0, m1, material_index as int, m0.len() as int);
            }
            assert(history_targets(mid, material_index) =~= history_targets(app0, material_index));
            let h0 = history_view(app0.tex.assignments@);
            let t = history_targets(app0, material_index);
            assert(recorded(recorded(h0, t, cached@), t, history@) =~= recorded(h0, t, history@));
        }
        self.record_assignment(material_index, &history);
    }
}

// ---------------------------------------------------------------------------
// Thumbnails of model textures
// ---------------------------------------------------------------------------

/// The thumbnail a decode result gives at `thumb_size`: the scaled pixels, or nothing
/// when the bytes did not decode, the scaled buffers would not fit, or the pixels do not
/// hold the whole image.
pub open spec fn thumbnail_of(decoded: DecodeView, thumb_size: u32) -> Option<Seq<u8>> {
    match decoded {
        Err(_) => None,
        Ok((pixels, w, h)) => if scaling_fits(w, thumb_size) && holds_rgba(pixels, w, h) {
            Some(triangle_resized(pixels, w, h, thumb_size))
        } else {
            None
        },
    }
}

/// The bytes of an optional buffer.
pub open spec fn opt_bytes(r: Option<Vec<u8>>) -> Option<Seq<u8>> {
    match r {
        Some(v) => Some(v@),
        None => None,
    }
}

proof fn lemma_outcome_thumbnail(dv: DecodeView, thumb_size: u32, r: Result<Vec<u8>, ThumbnailError>)
    requires
        thumbnail_outcome(dv, thumb_size, r),
    ensures
        opt_bytes(r.ok()) == thumbnail_of(dv, thumb_size),
{
}

/// The RGBA8 thumbnail (`thumb_size` x `thumb_size`) of a model texture: decoded pixels
/// are scaled directly, encoded bytes are decoded first (PSD bytes by `decode_psd`;
/// `is_psd` tells whether the texture's file name names a PSD file). `None` when the
/// texture cannot be decoded, its pixels do not hold the whole image, or the scaled
/// buffers would not fit in the address space.
pub fn ir_thumbnail_rgba<F: Fn(&[u8]) -> Result<RgbaImageData, DecodeError>>(
    tex: &IrTexture,
    thumb_size: u32,
    is_psd: bool,
    decode_psd: F,
) -> (r: Option<Vec<u8>>)
    requires
        tex.data is Encoded && is_psd ==> forall|s: &[u8]|
            s@ == tex.data.bytes() ==> #[trigger] decode_psd.requires((s,)),
    ensures
        match tex.data {
            TextureData::RawRgba { pixels, width, height } => opt_bytes(r) == thumbnail_of(
                Ok((pixels@, width, height)),
                thumb_size,
            ),
            TextureData::Encoded(d) => if is_psd {
                exists|s: &[u8], dr: Result<RgbaImageData, DecodeError>|
                    s@ == d@ && #[trigger] decode_psd.ensures((s,), dr) && opt_bytes(r) == thumbnail_of(
                        decode_view(dr),
                        thumb_size,
                    )
            } else {
                opt_bytes(r) == thumbnail_of(decoded_guessed(d@), thumb_size)
            },
        },
        r matches Some(v) ==> v@.len() == 4 * thumb_size * thumb_size,
{
    match &tex.data {
        TextureData::RawRgba { pixels, width, height } => {
            let w = *width as u64;
            let ts = thumb_size as u64;
            assert(w * ts <= u32::MAX * u32::MAX && ts * ts <= u32::MAX * u32::MAX) by (nonlinear_arith)
                requires
                    w <= u32::MAX,
                    ts <= u32::MAX,
            ;
            assert((w * ts) * 4 == 4 * *width * thumb_size && (ts * ts) * 4 == 4 * thumb_size
                * thumb_size) by (nonlinear_arith)
                requires
                    w == *width,
                    ts == thumb_size,
            ;
            let fits = match (w * ts).checked_mul(4) {
                Some(a) => match (ts * ts).checked_mul(4) {
                    Some(b) => a <= usize::MAX as u64 && b <= usize::MAX as u64,
                    None => false,
                },
                None => false,
            };
            if !fits {
                return None;
            }
            let img = RgbaImageData { pixels: copy_bytes(pixels), width: *width, height: *height };
            let t = thumbnail_from_rgba(img, thumb_size);
            match t {
                Ok(v) => Some(v),
                Err(_) => None,
            }
        },
        TextureData::Encoded(d) => {
            let data = d.as_slice();
            let t = create_thumbnail_rgba(data, is_psd, thumb_size, decode_psd);
            proof {
                if !is_psd {
                    lemma_outcome_thumbnail(decoded_guessed(d@), thumb_size, t);
                } else {
                    let dr = choose|dr: Result<RgbaImageData, DecodeError>|
                        decode_psd.ensures((data,), dr) && #[trigger] thumbnail_outcome(
                            decode_view(dr),
                            thumb_size,
                            t,
                        );
                    lemma_outcome_thumbnail(decode_view(dr), thumb_size, t);
                    assert(decode_psd.ensures((data,), dr));
                }
            }
            match t {
                Ok(v) => Some(v),
                Err(_) => None,
            }
        },
    }
}

// ---------------------------------------------------------------------------
// Reuse of an assigned texture
// ---------------------------------------------------------------------------

/// Appending a matching texture behind textures that hold no match finds it.
proof fn lemma_find_texture_push(s: Seq<IrTexture>, t: IrTexture, name: Seq<char>, data: Seq<u8>, k: int)
    requires
        0 <= k <= s.len(),
        find_texture(s, name, data, k) == s.len(),
        t.filename@ == name,
        t.data.bytes() == data,
    ensures
        find_texture(s.push(t), name, data, k) == s.len(),
    decreases s.len() - k,
{
    if k < s.len() {
        assert(s.push(t)[k] == s[k]);
        lemma_find_texture_push(s, t, name, data, k + 1);
    } else {
        assert(s.push(t)[k] == t);
    }
}

/// Assigning the same bytes under the same name to a second material's base color
/// reuses the texture the first assignment recorded: no texture and no GPU view is
/// added, and the second material gets the texture index the first one got.
/// `a0 -> a1` and `a1 -> a2` are what two successful calls of
/// [`ViewerApp::assign_texture_data_to_material`] (or of
/// [`ViewerApp::assign_texture_core`]) leave. The first call leaves a model
/// loaded, and success with a model depends only on the bytes decoding, so the
/// second call with the same bytes succeeds whenever the first did.
pub proof fn second_assignment_reuses_texture<T, B, V>(
    a0: ViewerApp<T, B, V>,
    a1: ViewerApp<T, B, V>,
    a2: ViewerApp<T, B, V>,
    i: usize,
    j: usize,
    data: Seq<u8>,
    is_psd: bool,
    name: Seq<char>,
)
    requires
        a0.loaded is Some,
        i < a0.loaded->0.materials@.len(),
        j < a0.loaded->0.materials@.len(),
        a0.assigned(a1, i, TextureSlot::BaseColor, data, is_psd, name),
        a1.assigned(a2, j, TextureSlot::BaseColor, data, is_psd, name),
    ensures
        a1.loaded is Some,
        j < a1.loaded->0.materials@.len(),
        a2.loaded->0.textures == a1.loaded->0.textures,
        a2.loaded->0.texture_views@.len() == a1.loaded->0.texture_views@.len(),
        a2.loaded->0.materials@[j as int].texture_index == a1.loaded->0.materials@[i as int].texture_index,
        a1.loaded->0.materials@[i as int].texture_index is Some,
{
    let l0 = a0.loaded->0;
    let l1 = a1.loaded->0;
    let rn = recorded_name(name, is_psd);
    let n0 = l0.textures@.len();
    let k0 = find_texture(l0.textures@, rn, data, 0);
    lemma_find_texture_bounds(l0.textures@, rn, data, 0);
    let k1 = find_texture(l1.textures@, rn, data, 0);
    if k0 == n0 {
        let t = l1.textures@[n0 as int];
        assert(l1.textures@ =~= l0.textures@.push(t));
        lemma_find_texture_push(l0.textures@, t, rn, data, 0);
        assert(k1 == n0);
    } else {
        assert(k1 == k0);
    }
    lemma_find_texture_bounds(l1.textures@, rn, data, 0);
    assert(k1 < l1.textures@.len());
}

// ---------------------------------------------------------------------------
// Recalling texture assignments from the history
// ---------------------------------------------------------------------------

/// One saved texture assignment.
pub struct HistoryEntry {
    pub material_index: usize,
    pub material_name: String,
    pub texture_path: String,
    pub slot: TextureSlot,
}

/// What recalling the history applies: the (material, slot, path) assignments in
/// entry order, and how many entries were skipped.
pub struct RecallPlan {
    pub assignments: Vec<(usize, TextureSlot, String)>,
    pub skipped: usize,
}

/// The plan after the first `n` entries: the assignments, the (material, slot)
/// pairs already taken, and the number skipped. An entry whose material cannot be
/// resolved is skipped; an entry for a pair already taken is ignored; an entry
/// whose file is missing takes its pair and is skipped.
pub open spec fn recall_upto(
    entries: Seq<HistoryEntry>,
    resolved: Seq<Option<usize>>,
    exists: Seq<bool>,
    n: int,
) -> (Seq<(usize, TextureSlot, Seq<char>)>, Seq<(usize, TextureSlot)>, nat)
    decreases n,
{
    if n <= 0 {
        (Seq::empty(), Seq::empty(), 0)
    } else {
        let prev = recall_upto(entries, resolved, exists, n - 1);
        let e = entries[n - 1];
        match resolved[n - 1] {
            None => (prev.0, prev.1, prev.2 + 1),
            Some(m) => if prev.1.contains((m, e.slot)) {
                prev
            } else if !exists[n - 1] {
                (prev.0, prev.1.push((m, e.slot)), prev.2 + 1)
            } else {
                (prev.0.push((m, e.slot, e.texture_path@)), prev.1.push((m, e.slot)), prev.2)
            },
        }
    }
}

/// The views of planned assignments.
pub open spec fn plan_views(v: Seq<(usize, TextureSlot, String)>) -> Seq<(usize, TextureSlot, Seq<char>)> {
    v.map_values(|a: (usize, TextureSlot, String)| (a.0, a.1, a.2@))
}

/// Whether `(m, slot)` occurs in `taken`.
fn pair_taken(taken: &Vec<(usize, TextureSlot)>, m: usize, slot: TextureSlot) -> (r: bool)
    ensures
        r == taken@.contains((m, slot)),
{
    let mut i: usize = 0;
    while i < taken.len()
        invariant
            i <= taken@.len(),
            forall|k: int| 0 <= k < i ==> taken@[k] != (m, slot),
        decreases taken.len() - i,
    {
        let (tm, ts) = taken[i];
        if tm == m && ts == slot {
            assert(taken@[i as int] == (m, slot));
            return true;
        }
        i = i + 1;
    }
    false
}

/// Plan the recall of saved texture assignments: `resolved[i]` is the material entry
/// `i` resolves to in the loaded model (if any) and `exists[i]` whether its texture
/// file exists. Each (material, slot) pair is assigned at most once, by its first
/// entry; entries that cannot be resolved or whose file is missing are counted as
/// skipped.
pub fn plan_history_recall(
    entries: &Vec<HistoryEntry>,
    resolved: &Vec<Option<usize>>,
    exists: &Vec<bool>,
) -> (r: RecallPlan)
    requires
        resolved@.len() == entries@.len(),
        exists@.len() == entries@.len(),
    ensures
        plan_views(r.assignments@) == recall_upto(entries@, resolved@, exists@, entries@.len() as int).0,
        r.skipped == recall_upto(entries@, resolved@, exists@, entries@.len() as int).2,
{
    let mut out: Vec<(usize, TextureSlot, String)> = Vec::new();
    let mut taken: Vec<(usize, TextureSlot)> = Vec::new();
    let mut skipped: usize = 0;
    let mut i: usize = 0;
    while i < entries.len()
        invariant
            i <= entries@.len(),
            resolved@.len() == entries@.len(),
            exists@.len() == entries@.len(),
            plan_views(out@) == recall_upto(entries@, resolved@, exists@, i as int).0,
            taken@ == recall_upto(entries@, resolved@, exists@, i as int).1,
            skipped == recall_upto(entries@, resolved@, exists@, i as int).2,
            skipped <= i,
        decreases entries.len() - i,
    {
        let e = &entries[i];
        match resolved[i] {
            None => {
                skipped = skipped + 1;
            },
            Some(m) => {
                if !pair_taken(&taken, m, e.slot) {
                    taken.push((m, e.slot));
                    if !exists[i] {
                        skipped = skipped + 1;
                    } else {
                        let ghost o0 = out@;
                        out.push((m, e.slot, e.texture_path.clone()));
                        assert(plan_views(out@) =~= plan_views(o0).push((m, e.slot, e.texture_path@)));
                    }
                }
            },
        }
        i = i + 1;
    }
    RecallPlan { assignments: out, skipped }
}


/// Whether recalling planned entry `i` applies: its file was read and its bytes
/// decode (PSD by the path's extension).
pub open spec fn recall_applies<T, B, V, Bk: TextureBackend<T, B, V>>(
    plan: Seq<(usize, TextureSlot, String)>,
    files: Seq<Option<Vec<u8>>>,
    i: int,
) -> bool {
    &&& files[i] is Some
    &&& texture_decoded::<T, B, V, Bk>(files[i]->0@, psd_by_extension(plan[i].2@)) is Ok
}

/// Number of the first `n` planned entries that apply.
pub open spec fn recall_applied_count<T, B, V, Bk: TextureBackend<T, B, V>>(
    plan: Seq<(usize, TextureSlot, String)>,
    files: Seq<Option<Vec<u8>>>,
    n: int,
) -> nat
    decreases n,
{
    if n <= 0 {
        0
    } else {
        recall_applied_count::<T, B, V, Bk>(plan, files, n - 1) + if recall_applies::<T, B, V, Bk>(plan, files, n - 1) {
            1nat
        } else {
            0nat
        }
    }
}

/// Whether an applied entry among the first `n` is for material `j`.
pub open spec fn recall_touches<T, B, V, Bk: TextureBackend<T, B, V>>(
    plan: Seq<(usize, TextureSlot, String)>,
    files: Seq<Option<Vec<u8>>>,
    j: usize,
    n: int,
) -> bool {
    exists|i: int| 0 <= i < n && (#[trigger] plan[i]).0 == j && recall_applies::<T, B, V, Bk>(plan, files, i)
}

/// What the assignment history records for a recalled base color: the bytes for a
/// temporary file, the path otherwise.
pub open spec fn recall_source(path: Seq<char>, data: Seq<u8>, temp: bool) -> SourceView {
    if temp {
        SourceView::Cached { original_name: path, data, is_psd: psd_by_extension(path) }
    } else {
        SourceView::File(path)
    }
}

/// The assignment history after recalling the first `n` entries into an empty
/// one: every base color entry whose file was read is recorded, decoding or not.
pub open spec fn recall_history(
    plan: Seq<(usize, TextureSlot, String)>,
    files: Seq<Option<Vec<u8>>>,
    temps: Seq<bool>,
    n: int,
) -> Map<usize, SourceView>
    decreases n,
{
    if n <= 0 {
        Map::empty()
    } else {
        let h = recall_history(plan, files, temps, n - 1);
        if plan[n - 1].1 == TextureSlot::BaseColor && files[n - 1] is Some {
            h.insert(plan[n - 1].0, recall_source(plan[n - 1].2@, files[n - 1]->0@, temps[n - 1]))
        } else {
            h
        }
    }
}

/// Material `j` after the pristine copies are put back: its pristine copy where
/// there is one, as it was otherwise.
pub open spec fn reset_material(mats: Seq<IrMaterial>, pristine: Seq<IrMaterial>, j: int) -> IrMaterial {
    if j < pristine.len() {
        pristine[j]
    } else {
        mats[j]
    }
}

impl<T, B, V> ViewerApp<T, B, V> {
    /// One step of a recall, from `self` to `new`: when planned entry `k` applies,
    /// its file's bytes are assigned to its slot of its material (PSD by the
    /// path's extension; named by the path for a base color, by the file name for
    /// other slots); otherwise nothing but the assignment history changes.
    pub open spec fn recall_step<Bk: TextureBackend<T, B, V>>(
        self,
        new: Self,
        plan: Seq<(usize, TextureSlot, String)>,
        files: Seq<Option<Vec<u8>>>,
        k: int,
    ) -> bool {
        let (m, slot, path) = plan[k];
        if recall_applies::<T, B, V, Bk>(plan, files, k) {
            self.assigned_textures(
                new,
                m,
                slot,
                files[k]->0@,
                psd_by_extension(path@),
                if slot == TextureSlot::BaseColor { path@ } else { file_name(path@) },
            )
        } else {
            self.same_but_history(new)
        }
    }

    /// `trace` is the run of a recall from `self`: its first state is `self` with
    /// the pristine materials back (each material queued for a rebuild), the
    /// history emptied and linking suspended, and each next state follows by one
    /// step of the plan.
    pub open spec fn recall_trace<Bk: TextureBackend<T, B, V>>(
        self,
        trace: Seq<Self>,
        plan: Seq<(usize, TextureSlot, String)>,
        files: Seq<Option<Vec<u8>>>,
        pristine: Seq<IrMaterial>,
    ) -> bool {
        let l0 = self.loaded->0;
        let s0 = trace[0];
        let n = l0.materials@.len();
        &&& trace.len() == plan.len() + 1
        &&& s0.loaded is Some
        &&& s0.loaded->0.materials@ == Seq::new(n, |j: int| reset_material(l0.materials@, pristine, j))
        &&& s0.loaded->0.textures == l0.textures
        &&& s0.loaded->0.draws == l0.draws
        &&& s0.loaded->0.texture_views == l0.texture_views
        &&& s0.loaded->0.appended_models == l0.appended_models
        &&& s0.loaded->0.source == l0.source
        &&& s0.has_renderer == self.has_renderer
        &&& s0.dirty_materials@ == self.dirty_materials@ + Seq::new(n, |j: int| j as usize)
        &&& s0.tex.assignments@ == Map::<usize, TextureSource>::empty()
        &&& !s0.tex.link_same_name
        &&& s0.tex.pending_preview == self.tex.pending_preview
        &&& s0.tex.pending_match == self.tex.pending_match
        &&& s0.tex.pkg_textures == self.tex.pkg_textures
        &&& s0.tex.pkg_thumb_cache == self.tex.pkg_thumb_cache
        &&& s0.tex.ir_thumb_cache == self.tex.ir_thumb_cache
        &&& s0.tex.pending_psd_conversions == self.tex.pending_psd_conversions
        &&& forall|k: int| 0 <= k < plan.len() ==> #[trigger] trace[k].recall_step::<Bk>(trace[k + 1], plan, files, k)
    }
}

impl<T, B, V: Clone> ViewerApp<T, B, V> {
    /// Apply a recall plan to the loaded model. First every material that has a
    /// pristine copy gets it back (each material is queued for a rebuild), the
    /// assignment history is emptied and same-name linking is suspended; then the
    /// planned assignments are applied in order, `files[i]` holding the bytes read
    /// from entry `i`'s path (`None` when reading failed) and `temps[i]` whether
    /// that path is a temporary file. A base color entry whose file was read is
    /// recorded in the history whether or not its bytes decode. Linking is then
    /// restored and the material info cache refreshed. Returns the number of
    /// entries applied and the number skipped (the plan's own skips, plus entries
    /// whose file could not be read or does not decode). Without a model nothing
    /// changes.
    pub fn recall_texture_history<Bk: TextureBackend<T, B, V>>(
        &mut self,
        backend: &mut Bk,
        plan: &RecallPlan,
        pristine: Vec<IrMaterial>,
        files: &Vec<Option<Vec<u8>>>,
        temps: &Vec<bool>,
    ) -> (r: (usize, usize))
        requires
            files@.len() == plan.assignments@.len(),
            temps@.len() == plan.assignments@.len(),
            plan.skipped + plan.assignments@.len() <= usize::MAX,
            old(self).loaded is Some ==> forall|i: int| 0 <= i < plan.assignments@.len()
                ==> (#[trigger] plan.assignments@[i]).0 < old(self).loaded->0.materials@.len(),
        ensures
            old(self).loaded is None ==> *final(self) == *old(self) && r == (0usize, plan.skipped),
            old(self).loaded is Some ==> {
                let a = plan.assignments@;
                let n = a.len() as int;
                let m0 = old(self).loaded->0.materials@;
                let m1 = final(self).loaded->0.materials@;
                &&& final(self).loaded is Some
                &&& r.0 == recall_applied_count::<T, B, V, Bk>(a, files@, n)
                &&& r.1 == plan.skipped + n - r.0
                &&& final(self).tex.link_same_name == old(self).tex.link_same_name
                &&& history_view(final(self).tex.assignments@) == recall_history(a, files@, temps@, n)
                &&& m1.len() == m0.len()
                &&& forall|j: int| 0 <= j < m0.len() && !recall_touches::<T, B, V, Bk>(a, files@, j as usize, n)
                    ==> #[trigger] m1[j] == reset_material(m0, pristine@, j)
                &&& mat_cache_matches(final(self).loaded->0.mat_cache, m1, final(self).loaded->0.draws@)
                // the state is the end of a run of the plan's steps from the pristine materials
                &&& exists|trace: Seq<Self>| {
                    let last = trace[n];
                    &&& #[trigger] old(self).recall_trace::<Bk>(trace, a, files@, pristine@)
                    &&& final(self).loaded->0.textures == last.loaded->0.textures
                    &&& final(self).loaded->0.materials == last.loaded->0.materials
                    &&& final(self).loaded->0.draws == last.loaded->0.draws
                    &&& final(self).loaded->0.texture_views == last.loaded->0.texture_views
                    &&& final(self).dirty_materials == last.dirty_materials
                    &&& final(self).tex.ir_thumb_cache == last.tex.ir_thumb_cache
                    &&& final(self).tex.pending_psd_conversions == last.tex.pending_psd_conversions
                }
            },
    {
        if self.loaded.is_none() {
            return (0, plan.skipped);
        }
        let ghost app0 = *self;
        let ghost m0 = self.loaded->0.materials@;
        let ghost p0 = pristine@;
        let saved_link = self.tex.link_same_name;
        // the pristine materials come back first
        let mut loaded = self.loaded.take().unwrap();
        let n = loaded.materials.len();
        let mut pristine = pristine;
        let mut i: usize = 0;
        while i < n
            invariant
                i <= n == loaded.materials@.len() == m0.len(),
                pristine@ == if (i as int) < p0.len() { p0.skip(i as int) } else { Seq::empty() },
                forall|j: int| 0 <= j < i ==> #[trigger] loaded.materials@[j] == reset_material(m0, p0, j),
                forall|j: int| i <= j < n ==> #[trigger] loaded.materials@[j] == m0[j],
                self.dirty_materials@ == app0.dirty_materials@ + Seq::new(i as nat, |j: int| j as usize),
                self.tex == app0.tex,
                self.has_renderer == app0.has_renderer,
                loaded.textures == app0.loaded->0.textures,
                loaded.draws == app0.loaded->0.draws,
                loaded.texture_views == app0.loaded->0.texture_views,
                loaded.appended_models == app0.loaded->0.appended_models,
                loaded.source == app0.loaded->0.source,
            decreases n - i,
        {
            if pristine.len() > 0 {
                let m = pristine.remove(0);
                assert(m == p0[i as int]);
                loaded.materials.set(i, m);
                assert(pristine@ =~= if (i + 1) < p0.len() { p0.skip(i + 1) } else { Seq::<IrMaterial>::empty() });
            }
            let ghost d0 = self.dirty_materials@;
            self.dirty_materials.push(i);
            assert(self.dirty_materials@ =~= app0.dirty_materials@ + Seq::new((i + 1) as nat, |j: int| j as usize));
            i = i + 1;
        }
        self.loaded = Some(loaded);
        let ghost mr = self.loaded->0.materials@;
        self.tex.assignments = HashMap::new();
        self.tex.link_same_name = false;
        assert(history_view(self.tex.assignments@) =~= recall_history(plan.assignments@, files@, temps@, 0));
        assert(self.loaded->0.materials@ =~= Seq::new(n as nat, |j: int| reset_material(m0, p0, j)));
        let ghost mut trace: Seq<Self> = seq![*self];

        let total = plan.assignments.len();
        let mut applied: usize = 0;
        let mut k: usize = 0;
        while k < total
            invariant
                k <= total == plan.assignments@.len() == files@.len() == temps@.len(),
                plan.skipped + total <= usize::MAX,
                self.loaded is Some,
                self.loaded->0.materials@.len() == n,
                forall|q: int| 0 <= q < total ==> (#[trigger] plan.assignments@[q]).0 < n,
                !self.tex.link_same_name,
                applied == recall_applied_count::<T, B, V, Bk>(plan.assignments@, files@, k as int),
                applied <= k,
                history_view(self.tex.assignments@) == recall_history(plan.assignments@, files@, temps@, k as int),
                forall|j: int| 0 <= j < n && !recall_touches::<T, B, V, Bk>(plan.assignments@, files@, j as usize, k as int)
                    ==> #[trigger] self.loaded->0.materials@[j] == mr[j],
                trace.len() == k + 1,
                trace[k as int] == *self,
                trace[0].loaded is Some,
                trace[0].loaded->0.materials@ == Seq::new(n as nat, |j: int| reset_material(m0, p0, j)),
                trace[0].loaded->0.textures == app0.loaded->0.textures,
                trace[0].loaded->0.draws == app0.loaded->0.draws,
                trace[0].loaded->0.texture_views == app0.loaded->0.texture_views,
                trace[0].loaded->0.appended_models == app0.loaded->0.appended_models,
                trace[0].loaded->0.source == app0.loaded->0.source,
                trace[0].has_renderer == app0.has_renderer,
                trace[0].dirty_materials@ == app0.dirty_materials@ + Seq::new(n as nat, |j: int| j as usize),
                trace[0].tex.assignments@ == Map::<usize, TextureSource>::empty(),
                !trace[0].tex.link_same_name,
                trace[0].tex.pending_preview == app0.tex.pending_preview,
                trace[0].tex.pending_match == app0.tex.pending_match,
                trace[0].tex.pkg_textures == app0.tex.pkg_textures,
                trace[0].tex.pkg_thumb_cache == app0.tex.pkg_thumb_cache,
                trace[0].tex.ir_thumb_cache == app0.tex.ir_thumb_cache,
                trace[0].tex.pending_psd_conversions == app0.tex.pending_psd_conversions,
                forall|q: int| 0 <= q < k ==> #[trigger] trace[q].recall_step::<Bk>(trace[q + 1], plan.assignments@, files@, q),
            decreases total - k,
        {
            let ghost before = *self;
            let mi = plan.assignments[k].0;
            let slot = plan.assignments[k].1;
            let path = &plan.assignments[k].2;
            let is_base = match slot {
                TextureSlot::BaseColor => true,
                _ => false,
            };
            let mut ok = false;
            match &files[k] {
                None => {},
                Some(data) => {
                    let psd = is_psd_path(path);
                    if is_base {
                        ok = self.assign_texture_core(backend, mi, TextureSlot::BaseColor, data, psd, path);
                        let hist = if temps[k] {
                            TextureSource::Cached { original_name: path.clone(), data: copy_bytes(data), is_psd: psd }
                        } else {
                            TextureSource::File(path.clone())
                        };
                        let ghost mid = *self;
                        self.record_assignment(mi, &hist);
                        proof {
                            assert(history_targets(mid, mi) =~= set![mi]);
                            assert(recorded(history_view(mid.tex.assignments@), set![mi], hist@) =~= history_view(
                                mid.tex.assignments@,
                            ).insert(mi, hist@));
                        }
                    } else {
                        let display = file_name_of(path);
                        ok = self.assign_texture_core(backend, mi, slot, data, psd, &display);
                    }
                },
            }
            proof {
                assert(ok == recall_applies::<T, B, V, Bk>(plan.assignments@, files@, k as int));
                assert forall|j: int| 0 <= j < n && !recall_touches::<T, B, V, Bk>(plan.assignments@, files@, j as usize, k + 1)
                    implies #[trigger] self.loaded->0.materials@[j] == mr[j] by {
                    assert(!recall_touches::<T, B, V, Bk>(plan.assignments@, files@, j as usize, k as int)) by {
                        if recall_touches::<T, B, V, Bk>(plan.assignments@, files@, j as usize, k as int) {
                            let q = choose|q: int| 0 <= q < k && (#[trigger] plan.assignments@[q]).0 == j as usize
                                && recall_applies::<T, B, V, Bk>(plan.assignments@, files@, q);
                            assert(0 <= q < k + 1);
                        }
                    }
                    if ok {
                        assert(j != mi as int) by {
                            if j == mi as int {
                                assert(plan.assignments@[k as int].0 == j as usize);
                            }
                        }
                        assert(self.loaded->0.materials@[j] == before.loaded->0.materials@[j]);
                    }
                }
            }
            proof {
                assert(before.recall_step::<Bk>(*self, plan.assignments@, files@, k as int));
                let t0 = trace;
                trace = trace.push(*self);
                assert forall|q: int| 0 <= q < k + 1 implies #[trigger] trace[q].recall_step::<Bk>(
                    trace[q + 1],
                    plan.assignments@,
                    files@,
                    q,
                ) by {
                    if q < k {
                        assert(trace[q] == t0[q] && trace[q + 1] == t0[q + 1]);
                    }
                }
            }
            if ok {
                applied = applied + 1;
            }
            k = k + 1;
        }
        let ghost last = *self;
        self.tex.link_same_name = saved_link;
        self.update_mat_cache();
        proof {
            assert(app0.recall_trace::<Bk>(trace, plan.assignments@, files@, p0));
            assert(last == trace[total as int]);
        }
        (applied, plan.skipped + (total - applied))
    }
}


/// The name of material `m`, empty when there is no such material.
pub open spec fn material_name_or_empty(mats: Seq<IrMaterial>, m: usize) -> Seq<char> {
    if (m as int) < mats.len() {
        mats[m as int].name@
    } else {
        Seq::empty()
    }
}

/// A saved base color entry for `m`: the file it was assigned from, with the
/// material's name.
pub open spec fn saved_entry_for<T, B, V>(app: ViewerApp<T, B, V>, e: HistoryEntry) -> bool {
    &&& app.tex.assignments@.contains_key(e.material_index)
    &&& app.tex.assignments@[e.material_index]@ == SourceView::File(e.texture_path@)
    &&& e.slot == TextureSlot::BaseColor
    &&& e.material_name@ == material_name_or_empty(app.loaded->0.materials@, e.material_index)
}

impl<T, B, V> ViewerApp<T, B, V> {
    /// The base color assignments to save in the history: one entry per
    /// material assigned from a file (sources kept only in memory are not
    /// saved), with the material's name, in the assignment map's order.
    pub fn texture_history_entries(&self) -> (r: Vec<HistoryEntry>)
        requires
            self.loaded is Some,
        ensures
            forall|q: int| 0 <= q < r@.len() ==> #[trigger] saved_entry_for(*self, r@[q]),
            forall|m: usize| #[trigger] self.tex.assignments@.contains_key(m) && self.tex.assignments@[m] is File
                ==> exists|q: int| 0 <= q < r@.len() && (#[trigger] r@[q]).material_index == m,
            forall|a: int, b: int| 0 <= a < b < r@.len() ==> (#[trigger] r@[a]).material_index != (#[trigger] r@[b]).material_index,
    {
        let loaded = self.loaded.as_ref().unwrap();
        let mut out: Vec<HistoryEntry> = Vec::new();
        let ghost map = self.tex.assignments@;
        let ghost s = vstd::std_specs::hash::spec_hash_map_iter(&self.tex.assignments).remaining();
        let ghost mut cnt: int = 0;
        for kv in it: self.tex.assignments.iter()
            invariant
                self.loaded == Some(*loaded),
                map == self.tex.assignments@,
                it.seq() == s,
                s.no_duplicates(),
                cnt == it.index(),
                forall|q: int| 0 <= q < out@.len() ==> #[trigger] saved_entry_for(*self, out@[q]),
                forall|q: int| #![trigger out@[q]] 0 <= q < out@.len() ==> exists|p: int| 0 <= p < it.index() && *(#[trigger] it.seq()[p]).0
                    == out@[q].material_index,
                forall|p: int| 0 <= p < it.index() && (#[trigger] it.seq()[p]).1 is File
                    ==> exists|q: int| 0 <= q < out@.len() && (#[trigger] out@[q]).material_index == *it.seq()[p].0,
                forall|a: int, b: int| 0 <= a < b < out@.len() ==> (#[trigger] out@[a]).material_index != (#[trigger] out@[b]).material_index,
        {
            let (k, v) = kv;
            let ghost idx = it.index();
            let ghost o_prev = out@;
            proof {
                assert(it.seq()[idx] == kv);
                assert(s[idx] == kv);
                assert(map.contains_key(*s[idx].0));
                assert(map.contains_key(*k) && map[*k] == *v);
            }
            match v {
                TextureSource::File(path) => {
                    let name = if *k < loaded.materials.len() {
                        loaded.materials[*k].name.clone()
                    } else {
                        String::new()
                    };
                    let ghost o0 = out@;
                    out.push(HistoryEntry {
                        material_index: *k,
                        material_name: name,
                        texture_path: path.clone(),
                        slot: TextureSlot::BaseColor,
                    });
                    proof {
                        assert forall|q: int| 0 <= q < o0.len() implies out@[q].material_index != *k by {
                            let p = choose|p: int| 0 <= p < idx && *(#[trigger] it.seq()[p]).0 == o0[q].material_index;
                            assert(s[p] == it.seq()[p]);
                            assert(map.contains_key(*s[p].0));
                            assert(map[*s[p].0] == *s[p].1);
                            if *s[p].0 == *k {
                                assert(s[p] == s[idx]);
                            }
                        }
                    }
                },
                _ => {},
            }
            proof {
                assert forall|p: int| 0 <= p < idx + 1 && (#[trigger] it.seq()[p]).1 is File
                    implies exists|q: int| 0 <= q < out@.len() && (#[trigger] out@[q]).material_index == *it.seq()[p].0 by {
                    if p < idx {
                        let q = choose|q: int| 0 <= q < o_prev.len() && (#[trigger] o_prev[q]).material_index == *it.seq()[p].0;
                        assert(out@[q] == o_prev[q]);
                    } else {
                        assert(out@[out@.len() - 1].material_index == *k);
                    }
                }
                assert forall|q: int| #![trigger out@[q]] 0 <= q < out@.len() implies exists|p: int| 0 <= p < idx + 1 && *(#[trigger] it.seq()[p]).0
                    == out@[q].material_index by {
                    if q < o_prev.len() {
                        assert(out@[q] == o_prev[q]);
                        let p = choose|p: int| 0 <= p < idx && *(#[trigger] it.seq()[p]).0 == o_prev[q].material_index;
                        assert(0 <= p < idx + 1);
                    } else {
                        assert(*it.seq()[idx].0 == out@[q].material_index);
                    }
                }
                cnt = cnt + 1;
            }
        }
        proof {
            assert(cnt == s.len());
            assert forall|m: usize| #[trigger] self.tex.assignments@.contains_key(m) && self.tex.assignments@[m] is File
                implies exists|q: int| 0 <= q < out@.len() && (#[trigger] out@[q]).material_index == m by {
                assert(s.contains((&m, &map[m])));
                let p = choose|p: int| 0 <= p < s.len() && s[p] == (&m, &map[m]);
                assert((s[p]).1 is File);
            }
        }
        out
    }
}

} // verus!
