//! Preparing a model for drawing: per-material build flags, render queues and
//! styles, auxiliary texture references, sampler settings, the layout of the
//! materials' draws over the shared index buffer, vertex welding, and UV morphs
//! on GPU vertices.
use vstd::prelude::*;
use std::collections::{HashMap, HashSet};
use crate::texture_mgmt::{IrMaterial, IrTextureInfo, MtoonTextures, ShaderFamily};

verus! {

/// Per-material build flags bundled into one struct (parallel vectors, one entry
/// per material).
#[derive(Debug, Clone)]
pub struct MaterialBuildFlags {
    pub smooth: Vec<bool>,
    pub clear: Vec<bool>,
    pub normal_map: Vec<bool>,
    pub emissive: Vec<bool>,
}

impl MaterialBuildFlags {
    /// All-default flags for `mat_count` materials
    /// (smooth/clear off, normal_map/emissive on).
    pub fn default_for(mat_count: usize) -> (r: Self)
        ensures
            r.smooth@ == Seq::new(mat_count as nat, |i: int| false),
            r.clear@ == Seq::new(mat_count as nat, |i: int| false),
            r.normal_map@ == Seq::new(mat_count as nat, |i: int| true),
            r.emissive@ == Seq::new(mat_count as nat, |i: int| true),
    {
        let smooth = vec![false; mat_count];
        let clear = vec![false; mat_count];
        let normal_map = vec![true; mat_count];
        let emissive = vec![true; mat_count];
        let r = Self { smooth, clear, normal_map, emissive };
        assert(r.smooth@ =~= Seq::new(mat_count as nat, |i: int| false));
        assert(r.clear@ =~= Seq::new(mat_count as nat, |i: int| false));
        assert(r.normal_map@ =~= Seq::new(mat_count as nat, |i: int| true));
        assert(r.emissive@ =~= Seq::new(mat_count as nat, |i: int| true));
        r
    }
}

/// Render style.
#[derive(Debug, Clone, Copy, PartialEq, Eq, Structural)]
pub enum RenderStyle {
    Standard,
    Mmd,
}

/// Render queue (draw-order category), drawn in declaration order.
#[derive(Debug, Clone, Copy, PartialEq, Eq, Structural, PartialOrd, Ord)]
pub enum RenderQueue {
    /// Opaque (depth write enabled).
    Opaque,
    /// Cut out by alphaCutoff (depth write enabled).
    Mask,
    /// Translucent with depth write.
    BlendZWrite,
    /// Translucent without depth write.
    Blend,
}

impl RenderQueue {
    /// Whether draws of this queue are translucent (sorted back to front by distance).
    pub fn is_blend(self) -> (r: bool)
        ensures
            r == (self == RenderQueue::BlendZWrite || self == RenderQueue::Blend),
    {
        match self {
            RenderQueue::BlendZWrite | RenderQueue::Blend => true,
            _ => false,
        }
    }
}

/// An auxiliary texture reference of a material.
#[derive(Debug, Clone, Copy, PartialEq, Eq, Structural)]
pub struct AuxTexRef {
    /// Model texture index, if the slot has a texture.
    pub tex_index: Option<usize>,
    /// Sampler settings key (0: the default sampler).
    pub sampler: u32,
    /// Whether the sRGB view is sampled (else the linear view).
    pub use_srgb: bool,
}

/// The eight auxiliary texture references of a material.
#[derive(Debug, Clone, Copy, PartialEq, Eq, Structural)]
pub struct AuxTexRefs {
    pub matcap: AuxTexRef,
    pub shade: AuxTexRef,
    pub shift: AuxTexRef,
    pub rim: AuxTexRef,
    pub uv_mask: AuxTexRef,
    pub outline_width: AuxTexRef,
    pub emissive: AuxTexRef,
    pub normal: AuxTexRef,
}

/// The reference of one slot.
pub open spec fn aux_ref(ti: Option<IrTextureInfo>, use_srgb: bool) -> AuxTexRef {
    AuxTexRef {
        tex_index: match ti {
            Some(t) => Some(t.index),
            None => None,
        },
        sampler: match ti {
            Some(t) => t.sampler,
            None => 0,
        },
        use_srgb,
    }
}

/// Shader families drawn along the MToon path.
pub open spec fn is_mtoon_like(f: ShaderFamily) -> bool {
    f == ShaderFamily::Mtoon || f == ShaderFamily::Uts2 || f == ShaderFamily::LilToon || f == ShaderFamily::Poiyomi
}

/// The auxiliary references a material needs: none unless it is drawn along
/// the MToon path or has an emissive or normal texture.
pub open spec fn aux_refs_spec(mat: IrMaterial) -> Option<AuxTexRefs> {
    if !(is_mtoon_like(mat.shader_family) || mat.emissive_texture is Some || mat.normal_texture is Some) {
        None
    } else {
        let mp = match mat.mtoon {
            Some(t) => t,
            None => MtoonTextures::empty(),
        };
        Some(AuxTexRefs {
            matcap: aux_ref(mp.matcap_texture, true),
            shade: aux_ref(mp.shade_texture, true),
            shift: aux_ref(mp.shading_shift_texture, false),
            rim: aux_ref(mp.rim_multiply_texture, true),
            uv_mask: aux_ref(mp.uv_animation_mask_texture, false),
            outline_width: aux_ref(mp.outline_width_texture, false),
            emissive: aux_ref(mat.emissive_texture, true),
            normal: aux_ref(mat.normal_texture, false),
        })
    }
}

fn make_aux_ref(ti: Option<IrTextureInfo>, use_srgb: bool) -> (r: AuxTexRef)
    ensures
        r == aux_ref(ti, use_srgb),
{
    match ti {
        Some(t) => AuxTexRef { tex_index: Some(t.index), sampler: t.sampler, use_srgb },
        None => AuxTexRef { tex_index: None, sampler: 0, use_srgb },
    }
}

/// The auxiliary texture references of a material (`None`: the default bind
/// group will do).
pub fn build_aux_refs_for(mat: &IrMaterial) -> (r: Option<AuxTexRefs>)
    ensures
        r == aux_refs_spec(*mat),
        mat.shader_family != ShaderFamily::Other ==> r is Some,
        mat.shader_family != ShaderFamily::Other ==> (mat.mtoon matches Some(mt) ==> (r matches Some(a)
            && a.shade.tex_index == info_index_of(mt.shade_texture))),
{
    let mtoon_like = match mat.shader_family {
        ShaderFamily::Mtoon | ShaderFamily::Uts2 | ShaderFamily::LilToon | ShaderFamily::Poiyomi => true,
        ShaderFamily::Other => false,
    };
    if !(mtoon_like || mat.emissive_texture.is_some() || mat.normal_texture.is_some()) {
        return None;
    }
    let mp = match mat.mtoon {
        Some(t) => t,
        None => MtoonTextures::new(),
    };
    Some(AuxTexRefs {
        matcap: make_aux_ref(mp.matcap_texture, true),
        shade: make_aux_ref(mp.shade_texture, true),
        shift: make_aux_ref(mp.shading_shift_texture, false),
        rim: make_aux_ref(mp.rim_multiply_texture, true),
        uv_mask: make_aux_ref(mp.uv_animation_mask_texture, false),
        outline_width: make_aux_ref(mp.outline_width_texture, false),
        emissive: make_aux_ref(mat.emissive_texture, true),
        normal: make_aux_ref(mat.normal_texture, false),
    })
}


/// Every material drawn with a toon shader (MToon, UTS2, lilToon, Poiyomi) gets
/// auxiliary references, and they point at its own MToon textures and sampler
/// settings, slot by slot; so do the references of any material with an
/// emissive or normal texture. A plain material with neither needs none.
pub proof fn toon_materials_bind_their_aux_textures(mat: IrMaterial)
    ensures
        mat.shader_family != ShaderFamily::Other ==> aux_refs_spec(mat) is Some,
        mat.emissive_texture is Some || mat.normal_texture is Some ==> aux_refs_spec(mat) is Some,
        mat.shader_family == ShaderFamily::Other && mat.emissive_texture is None && mat.normal_texture is None
            ==> aux_refs_spec(mat) is None,
        aux_refs_spec(mat) matches Some(a) ==> {
            let mt = match mat.mtoon {
                Some(t) => t,
                None => MtoonTextures::empty(),
            };
            &&& a.shade.tex_index == info_index_of(mt.shade_texture)
            &&& a.matcap.tex_index == info_index_of(mt.matcap_texture)
            &&& a.shift.tex_index == info_index_of(mt.shading_shift_texture)
            &&& a.rim.tex_index == info_index_of(mt.rim_multiply_texture)
            &&& a.uv_mask.tex_index == info_index_of(mt.uv_animation_mask_texture)
            &&& a.outline_width.tex_index == info_index_of(mt.outline_width_texture)
            &&& a.emissive.tex_index == info_index_of(mat.emissive_texture)
            &&& a.normal.tex_index == info_index_of(mat.normal_texture)
            &&& (mt.shade_texture matches Some(t) ==> a.shade.sampler == t.sampler)
        },
{
}

/// The texture index of an optional slot reference.
pub open spec fn info_index_of(ti: Option<IrTextureInfo>) -> Option<usize> {
    match ti {
        Some(t) => Some(t.index),
        None => None,
    }
}

/// How a material uses its alpha channel.
#[derive(Debug, Clone, Copy, PartialEq, Eq, Structural)]
pub enum AlphaMode {
    Opaque,
    /// Cut out below the alpha cutoff.
    Mask,
    /// Blended, with depth write.
    BlendWithZWrite,
    /// Blended, without depth write.
    Blend,
}

/// The render queue a material of alpha mode `mode` is drawn in.
pub open spec fn queue_of(mode: AlphaMode) -> RenderQueue {
    match mode {
        AlphaMode::Opaque => RenderQueue::Opaque,
        AlphaMode::Mask => RenderQueue::Mask,
        AlphaMode::BlendWithZWrite => RenderQueue::BlendZWrite,
        AlphaMode::Blend => RenderQueue::Blend,
    }
}

/// The render queue of a material with alpha mode `mode`.
pub fn render_queue_for(mode: AlphaMode) -> (r: RenderQueue)
    ensures
        r == queue_of(mode),
        (r == RenderQueue::BlendZWrite || r == RenderQueue::Blend) <==> (mode == AlphaMode::BlendWithZWrite
            || mode == AlphaMode::Blend),
{
    match mode {
        AlphaMode::Opaque => RenderQueue::Opaque,
        AlphaMode::Mask => RenderQueue::Mask,
        AlphaMode::BlendWithZWrite => RenderQueue::BlendZWrite,
        AlphaMode::Blend => RenderQueue::Blend,
    }
}

/// Minification filter of a model texture sampler (the glTF set).
#[derive(Debug, Clone, Copy, PartialEq, Eq, Structural)]
pub enum MinFilter {
    Nearest,
    Linear,
    NearestMipmapNearest,
    LinearMipmapNearest,
    NearestMipmapLinear,
    LinearMipmapLinear,
}

/// Magnification filter of a model texture sampler.
#[derive(Debug, Clone, Copy, PartialEq, Eq, Structural)]
pub enum MagFilter {
    Nearest,
    Linear,
}

/// Wrap mode of a model texture sampler.
#[derive(Debug, Clone, Copy, PartialEq, Eq, Structural)]
pub enum WrapMode {
    Repeat,
    ClampToEdge,
    MirroredRepeat,
}

/// Sampler settings recorded in a model.
#[derive(Debug, Clone, Copy, PartialEq, Eq, Structural)]
pub struct SamplerInfo {
    pub mag_filter: MagFilter,
    pub min_filter: MinFilter,
    pub wrap_u: WrapMode,
    pub wrap_v: WrapMode,
}

/// A GPU sampler filter.
#[derive(Debug, Clone, Copy, PartialEq, Eq, Structural)]
pub enum FilterMode {
    Nearest,
    Linear,
}

/// A GPU sampler address mode.
#[derive(Debug, Clone, Copy, PartialEq, Eq, Structural)]
pub enum AddressMode {
    Repeat,
    ClampToEdge,
    MirrorRepeat,
}

/// The GPU sampler to create for a model sampler.
#[derive(Debug, Clone, Copy, PartialEq, Eq, Structural)]
pub struct SamplerSettings {
    pub mag_filter: FilterMode,
    pub min_filter: FilterMode,
    pub mipmap_filter: FilterMode,
    pub address_mode_u: AddressMode,
    pub address_mode_v: AddressMode,
    pub anisotropy_clamp: u16,
}

/// The texel filter of a minification filter: linear for `Linear`, `LinearMipmapNearest`
/// and `LinearMipmapLinear`.
pub open spec fn min_texel_filter(mode: MinFilter) -> FilterMode {
    if mode == MinFilter::Linear || mode == MinFilter::LinearMipmapNearest || mode == MinFilter::LinearMipmapLinear {
        FilterMode::Linear
    } else {
        FilterMode::Nearest
    }
}

/// The mipmap filter of a minification filter: linear for `NearestMipmapLinear` and
/// `LinearMipmapLinear` (the filters without mipmaps sample the base level).
pub open spec fn min_mipmap_filter(mode: MinFilter) -> FilterMode {
    if mode == MinFilter::NearestMipmapLinear || mode == MinFilter::LinearMipmapLinear {
        FilterMode::Linear
    } else {
        FilterMode::Nearest
    }
}

/// The address mode of a wrap mode.
pub open spec fn address_of(w: WrapMode) -> AddressMode {
    match w {
        WrapMode::Repeat => AddressMode::Repeat,
        WrapMode::ClampToEdge => AddressMode::ClampToEdge,
        WrapMode::MirroredRepeat => AddressMode::MirrorRepeat,
    }
}

/// The GPU (texel, mipmap) filter pair of a minification filter.
pub fn min_filter_modes(mode: MinFilter) -> (r: (FilterMode, FilterMode))
    ensures
        r == (min_texel_filter(mode), min_mipmap_filter(mode)),
{
    match mode {
        MinFilter::Nearest => (FilterMode::Nearest, FilterMode::Nearest),
        MinFilter::Linear => (FilterMode::Linear, FilterMode::Nearest),
        MinFilter::NearestMipmapNearest => (FilterMode::Nearest, FilterMode::Nearest),
        MinFilter::LinearMipmapNearest => (FilterMode::Linear, FilterMode::Nearest),
        MinFilter::NearestMipmapLinear => (FilterMode::Nearest, FilterMode::Linear),
        MinFilter::LinearMipmapLinear => (FilterMode::Linear, FilterMode::Linear),
    }
}

fn address_mode(w: WrapMode) -> (r: AddressMode)
    ensures
        r == address_of(w),
{
    match w {
        WrapMode::Repeat => AddressMode::Repeat,
        WrapMode::ClampToEdge => AddressMode::ClampToEdge,
        WrapMode::MirroredRepeat => AddressMode::MirrorRepeat,
    }
}

/// The GPU sampler for a model sampler. Anisotropic filtering (a clamp of 16) is
/// asked for only when the magnification, minification and mipmap filters are all
/// linear, where it takes effect; otherwise the clamp is 1.
pub fn sampler_settings(info: &SamplerInfo) -> (r: SamplerSettings)
    ensures
        r.mag_filter == (if info.mag_filter == MagFilter::Linear { FilterMode::Linear } else { FilterMode::Nearest }),
        r.min_filter == min_texel_filter(info.min_filter),
        r.mipmap_filter == min_mipmap_filter(info.min_filter),
        r.address_mode_u == address_of(info.wrap_u),
        r.address_mode_v == address_of(info.wrap_v),
        r.anisotropy_clamp == (if r.mag_filter == FilterMode::Linear && r.min_filter == FilterMode::Linear
            && r.mipmap_filter == FilterMode::Linear { 16u16 } else { 1u16 }),
        r.anisotropy_clamp > 1 <==> (info.mag_filter == MagFilter::Linear && info.min_filter == MinFilter::LinearMipmapLinear),
{
    let (min_filter, mipmap_filter) = min_filter_modes(info.min_filter);
    let mag_filter = match info.mag_filter {
        MagFilter::Nearest => FilterMode::Nearest,
        MagFilter::Linear => FilterMode::Linear,
    };
    let all_linear = mag_filter == FilterMode::Linear && min_filter == FilterMode::Linear && mipmap_filter
        == FilterMode::Linear;
    SamplerSettings {
        mag_filter,
        min_filter,
        mipmap_filter,
        address_mode_u: address_mode(info.wrap_u),
        address_mode_v: address_mode(info.wrap_v),
        anisotropy_clamp: if all_linear { 16 } else { 1 },
    }
}

// ---------------------------------------------------------------------------
// Layout of the shared index buffer: one draw per material, in material order
// ---------------------------------------------------------------------------

/// What the index layout reads of a mesh: its material and its number of indices.
#[derive(Debug, Clone, Copy, PartialEq, Eq, Structural)]
pub struct MeshIndexInfo {
    pub material_index: usize,
    pub index_count: usize,
}

/// The range of the shared index buffer that one material's draw covers.
#[derive(Debug, Clone, Copy, PartialEq, Eq, Structural)]
pub struct DrawRange {
    pub material_index: usize,
    pub index_offset: u32,
    pub index_count: u32,
}

/// The meshes of material `m` among the first `n` meshes, in mesh order.
pub open spec fn meshes_of_upto(meshes: Seq<MeshIndexInfo>, m: usize, n: int) -> Seq<usize>
    decreases n,
{
    if n <= 0 {
        Seq::empty()
    } else {
        let prev = meshes_of_upto(meshes, m, n - 1);
        if meshes[n - 1].material_index == m {
            prev.push((n - 1) as usize)
        } else {
            prev
        }
    }
}

/// The meshes of material `m`, in mesh order.
pub open spec fn meshes_of(meshes: Seq<MeshIndexInfo>, m: usize) -> Seq<usize> {
    meshes_of_upto(meshes, m, meshes.len() as int)
}

/// Number of indices of the first `n` meshes whose material satisfies `sel`.
pub open spec fn indices_where(meshes: Seq<MeshIndexInfo>, sel: spec_fn(usize) -> bool, n: int) -> nat
    decreases n,
{
    if n <= 0 {
        0
    } else {
        indices_where(meshes, sel, n - 1) + if sel(meshes[n - 1].material_index) {
            meshes[n - 1].index_count as nat
        } else {
            0
        }
    }
}

/// Selects material `m`.
pub open spec fn is_material(m: usize) -> spec_fn(usize) -> bool {
    |x: usize| x == m
}

/// Selects the materials below `m`.
pub open spec fn below_material(m: usize) -> spec_fn(usize) -> bool {
    |x: usize| x < m
}

/// Selects every material.
pub open spec fn any_material() -> spec_fn(usize) -> bool {
    |x: usize| true
}

/// Number of indices drawn with material `m`.
pub open spec fn material_indices(meshes: Seq<MeshIndexInfo>, m: usize) -> nat {
    indices_where(meshes, is_material(m), meshes.len() as int)
}

/// Number of indices drawn with a material below `m` (where material `m`'s draw starts).
pub open spec fn indices_below(meshes: Seq<MeshIndexInfo>, m: usize) -> nat {
    indices_where(meshes, below_material(m), meshes.len() as int)
}

/// Number of indices of all meshes.
pub open spec fn total_indices(meshes: Seq<MeshIndexInfo>) -> nat {
    indices_where(meshes, any_material(), meshes.len() as int)
}

/// The draws of the first `k` materials: one per material that has meshes, covering
/// the indices of its meshes, which follow those of the materials before it.
pub open spec fn draw_ranges_upto(meshes: Seq<MeshIndexInfo>, k: int) -> Seq<DrawRange>
    decreases k,
{
    if k <= 0 {
        Seq::empty()
    } else {
        let prev = draw_ranges_upto(meshes, k - 1);
        let m = (k - 1) as usize;
        if meshes_of(meshes, m).len() > 0 {
            prev.push(
                DrawRange {
                    material_index: m,
                    index_offset: indices_below(meshes, m) as u32,
                    index_count: material_indices(meshes, m) as u32,
                },
            )
        } else {
            prev
        }
    }
}

/// Sum of the index counts of the listed meshes.
pub open spec fn listed_indices(meshes: Seq<MeshIndexInfo>, list: Seq<usize>) -> nat
    decreases list.len(),
{
    if list.len() == 0 {
        0
    } else {
        listed_indices(meshes, list.drop_last()) + meshes[list.last() as int].index_count as nat
    }
}

proof fn lemma_meshes_of_bounds(meshes: Seq<MeshIndexInfo>, m: usize, n: int)
    requires
        0 <= n <= meshes.len() <= usize::MAX,
    ensures
        forall|q: int| 0 <= q < meshes_of_upto(meshes, m, n).len() ==> #[trigger] meshes_of_upto(meshes, m, n)[q] < n
            && meshes[meshes_of_upto(meshes, m, n)[q] as int].material_index == m,
    decreases n,
{
    if n > 0 {
        lemma_meshes_of_bounds(meshes, m, n - 1);
        let prev = meshes_of_upto(meshes, m, n - 1);
        let cur = meshes_of_upto(meshes, m, n);
        assert forall|q: int| 0 <= q < cur.len() implies #[trigger] cur[q] < n && meshes[cur[q] as int].material_index
            == m by {
            if q < prev.len() {
                assert(cur[q] == prev[q]);
            }
        }
    }
}

/// The listed meshes of a material hold all of its indices.
proof fn lemma_listed_is_material(meshes: Seq<MeshIndexInfo>, m: usize, n: int)
    requires
        0 <= n <= meshes.len() <= usize::MAX,
    ensures
        listed_indices(meshes, meshes_of_upto(meshes, m, n)) == indices_where(meshes, is_material(m), n),
    decreases n,
{
    if n > 0 {
        lemma_listed_is_material(meshes, m, n - 1);
        let prev = meshes_of_upto(meshes, m, n - 1);
        if meshes[n - 1].material_index == m {
            assert(prev.push((n - 1) as usize).drop_last() =~= prev);
        }
    }
}

/// The indices below `m + 1` are those below `m` and those of `m`.
proof fn lemma_below_step(meshes: Seq<MeshIndexInfo>, m: usize, n: int)
    requires
        0 <= n <= meshes.len(),
    ensures
        m < usize::MAX ==> indices_where(meshes, below_material((m + 1) as usize), n) == indices_where(
            meshes,
            below_material(m),
            n,
        ) + indices_where(meshes, is_material(m), n),
    decreases n,
{
    if n > 0 {
        lemma_below_step(meshes, m, n - 1);
    }
}

/// No material is below material 0.
proof fn lemma_below_zero(meshes: Seq<MeshIndexInfo>, n: int)
    requires
        0 <= n <= meshes.len(),
    ensures
        indices_where(meshes, below_material(0), n) == 0,
    decreases n,
{
    if n > 0 {
        lemma_below_zero(meshes, n - 1);
    }
}

/// A selection of meshes holds at most all indices.
proof fn lemma_where_le_total(meshes: Seq<MeshIndexInfo>, sel: spec_fn(usize) -> bool, n: int)
    requires
        0 <= n <= meshes.len(),
    ensures
        indices_where(meshes, sel, n) <= indices_where(meshes, any_material(), n),
    decreases n,
{
    if n > 0 {
        lemma_where_le_total(meshes, sel, n - 1);
    }
}

/// The meshes of each material, in mesh order (meshes of a material index out of
/// range are left out).
pub fn group_meshes_by_material(meshes: &Vec<MeshIndexInfo>, mat_count: usize) -> (r: Vec<Vec<usize>>)
    ensures
        r@.len() == mat_count,
        forall|m: int| 0 <= m < mat_count ==> (#[trigger] r@[m])@ == meshes_of(meshes@, m as usize),
{
    let mut r: Vec<Vec<usize>> = Vec::new();
    let mut m: usize = 0;
    while m < mat_count
        invariant
            m <= mat_count,
            r@.len() == m,
            forall|j: int| 0 <= j < m ==> (#[trigger] r@[j])@ == meshes_of_upto(meshes@, j as usize, 0),
        decreases mat_count - m,
    {
        r.push(Vec::new());
        m = m + 1;
    }
    let mut i: usize = 0;
    while i < meshes.len()
        invariant
            i <= meshes@.len(),
            r@.len() == mat_count,
            forall|j: int| 0 <= j < mat_count ==> (#[trigger] r@[j])@ == meshes_of_upto(meshes@, j as usize, i as int),
        decreases meshes.len() - i,
    {
        let mi = meshes[i].material_index;
        if mi < mat_count {
            let mut group: Vec<usize> = Vec::new();
            std::mem::swap(&mut group, &mut r[mi]);
            group.push(i);
            std::mem::swap(&mut group, &mut r[mi]);
        }
        i = i + 1;
    }
    r
}

/// The draws of the model's materials over the shared index buffer: one per
/// material that has meshes, in material order, each covering its meshes'
/// indices right after those of the materials before it.
pub fn draw_index_ranges(meshes: &Vec<MeshIndexInfo>, mat_count: usize) -> (r: Vec<DrawRange>)
    requires
        total_indices(meshes@) <= u32::MAX,
    ensures
        r@ == draw_ranges_upto(meshes@, mat_count as int),
{
    let groups = group_meshes_by_material(meshes, mat_count);
    let _n = meshes.len();
    proof {
        lemma_below_zero(meshes@, meshes@.len() as int);
    }
    let mut r: Vec<DrawRange> = Vec::new();
    let mut offset: u32 = 0;
    let mut m: usize = 0;
    while m < mat_count
        invariant
            m <= mat_count,
            groups@.len() == mat_count,
            forall|j: int| 0 <= j < mat_count ==> (#[trigger] groups@[j])@ == meshes_of(meshes@, j as usize),
            total_indices(meshes@) <= u32::MAX,
            meshes@.len() <= usize::MAX,
            offset == indices_below(meshes@, m),
            r@ == draw_ranges_upto(meshes@, m as int),
        decreases mat_count - m,
    {
        proof {
            lemma_below_step(meshes@, m, meshes@.len() as int);
            lemma_where_le_total(meshes@, below_material((m + 1) as usize), meshes@.len() as int);
            lemma_listed_is_material(meshes@, m, meshes@.len() as int);
            lemma_meshes_of_bounds(meshes@, m, meshes@.len() as int);
        }
        let list = &groups[m];
        if list.len() > 0 {
            let mut count: u32 = 0;
            let mut q: usize = 0;
            while q < list.len()
                invariant
                    q <= list@.len(),
                    list@ == meshes_of(meshes@, m),
                    forall|t: int| 0 <= t < list@.len() ==> #[trigger] list@[t] < meshes@.len(),
                    listed_indices(meshes@, list@) == material_indices(meshes@, m),
                    offset + material_indices(meshes@, m) <= u32::MAX,
                    count == listed_indices(meshes@, list@.take(q as int)),
                decreases list.len() - q,
            {
                proof {
                    assert(list@.take(q + 1).drop_last() =~= list@.take(q as int));
                    lemma_listed_prefix_le(meshes@, list@, q + 1);
                }
                count = count + meshes[list[q]].index_count as u32;
                q = q + 1;
            }
            assert(list@.take(q as int) =~= list@);
            r.push(DrawRange { material_index: m, index_offset: offset, index_count: count });
            offset = offset + count;
        }
        m = m + 1;
    }
    r
}

/// A prefix of a mesh list holds at most the indices of the whole list.
proof fn lemma_listed_prefix_le(meshes: Seq<MeshIndexInfo>, list: Seq<usize>, k: int)
    requires
        0 <= k <= list.len(),
    ensures
        listed_indices(meshes, list.take(k)) <= listed_indices(meshes, list),
    decreases list.len(),
{
    if k < list.len() {
        assert(list.drop_last().take(k) =~= list.take(k));
        lemma_listed_prefix_le(meshes, list.drop_last(), k);
    } else {
        assert(list.take(k) =~= list);
    }
}

/// The draws tile the start of the index buffer: the first starts at 0, each starts
/// where the one before it ends, and together they cover exactly the indices of the
/// materials below `k`.
pub proof fn draw_ranges_tile(meshes: Seq<MeshIndexInfo>, k: usize)
    requires
        total_indices(meshes) <= u32::MAX,
        meshes.len() <= usize::MAX,
    ensures
        ({
            let r = draw_ranges_upto(meshes, k as int);
            &&& forall|i: int|
                0 <= i < r.len() - 1 ==> #[trigger] r[i].index_offset + r[i].index_count == r[i + 1].index_offset
            &&& r.len() > 0 ==> r[0].index_offset == 0
            &&& (if r.len() > 0 { r.last().index_offset + r.last().index_count } else { 0 }) == indices_below(
                meshes,
                k,
            )
        }),
    decreases k,
{
    let n = meshes.len() as int;
    if k == 0 {
        lemma_below_zero(meshes, n);
    } else {
        let m = (k - 1) as usize;
        draw_ranges_tile(meshes, m);
        lemma_below_step(meshes, m, n);
        lemma_where_le_total(meshes, below_material(k), n);
        lemma_listed_is_material(meshes, m, n);
        let prev = draw_ranges_upto(meshes, m as int);
        let r = draw_ranges_upto(meshes, k as int);
        if meshes_of(meshes, m).len() > 0 {
            assert(r == prev.push(
                DrawRange {
                    material_index: m,
                    index_offset: indices_below(meshes, m) as u32,
                    index_count: material_indices(meshes, m) as u32,
                },
            ));
            assert forall|i: int| 0 <= i < r.len() - 1 implies #[trigger] r[i].index_offset + r[i].index_count
                == r[i + 1].index_offset by {
                if i < prev.len() - 1 {
                    assert(r[i] == prev[i] && r[i + 1] == prev[i + 1]);
                } else {
                    assert(r[i] == prev.last());
                }
            }
        } else {
            assert(meshes_of(meshes, m) =~= Seq::<usize>::empty());
            assert(r == prev);
        }
    }
}

// ---------------------------------------------------------------------------
// UV morphs on the GPU vertices
// ---------------------------------------------------------------------------

/// The GPU vertices already given an offset in `entries`.
pub open spec fn gpu_targets<O>(entries: Seq<(u32, O)>) -> Set<u32> {
    entries.map_values(|e: (u32, O)| e.0).to_set()
}

/// The offsets of the first `n` entries of a UV morph moved onto GPU vertices: an
/// entry whose model vertex has a GPU vertex is kept unless an earlier entry already
/// went to the same GPU vertex (welded vertices share one offset).
pub open spec fn gpu_uv_offsets_upto<O>(offsets: Seq<(usize, O)>, to_gpu: Seq<u32>, n: int) -> Seq<(u32, O)>
    decreases n,
{
    if n <= 0 {
        Seq::empty()
    } else {
        let prev = gpu_uv_offsets_upto(offsets, to_gpu, n - 1);
        let (v, off) = offsets[n - 1];
        if v < to_gpu.len() && !gpu_targets(prev).contains(to_gpu[v as int]) {
            prev.push((to_gpu[v as int], off))
        } else {
            prev
        }
    }
}

/// The offsets of a UV morph on `channel` moved onto GPU vertices (`to_gpu` maps each
/// model vertex to its GPU vertex). Only UV0 and UV1 live on the GPU; a morph of
/// another channel gets no offsets.
pub fn gpu_uv_offsets<O: Copy>(channel: u8, offsets: &Vec<(usize, O)>, to_gpu: &Vec<u32>) -> (r: Vec<(u32, O)>)
    ensures
        r@ == if channel < 2 {
            gpu_uv_offsets_upto(offsets@, to_gpu@, offsets@.len() as int)
        } else {
            Seq::empty()
        },
{
    let mut r: Vec<(u32, O)> = Vec::new();
    if channel >= 2 {
        return r;
    }
    let mut seen: HashSet<u32> = HashSet::new();
    let mut i: usize = 0;
    while i < offsets.len()
        invariant
            i <= offsets@.len(),
            r@ == gpu_uv_offsets_upto(offsets@, to_gpu@, i as int),
            seen@ == gpu_targets(r@),
        decreases offsets.len() - i,
    {
        let (v, off) = offsets[i];
        if v < to_gpu.len() {
            let g = to_gpu[v];
            if !seen.contains(&g) {
                let ghost r0 = r@;
                r.push((g, off));
                seen.insert(g);
                proof {
                    assert(r@.map_values(|e: (u32, O)| e.0) =~= r0.map_values(|e: (u32, O)| e.0).push(g));
                    r0.map_values(|e: (u32, O)| e.0).lemma_push_to_set_commute(g);
                }
            }
        }
        i = i + 1;
    }
    r
}

// ---------------------------------------------------------------------------
// Vertex morphs on the GPU vertices
// ---------------------------------------------------------------------------

/// Whether model vertex `g` is moved by the morph (by position, normal or tangent).
pub open spec fn morph_moves(positions: Seq<usize>, normals: Seq<usize>, tangents: Seq<usize>, g: usize) -> bool {
    positions.contains(g) || normals.contains(g) || tangents.contains(g)
}

/// The GPU vertices a vertex morph moves, among model vertices below `n`: in
/// increasing model-vertex order, each moved model vertex maps to its GPU vertex,
/// kept with the model vertex that first reaches it (welded vertices share one
/// entry).
pub open spec fn vertex_morph_targets_upto(
    positions: Seq<usize>,
    normals: Seq<usize>,
    tangents: Seq<usize>,
    to_gpu: Seq<u32>,
    n: int,
) -> Seq<(u32, usize)>
    decreases n,
{
    if n <= 0 {
        Seq::empty()
    } else {
        let prev = vertex_morph_targets_upto(positions, normals, tangents, to_gpu, n - 1);
        let g = (n - 1) as usize;
        if morph_moves(positions, normals, tangents, g) && !gpu_targets(prev).contains(to_gpu[n - 1]) {
            prev.push((to_gpu[n - 1], g))
        } else {
            prev
        }
    }
}

fn holds_index(v: &Vec<usize>, x: usize) -> (r: bool)
    ensures
        r == v@.contains(x),
{
    let mut i: usize = 0;
    while i < v.len()
        invariant
            i <= v@.len(),
            forall|k: int| 0 <= k < i ==> v@[k] != x,
        decreases v.len() - i,
    {
        if v[i] == x {
            assert(v@[i as int] == x);
            return true;
        }
        i = i + 1;
    }
    false
}

/// The GPU vertices a vertex morph moves (`positions`, `normals`, `tangents` list
/// the model vertices of its position, normal and tangent offsets; `to_gpu` maps
/// each model vertex to its GPU vertex), each with the model vertex whose offsets
/// it takes: moved model vertices in increasing order, the first one that reaches a
/// GPU vertex winning. Listed model vertices past the end of `to_gpu` are left out.
pub fn vertex_morph_targets(
    positions: &Vec<usize>,
    normals: &Vec<usize>,
    tangents: &Vec<usize>,
    to_gpu: &Vec<u32>,
) -> (r: Vec<(u32, usize)>)
    ensures
        r@ == vertex_morph_targets_upto(positions@, normals@, tangents@, to_gpu@, to_gpu@.len() as int),
{
    let mut r: Vec<(u32, usize)> = Vec::new();
    let mut seen: HashSet<u32> = HashSet::new();
    let mut g: usize = 0;
    while g < to_gpu.len()
        invariant
            g <= to_gpu@.len(),
            r@ == vertex_morph_targets_upto(positions@, normals@, tangents@, to_gpu@, g as int),
            seen@ == gpu_targets(r@),
        decreases to_gpu.len() - g,
    {
        if holds_index(positions, g) || holds_index(normals, g) || holds_index(tangents, g) {
            let v = to_gpu[g];
            if !seen.contains(&v) {
                let ghost r0 = r@;
                r.push((v, g));
                seen.insert(v);
                proof {
                    assert(r@.map_values(|e: (u32, usize)| e.0) =~= r0.map_values(|e: (u32, usize)| e.0).push(v));
                    r0.map_values(|e: (u32, usize)| e.0).lemma_push_to_set_commute(v);
                }
            }
        }
        g = g + 1;
    }
    r
}


// ---------------------------------------------------------------------------
// Vertex welding
// ---------------------------------------------------------------------------

/// The welding key of a vertex: the bit patterns of its position (3), UV0 (2)
/// and UV1 (2).
pub type WeldKey = [u32; 7];

/// Index of the first `k` among `keys[..n]`, or -1.
pub open spec fn first_at(keys: Seq<WeldKey>, k: WeldKey, n: int) -> int
    decreases n,
{
    if n <= 0 {
        -1
    } else {
        let f = first_at(keys, k, n - 1);
        if f >= 0 {
            f
        } else if keys[n - 1] == k {
            n - 1
        } else {
            -1
        }
    }
}

proof fn lemma_first_at(keys: Seq<WeldKey>, k: WeldKey, n: int)
    requires
        0 <= n <= keys.len(),
    ensures
        first_at(keys, k, n) == -1 <==> forall|j: int| 0 <= j < n ==> keys[j] != k,
        first_at(keys, k, n) >= 0 ==> first_at(keys, k, n) < n && keys[first_at(keys, k, n)] == k,
    decreases n,
{
    if n > 0 {
        lemma_first_at(keys, k, n - 1);
    }
}

/// GPU vertex numbers of the first `n` vertices of one material's meshes, and
/// the next free number, counting from `base`. With smoothing, a vertex whose key
/// an earlier vertex had shares that vertex's number; otherwise (and without
/// smoothing) it gets the next number.
pub open spec fn weld_upto(keys: Seq<WeldKey>, smooth: bool, base: int, n: int) -> (Seq<int>, int)
    decreases n,
{
    if n <= 0 {
        (Seq::empty(), base)
    } else {
        let (m, next) = weld_upto(keys, smooth, base, n - 1);
        let f = first_at(keys, keys[n - 1], n - 1);
        if smooth && f >= 0 {
            (m.push(m[f]), next)
        } else {
            (m.push(next), next + 1)
        }
    }
}

proof fn lemma_weld_bounds(keys: Seq<WeldKey>, smooth: bool, base: int, n: int)
    requires
        0 <= n <= keys.len(),
    ensures
        weld_upto(keys, smooth, base, n).0.len() == n,
        base <= weld_upto(keys, smooth, base, n).1 <= base + n,
        forall|q: int| 0 <= q < n ==> base <= #[trigger] weld_upto(keys, smooth, base, n).0[q] < weld_upto(keys, smooth, base, n).1,
    decreases n,
{
    if n > 0 {
        lemma_weld_bounds(keys, smooth, base, n - 1);
        lemma_first_at(keys, keys[n - 1], n - 1);
    }
}

/// The bucket of key `k` holds an entry for it.
pub open spec fn bucket_holds(seen: Map<u64, Vec<(WeldKey, u32)>>, k: WeldKey) -> bool {
    &&& seen.contains_key(weld_hash(k))
    &&& exists|e: int| 0 <= e < seen[weld_hash(k)]@.len() && (#[trigger] seen[weld_hash(k)]@[e]).0 == k
}

/// A hash of a welding key, to bucket the keys seen so far.
pub open spec fn weld_hash(k: WeldKey) -> u64 {
    (((k[0] as u64) << 32u64) | (k[1] as u64)) ^ (((k[2] as u64) << 32u64) | (k[3] as u64)) ^ (((k[4] as u64)
        << 32u64) | (k[5] as u64)) ^ (k[6] as u64)
}

fn weld_hash_of(k: &WeldKey) -> (h: u64)
    ensures
        h == weld_hash(*k),
{
    (((k[0] as u64) << 32u64) | (k[1] as u64)) ^ (((k[2] as u64) << 32u64) | (k[3] as u64)) ^ (((k[4] as u64)
        << 32u64) | (k[5] as u64)) ^ (k[6] as u64)
}

fn keys_equal(a: &WeldKey, b: &WeldKey) -> (r: bool)
    ensures
        r == (*a == *b),
{
    let r = a[0] == b[0] && a[1] == b[1] && a[2] == b[2] && a[3] == b[3] && a[4] == b[4] && a[5] == b[5]
        && a[6] == b[6];
    if r {
        assert(*a =~= *b);
    }
    r
}

/// The GPU vertex number of each vertex of one material's meshes (welding keys
/// in mesh order), numbered from `base`: with `smooth`, vertices with the same
/// position and UVs share the number the first of them got; otherwise each gets
/// its own. The next free number is `base` plus the number of distinct vertices.
pub fn weld_vertices(keys: &Vec<WeldKey>, smooth: bool, base: u32) -> (r: (Vec<u32>, u32))
    requires
        base + keys@.len() <= u32::MAX,
    ensures
        r.0@.len() == keys@.len(),
        forall|q: int| 0 <= q < keys@.len() ==> r.0@[q] as int == #[trigger] weld_upto(keys@, smooth, base as int, keys@.len() as int).0[q],
        r.1 as int == weld_upto(keys@, smooth, base as int, keys@.len() as int).1,
{
    let n = keys.len();
    let mut out: Vec<u32> = Vec::new();
    let mut next: u32 = base;
    let mut seen: HashMap<u64, Vec<(WeldKey, u32)>> = HashMap::new();
    let mut i: usize = 0;
    while i < n
        invariant
            i <= n == keys@.len(),
            base + n <= u32::MAX,
            out@.len() == i,
            forall|q: int| 0 <= q < i ==> out@[q] as int == #[trigger] weld_upto(keys@, smooth, base as int, i as int).0[q],
            next as int == weld_upto(keys@, smooth, base as int, i as int).1,
            // every bucket entry is a key seen so far, with the number its first occurrence got
            forall|h: u64, e: int| #![trigger seen@[h]@[e]] seen@.contains_key(h) && 0 <= e < seen@[h]@.len() ==> {
                &&& weld_hash(seen@[h]@[e].0) == h
                &&& 0 <= first_at(keys@, seen@[h]@[e].0, i as int)
                &&& seen@[h]@[e].1 as int == weld_upto(keys@, smooth, base as int, i as int).0[first_at(
                    keys@,
                    seen@[h]@[e].0,
                    i as int,
                )]
            },
            // with smoothing, every key seen so far is in its bucket
            smooth ==> forall|j: int| 0 <= j < i ==> bucket_holds(seen@, #[trigger] keys@[j]),
        decreases n - i,
    {
        proof {
            lemma_weld_bounds(keys@, smooth, base as int, i as int);
            lemma_first_at(keys@, keys@[i as int], i as int);
        }
        let k = keys[i];
        let ghost w0 = weld_upto(keys@, smooth, base as int, i as int);
        let ghost s0 = seen@;
        let ghost f = first_at(keys@, k, i as int);
        let h = weld_hash_of(&k);
        let mut found: Option<u32> = None;
        if smooth {
            match seen.get(&h) {
                Some(bucket) => {
                    let mut e: usize = 0;
                    while e < bucket.len() && found.is_none()
                        invariant
                            e <= bucket@.len(),
                            bucket@ == s0[h]@,
                            s0.contains_key(h),
                            found is None ==> forall|q: int| 0 <= q < e ==> (#[trigger] bucket@[q]).0 != k,
                            found matches Some(g) ==> exists|q: int| 0 <= q < bucket@.len() && (#[trigger] bucket@[q]).0 == k
                                && bucket@[q].1 == g,
                        decreases bucket@.len() - e,
                    {
                        if keys_equal(&bucket[e].0, &k) {
                            found = Some(bucket[e].1);
                        }
                        e = e + 1;
                    }
                },
                None => {},
            }
        }
        proof {
            if smooth && f >= 0 {
                // the key was seen: its bucket holds it, so the search found it
                let j = f;
                assert(keys@[j] == k);
                assert(bucket_holds(s0, keys@[j]));
            }
        }
        match found {
            Some(g) => {
                proof {
                    let q = choose|q: int| 0 <= q < s0[h]@.len() && (#[trigger] s0[h]@[q]).0 == k && s0[h]@[q].1 == g;
                    assert(seen@[h]@[q] == s0[h]@[q]);
                }
                out.push(g);
            },
            None => {
                out.push(next);
                if smooth {
                    let mut bucket = match seen.remove(&h) {
                        Some(b) => b,
                        None => Vec::new(),
                    };
                    bucket.push((k, next));
                    seen.insert(h, bucket);
                }
                next = next + 1;
            },
        }
        proof {
            let w1 = weld_upto(keys@, smooth, base as int, i + 1);
            assert(w1.0 == w0.0.push(w1.0[i as int]));
            assert forall|q: int| 0 <= q < i + 1 implies out@[q] as int == #[trigger] w1.0[q] by {
                if q < i {
                    assert(w1.0[q] == w0.0[q]);
                }
            }
            assert forall|kk: WeldKey| first_at(keys@, kk, i as int) >= 0 implies #[trigger] first_at(keys@, kk, i + 1)
                == first_at(keys@, kk, i as int) by {
                lemma_first_at(keys@, kk, i as int);
            }
            assert forall|hh: u64, e: int| #![trigger seen@[hh]@[e]] seen@.contains_key(hh) && 0 <= e < seen@[hh]@.len() implies {
                &&& weld_hash(seen@[hh]@[e].0) == hh
                &&& 0 <= first_at(keys@, seen@[hh]@[e].0, i + 1)
                &&& seen@[hh]@[e].1 as int == w1.0[first_at(keys@, seen@[hh]@[e].0, i + 1)]
            } by {
                let kk = seen@[hh]@[e].0;
                if hh == h && smooth && found is None && e == seen@[hh]@.len() - 1 {
                    assert(kk == k);
                    assert(first_at(keys@, k, i + 1) == i);
                } else {
                    if hh == h && smooth && found is None {
                        assert(seen@[hh]@[e] == s0[hh]@[e]);
                    } else {
                        assert(seen@[hh] == s0[hh]);
                    }
                    lemma_first_at(keys@, kk, i as int);
                    assert(w1.0[first_at(keys@, kk, i as int)] == w0.0[first_at(keys@, kk, i as int)]);
                }
            }
            if smooth {
                assert forall|j: int| 0 <= j < i + 1 implies bucket_holds(seen@, #[trigger] keys@[j]) by {
                    let hj = weld_hash(keys@[j]);
                    if j == i {
                        if found is None {
                            assert(seen@[h]@[seen@[h]@.len() - 1].0 == k);
                        } else {
                            let q = choose|q: int| 0 <= q < s0[h]@.len() && (#[trigger] s0[h]@[q]).0 == k;
                            assert(seen@[h]@[q].0 == k);
                        }
                    } else {
                        assert(bucket_holds(s0, keys@[j]));
                        let e0 = choose|e: int| 0 <= e < s0[hj]@.len() && (#[trigger] s0[hj]@[e]).0 == keys@[j];
                        if hj == h && found is None {
                            assert(seen@[hj]@[e0] == s0[hj]@[e0]);
                        } else {
                            assert(seen@[hj] == s0[hj]);
                        }
                    }
                }
            }
        }
        i = i + 1;
    }
    (out, next)
}

} // verus!
