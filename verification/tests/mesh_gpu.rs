use popone::gpu::{rigid_color_class, RigidColor};
use popone::gpu::{
    can_use_unorm_frame, offscreen_needs_recreate, pipeline_set_slot, shared_toon_ramps,
    toon_rle, toon_rows_to_rgba, toon_step, BufferUpload, DrawMode, DrawPath, DynamicBuffer,
    LightMode, OffscreenKey, ShaderOverride, ShaderSelection,
};
use popone::gpu::{standard_draw_plan, CullMode, DrawInfo, DrawStep, PipelineKind, StandardPassFlags};
use popone::mesh::{build_aux_refs_for, AuxTexRef, MaterialBuildFlags, RenderQueue, RenderStyle};
use popone::mesh::{
    min_filter_modes, render_queue_for, sampler_settings, AddressMode, AlphaMode, FilterMode, MagFilter,
    MinFilter, SamplerInfo, WrapMode,
};
use popone::mesh::{draw_index_ranges, group_meshes_by_material, gpu_uv_offsets, DrawRange, MeshIndexInfo};
use popone::mesh::weld_vertices;
use popone::mesh::vertex_morph_targets;
use popone::texture_mgmt::{IrMaterial, IrTextureInfo, MtoonTextures, ShaderFamily};

fn plain_material(family: ShaderFamily) -> IrMaterial {
    IrMaterial {
        name: "m".to_string(),
        group: 0,
        texture_index: None,
        base_color_tex_info: None,
        source_texture_name: None,
        emissive_texture: None,
        normal_texture: None,
        shader_family: family,
        mtoon: None,
        sphere_texture_index: None,
        sphere_mode: 0,
        toon_texture_index: None,
        toon_shared_index: None,
        colors: Vec::new(),
    }
}

#[test]
fn default_build_flags() {
    let f = MaterialBuildFlags::default_for(3);
    assert_eq!(f.smooth, vec![false; 3]);
    assert_eq!(f.clear, vec![false; 3]);
    assert_eq!(f.normal_map, vec![true; 3]);
    assert_eq!(f.emissive, vec![true; 3]);
    assert!(MaterialBuildFlags::default_for(0).smooth.is_empty());
}

#[test]
fn render_queue_order_and_blend() {
    assert!(RenderQueue::Opaque < RenderQueue::Mask);
    assert!(RenderQueue::Mask < RenderQueue::BlendZWrite);
    assert!(RenderQueue::BlendZWrite < RenderQueue::Blend);
    assert!(!RenderQueue::Opaque.is_blend());
    assert!(!RenderQueue::Mask.is_blend());
    assert!(RenderQueue::BlendZWrite.is_blend());
    assert!(RenderQueue::Blend.is_blend());
}

#[test]
fn shader_modes_and_defaults() {
    assert_eq!(ShaderOverride::Default.shader_mode(), 0);
    assert_eq!(ShaderOverride::Normal.shader_mode(), 1);
    assert_eq!(ShaderOverride::Unlit.shader_mode(), 2);
    assert_eq!(ShaderOverride::GgxPreview.shader_mode(), 3);
    assert_eq!(ShaderOverride::default(), ShaderOverride::Default);
    assert_eq!(ShaderSelection::default(), ShaderSelection::Auto);
    let _ = (DrawMode::Solid, LightMode::CameraFollow);
}

#[test]
fn unorm_frame_only_for_visible_mmd_draws() {
    let mmd = DrawPath { render_style: RenderStyle::Mmd, has_mmd_material: true };
    let std_draw = DrawPath { render_style: RenderStyle::Standard, has_mmd_material: false };
    assert!(can_use_unorm_frame(&[mmd, mmd], &[true, true], true));
    assert!(!can_use_unorm_frame(&[mmd], &[true], false));
    assert!(!can_use_unorm_frame(&[mmd, std_draw], &[true, true], true));
    // the standard draw is hidden
    assert!(can_use_unorm_frame(&[mmd, std_draw], &[true, false], true));
    // nothing visible
    assert!(!can_use_unorm_frame(&[mmd], &[false], true));
    assert!(!can_use_unorm_frame(&[], &[], true));
}

#[test]
fn dynamic_buffer_grows_only() {
    let mut b = DynamicBuffer::new();
    assert_eq!(b.upload(0), BufferUpload::Skip);
    assert_eq!(b.upload(10), BufferUpload::Recreate);
    assert_eq!(b.capacity, 10);
    assert_eq!(b.upload(5), BufferUpload::Write);
    assert_eq!(b.capacity, 10);
    assert_eq!(b.upload(11), BufferUpload::Recreate);
}

#[test]
fn offscreen_and_pipeline_slots() {
    let k = OffscreenKey { width: 10, height: 20, msaa: true };
    assert!(offscreen_needs_recreate(None, k));
    assert!(!offscreen_needs_recreate(Some(k), k));
    assert!(offscreen_needs_recreate(Some(OffscreenKey { msaa: false, ..k }), k));
    assert_eq!(pipeline_set_slot(true, false), 0);
    assert_eq!(pipeline_set_slot(false, false), 1);
    assert_eq!(pipeline_set_slot(true, true), 2);
    assert_eq!(pipeline_set_slot(false, true), 3);
}

#[test]
fn toon_ramps() {
    let rows = toon_step([10, 20, 30]);
    assert_eq!(rows.len(), 32);
    assert_eq!(rows[15], [255, 255, 255]);
    assert_eq!(rows[16], [10, 20, 30]);
    let rle = toon_rle(&[([1, 1, 1], 2), ([2, 2, 2], 0), ([3, 3, 3], 1)]);
    assert_eq!(rle, vec![[1, 1, 1], [1, 1, 1], [3, 3, 3]]);
    let rgba = toon_rows_to_rgba(&vec![[1, 2, 3], [4, 5, 6]]);
    assert_eq!(rgba, vec![1, 2, 3, 255, 4, 5, 6, 255]);
    let ramps = shared_toon_ramps();
    assert_eq!(ramps.len(), 10);
    assert!(ramps.iter().all(|r| r.len() == 32));
}

#[test]
fn aux_refs_only_when_needed() {
    assert!(build_aux_refs_for(&plain_material(ShaderFamily::Other)).is_none());
    let r = build_aux_refs_for(&plain_material(ShaderFamily::LilToon)).unwrap();
    assert_eq!(r.matcap, AuxTexRef { tex_index: None, sampler: 0, use_srgb: true });
    assert_eq!(r.shift, AuxTexRef { tex_index: None, sampler: 0, use_srgb: false });

    let mut m = plain_material(ShaderFamily::Other);
    m.normal_texture = Some(IrTextureInfo { index: 3, tex_coord: 0, sampler: 7, ..IrTextureInfo::from_index(0) });
    let mut mt = MtoonTextures::new();
    mt.rim_multiply_texture = Some(IrTextureInfo { index: 1, tex_coord: 0, sampler: 2, ..IrTextureInfo::from_index(0) });
    m.mtoon = Some(mt);
    let r = build_aux_refs_for(&m).unwrap();
    assert_eq!(r.normal, AuxTexRef { tex_index: Some(3), sampler: 7, use_srgb: false });
    assert_eq!(r.rim, AuxTexRef { tex_index: Some(1), sampler: 2, use_srgb: true });
    assert_eq!(r.emissive, AuxTexRef { tex_index: None, sampler: 0, use_srgb: true });
}

#[test]
fn alpha_modes_pick_render_queues() {
    assert_eq!(render_queue_for(AlphaMode::Opaque), RenderQueue::Opaque);
    assert_eq!(render_queue_for(AlphaMode::Mask), RenderQueue::Mask);
    assert_eq!(render_queue_for(AlphaMode::BlendWithZWrite), RenderQueue::BlendZWrite);
    assert_eq!(render_queue_for(AlphaMode::Blend), RenderQueue::Blend);
    assert!(render_queue_for(AlphaMode::Blend).is_blend());
    assert!(!render_queue_for(AlphaMode::Mask).is_blend());
}

#[test]
fn min_filters_split_into_texel_and_mipmap_filters() {
    let (l, n) = (FilterMode::Linear, FilterMode::Nearest);
    assert_eq!(min_filter_modes(MinFilter::Nearest), (n, n));
    assert_eq!(min_filter_modes(MinFilter::Linear), (l, n));
    assert_eq!(min_filter_modes(MinFilter::NearestMipmapNearest), (n, n));
    assert_eq!(min_filter_modes(MinFilter::LinearMipmapNearest), (l, n));
    assert_eq!(min_filter_modes(MinFilter::NearestMipmapLinear), (n, l));
    assert_eq!(min_filter_modes(MinFilter::LinearMipmapLinear), (l, l));
}

#[test]
fn anisotropy_only_with_all_linear_filters() {
    let mut info = SamplerInfo {
        mag_filter: MagFilter::Linear,
        min_filter: MinFilter::LinearMipmapLinear,
        wrap_u: WrapMode::Repeat,
        wrap_v: WrapMode::MirroredRepeat,
    };
    let s = sampler_settings(&info);
    assert_eq!(s.anisotropy_clamp, 16);
    assert_eq!(s.address_mode_u, AddressMode::Repeat);
    assert_eq!(s.address_mode_v, AddressMode::MirrorRepeat);
    info.min_filter = MinFilter::LinearMipmapNearest;
    info.wrap_u = WrapMode::ClampToEdge;
    let s = sampler_settings(&info);
    assert_eq!(s.anisotropy_clamp, 1);
    assert_eq!(s.mipmap_filter, FilterMode::Nearest);
    assert_eq!(s.address_mode_u, AddressMode::ClampToEdge);
    info.min_filter = MinFilter::LinearMipmapLinear;
    info.mag_filter = MagFilter::Nearest;
    assert_eq!(sampler_settings(&info).anisotropy_clamp, 1);
}

fn mesh(material_index: usize, index_count: usize) -> MeshIndexInfo {
    MeshIndexInfo { material_index, index_count }
}

#[test]
fn meshes_group_by_material_in_mesh_order() {
    let meshes = vec![mesh(1, 6), mesh(0, 3), mesh(1, 9), mesh(5, 3), mesh(0, 0)];
    assert_eq!(group_meshes_by_material(&meshes, 3), vec![vec![1, 4], vec![0, 2], vec![]]);
    assert!(group_meshes_by_material(&meshes, 0).is_empty());
}

#[test]
fn draws_cover_material_indices_in_material_order() {
    let meshes = vec![mesh(1, 6), mesh(0, 3), mesh(1, 9), mesh(5, 3), mesh(0, 0), mesh(3, 0)];
    assert_eq!(
        draw_index_ranges(&meshes, 4),
        vec![
            DrawRange { material_index: 0, index_offset: 0, index_count: 3 },
            DrawRange { material_index: 1, index_offset: 3, index_count: 15 },
            // a material whose meshes have no indices still gets an (empty) draw
            DrawRange { material_index: 3, index_offset: 18, index_count: 0 },
        ]
    );
    assert!(draw_index_ranges(&vec![], 2).is_empty());
}

#[test]
fn uv_morph_offsets_follow_welded_gpu_vertices() {
    // model vertices 0 and 2 were welded into GPU vertex 7
    let to_gpu = vec![7u32, 8, 7, 9];
    let offsets = vec![(2usize, [0.5f32, 0.0]), (1, [0.0, 0.25]), (0, [1.0, 1.0]), (9, [3.0, 3.0]), (3, [0.0, -1.0])];
    assert_eq!(
        gpu_uv_offsets(0, &offsets, &to_gpu),
        vec![(7, [0.5, 0.0]), (8, [0.0, 0.25]), (9, [0.0, -1.0])]
    );
    assert_eq!(gpu_uv_offsets(1, &offsets, &to_gpu).len(), 3);
    assert!(gpu_uv_offsets(2, &offsets, &to_gpu).is_empty());
}

fn info(q: RenderQueue, style: RenderStyle, outline: bool) -> DrawInfo {
    DrawInfo { render_queue: q, cull_mode: CullMode::Back, render_style: style, has_mmd_bind_group: true, has_outline: outline }
}

fn step(draw: usize, pipeline: PipelineKind) -> DrawStep {
    DrawStep { draw, pipeline }
}

#[test]
fn standard_pass_orders_phases_and_outlines() {
    let draws = vec![
        info(RenderQueue::Blend, RenderStyle::Standard, true),
        info(RenderQueue::Opaque, RenderStyle::Standard, true),
        info(RenderQueue::Mask, RenderStyle::Mmd, false),
        info(RenderQueue::Opaque, RenderStyle::Standard, false),
    ];
    let order = vec![3, 2, 1, 0];
    let flags = StandardPassFlags { wireframe: false, solid_wire: false, outlines: true, mmd_solid: false };
    let plan = standard_draw_plan(&draws, &order, &vec![], flags);
    assert_eq!(
        plan,
        vec![
            step(3, PipelineKind::Surface(RenderQueue::Opaque, CullMode::Back)),
            step(1, PipelineKind::Surface(RenderQueue::Opaque, CullMode::Back)),
            step(1, PipelineKind::Outline),
            step(2, PipelineKind::Surface(RenderQueue::Mask, CullMode::Back)),
            step(0, PipelineKind::Surface(RenderQueue::Blend, CullMode::Back)),
            step(0, PipelineKind::OutlineBlend),
        ]
    );
    // MMD draws go to the MMD pass; a hidden draw is skipped; wireframe drops outlines
    let flags = StandardPassFlags { wireframe: true, solid_wire: false, outlines: true, mmd_solid: true };
    let plan = standard_draw_plan(&draws, &order, &vec![true, false], flags);
    assert_eq!(plan, vec![step(3, PipelineKind::Wireframe), step(0, PipelineKind::Wireframe)]);
    // solid + wire adds the overlay of every visible draw in model order
    let flags = StandardPassFlags { wireframe: false, solid_wire: true, outlines: false, mmd_solid: false };
    let plan = standard_draw_plan(&draws, &order, &vec![true, true, false], flags);
    assert_eq!(&plan[plan.len() - 3..], &[step(0, PipelineKind::WireOverlay), step(1, PipelineKind::WireOverlay), step(3, PipelineKind::WireOverlay)]);
}

#[test]
fn vertex_morph_targets_dedup_by_gpu_vertex() {
    let to_gpu: Vec<u32> = vec![7, 8, 7, 9];
    let positions: Vec<usize> = vec![2, 10];
    let normals: Vec<usize> = vec![0, 3];
    let tangents: Vec<usize> = vec![];
    let r = vertex_morph_targets(&positions, &normals, &tangents, &to_gpu);
    assert_eq!(r, vec![(7u32, 0usize), (9u32, 3usize)]);
}

#[test]
fn vertex_morph_targets_empty_morph() {
    let to_gpu: Vec<u32> = vec![0, 1, 2];
    let r = vertex_morph_targets(&vec![], &vec![], &vec![], &to_gpu);
    assert!(r.is_empty());
}

#[test]
fn welding_shares_vertices_with_the_same_position_and_uvs() {
    let a = [1u32, 2, 3, 4, 5, 6, 7];
    let b = [1u32, 2, 3, 4, 5, 6, 8];
    let keys = vec![a, b, a, a, b, [0; 7]];
    // smoothing: repeated keys reuse the first number
    assert_eq!(weld_vertices(&keys, true, 10), (vec![10, 11, 10, 10, 11, 12], 13));
    // no smoothing: every vertex gets its own number
    assert_eq!(weld_vertices(&keys, false, 0), (vec![0, 1, 2, 3, 4, 5], 6));
    // keys whose hashes collide are still told apart
    let c = [0u32, 0, 0, 0, 0, 0, 1];
    let d = [0u32, 1, 0, 0, 0, 0, 0];
    assert_eq!(weld_vertices(&vec![c, d, c], true, 0), (vec![0, 1, 0], 2));
    assert_eq!(weld_vertices(&vec![], true, 5), (vec![], 5));
}

#[test]
fn rigid_body_colors_follow_format() {
    assert_eq!(rigid_color_class(true, 0, 1), RigidColor::BoneFollow);
    assert_eq!(rigid_color_class(true, 1, 0), RigidColor::Physics);
    assert_eq!(rigid_color_class(true, 2, 1), RigidColor::PhysicsBone);
    assert_eq!(rigid_color_class(false, 0, 1), RigidColor::Collider);
    assert_eq!(rigid_color_class(false, 1, 3), RigidColor::Spring);
}
