use std::collections::HashSet;

use popone::export_filter::{build_filtered_ir, IrMesh, IrModel, IrMorph, IrMorphKind, IrPayload, MaterialBind};
use popone::texture_mgmt::{TexTransform, IrMaterial, IrTexture, IrTextureInfo, ShaderFamily, TextureData};

/// Test payload: plain values standing for the model data the filter passes through.
struct Pmx;

impl IrPayload for Pmx {
    type Header = (String, Vec<String>);
    type RigidBody = u32;
    type Joint = u32;
    type Vertex = [f32; 3];
    type MeshData = String;
    type MorphHeader = (String, u8);
    type VertexOffset = [f32; 3];
    type GroupWeight = f32;
    type ColorBind = f32;
    type UvBind = [f32; 2];
    type UvChannel = u8;
    type UvOffset = [f32; 4];
}

fn material(name: &str) -> IrMaterial {
    IrMaterial {
        name: name.to_string(),
        group: 0,
        texture_index: None,
        base_color_tex_info: None,
        source_texture_name: None,
        emissive_texture: None,
        normal_texture: None,
        shader_family: ShaderFamily::Other,
        mtoon: None,
        sphere_texture_index: None,
        sphere_mode: 0,
        toon_texture_index: None,
        toon_shared_index: None,
        colors: Vec::new(),
    }
}

fn mesh(name: &str, mat: usize, verts: usize) -> IrMesh<Pmx> {
    IrMesh { vertices: vec![[0.0; 3]; verts], material_index: mat, data: name.to_string() }
}

fn vertex_morph(name: &str, panel: u8, positions: Vec<(usize, [f32; 3])>) -> IrMorph<Pmx> {
    IrMorph {
        header: (name.to_string(), panel),
        kind: IrMorphKind::Vertex { positions, normals: Vec::new(), tangents: Vec::new() },
    }
}

fn group_morph(name: &str, children: Vec<(usize, f32)>) -> IrMorph<Pmx> {
    IrMorph { header: (name.to_string(), 4), kind: IrMorphKind::Group(children) }
}

fn texture(name: &str, byte: u8) -> IrTexture {
    IrTexture {
        filename: name.to_string(),
        data: TextureData::Encoded(vec![byte]),
        mime_type: "image/png".to_string(),
        source_path: String::new(),
    }
}

fn model(meshes: Vec<IrMesh<Pmx>>, materials: Vec<IrMaterial>, morphs: Vec<IrMorph<Pmx>>) -> IrModel<Pmx> {
    IrModel {
        header: ("test".to_string(), vec!["Root".to_string()]),
        rigid_bodies: vec![1],
        joints: vec![2],
        meshes,
        materials,
        textures: Vec::new(),
        morphs,
    }
}

fn names(m: &IrModel<Pmx>) -> Vec<String> {
    m.morphs.iter().map(|m| m.header.0.clone()).collect()
}

#[test]
fn test_filter_with_hidden_material() {
    let ir = model(
        vec![mesh("mesh0", 0, 6), mesh("mesh1", 1, 3), mesh("mesh2", 2, 4)],
        vec![material("mat0"), material("mat1"), material("mat2")],
        vec![vertex_morph("blink", 2, vec![(1, [0.0, 1.0, 0.0]), (7, [1.0, 0.0, 0.0]), (10, [0.0, 0.0, 1.0])])],
    );
    let visible: HashSet<usize> = [0, 2].iter().copied().collect();
    let filtered = build_filtered_ir(ir, &visible);

    assert_eq!(filtered.materials.len(), 2);
    assert_eq!(filtered.materials[0].name, "mat0");
    assert_eq!(filtered.materials[1].name, "mat2");

    assert_eq!(filtered.meshes.len(), 2);
    assert_eq!(filtered.meshes[0].material_index, 0);
    assert_eq!(filtered.meshes[1].material_index, 1);

    assert_eq!(filtered.morphs.len(), 1);
    if let IrMorphKind::Vertex { ref positions, .. } = filtered.morphs[0].kind {
        assert_eq!(positions.len(), 2);
        assert_eq!(positions[0].0, 1);
        assert_eq!(positions[1].0, 7);
    } else {
        panic!("should be a vertex morph");
    }
}

#[test]
fn test_morph_fully_removed() {
    let ir = model(
        vec![mesh("mesh0", 0, 3), mesh("mesh1", 1, 3)],
        vec![material("mat0"), material("mat1")],
        vec![
            vertex_morph("smile", 3, vec![(3, [0.0, 1.0, 0.0]), (4, [1.0, 0.0, 0.0])]),
            vertex_morph("blink", 2, vec![(0, [0.0, 1.0, 0.0])]),
        ],
    );
    let visible: HashSet<usize> = [0].iter().copied().collect();
    let filtered = build_filtered_ir(ir, &visible);
    assert_eq!(filtered.morphs.len(), 1);
    assert_eq!(filtered.morphs[0].header.0, "blink");
}

#[test]
fn test_group_morph_remap() {
    let ir = model(
        vec![mesh("mesh0", 0, 3), mesh("mesh1", 1, 3)],
        vec![material("mat0"), material("mat1")],
        vec![
            vertex_morph("smile", 3, vec![(3, [0.0, 1.0, 0.0])]),
            vertex_morph("blink", 2, vec![(0, [0.0, 1.0, 0.0])]),
            group_morph("group", vec![(0, 0.5), (1, 1.0)]),
        ],
    );
    let visible: HashSet<usize> = [0].iter().copied().collect();
    let filtered = build_filtered_ir(ir, &visible);
    assert_eq!(names(&filtered), vec!["blink", "group"]);
    if let IrMorphKind::Group(ref entries) = filtered.morphs[1].kind {
        assert_eq!(entries.len(), 1);
        assert_eq!(entries[0].0, 0);
        assert_eq!(entries[0].1, 1.0);
    } else {
        panic!("should be a group morph");
    }
}

#[test]
fn test_nested_group_morph_cascade_removal() {
    let ir = model(
        vec![mesh("mesh0", 0, 3), mesh("mesh1", 1, 3)],
        vec![material("mat0"), material("mat1")],
        vec![
            vertex_morph("vtx_alive", 2, vec![(0, [0.0, 1.0, 0.0])]),
            vertex_morph("vtx_dead", 2, vec![(3, [0.0, 1.0, 0.0])]),
            group_morph("inner", vec![(1, 1.0)]),
            group_morph("outer", vec![(2, 0.5), (0, 1.0)]),
        ],
    );
    let visible: HashSet<usize> = [0].iter().copied().collect();
    let filtered = build_filtered_ir(ir, &visible);
    assert_eq!(names(&filtered), vec!["vtx_alive", "outer"]);
    if let IrMorphKind::Group(ref entries) = filtered.morphs[1].kind {
        assert_eq!(entries.len(), 1);
        assert_eq!(entries[0].0, 0);
        assert_eq!(entries[0].1, 1.0);
    } else {
        panic!("should be a group morph");
    }
}

#[test]
fn test_all_materials_hidden() {
    let ir = model(
        vec![mesh("mesh0", 0, 3)],
        vec![material("mat0")],
        vec![vertex_morph("blink", 2, vec![(0, [0.0, 1.0, 0.0])])],
    );
    let visible: HashSet<usize> = HashSet::new();
    let filtered = build_filtered_ir(ir, &visible);
    assert_eq!(filtered.materials.len(), 0);
    assert_eq!(filtered.meshes.len(), 0);
    assert_eq!(filtered.morphs.len(), 0);
    assert_eq!(filtered.textures.len(), 0);
    // bones are kept
    assert_eq!(filtered.header.1.len(), 1);
}

#[test]
fn test_texture_pruning() {
    let mut mat0 = material("mat0");
    mat0.texture_index = Some(0);
    let mut mat1 = material("mat1");
    mat1.texture_index = Some(1);
    let mut ir = model(vec![mesh("mesh0", 0, 3), mesh("mesh1", 1, 3)], vec![mat0, mat1], vec![]);
    ir.textures = vec![texture("tex0.png", 0), texture("tex1.png", 1)];
    let visible: HashSet<usize> = [0].iter().copied().collect();
    let filtered = build_filtered_ir(ir, &visible);
    assert_eq!(filtered.textures.len(), 1);
    assert_eq!(filtered.textures[0].filename, "tex0.png");
    assert_eq!(filtered.materials[0].texture_index, Some(0));
}

#[test]
fn test_base_color_tex_info_remap() {
    let mut mat0 = material("mat0");
    mat0.texture_index = Some(0);
    mat0.base_color_tex_info = Some(IrTextureInfo {
        index: 0,
        tex_coord: 1,
        transform: TexTransform {
            offset_x: 0.1f32.to_bits(),
            offset_y: 0.2f32.to_bits(),
            scale_x: 2.0f32.to_bits(),
            scale_y: 2.0f32.to_bits(),
            rotation: 0.5f32.to_bits(),
        },
        sampler: 3,
    });
    let mut mat1 = material("mat1");
    mat1.texture_index = Some(1);
    mat1.base_color_tex_info = Some(IrTextureInfo::from_index(1));
    let mut ir = model(vec![mesh("mesh0", 0, 3), mesh("mesh1", 1, 3)], vec![mat0, mat1], vec![]);
    ir.textures = vec![texture("tex0.png", 0), texture("tex1.png", 1)];
    let visible: HashSet<usize> = [0].iter().copied().collect();
    let filtered = build_filtered_ir(ir, &visible);
    assert_eq!(filtered.textures.len(), 1);
    let mat = &filtered.materials[0];
    assert_eq!(mat.texture_index, Some(0));
    let ti = mat.base_color_tex_info.as_ref().unwrap();
    assert_eq!(ti.index, 0);
    // the rest of the reference is kept
    assert_eq!(ti.tex_coord, 1);
    assert_eq!(ti.sampler, 3);
    assert!((f32::from_bits(ti.transform.offset_x) - 0.1).abs() < 1e-6);
    assert!((f32::from_bits(ti.transform.offset_y) - 0.2).abs() < 1e-6);
    assert!((f32::from_bits(ti.transform.scale_x) - 2.0).abs() < 1e-6);
    assert!((f32::from_bits(ti.transform.scale_y) - 2.0).abs() < 1e-6);
    assert!((f32::from_bits(ti.transform.rotation) - 0.5).abs() < 1e-6);
}

#[test]
fn material_and_uv_morphs_follow_visibility() {
    let ir = model(
        vec![mesh("mesh0", 0, 2), mesh("mesh1", 1, 2)],
        vec![material("mat0"), material("mat1")],
        vec![
            IrMorph {
                header: ("tint".to_string(), 1),
                kind: IrMorphKind::Material {
                    color_binds: vec![
                        MaterialBind { material_index: 1, data: 0.5 },
                        MaterialBind { material_index: 0, data: 0.25 },
                    ],
                    uv_binds: vec![MaterialBind { material_index: 1, data: [1.0, 1.0] }],
                },
            },
            IrMorph {
                header: ("hidden_tint".to_string(), 1),
                kind: IrMorphKind::Material {
                    color_binds: vec![MaterialBind { material_index: 0, data: 1.0 }],
                    uv_binds: Vec::new(),
                },
            },
            IrMorph {
                header: ("scroll".to_string(), 1),
                kind: IrMorphKind::Uv { channel: 0, offsets: vec![(0, [0.0; 4]), (3, [1.0; 4])] },
            },
        ],
    );
    let visible: HashSet<usize> = [1].iter().copied().collect();
    let filtered = build_filtered_ir(ir, &visible);
    assert_eq!(names(&filtered), vec!["tint", "scroll"]);
    if let IrMorphKind::Material { ref color_binds, ref uv_binds } = filtered.morphs[0].kind {
        assert_eq!(color_binds.len(), 1);
        assert_eq!(color_binds[0].material_index, 0);
        assert_eq!(color_binds[0].data, 0.5);
        assert_eq!(uv_binds.len(), 1);
    } else {
        panic!("should be a material morph");
    }
    if let IrMorphKind::Uv { ref offsets, .. } = filtered.morphs[1].kind {
        assert_eq!(offsets.len(), 1);
        assert_eq!(offsets[0].0, 1);
    } else {
        panic!("should be a UV morph");
    }
    assert_eq!(filtered.rigid_bodies, vec![1]);
    assert_eq!(filtered.meshes[0].data, "mesh1");
}

#[test]
fn kept_materials_keep_their_colors() {
    let mut mat0 = material("mat0");
    mat0.colors = vec![1.0f32.to_bits(), 0.5f32.to_bits(), 0.25f32.to_bits()];
    let mut mat1 = material("mat1");
    mat1.colors = vec![0.0f32.to_bits()];
    let mut mat2 = material("mat2");
    mat2.colors = vec![0.75f32.to_bits(), 2.0f32.to_bits()];
    let ir = model(vec![mesh("mesh0", 0, 3), mesh("mesh1", 1, 3), mesh("mesh2", 2, 3)], vec![mat0, mat1, mat2], vec![]);
    let visible: HashSet<usize> = [0, 2].iter().copied().collect();
    let filtered = build_filtered_ir(ir, &visible);
    assert_eq!(filtered.materials.len(), 2);
    assert_eq!(filtered.materials[0].colors, vec![1.0f32.to_bits(), 0.5f32.to_bits(), 0.25f32.to_bits()]);
    assert_eq!(filtered.materials[1].colors, vec![0.75f32.to_bits(), 2.0f32.to_bits()]);
}
