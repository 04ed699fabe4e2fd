use popone::texture_mgmt::auto_assign_plan;
use popone::texture_mgmt::{
    push_decimal, CachedMaterialInfo, DrawSlot, IrMaterial, IrTexture, IrTextureInfo, LoadedModel,
    PendingPsdConversion, PendingTexMatch, PendingTexPreview, PsdPoll, ReloadableSource, ShaderFamily,
    TextureBackend, TextureData, TextureSlot, TextureState, ViewerApp,
};
use popone::texture_mgmt::ConvertMessage;
use popone::texture_mgmt::{ir_thumbnail_rgba, plan_history_recall, HistoryEntry, RecallPlan, TextureSource};
use popone::texture::{DecodeError, RgbaImageData};

/// A renderer stand-in: thumbnails, bind groups and views are numbered. Its PSD
/// reader accepts any bytes that do not start with 0, giving one pixel.
#[derive(Default)]
struct FakeBackend {
    next: u32,
    freed: Vec<u32>,
    thumbs: Vec<Vec<u8>>,
    uploads: Vec<(Vec<u8>, u32, u32)>,
    psd_started: Vec<Vec<u8>>,
    psd_states: Vec<(u64, PsdPoll)>,
    bind_samplers: Vec<Option<u32>>,
}

impl FakeBackend {
    fn fresh(&mut self) -> u32 {
        self.next += 1;
        self.next
    }
}

impl TextureBackend<u32, u32, u32> for FakeBackend {
    // The records exist only for the proofs; nothing reads them at run time.
    fn psd_decoded(_data: vstd::seq::Seq<u8>) -> Result<(vstd::seq::Seq<u8>, u32, u32), vstd::seq::Seq<char>> {
        unreachable!()
    }

    fn thumbs(&self) -> vstd::seq::Seq<vstd::seq::Seq<u8>> {
        unreachable!()
    }

    fn uploads(&self) -> vstd::seq::Seq<(vstd::seq::Seq<u8>, u32, u32)> {
        unreachable!()
    }

    fn freed(&self) -> vstd::seq::Seq<u32> {
        unreachable!()
    }

    fn decode_psd(data: &[u8]) -> Result<RgbaImageData, DecodeError> {
        match data.first() {
            Some(&b) if b != 0 => Ok(RgbaImageData { pixels: vec![b; 4], width: 1, height: 1 }),
            _ => Err(DecodeError { detail: "not a psd".to_string() }),
        }
    }

    fn register_thumbnail(&mut self, rgba: &Vec<u8>, _size: u32) -> u32 {
        self.thumbs.push(rgba.clone());
        1000 + self.fresh()
    }

    fn free_thumbnail(&mut self, id: u32) {
        self.freed.push(id);
    }

    fn upload_rgba(&mut self, rgba: &Vec<u8>, width: u32, height: u32) -> (u32, u32) {
        self.uploads.push((rgba.clone(), width, height));
        let v = self.fresh();
        (v, v + 500)
    }

    fn texture_bind_group(&mut self, view: &u32, sampler: Option<u32>) -> u32 {
        self.bind_samplers.push(sampler);
        10_000 + *view * 10 + self.fresh()
    }

    fn start_psd_conversion(&mut self, psd: &Vec<u8>) -> u64 {
        self.psd_started.push(psd.clone());
        self.psd_started.len() as u64
    }

    fn poll_psd_conversion(&mut self, ticket: u64) -> PsdPoll {
        match self.psd_states.iter().position(|(t, _)| *t == ticket) {
            Some(i) => self.psd_states.remove(i).1,
            None => PsdPoll::Pending,
        }
    }
}

fn material(name: &str, group: usize) -> IrMaterial {
    IrMaterial {
        name: name.to_string(),
        group,
        texture_index: None,
        base_color_tex_info: None,
        source_texture_name: None,
        emissive_texture: None,
        normal_texture: None,
        shader_family: ShaderFamily::Other,
        mtoon: None,
        sphere_texture_index: None,
        sphere_mode: 0,
        toon_texture_index: None,
        toon_shared_index: Some(3),
        colors: Vec::new(),
    }
}

fn texture(name: &str, bytes: &[u8]) -> IrTexture {
    IrTexture {
        filename: name.to_string(),
        data: TextureData::Encoded(bytes.to_vec()),
        mime_type: "image/png".to_string(),
        source_path: name.to_string(),
    }
}

/// PNG bytes of a one-row image whose gray levels are `levels`.
fn png(levels: &[u8]) -> Vec<u8> {
    let pixels: Vec<u8> = levels.iter().flat_map(|&l| [l, l, l, 255]).collect();
    let img = image::RgbaImage::from_raw(levels.len() as u32, 1, pixels).unwrap();
    let mut out = std::io::Cursor::new(Vec::new());
    image::DynamicImage::ImageRgba8(img).write_to(&mut out, image::ImageFormat::Png).unwrap();
    out.into_inner()
}

fn draw(material_index: usize, bind: u32) -> DrawSlot<u32> {
    DrawSlot {
        material_index,
        texture_bind_group: Some(bind),
        mmd_texture_bind_group: Some(bind + 1),
    }
}

fn empty_cache() -> CachedMaterialInfo {
    CachedMaterialInfo {
        draw_indices: Vec::new(),
        names: Vec::new(),
        tex_indices: Vec::new(),
        source_tex_names: Vec::new(),
        tex_set_count: 0,
        tex_status_text: String::new(),
    }
}

fn app(textures: Vec<IrTexture>, materials: Vec<IrMaterial>, draws: Vec<DrawSlot<u32>>) -> ViewerApp<u32, u32, u32> {
    let views = (0..textures.len() as u32).map(|i| (i, i + 500)).collect();
    ViewerApp {
        loaded: Some(LoadedModel {
            textures,
            materials,
            draws,
            texture_views: views,
            appended_models: 0,
            source: ReloadableSource::File("C:/models/a.pmx".to_string()),
            mat_cache: empty_cache(),
        }),
        tex: TextureState {
            assignments: std::collections::HashMap::new(),
            pending_preview: None,
            pending_match: None,
            pkg_textures: None,
            pkg_thumb_cache: Vec::new(),
            ir_thumb_cache: Vec::new(),
            link_same_name: true,
            pending_psd_conversions: Vec::new(),
        },
        has_renderer: true,
        dirty_materials: Vec::new(),
        convert_message: None,
    }
}

fn binds(a: &ViewerApp<u32, u32, u32>) -> Vec<Option<u32>> {
    a.loaded.as_ref().unwrap().draws.iter().map(|d| d.texture_bind_group).collect()
}

fn preview(num_mats: usize) -> PendingTexPreview<u32, u32, u32> {
    PendingTexPreview {
        path: "drop.png".to_string(),
        cached_data: vec![1, 2, 3],
        is_psd: false,
        was_temp: false,
        selection: vec![false; num_mats],
        previewed: vec![false; num_mats],
        texture_view: 7,
        saved_binds: Vec::new(),
        preview_tex_id: Some(77),
    }
}

#[test]
fn thumb_cache_follows_texture_count() {
    let mut be = FakeBackend::default();
    let mut a = app(vec![texture("a.png", &png(&[1])), texture("broken.png", &[2])], vec![], vec![]);
    a.sync_ir_thumb_cache(&mut be);
    assert_eq!(a.tex.ir_thumb_cache.len(), 2);
    assert!(a.tex.ir_thumb_cache[0].is_some());
    assert_eq!(a.tex.ir_thumb_cache[1], None);
    // the registered thumbnail is the texture scaled to 64 x 64
    assert_eq!(be.thumbs, vec![vec![1, 1, 1, 255].repeat(64 * 64)]);
    let first = a.tex.ir_thumb_cache[0];

    // one more texture: only the tail is built
    a.loaded.as_mut().unwrap().textures.push(texture("c.png", &png(&[3])));
    a.sync_ir_thumb_cache(&mut be);
    assert_eq!(a.tex.ir_thumb_cache.len(), 3);
    assert_eq!(a.tex.ir_thumb_cache[0], first);
    assert!(be.freed.is_empty());

    // fewer textures: rebuilt, old thumbnails released
    a.loaded.as_mut().unwrap().textures.truncate(1);
    a.sync_ir_thumb_cache(&mut be);
    assert_eq!(a.tex.ir_thumb_cache.len(), 1);
    assert_eq!(be.freed.len(), 2);
    assert_ne!(a.tex.ir_thumb_cache[0], first);

    // model gone: cleared
    a.loaded = None;
    a.sync_ir_thumb_cache(&mut be);
    assert!(a.tex.ir_thumb_cache.is_empty());
    assert_eq!(be.freed.len(), 3);
}

#[test]
fn append_ir_thumb_cache_appends_from_start() {
    let mut be = FakeBackend::default();
    let mut a = app(vec![texture("a.png", &png(&[1])), texture("b.png", &png(&[2])), texture("c.png", &png(&[3]))], vec![], vec![]);
    a.append_ir_thumb_cache(&mut be, 1);
    assert_eq!(a.tex.ir_thumb_cache.len(), 2);
    a.append_ir_thumb_cache(&mut be, 3);
    assert_eq!(a.tex.ir_thumb_cache.len(), 2);
    a.rebuild_ir_thumb_cache(&mut be);
    assert_eq!(a.tex.ir_thumb_cache.len(), 3);
    assert_eq!(be.freed.len(), 2);
}

#[test]
fn pkg_thumb_cache_follows_package() {
    let mut be = FakeBackend::default();
    let mut a = app(vec![], vec![], vec![]);
    a.tex.pkg_textures = Some(vec![("x.png".to_string(), png(&[1])), ("broken.psd".to_string(), vec![0])]);
    a.rebuild_pkg_thumb_cache(&mut be);
    assert_eq!(a.tex.pkg_thumb_cache.len(), 2);
    assert_eq!(a.tex.pkg_thumb_cache[1], None);
    a.tex.pkg_textures.as_mut().unwrap().push(("y.png".to_string(), png(&[3])));
    a.append_pkg_thumb_cache(&mut be, 2);
    assert_eq!(a.tex.pkg_thumb_cache.len(), 3);
    a.clear_pkg_thumb_cache(&mut be);
    assert!(a.tex.pkg_thumb_cache.is_empty());
    assert_eq!(be.freed.len(), 2);
}

#[test]
fn preview_then_cancel_restores_bind_groups() {
    let mut be = FakeBackend::default();
    let mut a = app(vec![], vec![material("a", 0), material("b", 0)], vec![draw(0, 1), draw(1, 2), draw(0, 3)]);
    let before = binds(&a);
    a.tex.pending_preview = Some(preview(2));

    a.tex.pending_preview.as_mut().unwrap().selection[0] = true;
    a.sync_tex_preview(&mut be);
    let after = binds(&a);
    assert_ne!(after[0], before[0]);
    assert_eq!(after[1], before[1]);
    assert_ne!(after[2], before[2]);
    assert_eq!(a.tex.pending_preview.as_ref().unwrap().previewed, vec![true, false]);
    // preview bind groups use the renderer's shared sampler
    assert!(be.bind_samplers.iter().all(|s| s.is_none()));

    // unchecking gives material 0 its own bind groups back
    a.tex.pending_preview.as_mut().unwrap().selection[0] = false;
    a.tex.pending_preview.as_mut().unwrap().selection[1] = true;
    a.sync_tex_preview(&mut be);
    let after2 = binds(&a);
    assert_eq!(after2[0], before[0]);
    assert_eq!(after2[2], before[2]);
    assert_ne!(after2[1], before[1]);

    a.cancel_tex_preview(&mut be);
    assert!(a.tex.pending_preview.is_none());
    assert_eq!(binds(&a), before);
    assert_eq!(be.freed, vec![77]);
    // MMD bind groups were never touched
    let d = &a.loaded.as_ref().unwrap().draws;
    assert_eq!(d[0].mmd_texture_bind_group, Some(2));
}

#[test]
fn sync_tex_preview_needs_model_and_renderer() {
    let mut be = FakeBackend::default();
    let mut a = app(vec![], vec![material("a", 0)], vec![draw(0, 1)]);
    a.has_renderer = false;
    let mut p = preview(1);
    p.selection[0] = true;
    a.tex.pending_preview = Some(p);
    a.sync_tex_preview(&mut be);
    assert_eq!(a.tex.pending_preview.as_ref().unwrap().previewed, vec![false]);
    assert_eq!(binds(&a), vec![Some(1)]);
}

#[test]
fn match_dialog_views_and_cancel() {
    let mut a = app(vec![], vec![material("a", 0), material("b", 0)], vec![draw(0, 1), draw(1, 2)]);
    a.tex.pkg_textures = Some(vec![("x.png".to_string(), vec![1]), ("y.png".to_string(), vec![2])]);
    a.tex.pending_match = Some(PendingTexMatch {
        mat_indices: vec![0, 1],
        selections: vec![Some(0), None],
        tex_filter: String::new(),
        previewed: vec![Some(0), None],
        saved_binds: vec![Some((Some(1), Some(2)))],
        texture_views: Vec::new(),
        failed_uploads: Vec::new(),
    });
    a.prepare_tex_match_views();
    assert_eq!(a.tex.pending_match.as_ref().unwrap().texture_views, vec![None, None]);
    a.tex.pending_match.as_mut().unwrap().texture_views[0] = Some(9);
    a.prepare_tex_match_views();
    assert_eq!(a.tex.pending_match.as_ref().unwrap().texture_views, vec![Some(9), None]);

    // the dialog had put bind group 50 on draw 0
    a.loaded.as_mut().unwrap().draws[0].texture_bind_group = Some(50);
    a.loaded.as_mut().unwrap().draws[0].mmd_texture_bind_group = None;
    let mut p = preview(2);
    p.previewed = vec![true, true];
    a.tex.pending_preview = Some(p);
    a.cancel_tex_match_preview();
    assert!(a.tex.pending_match.is_none());
    let d = &a.loaded.as_ref().unwrap().draws;
    assert_eq!(d[0].texture_bind_group, Some(1));
    assert_eq!(d[0].mmd_texture_bind_group, Some(2));
    assert_eq!(d[1].texture_bind_group, Some(2));
    assert_eq!(a.tex.pending_preview.as_ref().unwrap().previewed, vec![false, false]);
}

#[test]
fn history_key_only_for_single_file_models() {
    let mut a = app(vec![], vec![], vec![]);
    let norm = |p: &String| p.replace('\\', "/").to_lowercase();
    assert_eq!(a.texture_history_key(norm), Some("c:/models/a.pmx".to_string()));
    a.loaded.as_mut().unwrap().appended_models = 1;
    assert_eq!(a.texture_history_key(norm), None);
    a.loaded.as_mut().unwrap().appended_models = 0;
    a.loaded.as_mut().unwrap().source = ReloadableSource::Other;
    assert_eq!(a.texture_history_key(norm), None);
    a.loaded = None;
    assert_eq!(a.texture_history_key(norm), None);
}

#[test]
fn assign_data_adds_texture_and_links_siblings() {
    let mut be = FakeBackend::default();
    let mut a = app(
        vec![texture("old.png", &[9])],
        vec![material("body", 0), material("face", 0), material("body", 0), material("body", 1)],
        vec![draw(0, 1), draw(1, 2), draw(2, 3), draw(3, 4)],
    );
    assert!(a.assign_texture_data_to_material(&mut be, 0, &"pkg/Skin.PNG".to_string(), &png(&[5, 6])));
    let l = a.loaded.as_ref().unwrap();
    assert_eq!(l.textures.len(), 2);
    assert_eq!(l.textures[1].filename, "Skin.PNG");
    assert_eq!(l.textures[1].mime_type, "image/png");
    assert_eq!(l.textures[1].source_path, "pkg/Skin.PNG");
    assert_eq!(l.texture_views.len(), 2);
    // the decoded pixels were uploaded
    assert_eq!(be.uploads, vec![(vec![5, 5, 5, 255, 6, 6, 6, 255], 2, 1)]);
    // material 0 and its same-name sibling in the same group
    assert_eq!(l.materials[0].texture_index, Some(1));
    assert_eq!(l.materials[0].base_color_tex_info, Some(IrTextureInfo { index: 1, tex_coord: 0, sampler: 0, ..IrTextureInfo::from_index(0) }));
    assert_eq!(l.materials[2].texture_index, Some(1));
    assert_eq!(l.materials[1].texture_index, None);
    assert_eq!(l.materials[3].texture_index, None);
    // their draws are rebound, MMD bind groups dropped
    assert_ne!(l.draws[0].texture_bind_group, Some(1));
    assert_eq!(l.draws[0].mmd_texture_bind_group, None);
    assert_ne!(l.draws[2].texture_bind_group, Some(3));
    assert_eq!(l.draws[1].texture_bind_group, Some(2));
    assert_eq!(l.draws[3].mmd_texture_bind_group, Some(5));
    // thumbnails caught up, material cache refreshed
    assert_eq!(a.tex.ir_thumb_cache.len(), 2);
    assert_eq!(l.mat_cache.tex_set_count, 2);
    assert_eq!(l.mat_cache.tex_status_text, "Tex:2/4");
    assert_eq!(l.mat_cache.draw_indices, vec![(0, 0), (1, 1), (2, 2), (3, 3)]);
    assert!(a.dirty_materials.is_empty());

    // the same name and bytes again: the texture is reused
    assert!(a.assign_texture_data_to_material(&mut be, 1, &"pkg/Skin.PNG".to_string(), &png(&[5, 6])));
    let l = a.loaded.as_ref().unwrap();
    assert_eq!(l.textures.len(), 2);
    assert_eq!(l.texture_views.len(), 2);
    assert_eq!(l.materials[1].texture_index, Some(1));
}

#[test]
fn assign_psd_queues_conversion() {
    let mut be = FakeBackend::default();
    let mut a = app(vec![], vec![material("m", 0)], vec![draw(0, 1)]);
    a.tex.link_same_name = false;
    assert!(a.assign_texture_data_to_material(&mut be, 0, &"dir\\Face.psd".to_string(), &vec![8, 8]));
    let l = a.loaded.as_ref().unwrap();
    assert_eq!(l.textures[0].filename, "Face.psd");
    assert_eq!(l.textures[0].mime_type, "image/vnd.adobe.photoshop");
    assert_eq!(be.psd_started, vec![vec![8, 8]]);
    let c = &a.tex.pending_psd_conversions[0];
    assert_eq!(c.tex_idx, 0);
    assert_eq!(c.png_filename, "Face.png");
    assert_eq!(c.display_name, "dir\\Face.psd");
}

#[test]
fn assign_fails_only_without_upload_or_model() {
    let mut be = FakeBackend::default();
    let mut a = app(vec![], vec![material("m", 0), material("m", 0)], vec![draw(0, 1), draw(1, 2)]);
    // bytes that do not decode: nothing changes, nothing is uploaded
    assert!(!a.assign_texture_data_to_material(&mut be, 0, &"a.png".to_string(), &vec![1]));
    assert!(a.loaded.as_ref().unwrap().textures.is_empty());
    assert!(be.uploads.is_empty());
    // the failure is reported with the decoder's message
    assert!(matches!(&a.convert_message, Some(ConvertMessage::Failure(m)) if !m.is_empty()));
    a.has_renderer = false;
    // without a renderer the assignment succeeds and the bind groups are queued for a rebuild
    assert!(a.assign_texture_data_to_material(&mut be, 0, &"a.png".to_string(), &png(&[1])));
    let l = a.loaded.as_ref().unwrap();
    assert_eq!(l.textures.len(), 1);
    assert_eq!(l.materials[0].texture_index, Some(0));
    assert_eq!(l.materials[1].texture_index, Some(0));
    assert_eq!(l.draws[0].texture_bind_group, Some(1));
    assert_eq!(a.dirty_materials, vec![0, 1]);
    assert_eq!(l.mat_cache.tex_status_text, "Tex:2/2");
    let mut none: ViewerApp<u32, u32, u32> = app(vec![], vec![], vec![]);
    none.loaded = None;
    assert!(!none.assign_texture_data_to_material(&mut be, 0, &"a.png".to_string(), &png(&[1])));
}

#[test]
fn assign_core_other_slots_queue_rebuild() {
    let mut be = FakeBackend::default();
    let mut a = app(vec![], vec![material("m", 0), material("m", 0)], vec![draw(0, 1), draw(1, 2)]);
    assert!(a.assign_texture_core(&mut be, 0, TextureSlot::Matcap, &png(&[4]), false, &"m.png".to_string()));
    let l = a.loaded.as_ref().unwrap();
    assert_eq!(l.materials[0].shader_family, ShaderFamily::Mtoon);
    assert_eq!(l.materials[0].mtoon.unwrap().matcap_texture, Some(IrTextureInfo { index: 0, tex_coord: 0, sampler: 0, ..IrTextureInfo::from_index(0) }));
    assert_eq!(l.materials[1].mtoon.unwrap().matcap_texture, Some(IrTextureInfo { index: 0, tex_coord: 0, sampler: 0, ..IrTextureInfo::from_index(0) }));
    assert_eq!(a.dirty_materials, vec![0, 1]);
    assert_eq!(binds(&a), vec![Some(1), Some(2)]);

    assert!(a.assign_texture_core(&mut be, 1, TextureSlot::Toon, &png(&[4]), false, &"m.png".to_string()));
    let l = a.loaded.as_ref().unwrap();
    assert_eq!(l.materials[1].toon_texture_index, Some(0));
    assert_eq!(l.materials[1].toon_shared_index, None);
    assert!(a.assign_texture_core(&mut be, 1, TextureSlot::Sphere, &png(&[4]), false, &"m.png".to_string()));
    assert_eq!(a.loaded.as_ref().unwrap().materials[1].sphere_mode, 1);
}

#[test]
fn psd_conversions_settle() {
    let mut be = FakeBackend::default();
    let mut a = app(vec![texture("a.psd", &[1]), texture("b.psd", &[2])], vec![], vec![]);
    a.sync_ir_thumb_cache(&mut be);
    let old_thumb = a.tex.ir_thumb_cache[0].unwrap();
    a.tex.pending_psd_conversions = vec![
        PendingPsdConversion { ticket: 1, tex_idx: 0, png_filename: "a.png".into(), display_name: "a.psd".into() },
        PendingPsdConversion { ticket: 2, tex_idx: 1, png_filename: "b.png".into(), display_name: "b.psd".into() },
        PendingPsdConversion { ticket: 3, tex_idx: 5, png_filename: "z.png".into(), display_name: "z.psd".into() },
    ];
    be.psd_states = vec![(1, PsdPoll::Done(vec![7, 7])), (3, PsdPoll::Failed("bad".into()))];
    a.poll_pending_psd_conversions(&mut be);
    assert_eq!(a.tex.pending_psd_conversions.len(), 1);
    assert_eq!(a.tex.pending_psd_conversions[0].ticket, 2);
    let l = a.loaded.as_ref().unwrap();
    assert_eq!(l.textures[0].filename, "a.png");
    assert_eq!(l.textures[0].mime_type, "image/png");
    assert_eq!(l.textures[0].data.as_bytes(), &vec![7, 7]);
    assert_eq!(l.textures[1].filename, "b.psd");
    assert!(be.freed.contains(&old_thumb));
    assert_ne!(a.tex.ir_thumb_cache[0], Some(old_thumb));

    be.psd_states = vec![(2, PsdPoll::Disconnected)];
    a.poll_pending_psd_conversions(&mut be);
    assert!(a.tex.pending_psd_conversions.is_empty());
    assert_eq!(a.loaded.as_ref().unwrap().textures[1].filename, "b.psd");

    a.tex.pending_psd_conversions.push(PendingPsdConversion {
        ticket: 9,
        tex_idx: 0,
        png_filename: "q.png".into(),
        display_name: "q.psd".into(),
    });
    a.loaded = None;
    a.poll_pending_psd_conversions(&mut be);
    assert!(a.tex.pending_psd_conversions.is_empty());
}

#[test]
fn material_cache_status_text() {
    let mut mats = vec![material("a", 0), material("b", 0), material("c", 0)];
    mats[1].texture_index = Some(0);
    mats[2].source_texture_name = Some("c.tga".to_string());
    let c = CachedMaterialInfo::build(&mats, &vec![draw(2, 0)]);
    assert_eq!(c.tex_status_text, "Tex:1/3");
    assert_eq!(c.tex_set_count, 1);
    assert_eq!(c.names, vec!["a", "b", "c"]);
    assert_eq!(c.tex_indices, vec![None, Some(0), None]);
    assert_eq!(c.source_tex_names, vec![None, None, Some("c.tga".to_string())]);
    assert_eq!(c.draw_indices, vec![(0, 2)]);
}

#[test]
fn decimal_text() {
    for n in [0usize, 7, 10, 305, 123456789] {
        let mut s = String::from("#");
        push_decimal(&mut s, n);
        assert_eq!(s, format!("#{n}"));
    }
}

fn pairs(a: &ViewerApp<u32, u32, u32>) -> Vec<(Option<u32>, Option<u32>)> {
    a.loaded
        .as_ref()
        .unwrap()
        .draws
        .iter()
        .map(|d| (d.texture_bind_group, d.mmd_texture_bind_group))
        .collect()
}

#[test]
fn match_preview_uploads_on_demand_and_cancel_restores() {
    let mut be = FakeBackend::default();
    let mut a = app(
        vec![],
        vec![material("hair", 0), material("eye", 0), material("hair", 0)],
        vec![draw(0, 1), draw(1, 3), draw(2, 5)],
    );
    let before = pairs(&a);
    a.tex.pkg_textures = Some(vec![("h.png".to_string(), png(&[1])), ("e.png".to_string(), vec![2])]);
    a.tex.pending_match = Some(PendingTexMatch {
        mat_indices: vec![0, 1],
        selections: vec![Some(0), None],
        tex_filter: String::new(),
        previewed: vec![None, None],
        saved_binds: Vec::new(),
        texture_views: Vec::new(),
        failed_uploads: Vec::new(),
    });
    a.prepare_tex_match_views();
    a.sync_tex_match_preview(&mut be);
    let m = a.tex.pending_match.as_ref().unwrap();
    assert_eq!(m.previewed, vec![Some(0), None]);
    assert!(m.texture_views[0].is_some());
    assert!(m.texture_views[1].is_none());
    let now = pairs(&a);
    // material 0 and its same-name sibling 2 show the package texture
    assert_ne!(now[0].0, before[0].0);
    assert_eq!(now[0].1, None);
    assert_ne!(now[2].0, before[2].0);
    assert_eq!(now[1], before[1]);

    // a texture that does not decode is not retried and nothing is shown for it
    a.tex.pending_match.as_mut().unwrap().selections[1] = Some(1);
    a.sync_tex_match_preview(&mut be);
    let m = a.tex.pending_match.as_ref().unwrap();
    assert_eq!(m.previewed, vec![Some(0), None]);
    assert_eq!(m.failed_uploads, vec![1]);
    a.sync_tex_match_preview(&mut be);
    assert_eq!(be.uploads.len(), 1);
    assert!(a.tex.pending_match.as_ref().unwrap().texture_views[1].is_none());

    a.cancel_tex_match_preview();
    assert_eq!(pairs(&a), before);
}

#[test]
fn match_preview_clearing_selection_restores() {
    let mut be = FakeBackend::default();
    let mut a = app(vec![], vec![material("a", 0)], vec![draw(0, 1)]);
    a.tex.link_same_name = false;
    a.tex.pkg_textures = Some(vec![("x.png".to_string(), png(&[1]))]);
    a.tex.pending_match = Some(PendingTexMatch {
        mat_indices: vec![0],
        selections: vec![Some(0)],
        tex_filter: String::new(),
        previewed: vec![None],
        saved_binds: Vec::new(),
        texture_views: vec![None],
        failed_uploads: Vec::new(),
    });
    a.sync_tex_match_preview(&mut be);
    assert_ne!(pairs(&a), vec![(Some(1), Some(2))]);
    a.tex.pending_match.as_mut().unwrap().selections[0] = None;
    a.sync_tex_match_preview(&mut be);
    assert_eq!(pairs(&a), vec![(Some(1), Some(2))]);
    assert_eq!(a.tex.pending_match.as_ref().unwrap().previewed, vec![None]);
}

#[test]
fn apply_preview_commits_checked_materials() {
    let mut be = FakeBackend::default();
    let mut a = app(
        vec![texture("old.png", &[9])],
        vec![material("a", 0), material("b", 0)],
        vec![draw(0, 1), draw(1, 3)],
    );
    let mut p = preview(2);
    p.path = "C:\\drop\\Cloth.TGA".to_string();
    p.cached_data = vec![4, 4];
    p.selection = vec![true, true];
    a.tex.pending_preview = Some(p);
    a.sync_tex_preview(&mut be);
    // material 1 is unchecked again before committing
    a.tex.pending_preview.as_mut().unwrap().selection[1] = false;
    let shown = binds(&a);
    a.apply_tex_preview(&mut be);
    assert!(a.tex.pending_preview.is_none());
    let l = a.loaded.as_ref().unwrap();
    assert_eq!(l.textures.len(), 2);
    assert_eq!(l.textures[1].filename, "Cloth.TGA");
    assert_eq!(l.textures[1].mime_type, "image/x-tga");
    assert_eq!(l.textures[1].data.as_bytes(), &vec![4, 4]);
    assert_eq!(l.materials[0].texture_index, Some(1));
    assert_eq!(l.materials[1].texture_index, None);
    // the checked material keeps the preview, the unchecked one gets its own back
    assert_eq!(l.draws[0].texture_bind_group, shown[0]);
    assert_eq!(l.draws[1].texture_bind_group, Some(3));
    assert_eq!(l.mat_cache.tex_status_text, "Tex:1/2");
    assert_eq!(a.tex.ir_thumb_cache.len(), 2);
    assert!(be.freed.contains(&77));
    // the checked material remembers the file
    assert_eq!(a.tex.assignments.len(), 1);
    assert_eq!(a.tex.assignments[&0], TextureSource::File("C:\\drop\\Cloth.TGA".to_string()));
}

#[test]
fn apply_preview_of_a_temporary_file_keeps_its_bytes() {
    let mut be = FakeBackend::default();
    let mut a = app(vec![], vec![material("a", 0), material("b", 0)], vec![draw(0, 1), draw(1, 2)]);
    let mut p = preview(2);
    p.path = "/tmp/x/drop.psd".to_string();
    p.cached_data = vec![7, 7, 7];
    p.is_psd = true;
    p.was_temp = true;
    p.selection = vec![true, true];
    a.tex.pending_preview = Some(p);
    a.apply_tex_preview(&mut be);
    let kept = TextureSource::Cached {
        original_name: "/tmp/x/drop.psd".to_string(),
        data: vec![7, 7, 7],
        is_psd: true,
    };
    assert_eq!(a.tex.assignments.len(), 2);
    assert_eq!(a.tex.assignments[&0], kept);
    assert_eq!(a.tex.assignments[&1], kept);
}

#[test]
fn apply_preview_with_nothing_checked_cancels() {
    let mut be = FakeBackend::default();
    let mut a = app(vec![], vec![material("a", 0)], vec![draw(0, 1)]);
    let mut p = preview(1);
    p.selection = vec![true];
    a.tex.pending_preview = Some(p);
    a.sync_tex_preview(&mut be);
    a.tex.pending_preview.as_mut().unwrap().selection[0] = false;
    a.apply_tex_preview(&mut be);
    assert!(a.tex.pending_preview.is_none());
    assert_eq!(binds(&a), vec![Some(1)]);
    assert!(a.loaded.as_ref().unwrap().textures.is_empty());
}

#[test]
fn auto_assign_matches_file_stems_to_material_names() {
    let names: Vec<String> = ["Body", "Face_Skin", "Hair", "Hair_Back"].iter().map(|s| s.to_string()).collect();
    let files: Vec<String> = [
        "/tmp/tex/body.png",
        "C:\\tex\\FACE.PNG",
        "hair_01.png",
        "other.tga",
        "dir/",
    ]
    .iter()
    .map(|s| s.to_string())
    .collect();
    let plan = auto_assign_plan(&names, &files);
    assert_eq!(plan.matches, vec![(0, vec![0]), (1, vec![1]), (2, vec![2])]);
    // "dir/" names the file "dir", as std's paths do
    assert_eq!(plan.unmatched, vec!["other.tga".to_string(), "dir".to_string()]);
    // "hair" is contained in both hair material names.
    let plan = auto_assign_plan(&names, &vec!["HAIR.png".to_string()]);
    assert_eq!(plan.matches, vec![(0, vec![2, 3])]);
    assert!(plan.unmatched.is_empty());
    // No materials: every named file is unmatched.
    let plan = auto_assign_plan(&vec![], &vec!["a.png".to_string(), "b".to_string()]);
    assert!(plan.matches.is_empty());
    assert_eq!(plan.unmatched, vec!["a.png".to_string(), "b".to_string()]);
}

#[test]
fn texture_state_default() {
    let t: TextureState<u32, u32, u32> = TextureState::default();
    assert!(t.assignments.is_empty());
    assert!(t.link_same_name);
    assert!(t.pending_preview.is_none() && t.pending_match.is_none() && t.pkg_textures.is_none());
    assert!(t.pkg_thumb_cache.is_empty() && t.ir_thumb_cache.is_empty() && t.pending_psd_conversions.is_empty());
}

#[test]
fn assign_source_records_history_for_material_and_siblings() {
    let mut be = FakeBackend::default();
    let mut a = app(
        vec![],
        vec![material("body", 0), material("face", 0), material("body", 0)],
        vec![draw(0, 1), draw(1, 2), draw(2, 3)],
    );
    let src = TextureSource::File("/tex/Body.PSD".to_string());
    a.assign_texture_source_to_material(&mut be, 0, &src, &vec![3, 1]);
    let l = a.loaded.as_ref().unwrap();
    assert_eq!(l.textures.len(), 1);
    // a file source is PSD by its extension
    assert_eq!(l.textures[0].filename, "Body.psd");
    assert_eq!(l.textures[0].data.as_bytes(), &vec![3, 1]);
    assert_eq!(be.psd_started, vec![vec![3, 1]]);
    assert_eq!(l.materials[0].texture_index, Some(0));
    assert_eq!(l.materials[2].texture_index, Some(0));
    assert_eq!(l.mat_cache.tex_status_text, "Tex:2/3");
    assert_eq!(a.tex.assignments.len(), 2);
    assert_eq!(a.tex.assignments[&0], src);
    assert_eq!(a.tex.assignments[&2], src);

    // a cached source carries its own bytes; bytes that do not decode record nothing
    let broken = TextureSource::Cached { original_name: "face.png".to_string(), data: vec![2], is_psd: false };
    a.assign_texture_source_to_material(&mut be, 1, &broken, &vec![]);
    assert!(!a.tex.assignments.contains_key(&1));
    let cached = TextureSource::Cached { original_name: "face.png".to_string(), data: png(&[2]), is_psd: false };
    a.assign_texture_source_to_material(&mut be, 1, &cached, &vec![]);
    assert_eq!(a.tex.assignments[&1], cached);
    assert_eq!(a.loaded.as_ref().unwrap().textures[1].data.as_bytes(), &png(&[2]));

    // without a renderer the material is set, its rebuild queued, and the source recorded
    let mut b = app(vec![], vec![material("m", 0)], vec![draw(0, 1)]);
    b.has_renderer = false;
    b.assign_texture_source_to_material(&mut be, 0, &cached, &vec![]);
    assert_eq!(b.loaded.as_ref().unwrap().materials[0].texture_index, Some(0));
    assert_eq!(b.dirty_materials, vec![0]);
    assert_eq!(b.tex.assignments[&0], cached);
}

#[test]
fn assign_file_records_path_or_bytes() {
    let mut be = FakeBackend::default();
    let mut a = app(vec![], vec![material("body", 0), material("body", 0)], vec![draw(0, 1), draw(1, 2)]);
    a.assign_texture_to_material(&mut be, 0, &"D:/tex/skin.png".to_string(), png(&[6, 6]), false);
    let l = a.loaded.as_ref().unwrap();
    assert_eq!(l.textures[0].filename, "skin.png");
    assert_eq!(l.materials[1].texture_index, Some(0));
    assert_eq!(a.tex.assignments[&0], TextureSource::File("D:/tex/skin.png".to_string()));
    assert_eq!(a.tex.assignments[&1], TextureSource::File("D:/tex/skin.png".to_string()));

    // a temporary file is remembered by its bytes, even when they do not decode
    a.tex.link_same_name = false;
    a.assign_texture_to_material(&mut be, 1, &"/tmp/t.psd".to_string(), vec![0], true);
    assert_eq!(
        a.tex.assignments[&1],
        TextureSource::Cached { original_name: "/tmp/t.psd".to_string(), data: vec![0], is_psd: true }
    );
    assert_eq!(a.loaded.as_ref().unwrap().textures.len(), 1);

    // no model: only the material itself is recorded
    let mut none: ViewerApp<u32, u32, u32> = app(vec![], vec![], vec![]);
    none.loaded = None;
    none.assign_texture_to_material(&mut be, 4, &"a.png".to_string(), vec![1], false);
    assert_eq!(none.tex.assignments.len(), 1);
    assert_eq!(none.tex.assignments[&4], TextureSource::File("a.png".to_string()));
}

fn no_psd(_: &[u8]) -> Result<RgbaImageData, DecodeError> {
    Err(DecodeError { detail: "psd".to_string() })
}

#[test]
fn thumbnails_of_model_textures() {
    let raw = IrTexture {
        filename: "raw".to_string(),
        data: TextureData::RawRgba { pixels: vec![9; 16], width: 2, height: 2 },
        mime_type: String::new(),
        source_path: String::new(),
    };
    // already of thumbnail size: a copy
    assert_eq!(ir_thumbnail_rgba(&raw, 2, false, no_psd), Some(vec![9; 16]));
    assert_eq!(ir_thumbnail_rgba(&raw, 4, false, no_psd).unwrap().len(), 64);
    let short = IrTexture { data: TextureData::RawRgba { pixels: vec![1; 3], width: 2, height: 2 }, ..raw };
    assert_eq!(ir_thumbnail_rgba(&short, 2, false, no_psd), None);

    let img = image::RgbaImage::from_raw(3, 1, vec![255; 12]).unwrap();
    let mut out = std::io::Cursor::new(Vec::new());
    image::DynamicImage::ImageRgba8(img).write_to(&mut out, image::ImageFormat::Png).unwrap();
    let png = texture("a.png", &out.into_inner());
    assert_eq!(ir_thumbnail_rgba(&png, 5, false, no_psd).unwrap().len(), 5 * 5 * 4);
    assert_eq!(ir_thumbnail_rgba(&texture("b.png", &[1, 2]), 5, false, no_psd), None);
    let psd = |_: &[u8]| Ok(RgbaImageData { pixels: vec![7; 4], width: 1, height: 1 });
    assert_eq!(ir_thumbnail_rgba(&texture("c.psd", &[0]), 1, true, psd), Some(vec![7; 4]));
    assert_eq!(ir_thumbnail_rgba(&texture("c.psd", &[0]), 1, true, no_psd), None);
}

fn hist(m: usize, path: &str, slot: TextureSlot) -> HistoryEntry {
    HistoryEntry { material_index: m, material_name: format!("m{m}"), texture_path: path.to_string(), slot }
}

#[test]
fn history_recall_dedupes_and_counts_skips() {
    let entries = vec![
        hist(0, "a.png", TextureSlot::BaseColor),
        hist(0, "b.png", TextureSlot::BaseColor),
        hist(0, "n.png", TextureSlot::Normal),
        hist(5, "gone.png", TextureSlot::BaseColor),
        hist(1, "missing.png", TextureSlot::BaseColor),
        hist(1, "later.png", TextureSlot::BaseColor),
    ];
    let resolved = vec![Some(0), Some(0), Some(0), None, Some(1), Some(1)];
    let exists = vec![true, true, true, true, false, true];
    let plan = plan_history_recall(&entries, &resolved, &exists);
    assert_eq!(
        plan.assignments,
        vec![(0, TextureSlot::BaseColor, "a.png".to_string()), (0, TextureSlot::Normal, "n.png".to_string())]
    );
    assert_eq!(plan.skipped, 2);
}

#[test]
fn recall_resets_to_pristine_then_applies_the_plan() {
    let mut be = FakeBackend::default();
    let mut a = app(
        vec![texture("t.png", &png(&[9]))],
        vec![material("a", 0), material("b", 0), material("c", 0)],
        vec![draw(0, 1), draw(1, 2), draw(2, 3)],
    );
    // edits made before the recall
    a.loaded.as_mut().unwrap().materials[2].texture_index = Some(0);
    a.tex.assignments.insert(2, TextureSource::File("old.png".to_string()));
    let pristine = vec![material("a", 0), material("b", 0), material("c", 0)];
    let plan = RecallPlan {
        assignments: vec![
            (0, TextureSlot::BaseColor, "x/a.png".to_string()),
            (1, TextureSlot::Normal, "n.png".to_string()),
            (2, TextureSlot::BaseColor, "/tmp/bad.png".to_string()),
            (1, TextureSlot::BaseColor, "gone.png".to_string()),
        ],
        skipped: 1,
    };
    let files = vec![Some(png(&[1])), Some(png(&[2])), Some(vec![1, 2, 3]), None];
    let temps = vec![false, false, true, false];
    let (applied, skipped) = a.recall_texture_history(&mut be, &plan, pristine, &files, &temps);
    assert_eq!((applied, skipped), (2, 3));
    let l = a.loaded.as_ref().unwrap();
    assert_eq!(l.textures.len(), 3);
    assert_eq!(l.materials[0].texture_index, Some(1));
    assert_eq!(l.materials[1].normal_texture.map(|t| t.index), Some(2));
    assert_eq!(l.materials[1].texture_index, None);
    // back to pristine: the undecodable recall did not apply
    assert_eq!(l.materials[2].texture_index, None);
    assert_eq!(l.mat_cache.tex_status_text, "Tex:1/3");
    // the history holds the base color entries whose files were read
    assert_eq!(a.tex.assignments.len(), 2);
    assert_eq!(a.tex.assignments[&0], TextureSource::File("x/a.png".to_string()));
    assert_eq!(
        a.tex.assignments[&2],
        TextureSource::Cached { original_name: "/tmp/bad.png".to_string(), data: vec![1, 2, 3], is_psd: false }
    );
    assert!(a.tex.link_same_name);
    assert_eq!(a.dirty_materials[..3], [0, 1, 2]);

    // without a model nothing happens
    let mut none: ViewerApp<u32, u32, u32> = app(vec![], vec![], vec![]);
    none.loaded = None;
    assert_eq!(none.recall_texture_history(&mut be, &plan, vec![], &files, &temps), (0, 1));
}

#[test]
fn history_entries_list_file_assignments() {
    let mut a = app(vec![], vec![material("body", 0), material("face", 0)], vec![]);
    a.tex.assignments.insert(0, TextureSource::File("C:/tex/body.png".to_string()));
    a.tex.assignments.insert(1, TextureSource::Cached { original_name: "/tmp/f.png".to_string(), data: vec![1], is_psd: false });
    a.tex.assignments.insert(7, TextureSource::File("gone.png".to_string()));
    let mut entries = a.texture_history_entries();
    entries.sort_by_key(|e| e.material_index);
    assert_eq!(entries.len(), 2);
    assert_eq!(entries[0].material_index, 0);
    assert_eq!(entries[0].material_name, "body");
    assert_eq!(entries[0].texture_path, "C:/tex/body.png");
    assert_eq!(entries[0].slot, TextureSlot::BaseColor);
    // a material the model does not have is saved without a name
    assert_eq!(entries[1].material_index, 7);
    assert_eq!(entries[1].material_name, "");
}
