use popone::uv_edit::{
    material_has_uv1, mesh_global_offsets_of, morph_uv_entry_count, MeshShape, ModelShape,
    MorphShape, UvDragMode, UvGizmoAction, UvHistory, UvRectBehavior, UV_UNDO_MAX,
};
use popone::uv_edit::UvEditState;
use popone::uv_edit::{write_uv_to_ir, UvEdits, UvMap, UvMesh, UvUndoEntry};

fn model() -> ModelShape {
    ModelShape {
        meshes: vec![
            MeshShape { material_index: 0, vertex_count: 4, uv1_count: 0 },
            MeshShape { material_index: 1, vertex_count: 3, uv1_count: 3 },
            MeshShape { material_index: 1, vertex_count: 5, uv1_count: 2 },
        ],
        morphs: vec![MorphShape::Other, MorphShape::Uv { offset_count: 7 }],
    }
}

#[test]
fn global_offsets_accumulate_vertex_counts() {
    assert_eq!(mesh_global_offsets_of(&model()), vec![0, 4, 7]);
    assert!(mesh_global_offsets_of(&ModelShape { meshes: vec![], morphs: vec![] }).is_empty());
}

#[test]
fn morph_entries_and_uv1() {
    let m = model();
    assert_eq!(morph_uv_entry_count(&m, 0), 0);
    assert_eq!(morph_uv_entry_count(&m, 1), 7);
    assert_eq!(morph_uv_entry_count(&m, 5), 0);
    assert!(!material_has_uv1(&m, 0));
    assert!(material_has_uv1(&m, 1));
    assert!(!material_has_uv1(&m, 2));
}

#[test]
fn undo_history_is_capped_and_redo_cleared() {
    let mut h: UvHistory<usize> = UvHistory::new();
    for i in 0..(UV_UNDO_MAX + 5) {
        h.push_undo(i);
    }
    assert_eq!(h.undo_stack.len(), UV_UNDO_MAX);
    assert_eq!(h.undo_stack[0], 5);
    assert!(h.undo());
    assert_eq!(h.redo_stack, vec![UV_UNDO_MAX + 4]);
    assert!(h.redo());
    assert_eq!(*h.undo_stack.last().unwrap(), UV_UNDO_MAX + 4);
    assert!(!h.redo());
    assert!(h.undo());
    h.push_undo(99);
    assert!(h.redo_stack.is_empty());
    h.clear();
    assert!(!h.undo());
}

#[test]
fn drag_defaults() {
    assert_eq!(UvDragMode::default(), UvDragMode::Idle);
    assert_eq!(UvRectBehavior::default(), UvRectBehavior::Replace);
    let a = UvGizmoAction::ScaleCorner { sign_u: 1, sign_v: -1 };
    assert_ne!(a, UvGizmoAction::Rotate);
}

#[test]
fn switching_morphs_saves_and_restores_weights() {
    let mut st: UvEditState<usize, f32> = UvEditState::new();
    let mut w = vec![0.25f32, 0.5, 0.75];
    assert!(!st.switch_active_morph(None, &mut w, 1.0));
    assert!(st.switch_active_morph(Some(1), &mut w, 1.0));
    assert_eq!(w, vec![0.25, 1.0, 0.75]);
    assert_eq!(st.morph_weight_saved, Some(0.5));
    assert!(!st.switch_active_morph(Some(1), &mut w, 1.0));
    assert!(st.switch_active_morph(Some(2), &mut w, 1.0));
    assert_eq!(w, vec![0.25, 0.5, 1.0]);
    assert!(st.switch_active_morph(None, &mut w, 1.0));
    assert_eq!(w, vec![0.25, 0.5, 0.75]);
    assert_eq!(st.active_morph, None);
    assert_eq!(st.morph_weight_saved, None);
    // An index out of range is remembered but touches no weight.
    assert!(st.switch_active_morph(Some(9), &mut w, 1.0));
    assert_eq!(w, vec![0.25, 0.5, 0.75]);
    assert_eq!(st.active_morph, Some(9));
}

#[test]
fn reset_keeps_only_the_detached_preference() {
    let mut st: UvEditState<usize, f32> = UvEditState::new();
    let mut w = vec![0.5f32];
    st.detached = true;
    st.active_material = 3;
    st.active_uv_set = 1;
    st.dragging = true;
    st.drag_mode = UvDragMode::Rect;
    st.rect_behavior = UvRectBehavior::Add;
    st.gizmo_action = Some(UvGizmoAction::Rotate);
    st.history.push_undo(7);
    st.switch_active_morph(Some(0), &mut w, 1.0);
    st.reset();
    assert!(st.detached);
    assert_eq!(st.active_material, 0);
    assert_eq!(st.active_uv_set, 0);
    assert!(!st.dragging);
    assert_eq!(st.drag_mode, UvDragMode::Idle);
    assert_eq!(st.rect_behavior, UvRectBehavior::Replace);
    assert_eq!(st.gizmo_action, None);
    assert_eq!(st.active_morph, None);
    assert_eq!(st.morph_weight_saved, None);
    assert!(st.history.undo_stack.is_empty());
}

#[test]
fn unchanged_edit_leaves_history() {
    let mut h: UvHistory<usize> = UvHistory::new();
    h.push_undo(1);
    assert!(h.undo());
    h.push_edit(2, false);
    assert!(h.undo_stack.is_empty());
    assert_eq!(h.redo_stack, vec![1]);
    h.push_edit(3, true);
    assert_eq!(h.undo_stack, vec![3]);
    assert!(h.redo_stack.is_empty());
}

fn bits(u: f32, v: f32) -> [u32; 2] {
    [u.to_bits(), v.to_bits()]
}

fn meshes() -> Vec<UvMesh> {
    vec![
        UvMesh { uv0: vec![bits(0.0, 0.0), bits(0.5, 0.5), bits(1.0, 1.0)], uv1: vec![] },
        UvMesh { uv0: vec![bits(0.0, 1.0), bits(1.0, 0.0)], uv1: vec![bits(0.2, 0.2), bits(0.3, 0.3)] },
    ]
}

fn map_of(entries: &[((u32, u32, u8), [u32; 2])]) -> UvMap {
    let mut m = UvMap::new();
    for (k, v) in entries {
        m.insert(*k, *v);
    }
    m
}

#[test]
fn uv_writes_go_only_to_existing_uvs() {
    let mut m = meshes();
    assert!(write_uv_to_ir(&mut m, 0, 1, bits(0.9, 0.1), 0));
    assert_eq!(m[0].uv0[1], bits(0.9, 0.1));
    assert!(write_uv_to_ir(&mut m, 1, 1, bits(0.7, 0.7), 1));
    assert_eq!(m[1].uv1[1], bits(0.7, 0.7));
    // no UV1 on mesh 0, no UV set 2, no mesh 2, no vertex 3
    assert!(!write_uv_to_ir(&mut m, 0, 0, bits(0.1, 0.1), 1));
    assert!(!write_uv_to_ir(&mut m, 1, 0, bits(0.1, 0.1), 2));
    assert!(!write_uv_to_ir(&mut m, 2, 0, bits(0.1, 0.1), 0));
    assert!(!write_uv_to_ir(&mut m, 0, 3, bits(0.1, 0.1), 0));
    assert!(m[0].uv1.is_empty());
}

#[test]
fn uv_map_keeps_key_order() {
    let mut m = map_of(&[((1, 0, 0), bits(1.0, 1.0)), ((0, 2, 1), bits(2.0, 2.0)), ((0, 2, 0), bits(3.0, 3.0))]);
    let keys: Vec<_> = m.entries.iter().map(|e| e.0).collect();
    assert_eq!(keys, vec![(0, 2, 0), (0, 2, 1), (1, 0, 0)]);
    m.insert((0, 2, 1), bits(4.0, 4.0));
    assert_eq!(m.get((0, 2, 1)), Some(bits(4.0, 4.0)));
    assert_eq!(m.entries.len(), 3);
    m.remove((0, 2, 0));
    m.remove((5, 5, 5));
    assert_eq!(m.get((0, 2, 0)), None);
    assert_eq!(m.entries.len(), 2);
}

#[test]
fn undo_and_redo_write_uvs_back() {
    let mut st: UvEditState<UvUndoEntry, f32> = UvEditState::new();
    let mut m = meshes();
    let k = (0u32, 1u32, 0u8);
    // a drag moves vertex 1 of mesh 0
    st.edits.record_pristine(k, bits(0.5, 0.5));
    st.edits.record_pristine(k, bits(0.6, 0.6));
    assert_eq!(st.edits.pristine_uvs.get(k), Some(bits(0.5, 0.5)));
    assert!(write_uv_to_ir(&mut m, 0, 1, bits(0.8, 0.8), 0));
    st.edits.set_uv(k, bits(0.8, 0.8));
    // an edit that changed nothing is not recorded
    st.push_undo(map_of(&[(k, bits(0.8, 0.8))]), map_of(&[(k, bits(0.8, 0.8))]));
    assert!(st.history.undo_stack.is_empty());
    st.push_undo(map_of(&[(k, bits(0.5, 0.5))]), map_of(&[(k, bits(0.8, 0.8))]));
    assert_eq!(st.history.undo_stack.len(), 1);

    // undo: the pristine UV is back and the vertex counts as unedited
    assert!(st.apply_undo(&mut m));
    assert_eq!(m[0].uv0[1], bits(0.5, 0.5));
    assert_eq!(st.edits.overrides.get(k), None);
    assert_eq!(st.history.redo_stack.len(), 1);
    assert!(!st.apply_undo(&mut m));

    // redo: the edit is back, and so is its override
    assert!(st.apply_redo(&mut m));
    assert_eq!(m[0].uv0[1], bits(0.8, 0.8));
    assert_eq!(st.edits.overrides.get(k), Some(bits(0.8, 0.8)));
    assert!(!st.apply_redo(&mut m));
    assert_eq!(st.edits.to_entries(), vec![(k, bits(0.8, 0.8))]);

    st.reset();
    assert!(st.edits.overrides.entries.is_empty() && st.edits.pristine_uvs.entries.is_empty());
}

#[test]
fn saved_uv_edits_are_restored_where_they_fit() {
    let mut e = UvEdits::new();
    let mut m = meshes();
    e.stage_restore(vec![((1, 0, 1), bits(0.9, 0.9)), ((0, 0, 1), bits(0.1, 0.1)), ((0, 2, 0), bits(0.4, 0.6))]);
    e.apply_pending_restore(&mut m);
    assert!(e.pending_restore.is_none());
    assert_eq!(m[1].uv1[0], bits(0.9, 0.9));
    assert_eq!(m[0].uv0[2], bits(0.4, 0.6));
    assert_eq!(e.to_entries(), vec![((0, 2, 0), bits(0.4, 0.6)), ((1, 0, 1), bits(0.9, 0.9))]);
    // nothing held: nothing happens
    e.apply_pending_restore(&mut m);
    assert_eq!(e.overrides.entries.len(), 2);

    // after a reload the overrides are written again
    let mut fresh = meshes();
    e.apply_to_ir(&mut fresh);
    assert_eq!(fresh[1].uv1[0], bits(0.9, 0.9));
    assert_eq!(fresh[0].uv0[2], bits(0.4, 0.6));
}
