//! Per-vertex UV editing: the drag / selection modes, the undo history, the
//! editor state with its UV-morph weight hand-over, the per-vertex UV overrides
//! with their write-back into the model (undo, redo, restore), and the vertex
//! bookkeeping over the model's meshes and morphs.
use vstd::prelude::*;

verus! {

/// Vertex-edit key: `(mesh_index, vertex_index_in_mesh, uv_set)`.
pub type VertexKey = (u32, u32, u8);

/// Maximum entries on the undo stack (oldest are dropped first).
pub const UV_UNDO_MAX: usize = 50;

/// Drag mode, decided when a drag starts.
#[derive(Debug, Clone, Copy, PartialEq, Eq, Structural)]
pub enum UvDragMode {
    /// Not dragging.
    Idle,
    /// Translate selected vertices (the press was near a vertex).
    Move,
    /// Rectangle select (the press was far from any vertex).
    Rect,
}

impl Default for UvDragMode {
    fn default() -> (r: Self)
        ensures
            r == UvDragMode::Idle,
    {
        UvDragMode::Idle
    }
}

/// Behavior of the rectangle selection, decided from modifier keys.
#[derive(Debug, Clone, Copy, PartialEq, Eq, Structural)]
pub enum UvRectBehavior {
    /// Replace the selection with the vertices inside the rectangle (no modifier).
    Replace,
    /// Add the vertices inside the rectangle (Shift + drag).
    Add,
    /// Remove the vertices inside the rectangle (Ctrl + drag).
    Subtract,
}

impl Default for UvRectBehavior {
    fn default() -> (r: Self)
        ensures
            r == UvRectBehavior::Replace,
    {
        UvRectBehavior::Replace
    }
}

/// Kind of drag triggered by a 2D gizmo handle.
#[derive(Debug, Clone, Copy, PartialEq, Eq, Structural)]
pub enum UvGizmoAction {
    /// Drag a corner handle of the selection box (scale about the opposite corner).
    /// `(1, 1)` is the u_max / v_max corner, `(-1, -1)` the u_min / v_min one.
    ScaleCorner { sign_u: i8, sign_v: i8 },
    /// Drag the rotation handle (rotate about the selection box center).
    Rotate,
}

/// Undo / redo stacks of edit commands (newest at the back).
pub struct UvHistory<E> {
    pub undo_stack: Vec<E>,
    pub redo_stack: Vec<E>,
}

impl<E> UvHistory<E> {
    /// Empty history.
    pub fn new() -> (r: Self)
        ensures
            r.undo_stack@.len() == 0,
            r.redo_stack@.len() == 0,
    {
        UvHistory { undo_stack: Vec::new(), redo_stack: Vec::new() }
    }

    /// Push an edit command. At most `UV_UNDO_MAX` commands are kept (the oldest
    /// go first), and a new edit clears the redo stack.
    pub fn push_undo(&mut self, entry: E)
        ensures
            final(self).undo_stack@ == ({
                let s = old(self).undo_stack@.push(entry);
                if s.len() > UV_UNDO_MAX {
                    s.skip(s.len() - UV_UNDO_MAX)
                } else {
                    s
                }
            }),
            final(self).redo_stack@.len() == 0,
    {
        self.undo_stack.push(entry);
        if self.undo_stack.len() > UV_UNDO_MAX {
            let drop_n = self.undo_stack.len() - UV_UNDO_MAX;
            let ghost s = self.undo_stack@;
            let mut k: usize = 0;
            while k < drop_n
                invariant
                    k <= drop_n,
                    drop_n == s.len() - UV_UNDO_MAX,
                    self.undo_stack@ == s.skip(k as int),
                decreases drop_n - k,
            {
                self.undo_stack.remove(0);
                assert(s.skip(k + 1) =~= s.skip(k as int).subrange(1, s.skip(k as int).len() as int));
                k = k + 1;
            }
        }
        self.redo_stack.clear();
    }

    /// Record an edit: a command whose `before` and `after` differ (`changed`, as the
    /// caller compares them) is pushed as by [`UvHistory::push_undo`]; an edit that
    /// changed nothing leaves the history as it was.
    pub fn push_edit(&mut self, entry: E, changed: bool)
        ensures
            !changed ==> final(self).undo_stack@ == old(self).undo_stack@ && final(self).redo_stack@
                == old(self).redo_stack@,
            changed ==> final(self).undo_stack@ == ({
                let s = old(self).undo_stack@.push(entry);
                if s.len() > UV_UNDO_MAX {
                    s.skip(s.len() - UV_UNDO_MAX)
                } else {
                    s
                }
            }),
            changed ==> final(self).redo_stack@.len() == 0,
    {
        if changed {
            self.push_undo(entry);
        }
    }

    /// Move the newest edit command to the redo stack (the caller then writes its
    /// `before` values back). Returns false when there is nothing to undo.
    pub fn undo(&mut self) -> (r: bool)
        ensures
            r == (old(self).undo_stack@.len() > 0),
            r ==> final(self).undo_stack@ == old(self).undo_stack@.drop_last()
                && final(self).redo_stack@ == old(self).redo_stack@.push(old(self).undo_stack@.last()),
            !r ==> final(self).undo_stack@ == old(self).undo_stack@ && final(self).redo_stack@
                == old(self).redo_stack@,
    {
        match self.undo_stack.pop() {
            Some(e) => {
                self.redo_stack.push(e);
                true
            },
            None => false,
        }
    }

    /// Move the newest undone command back to the undo stack (the caller then writes
    /// its `after` values). Returns false when there is nothing to redo.
    pub fn redo(&mut self) -> (r: bool)
        ensures
            r == (old(self).redo_stack@.len() > 0),
            r ==> final(self).redo_stack@ == old(self).redo_stack@.drop_last()
                && final(self).undo_stack@ == old(self).undo_stack@.push(old(self).redo_stack@.last()),
            !r ==> final(self).undo_stack@ == old(self).undo_stack@ && final(self).redo_stack@
                == old(self).redo_stack@,
    {
        match self.redo_stack.pop() {
            Some(e) => {
                self.undo_stack.push(e);
                true
            },
            None => false,
        }
    }

    /// Forget all commands (new model load).
    pub fn clear(&mut self)
        ensures
            final(self).undo_stack@.len() == 0,
            final(self).redo_stack@.len() == 0,
    {
        self.undo_stack.clear();
        self.redo_stack.clear();
    }
}

/// Undoing a command and redoing it gives back both stacks.
pub proof fn undo_then_redo_restores<E>(undo: Seq<E>, redo: Seq<E>)
    requires
        undo.len() > 0,
    ensures
        undo.drop_last().push(redo.push(undo.last()).last()) == undo,
        redo.push(undo.last()).drop_last() == redo,
{
    assert(undo.drop_last().push(undo.last()) =~= undo);
    assert(redo.push(undo.last()).drop_last() =~= redo);
}

/// The undo stack never holds more than `UV_UNDO_MAX` commands after a push when it
/// held at most that many before, and the pushed command is the newest.
pub proof fn push_keeps_bound<E>(undo: Seq<E>, entry: E)
    requires
        undo.len() <= UV_UNDO_MAX,
    ensures
        ({
            let s = undo.push(entry);
            let r = if s.len() > UV_UNDO_MAX { s.skip(s.len() - UV_UNDO_MAX) } else { s };
            r.len() <= UV_UNDO_MAX && r.len() > 0 && r.last() == entry
        }),
{
}

/// The editor state that survives between frames: the material and UV set being
/// edited, the drag in progress, the undo history, and the UV morph being edited
/// together with the weight it had before editing started. `E` is an edit command and
/// `W` a morph weight.
pub struct UvEditState<E, W> {
    /// Material being edited on the canvas (an index into the model's materials).
    pub active_material: usize,
    /// A drag is in progress (GPU writes are deferred meanwhile).
    pub dragging: bool,
    pub drag_mode: UvDragMode,
    pub rect_behavior: UvRectBehavior,
    /// The editor lives in a window of its own (a user preference that survives reload).
    pub detached: bool,
    /// UV set being edited: 0 = UV0, 1 = UV1.
    pub active_uv_set: u8,
    pub gizmo_action: Option<UvGizmoAction>,
    /// UV morph being edited; `None` edits the base UVs.
    pub active_morph: Option<usize>,
    /// The edited morph's weight from before editing started (restored on leaving).
    pub morph_weight_saved: Option<W>,
    pub history: UvHistory<E>,
    /// The per-vertex UV edits.
    pub edits: UvEdits,
}

/// A state fresh from a model load, keeping only the `detached` preference.
pub open spec fn is_reset<E, W>(s: UvEditState<E, W>, detached: bool) -> bool {
    &&& s.active_material == 0
    &&& !s.dragging
    &&& s.drag_mode == UvDragMode::Idle
    &&& s.rect_behavior == UvRectBehavior::Replace
    &&& s.detached == detached
    &&& s.active_uv_set == 0
    &&& s.gizmo_action is None
    &&& s.active_morph is None
    &&& s.morph_weight_saved is None
    &&& s.history.undo_stack@.len() == 0
    &&& s.history.redo_stack@.len() == 0
    &&& s.edits.is_empty()
}

/// The weights after leaving morph editing: the morph that was being edited gets its
/// saved weight back (when both are known and the index is in range).
pub open spec fn restored_weights<W>(weights: Seq<W>, active: Option<usize>, saved: Option<W>) -> Seq<W> {
    match (active, saved) {
        (Some(i), Some(w)) => if i < weights.len() {
            weights.update(i as int, w)
        } else {
            weights
        },
        _ => weights,
    }
}

impl<E, W: Copy> UvEditState<E, W> {
    /// The initial editor state (docked, nothing selected, UV0, no morph).
    pub fn new() -> (r: Self)
        ensures
            is_reset(r, false),
    {
        UvEditState {
            active_material: 0,
            dragging: false,
            drag_mode: UvDragMode::Idle,
            rect_behavior: UvRectBehavior::Replace,
            detached: false,
            active_uv_set: 0,
            gizmo_action: None,
            active_morph: None,
            morph_weight_saved: None,
            history: UvHistory::new(),
            edits: UvEdits::new(),
        }
    }

    /// Clear on a new model load. `detached` is a user preference and is kept; the
    /// saved morph weight is dropped (its morph belongs to the old model).
    pub fn reset(&mut self)
        ensures
            is_reset(*final(self), old(self).detached),
    {
        self.active_material = 0;
        self.dragging = false;
        self.drag_mode = UvDragMode::Idle;
        self.rect_behavior = UvRectBehavior::Replace;
        self.active_uv_set = 0;
        self.gizmo_action = None;
        self.active_morph = None;
        self.morph_weight_saved = None;
        self.history.clear();
        self.edits.clear();
    }

    /// Switch the morph being edited. The morph being left gets its saved weight back;
    /// the morph being entered has its weight saved and set to `full` (it shows at full
    /// strength while edited). Indices out of range of `weights` are ignored. Returns
    /// false, changing nothing, when `new_morph` is already the edited morph.
    pub fn switch_active_morph(&mut self, new_morph: Option<usize>, weights: &mut Vec<W>, full: W) -> (r: bool)
        ensures
            r == (new_morph != old(self).active_morph),
            !r ==> *final(self) == *old(self) && final(weights)@ == old(weights)@,
            r ==> ({
                let w1 = restored_weights(old(weights)@, old(self).active_morph, old(self).morph_weight_saved);
                &&& final(self).active_morph == new_morph
                &&& final(weights)@ == (match new_morph {
                    Some(n) => if n < w1.len() { w1.update(n as int, full) } else { w1 },
                    None => w1,
                })
                &&& final(self).morph_weight_saved == (match new_morph {
                    Some(n) => if n < w1.len() { Some(w1[n as int]) } else { None },
                    None => None,
                })
                &&& final(self).active_material == old(self).active_material
                &&& final(self).dragging == old(self).dragging
                &&& final(self).drag_mode == old(self).drag_mode
                &&& final(self).rect_behavior == old(self).rect_behavior
                &&& final(self).detached == old(self).detached
                &&& final(self).active_uv_set == old(self).active_uv_set
                &&& final(self).gizmo_action == old(self).gizmo_action
                &&& final(self).history == old(self).history
                &&& final(self).edits == old(self).edits
            }),
    {
        let same = match (new_morph, self.active_morph) {
            (Some(a), Some(b)) => a == b,
            (None, None) => true,
            _ => false,
        };
        if same {
            return false;
        }
        let saved = self.morph_weight_saved.take();
        if let (Some(old_idx), Some(w)) = (self.active_morph, saved) {
            if old_idx < weights.len() {
                weights.set(old_idx, w);
            }
        }
        if let Some(new_idx) = new_morph {
            if new_idx < weights.len() {
                self.morph_weight_saved = Some(weights[new_idx]);
                weights.set(new_idx, full);
            }
        }
        self.active_morph = new_morph;
        true
    }
}

/// Entering a morph's edit mode and leaving it again gives every weight back.
pub proof fn enter_then_leave_restores_weights<W>(weights: Seq<W>, k: usize, full: W)
    requires
        k < weights.len(),
    ensures
        ({
            let entered = restored_weights(weights, None, None).update(k as int, full);
            let saved = Some(restored_weights(weights, None, None)[k as int]);
            restored_weights(entered, Some(k), saved) == weights
        }),
{
    assert(weights.update(k as int, full).update(k as int, weights[k as int]) =~= weights);
}

/// What the UV editor reads of one mesh.
#[derive(Debug, Clone, Copy, PartialEq, Eq, Structural)]
pub struct MeshShape {
    pub material_index: usize,
    pub vertex_count: usize,
    /// Number of UV1 coordinates (a mesh has UV1 only when this equals `vertex_count`).
    pub uv1_count: usize,
}

/// What the UV editor reads of one morph.
#[derive(Debug, Clone, Copy, PartialEq, Eq, Structural)]
pub enum MorphShape {
    /// A UV morph with this many per-vertex offsets.
    Uv { offset_count: usize },
    /// Any other kind of morph.
    Other,
}

/// What the UV editor reads of a model: its meshes and morphs.
pub struct ModelShape {
    pub meshes: Vec<MeshShape>,
    pub morphs: Vec<MorphShape>,
}

/// Total number of vertices of the first meshes.
pub open spec fn vertices_before(meshes: Seq<MeshShape>) -> nat
    decreases meshes.len(),
{
    if meshes.len() == 0 {
        0
    } else {
        vertices_before(meshes.drop_last()) + meshes.last().vertex_count as nat
    }
}

/// The global vertex offset of each mesh (vertices are numbered across meshes in order).
pub fn mesh_global_offsets_of(ir: &ModelShape) -> (offs: Vec<usize>)
    requires
        vertices_before(ir.meshes@) <= usize::MAX,
    ensures
        offs@.len() == ir.meshes@.len(),
        forall|i: int| 0 <= i < offs@.len() ==> offs@[i] == vertices_before(#[trigger] ir.meshes@.take(i)),
{
    let mut offs: Vec<usize> = Vec::new();
    let mut cum: usize = 0;
    let mut i: usize = 0;
    while i < ir.meshes.len()
        invariant
            i <= ir.meshes@.len(),
            vertices_before(ir.meshes@) <= usize::MAX,
            cum == vertices_before(ir.meshes@.take(i as int)),
            offs@.len() == i,
            forall|j: int| 0 <= j < i ==> offs@[j] == vertices_before(#[trigger] ir.meshes@.take(j)),
        decreases ir.meshes.len() - i,
    {
        offs.push(cum);
        proof {
            assert(ir.meshes@.take(i + 1).drop_last() =~= ir.meshes@.take(i as int));
            lemma_vertices_before_prefix(ir.meshes@, i + 1);
        }
        cum = cum + ir.meshes[i].vertex_count;
        i = i + 1;
    }
    offs
}

/// Vertex totals grow with the prefix.
proof fn lemma_vertices_before_prefix(meshes: Seq<MeshShape>, k: int)
    requires
        0 <= k <= meshes.len(),
    ensures
        vertices_before(meshes.take(k)) <= vertices_before(meshes),
    decreases meshes.len(),
{
    if k < meshes.len() {
        assert(meshes.drop_last().take(k) =~= meshes.take(k));
        lemma_vertices_before_prefix(meshes.drop_last(), k);
    } else {
        assert(meshes.take(k) =~= meshes);
    }
}

/// Number of per-vertex offsets of morph `morph_idx` (0 when it is missing or not a UV morph).
pub fn morph_uv_entry_count(ir: &ModelShape, morph_idx: usize) -> (r: usize)
    ensures
        r == (if morph_idx < ir.morphs@.len() {
            match ir.morphs@[morph_idx as int] {
                MorphShape::Uv { offset_count } => offset_count,
                MorphShape::Other => 0,
            }
        } else {
            0
        }),
{
    if morph_idx < ir.morphs.len() {
        match ir.morphs[morph_idx] {
            MorphShape::Uv { offset_count } => offset_count,
            MorphShape::Other => 0,
        }
    } else {
        0
    }
}

/// Whether a mesh has a UV1 set (non-empty and one coordinate per vertex).
pub open spec fn has_uv1(m: MeshShape) -> bool {
    m.uv1_count != 0 && m.uv1_count == m.vertex_count
}

/// Whether some mesh drawn with material `material_index` has a UV1 set.
pub fn material_has_uv1(ir: &ModelShape, material_index: usize) -> (r: bool)
    ensures
        r == exists|i: int|
            0 <= i < ir.meshes@.len() && (#[trigger] ir.meshes@[i]).material_index == material_index
                && has_uv1(ir.meshes@[i]),
{
    let mut i: usize = 0;
    while i < ir.meshes.len()
        invariant
            i <= ir.meshes@.len(),
            forall|j: int|
                0 <= j < i ==> !((#[trigger] ir.meshes@[j]).material_index == material_index && has_uv1(
                    ir.meshes@[j],
                )),
        decreases ir.meshes.len() - i,
    {
        let m = ir.meshes[i];
        if m.material_index == material_index && m.uv1_count != 0 && m.uv1_count == m.vertex_count {
            return true;
        }
        i = i + 1;
    }
    false
}


// ---------------------------------------------------------------------------
// Per-vertex UV overrides
// ---------------------------------------------------------------------------

/// A UV coordinate pair, held as the bit patterns of its two `f32`s; the editor
/// stores and compares UVs by these bits.
pub type UvBits = [u32; 2];

/// Key order: by mesh, then vertex, then UV set.
pub open spec fn key_lt(a: VertexKey, b: VertexKey) -> bool {
    a.0 < b.0 || (a.0 == b.0 && (a.1 < b.1 || (a.1 == b.1 && a.2 < b.2)))
}

fn key_less(a: VertexKey, b: VertexKey) -> (r: bool)
    ensures
        r == key_lt(a, b),
{
    a.0 < b.0 || (a.0 == b.0 && (a.1 < b.1 || (a.1 == b.1 && a.2 < b.2)))
}

fn key_same(a: VertexKey, b: VertexKey) -> (r: bool)
    ensures
        r == (a == b),
{
    a.0 == b.0 && a.1 == b.1 && a.2 == b.2
}

/// Entries in strictly increasing key order.
pub open spec fn sorted_keys(s: Seq<(VertexKey, UvBits)>) -> bool {
    forall|i: int, j: int| 0 <= i < j < s.len() ==> key_lt(#[trigger] s[i].0, #[trigger] s[j].0)
}

/// The map that a list of (key, UV) entries describes (later entries win).
pub open spec fn map_of(s: Seq<(VertexKey, UvBits)>) -> Map<VertexKey, UvBits>
    decreases s.len(),
{
    if s.len() == 0 {
        Map::empty()
    } else {
        map_of(s.drop_last()).insert(s.last().0, s.last().1)
    }
}

proof fn lemma_map_of_keys(s: Seq<(VertexKey, UvBits)>, k: VertexKey)
    ensures
        map_of(s).contains_key(k) <==> exists|i: int| 0 <= i < s.len() && (#[trigger] s[i]).0 == k,
    decreases s.len(),
{
    if s.len() > 0 {
        lemma_map_of_keys(s.drop_last(), k);
        if map_of(s.drop_last()).contains_key(k) {
            let i = choose|i: int| 0 <= i < s.drop_last().len() && (#[trigger] s.drop_last()[i]).0 == k;
            assert(s[i] == s.drop_last()[i]);
        }
        if exists|i: int| 0 <= i < s.len() && (#[trigger] s[i]).0 == k {
            let i = choose|i: int| 0 <= i < s.len() && (#[trigger] s[i]).0 == k;
            if i < s.len() - 1 {
                assert(s.drop_last()[i] == s[i]);
            }
        }
    }
}

proof fn lemma_map_of_value(s: Seq<(VertexKey, UvBits)>, i: int)
    requires
        sorted_keys(s),
        0 <= i < s.len(),
    ensures
        map_of(s).contains_key(s[i].0),
        map_of(s)[s[i].0] == s[i].1,
    decreases s.len(),
{
    lemma_map_of_keys(s, s[i].0);
    if i < s.len() - 1 {
        let t = s.drop_last();
        assert(t[i] == s[i]);
        assert(sorted_keys(t)) by {
            assert forall|a: int, b: int| 0 <= a < b < t.len() implies key_lt(#[trigger] t[a].0, #[trigger] t[b].0) by {
                assert(t[a] == s[a] && t[b] == s[b]);
            }
        }
        lemma_map_of_value(t, i);
        assert(key_lt(s[i].0, s[s.len() - 1].0));
    }
}

/// The entries of a sorted list are exactly its map.
proof fn lemma_map_of_sorted(s: Seq<(VertexKey, UvBits)>, k: VertexKey)
    requires
        sorted_keys(s),
    ensures
        map_of(s).contains_key(k) <==> exists|i: int| 0 <= i < s.len() && (#[trigger] s[i]).0 == k,
        forall|i: int| 0 <= i < s.len() && (#[trigger] s[i]).0 == k ==> map_of(s)[k] == s[i].1,
{
    lemma_map_of_keys(s, k);
    assert forall|i: int| 0 <= i < s.len() && (#[trigger] s[i]).0 == k implies map_of(s)[k] == s[i].1 by {
        lemma_map_of_value(s, i);
    }
}

proof fn lemma_sorted_drop_last(s: Seq<(VertexKey, UvBits)>)
    requires
        sorted_keys(s),
        s.len() > 0,
    ensures
        sorted_keys(s.drop_last()),
        map_of(s.drop_last()) == map_of(s).remove(s.last().0),
{
    let t = s.drop_last();
    assert forall|a: int, b: int| 0 <= a < b < t.len() implies key_lt(#[trigger] t[a].0, #[trigger] t[b].0) by {
        assert(t[a] == s[a] && t[b] == s[b]);
    }
    lemma_map_of_keys(t, s.last().0);
    assert forall|i: int| 0 <= i < t.len() implies (#[trigger] t[i]).0 != s.last().0 by {
        assert(t[i] == s[i]);
        assert(key_lt(s[i].0, s[s.len() - 1].0));
    }
    assert(map_of(t) =~= map_of(s).remove(s.last().0));
}

/// Two key-ordered entry lists describe the same map only when they are the same
/// list: the ordered entries are the map's one representation.
pub proof fn sorted_entries_are_canonical(s1: Seq<(VertexKey, UvBits)>, s2: Seq<(VertexKey, UvBits)>)
    requires
        sorted_keys(s1),
        sorted_keys(s2),
        map_of(s1) == map_of(s2),
    ensures
        s1 == s2,
    decreases s1.len() + s2.len(),
{
    if s1.len() == 0 || s2.len() == 0 {
        if s1.len() > 0 {
            lemma_map_of_value(s1, 0);
            lemma_map_of_keys(s2, s1[0].0);
        }
        if s2.len() > 0 {
            lemma_map_of_value(s2, 0);
            lemma_map_of_keys(s1, s2[0].0);
        }
        assert(s1 =~= s2);
    } else {
        let n1 = s1.len() - 1;
        let n2 = s2.len() - 1;
        let k1 = s1[n1].0;
        let k2 = s2[n2].0;
        lemma_map_of_value(s1, n1);
        lemma_map_of_value(s2, n2);
        lemma_map_of_sorted(s2, k1);
        lemma_map_of_sorted(s1, k2);
        let j2 = choose|j: int| 0 <= j < s2.len() && (#[trigger] s2[j]).0 == k1;
        let j1 = choose|j: int| 0 <= j < s1.len() && (#[trigger] s1[j]).0 == k2;
        if j2 < n2 {
            assert(key_lt(s2[j2].0, s2[n2].0));
        }
        if j1 < n1 {
            assert(key_lt(s1[j1].0, s1[n1].0));
        }
        assert(k1 == k2);
        assert(s1[n1] == s2[n2]);
        lemma_sorted_drop_last(s1);
        lemma_sorted_drop_last(s2);
        sorted_entries_are_canonical(s1.drop_last(), s2.drop_last());
        assert(s1 =~= s1.drop_last().push(s1[n1]));
        assert(s2 =~= s2.drop_last().push(s2[n2]));
    }
}

/// A map from vertex keys to UVs, its entries kept in key order.
pub struct UvMap {
    pub entries: Vec<(VertexKey, UvBits)>,
}

impl View for UvMap {
    type V = Map<VertexKey, UvBits>;

    open spec fn view(&self) -> Map<VertexKey, UvBits> {
        map_of(self.entries@)
    }
}

impl UvMap {
    /// The entries are in strictly increasing key order.
    pub open spec fn wf(self) -> bool {
        sorted_keys(self.entries@)
    }

    /// The empty map.
    pub fn new() -> (r: Self)
        ensures
            r.wf(),
            r@ == Map::<VertexKey, UvBits>::empty(),
    {
        UvMap { entries: Vec::new() }
    }

    /// Position of the first entry whose key is not below `k`.
    fn position(&self, k: VertexKey) -> (p: usize)
        requires
            self.wf(),
        ensures
            p <= self.entries@.len(),
            forall|q: int| 0 <= q < p ==> key_lt(#[trigger] self.entries@[q].0, k),
            p < self.entries@.len() ==> !key_lt(self.entries@[p as int].0, k),
    {
        let mut p: usize = 0;
        while p < self.entries.len() && key_less(self.entries[p].0, k)
            invariant
                p <= self.entries@.len(),
                forall|q: int| 0 <= q < p ==> key_lt(#[trigger] self.entries@[q].0, k),
            decreases self.entries@.len() - p,
        {
            p = p + 1;
        }
        p
    }

    /// The UV stored for `k`.
    pub fn get(&self, k: VertexKey) -> (r: Option<UvBits>)
        requires
            self.wf(),
        ensures
            r == (if self@.contains_key(k) { Some(self@[k]) } else { None::<UvBits> }),
    {
        let p = self.position(k);
        proof {
            lemma_map_of_sorted(self.entries@, k);
        }
        if p < self.entries.len() && key_same(self.entries[p].0, k) {
            Some(self.entries[p].1)
        } else {
            proof {
                assert forall|i: int| 0 <= i < self.entries@.len() implies (#[trigger] self.entries@[i]).0 != k by {
                    if i > p {
                        assert(key_lt(self.entries@[p as int].0, self.entries@[i].0));
                    }
                }
            }
            None
        }
    }

    /// Store `v` for `k`.
    pub fn insert(&mut self, k: VertexKey, v: UvBits)
        requires
            old(self).wf(),
        ensures
            final(self).wf(),
            final(self)@ == old(self)@.insert(k, v),
    {
        let p = self.position(k);
        let ghost s0 = self.entries@;
        let replaced = p < self.entries.len() && key_same(self.entries[p].0, k);
        if replaced {
            self.entries.set(p, (k, v));
        } else {
            self.entries.insert(p, (k, v));
            proof {
                assert forall|i: int| p < i < s0.len() implies key_lt(k, #[trigger] s0[i].0) by {
                    assert(key_lt(s0[p as int].0, s0[i].0));
                }
            }
        }
        let ghost s1 = self.entries@;
        proof {
            if !replaced && p < s0.len() {
                assert(key_lt(k, s0[p as int].0));
            }
            assert(sorted_keys(s1)) by {
                assert forall|a: int, b: int| 0 <= a < b < s1.len() implies key_lt(#[trigger] s1[a].0, #[trigger] s1[b].0) by {
                    if replaced {
                        if a != p && b != p {
                            assert(key_lt(s0[a].0, s0[b].0));
                        } else if a == p {
                            assert(key_lt(s0[a].0, s0[b].0));
                        } else {
                            assert(key_lt(s0[a].0, s0[b].0));
                        }
                    } else {
                        if b < p {
                            assert(key_lt(s0[a].0, s0[b].0));
                        } else if b == p {
                        } else if a < p {
                            assert(key_lt(s0[a].0, s0[b - 1].0) || a == b - 1);
                        } else if a == p {
                            assert(b - 1 >= p);
                            if b - 1 > p {
                                assert(key_lt(s0[p as int].0, s0[b - 1].0));
                            }
                        } else {
                            assert(key_lt(s0[a - 1].0, s0[b - 1].0));
                        }
                    }
                }
            }
            let m0 = map_of(s0).insert(k, v);
            assert forall|x: VertexKey| #![trigger map_of(s1).contains_key(x)]
                map_of(s1).contains_key(x) == m0.contains_key(x)
                && (map_of(s1).contains_key(x) ==> map_of(s1)[x] == m0[x]) by {
                lemma_map_of_sorted(s0, x);
                lemma_map_of_sorted(s1, x);
                if x == k {
                    assert(s1[p as int].0 == k);
                } else {
                    if map_of(s0).contains_key(x) {
                        let i = choose|i: int| 0 <= i < s0.len() && (#[trigger] s0[i]).0 == x;
                        let j = if replaced || i < p { i } else { i + 1 };
                        assert(s1[j] == s0[i]);
                    }
                    if map_of(s1).contains_key(x) {
                        let j = choose|j: int| 0 <= j < s1.len() && (#[trigger] s1[j]).0 == x;
                        assert(j != p);
                        let i = if replaced || j < p { j } else { j - 1 };
                        assert(s0[i] == s1[j]);
                    }
                }
            }
            assert(map_of(s1) =~= m0);
        }
    }

    /// Drop the entry for `k`, if any.
    pub fn remove(&mut self, k: VertexKey)
        requires
            old(self).wf(),
        ensures
            final(self).wf(),
            final(self)@ == old(self)@.remove(k),
    {
        let p = self.position(k);
        let ghost s0 = self.entries@;
        proof {
            lemma_map_of_sorted(s0, k);
        }
        if p < self.entries.len() && key_same(self.entries[p].0, k) {
            self.entries.remove(p);
            let ghost s1 = self.entries@;
            proof {
                assert(sorted_keys(s1)) by {
                    assert forall|a: int, b: int| 0 <= a < b < s1.len() implies key_lt(#[trigger] s1[a].0, #[trigger] s1[b].0) by {
                        let a0 = if a < p { a } else { a + 1 };
                        let b0 = if b < p { b } else { b + 1 };
                        assert(s1[a] == s0[a0] && s1[b] == s0[b0]);
                        assert(key_lt(s0[a0].0, s0[b0].0));
                    }
                }
                let m0 = map_of(s0).remove(k);
                assert forall|x: VertexKey| #![trigger map_of(s1).contains_key(x)]
                    map_of(s1).contains_key(x) == m0.contains_key(x)
                    && (map_of(s1).contains_key(x) ==> map_of(s1)[x] == m0[x]) by {
                    lemma_map_of_sorted(s0, x);
                    lemma_map_of_sorted(s1, x);
                    if map_of(s0).contains_key(x) && x != k {
                        let i = choose|i: int| 0 <= i < s0.len() && (#[trigger] s0[i]).0 == x;
                        assert(i != p);
                        let j = if i < p { i } else { i - 1 };
                        assert(s1[j] == s0[i]);
                    }
                    if map_of(s1).contains_key(x) {
                        let j = choose|j: int| 0 <= j < s1.len() && (#[trigger] s1[j]).0 == x;
                        let i = if j < p { j } else { j + 1 };
                        assert(s0[i] == s1[j]);
                        if x == k {
                            assert(i != p);
                            if i < p {
                                assert(key_lt(s0[i].0, s0[p as int].0));
                            } else {
                                assert(key_lt(s0[p as int].0, s0[i].0));
                            }
                        }
                    }
                }
                assert(map_of(s1) =~= m0);
            }
        } else {
            proof {
                assert forall|i: int| 0 <= i < s0.len() implies (#[trigger] s0[i]).0 != k by {
                    if i > p {
                        assert(key_lt(s0[p as int].0, s0[i].0));
                    }
                }
                assert(map_of(s0) =~= map_of(s0).remove(k));
            }
        }
    }

    /// Drop every entry.
    pub fn clear(&mut self)
        ensures
            final(self).wf(),
            final(self)@ == Map::<VertexKey, UvBits>::empty(),
    {
        self.entries.clear();
        assert(map_of(self.entries@) =~= Map::<VertexKey, UvBits>::empty());
    }
}


/// The UVs of one mesh that the editor writes: the first UV set, one per vertex,
/// and the second, which a mesh has only when it holds one per vertex.
pub struct UvMesh {
    pub uv0: Vec<UvBits>,
    pub uv1: Vec<UvBits>,
}

/// The (UV0, UV1) coordinates of each mesh.
pub open spec fn uv_view(meshes: Seq<UvMesh>) -> Seq<(Seq<UvBits>, Seq<UvBits>)> {
    meshes.map_values(|m: UvMesh| (m.uv0@, m.uv1@))
}

/// Whether key `k` names a UV the model holds: UV0 of an existing vertex, or UV1
/// of an existing vertex of a mesh that has one UV1 per vertex.
pub open spec fn slot_ok(m: Seq<(Seq<UvBits>, Seq<UvBits>)>, k: VertexKey) -> bool {
    &&& (k.0 as int) < m.len()
    &&& if k.2 == 0 {
        (k.1 as int) < m[k.0 as int].0.len()
    } else if k.2 == 1 {
        m[k.0 as int].1.len() == m[k.0 as int].0.len() && (k.1 as int) < m[k.0 as int].1.len()
    } else {
        false
    }
}

/// The model's UVs after writing `uv` at `k` (unchanged where `k` names no UV).
pub open spec fn write_slot(m: Seq<(Seq<UvBits>, Seq<UvBits>)>, k: VertexKey, uv: UvBits) -> Seq<(Seq<UvBits>, Seq<UvBits>)> {
    if !slot_ok(m, k) {
        m
    } else if k.2 == 0 {
        m.update(k.0 as int, (m[k.0 as int].0.update(k.1 as int, uv), m[k.0 as int].1))
    } else {
        m.update(k.0 as int, (m[k.0 as int].0, m[k.0 as int].1.update(k.1 as int, uv)))
    }
}

/// The model's UVs after writing each of `ws` in turn.
pub open spec fn write_all(m: Seq<(Seq<UvBits>, Seq<UvBits>)>, ws: Seq<(VertexKey, UvBits)>) -> Seq<(Seq<UvBits>, Seq<UvBits>)>
    decreases ws.len(),
{
    if ws.len() == 0 {
        m
    } else {
        write_slot(write_all(m, ws.drop_last()), ws.last().0, ws.last().1)
    }
}

/// Writing never changes which keys name a UV.
proof fn lemma_write_all_slots(m: Seq<(Seq<UvBits>, Seq<UvBits>)>, ws: Seq<(VertexKey, UvBits)>, k: VertexKey)
    ensures
        slot_ok(write_all(m, ws), k) == slot_ok(m, k),
        write_all(m, ws).len() == m.len(),
    decreases ws.len(),
{
    if ws.len() > 0 {
        lemma_write_all_slots(m, ws.drop_last(), k);
    }
}

/// Write `uv` at key `(mesh_idx, vert_idx, chan)` into the model's UVs; false,
/// changing nothing, when the key names no UV of the model.
pub fn write_uv_to_ir(meshes: &mut Vec<UvMesh>, mesh_idx: u32, vert_idx: u32, uv: UvBits, chan: u8) -> (r: bool)
    ensures
        r == slot_ok(uv_view(old(meshes)@), (mesh_idx, vert_idx, chan)),
        uv_view(final(meshes)@) == write_slot(uv_view(old(meshes)@), (mesh_idx, vert_idx, chan), uv),
{
    let mi = mesh_idx as usize;
    let vi = vert_idx as usize;
    let ghost m0 = uv_view(meshes@);
    if mi >= meshes.len() {
        return false;
    }
    let ok = if chan == 0 {
        vi < meshes[mi].uv0.len()
    } else if chan == 1 {
        meshes[mi].uv1.len() == meshes[mi].uv0.len() && vi < meshes[mi].uv1.len()
    } else {
        false
    };
    if !ok {
        return false;
    }
    let mut mesh = meshes.remove(mi);
    if chan == 0 {
        mesh.uv0.set(vi, uv);
    } else {
        mesh.uv1.set(vi, uv);
    }
    meshes.insert(mi, mesh);
    assert(uv_view(meshes@) =~= write_slot(m0, (mesh_idx, vert_idx, chan), uv));
    true
}

/// The overrides after writing each of `ws` in turn: a UV equal to the vertex's
/// pristine UV drops its override, any other UV becomes it.
pub open spec fn overrides_after(
    ov: Map<VertexKey, UvBits>,
    pristine: Map<VertexKey, UvBits>,
    ws: Seq<(VertexKey, UvBits)>,
) -> Map<VertexKey, UvBits>
    decreases ws.len(),
{
    if ws.len() == 0 {
        ov
    } else {
        let o = overrides_after(ov, pristine, ws.drop_last());
        let (k, uv) = ws.last();
        if pristine.contains_key(k) && pristine[k] == uv {
            o.remove(k)
        } else {
            o.insert(k, uv)
        }
    }
}

/// The overrides after restoring saved entries: each entry that names a UV of the
/// model becomes its vertex's override; the others are skipped.
pub open spec fn restored_overrides(
    ov: Map<VertexKey, UvBits>,
    m: Seq<(Seq<UvBits>, Seq<UvBits>)>,
    es: Seq<(VertexKey, UvBits)>,
) -> Map<VertexKey, UvBits>
    decreases es.len(),
{
    if es.len() == 0 {
        ov
    } else {
        let o = restored_overrides(ov, m, es.drop_last());
        if slot_ok(m, es.last().0) {
            o.insert(es.last().0, es.last().1)
        } else {
            o
        }
    }
}

/// One undoable UV edit: the UVs of the touched vertices before and after it.
pub struct UvUndoEntry {
    pub before: UvMap,
    pub after: UvMap,
}

/// The per-vertex UV edits: the current UV of every edited vertex (what is saved
/// and restored with the model), the UV each vertex had when first edited, and
/// saved edits waiting to be written into a freshly loaded model.
pub struct UvEdits {
    pub overrides: UvMap,
    pub pristine_uvs: UvMap,
    pub pending_restore: Option<Vec<(VertexKey, UvBits)>>,
}

impl UvEdits {
    /// Both maps keep their entries in key order.
    pub open spec fn wf(self) -> bool {
        self.overrides.wf() && self.pristine_uvs.wf()
    }

    /// No edits, nothing to restore.
    pub open spec fn is_empty(self) -> bool {
        &&& self.wf()
        &&& self.overrides@ == Map::<VertexKey, UvBits>::empty()
        &&& self.pristine_uvs@ == Map::<VertexKey, UvBits>::empty()
        &&& self.pending_restore is None
    }

    /// No edits.
    pub fn new() -> (r: Self)
        ensures
            r.is_empty(),
    {
        UvEdits { overrides: UvMap::new(), pristine_uvs: UvMap::new(), pending_restore: None }
    }

    /// Forget every edit (new model load).
    pub fn clear(&mut self)
        ensures
            final(self).is_empty(),
    {
        self.overrides.clear();
        self.pristine_uvs.clear();
        self.pending_restore = None;
    }

    /// Record the UV of a vertex as it was before its first edit; a vertex
    /// already recorded keeps its first UV.
    pub fn record_pristine(&mut self, key: VertexKey, uv: UvBits)
        requires
            old(self).wf(),
        ensures
            final(self).wf(),
            final(self).pristine_uvs@ == if old(self).pristine_uvs@.contains_key(key) {
                old(self).pristine_uvs@
            } else {
                old(self).pristine_uvs@.insert(key, uv)
            },
            final(self).overrides == old(self).overrides,
            final(self).pending_restore == old(self).pending_restore,
    {
        match self.pristine_uvs.get(key) {
            Some(_) => {},
            None => self.pristine_uvs.insert(key, uv),
        }
    }

    /// Record the current UV of an edited vertex (the model is written separately).
    pub fn set_uv(&mut self, key: VertexKey, uv: UvBits)
        requires
            old(self).wf(),
        ensures
            final(self).wf(),
            final(self).overrides@ == old(self).overrides@.insert(key, uv),
            final(self).pristine_uvs == old(self).pristine_uvs,
            final(self).pending_restore == old(self).pending_restore,
    {
        self.overrides.insert(key, uv);
    }

    /// Write `ws` into the model in turn, each keeping the overrides in step
    /// (an edit back at the pristine UV drops its override).
    pub fn apply_writes(&mut self, meshes: &mut Vec<UvMesh>, ws: &UvMap)
        requires
            old(self).wf(),
        ensures
            final(self).wf(),
            uv_view(final(meshes)@) == write_all(uv_view(old(meshes)@), ws.entries@),
            final(self).overrides@ == overrides_after(old(self).overrides@, old(self).pristine_uvs@, ws.entries@),
            final(self).pristine_uvs == old(self).pristine_uvs,
            final(self).pending_restore == old(self).pending_restore,
    {
        let n = ws.entries.len();
        let mut i: usize = 0;
        while i < n
            invariant
                i <= n == ws.entries@.len(),
                self.wf(),
                uv_view(meshes@) == write_all(uv_view(old(meshes)@), ws.entries@.take(i as int)),
                self.overrides@ == overrides_after(old(self).overrides@, old(self).pristine_uvs@, ws.entries@.take(i as int)),
                self.pristine_uvs == old(self).pristine_uvs,
                self.pending_restore == old(self).pending_restore,
            decreases n - i,
        {
            let (k, uv) = ws.entries[i];
            proof {
                assert(ws.entries@.take(i + 1).drop_last() =~= ws.entries@.take(i as int));
                assert(ws.entries@.take(i + 1).last() == ws.entries@[i as int]);
            }
            let _ = write_uv_to_ir(meshes, k.0, k.1, uv, k.2);
            let back = match self.pristine_uvs.get(k) {
                Some(p) => p[0] == uv[0] && p[1] == uv[1],
                None => false,
            };
            if back {
                assert(self.pristine_uvs@[k] =~= uv);
                self.overrides.remove(k);
            } else {
                proof {
                    if self.pristine_uvs@.contains_key(k) {
                        assert(self.pristine_uvs@[k] != uv) by {
                            if self.pristine_uvs@[k] == uv {
                                assert(self.pristine_uvs@[k][0] == uv[0]);
                            }
                        }
                    }
                }
                self.overrides.insert(k, uv);
            }
            i = i + 1;
        }
        assert(ws.entries@.take(n as int) =~= ws.entries@);
    }

    /// The saved edits in key order, for writing out.
    pub fn to_entries(&self) -> (r: Vec<(VertexKey, UvBits)>)
        requires
            self.wf(),
        ensures
            sorted_keys(r@),
            map_of(r@) == self.overrides@,
    {
        let mut r: Vec<(VertexKey, UvBits)> = Vec::new();
        let mut i: usize = 0;
        while i < self.overrides.entries.len()
            invariant
                i <= self.overrides.entries@.len(),
                r@ == self.overrides.entries@.take(i as int),
            decreases self.overrides.entries@.len() - i,
        {
            r.push(self.overrides.entries[i]);
            assert(r@ =~= self.overrides.entries@.take(i + 1));
            i = i + 1;
        }
        assert(r@ =~= self.overrides.entries@);
        r
    }

    /// Hold saved edits until the model they belong to is loaded.
    pub fn stage_restore(&mut self, entries: Vec<(VertexKey, UvBits)>)
        ensures
            final(self).pending_restore == Some(entries),
            final(self).overrides == old(self).overrides,
            final(self).pristine_uvs == old(self).pristine_uvs,
    {
        self.pending_restore = Some(entries);
    }

    /// Write the held saved edits into the model and into the overrides; an
    /// entry naming no UV of the model is skipped. Nothing happens when none are
    /// held.
    pub fn apply_pending_restore(&mut self, meshes: &mut Vec<UvMesh>)
        requires
            old(self).wf(),
        ensures
            final(self).wf(),
            final(self).pending_restore is None,
            final(self).pristine_uvs == old(self).pristine_uvs,
            match old(self).pending_restore {
                None => final(meshes)@ == old(meshes)@ && final(self).overrides == old(self).overrides,
                Some(es) => {
                    &&& uv_view(final(meshes)@) == write_all(uv_view(old(meshes)@), es@)
                    &&& final(self).overrides@ == restored_overrides(old(self).overrides@, uv_view(old(meshes)@), es@)
                },
            },
    {
        let pending = self.pending_restore.take();
        match pending {
            None => {},
            Some(es) => {
                let ghost m0 = uv_view(meshes@);
                let n = es.len();
                let mut i: usize = 0;
                while i < n
                    invariant
                        i <= n == es@.len(),
                        self.wf(),
                        self.pending_restore is None,
                        self.pristine_uvs == old(self).pristine_uvs,
                        m0 == uv_view(old(meshes)@),
                        uv_view(meshes@) == write_all(m0, es@.take(i as int)),
                        self.overrides@ == restored_overrides(old(self).overrides@, m0, es@.take(i as int)),
                    decreases n - i,
                {
                    let (k, uv) = es[i];
                    proof {
                        assert(es@.take(i + 1).drop_last() =~= es@.take(i as int));
                        assert(es@.take(i + 1).last() == es@[i as int]);
                        lemma_write_all_slots(m0, es@.take(i as int), k);
                    }
                    if write_uv_to_ir(meshes, k.0, k.1, uv, k.2) {
                        self.overrides.insert(k, uv);
                    }
                    i = i + 1;
                }
                assert(es@.take(n as int) =~= es@);
            },
        }
    }

    /// Write every override into the model (after a reload).
    pub fn apply_to_ir(&self, meshes: &mut Vec<UvMesh>)
        ensures
            uv_view(final(meshes)@) == write_all(uv_view(old(meshes)@), self.overrides.entries@),
    {
        let n = self.overrides.entries.len();
        let mut i: usize = 0;
        while i < n
            invariant
                i <= n == self.overrides.entries@.len(),
                uv_view(meshes@) == write_all(uv_view(old(meshes)@), self.overrides.entries@.take(i as int)),
            decreases n - i,
        {
            let (k, uv) = self.overrides.entries[i];
            proof {
                assert(self.overrides.entries@.take(i + 1).drop_last() =~= self.overrides.entries@.take(i as int));
            }
            let _ = write_uv_to_ir(meshes, k.0, k.1, uv, k.2);
            i = i + 1;
        }
        assert(self.overrides.entries@.take(n as int) =~= self.overrides.entries@);
    }
}


/// Whether two maps hold the same entries.
fn same_entries(a: &UvMap, b: &UvMap) -> (r: bool)
    ensures
        r == (a.entries@ == b.entries@),
{
    if a.entries.len() != b.entries.len() {
        return false;
    }
    let mut i: usize = 0;
    while i < a.entries.len()
        invariant
            i <= a.entries@.len() == b.entries@.len(),
            forall|q: int| 0 <= q < i ==> a.entries@[q] == b.entries@[q],
        decreases a.entries@.len() - i,
    {
        let (ka, ua) = a.entries[i];
        let (kb, ub) = b.entries[i];
        if !(key_same(ka, kb) && ua[0] == ub[0] && ua[1] == ub[1]) {
            proof {
                if a.entries@[i as int] == b.entries@[i as int] {
                    assert(ua[0] == ub[0] && ua[1] == ub[1]);
                }
            }
            return false;
        }
        assert(ua =~= ub);
        i = i + 1;
    }
    assert(a.entries@ =~= b.entries@);
    true
}

impl<W: Copy> UvEditState<UvUndoEntry, W> {
    /// `other` differs from `self` at most in the undo history and the UV edits.
    pub open spec fn same_but_edits(self, other: Self) -> bool {
        &&& other.active_material == self.active_material
        &&& other.dragging == self.dragging
        &&& other.drag_mode == self.drag_mode
        &&& other.rect_behavior == self.rect_behavior
        &&& other.detached == self.detached
        &&& other.active_uv_set == self.active_uv_set
        &&& other.gizmo_action == self.gizmo_action
        &&& other.active_morph == self.active_morph
        &&& other.morph_weight_saved == self.morph_weight_saved
    }

    /// Record a UV edit by the touched vertices' UVs before and after it. An edit
    /// that changed nothing (the same UVs on both sides) leaves the history as it
    /// was; otherwise it is pushed, at most `UV_UNDO_MAX` edits are kept, and the
    /// redo stack is cleared.
    pub fn push_undo(&mut self, before: UvMap, after: UvMap)
        requires
            before.wf(),
            after.wf(),
        ensures
            old(self).same_but_edits(*final(self)),
            final(self).edits == old(self).edits,
            before@ == after@ ==> final(self).history == old(self).history,
            before@ != after@ ==> {
                &&& final(self).history.undo_stack@ == ({
                    let s = old(self).history.undo_stack@.push(UvUndoEntry { before, after });
                    if s.len() > UV_UNDO_MAX {
                        s.skip(s.len() - UV_UNDO_MAX)
                    } else {
                        s
                    }
                })
                &&& final(self).history.redo_stack@.len() == 0
            },
    {
        if same_entries(&before, &after) {
            return;
        }
        proof {
            if before@ == after@ {
                sorted_entries_are_canonical(before.entries@, after.entries@);
            }
        }
        self.history.push_undo(UvUndoEntry { before, after });
    }

    /// Undo the newest UV edit: its `before` UVs are written back into the model
    /// and the overrides follow (a vertex back at its pristine UV is no longer
    /// edited), and the edit moves to the redo stack. False, changing nothing,
    /// when there is nothing to undo.
    pub fn apply_undo(&mut self, meshes: &mut Vec<UvMesh>) -> (r: bool)
        requires
            old(self).edits.wf(),
        ensures
            r == (old(self).history.undo_stack@.len() > 0),
            !r ==> *final(self) == *old(self) && final(meshes)@ == old(meshes)@,
            r ==> {
                let e = old(self).history.undo_stack@.last();
                &&& old(self).same_but_edits(*final(self))
                &&& final(self).history.undo_stack@ == old(self).history.undo_stack@.drop_last()
                &&& final(self).history.redo_stack@ == old(self).history.redo_stack@.push(e)
                &&& uv_view(final(meshes)@) == write_all(uv_view(old(meshes)@), e.before.entries@)
                &&& final(self).edits.overrides@ == overrides_after(
                    old(self).edits.overrides@,
                    old(self).edits.pristine_uvs@,
                    e.before.entries@,
                )
                &&& final(self).edits.pristine_uvs == old(self).edits.pristine_uvs
                &&& final(self).edits.pending_restore == old(self).edits.pending_restore
            },
            final(self).edits.wf(),
    {
        if self.history.undo_stack.len() == 0 {
            return false;
        }
        let _ = self.history.undo();
        let n = self.history.redo_stack.len();
        self.edits.apply_writes(meshes, &self.history.redo_stack[n - 1].before);
        true
    }

    /// Redo the newest undone UV edit: its `after` UVs are written into the model,
    /// the overrides follow, and the edit moves back to the undo stack. False,
    /// changing nothing, when there is nothing to redo.
    pub fn apply_redo(&mut self, meshes: &mut Vec<UvMesh>) -> (r: bool)
        requires
            old(self).edits.wf(),
        ensures
            r == (old(self).history.redo_stack@.len() > 0),
            !r ==> *final(self) == *old(self) && final(meshes)@ == old(meshes)@,
            r ==> {
                let e = old(self).history.redo_stack@.last();
                &&& old(self).same_but_edits(*final(self))
                &&& final(self).history.redo_stack@ == old(self).history.redo_stack@.drop_last()
                &&& final(self).history.undo_stack@ == old(self).history.undo_stack@.push(e)
                &&& uv_view(final(meshes)@) == write_all(uv_view(old(meshes)@), e.after.entries@)
                &&& final(self).edits.overrides@ == overrides_after(
                    old(self).edits.overrides@,
                    old(self).edits.pristine_uvs@,
                    e.after.entries@,
                )
                &&& final(self).edits.pristine_uvs == old(self).edits.pristine_uvs
                &&& final(self).edits.pending_restore == old(self).edits.pending_restore
            },
            final(self).edits.wf(),
    {
        if self.history.redo_stack.len() == 0 {
            return false;
        }
        let _ = self.history.redo();
        let n = self.history.undo_stack.len();
        self.edits.apply_writes(meshes, &self.history.undo_stack[n - 1].after);
        true
    }
}
} // verus!
