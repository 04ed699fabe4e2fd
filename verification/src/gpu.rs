//! Renderer settings and the CPU-side decisions of the renderer: which frame
//! path to use, when buffers and targets are recreated, the order and pipelines
//! of the standard draw pass, and the shared MMD toon ramps.
use vstd::prelude::*;

use crate::mesh::{RenderQueue, RenderStyle};

verus! {

/// Draw mode.
#[derive(Debug, Clone, Copy, PartialEq, Eq, Structural)]
pub enum DrawMode {
    Solid,
    Wireframe,
    SolidWireframe,
}

/// Light mode.
#[derive(Debug, Clone, Copy, PartialEq, Eq, Structural)]
pub enum LightMode {
    CameraFollow,
    Fixed,
}

/// Fragment-shader override mode.
#[derive(Debug, Clone, Copy, PartialEq, Eq, Structural)]
pub enum ShaderOverride {
    Default,
    Normal,
    Unlit,
    GgxPreview,
}

impl ShaderOverride {
    /// The value passed to the GPU uniform for this mode.
    pub open spec fn mode_value(self) -> u32 {
        match self {
            ShaderOverride::Default => 0,
            ShaderOverride::Normal => 1,
            ShaderOverride::Unlit => 2,
            ShaderOverride::GgxPreview => 3,
        }
    }

    /// The value passed to the GPU uniform for this mode (0 = default .. 3 = GGX preview).
    pub fn shader_mode(self) -> (r: u32)
        ensures
            r == self.mode_value(),
    {
        match self {
            ShaderOverride::Default => 0,
            ShaderOverride::Normal => 1,
            ShaderOverride::Unlit => 2,
            ShaderOverride::GgxPreview => 3,
        }
    }
}

impl Default for ShaderOverride {
    fn default() -> (r: Self)
        ensures
            r == ShaderOverride::Default,
    {
        ShaderOverride::Default
    }
}

/// Shader choice offered in the UI dropdown.
#[derive(Debug, Clone, Copy, PartialEq, Eq, Structural)]
pub enum ShaderSelection {
    /// Pick Standard / MMD automatically based on the model format.
    Auto,
    /// Force MToon / Lambert (Standard path even for PMX / PMD).
    Mtoon,
    Unlit,
    GgxPreview,
    Normal,
    Mmd,
}

impl Default for ShaderSelection {
    fn default() -> (r: Self)
        ensures
            r == ShaderSelection::Auto,
    {
        ShaderSelection::Auto
    }
}

/// What the frame-path decision reads of one draw call.
#[derive(Debug, Clone, Copy, PartialEq, Eq, Structural)]
pub struct DrawPath {
    pub render_style: RenderStyle,
    /// Whether the MMD material bind group has been prepared.
    pub has_mmd_material: bool,
}

/// Whether draw `i` counts as visible (a missing flag counts as visible).
pub open spec fn draw_visible(visible: Seq<bool>, i: int) -> bool {
    i >= visible.len() || visible[i]
}

/// The frame runs fully on the MMD path: MMD solid rendering is on, every visible
/// draw is an MMD draw with its material prepared, and at least one draw is visible.
pub open spec fn unorm_frame(draws: Seq<DrawPath>, visible: Seq<bool>, mmd_solid: bool) -> bool {
    &&& mmd_solid
    &&& forall|i: int|
        0 <= i < draws.len() && draw_visible(visible, i) ==> #[trigger] draws[i].render_style
            == RenderStyle::Mmd && draws[i].has_mmd_material
    &&& exists|i: int| 0 <= i < draws.len() && draw_visible(visible, i)
}

/// Decide whether the frame fully runs on the MMD-dedicated path (then the Unorm
/// render target is used for gamma-space rendering).
pub fn can_use_unorm_frame(draws: &[DrawPath], visible: &[bool], mmd_solid: bool) -> (r: bool)
    ensures
        r == unorm_frame(draws@, visible@, mmd_solid),
{
    if !mmd_solid {
        return false;
    }
    let mut has_visible_mmd = false;
    let mut i: usize = 0;
    while i < draws.len()
        invariant
            i <= draws@.len(),
            forall|j: int|
                0 <= j < i && draw_visible(visible@, j) ==> #[trigger] draws@[j].render_style
                    == RenderStyle::Mmd && draws@[j].has_mmd_material,
            has_visible_mmd == exists|j: int| 0 <= j < i && draw_visible(visible@, j),
        decreases draws.len() - i,
    {
        let vis = if i < visible.len() {
            visible[i]
        } else {
            true
        };
        if vis {
            let d = draws[i];
            match d.render_style {
                RenderStyle::Mmd => {
                    if !d.has_mmd_material {
                        return false;
                    }
                },
                _ => {
                    return false;
                },
            }
            has_visible_mmd = true;
            assert(draw_visible(visible@, i as int));
        } else {
            assert(!draw_visible(visible@, i as int));
        }
        i = i + 1;
    }
    has_visible_mmd
}

/// What `DynamicBuffer::upload` does with new contents.
#[derive(Debug, Clone, Copy, PartialEq, Eq, Structural)]
pub enum BufferUpload {
    /// Allocate a new buffer holding the data (capacity becomes its length).
    Recreate,
    /// Write into the existing buffer.
    Write,
    /// Nothing to write into (no buffer yet and the data fits the zero capacity).
    Skip,
}

/// Capacity bookkeeping of a growable GPU vertex buffer.
pub struct DynamicBuffer {
    pub has_buffer: bool,
    pub capacity: usize,
    pub vertex_count: u32,
}

impl DynamicBuffer {
    /// An empty buffer.
    pub fn new() -> (r: Self)
        ensures
            !r.has_buffer,
            r.capacity == 0,
            r.vertex_count == 0,
    {
        Self { has_buffer: false, capacity: 0, vertex_count: 0 }
    }

    /// Plan the upload of `len` bytes: a larger payload allocates a new buffer sized
    /// to it, otherwise the existing buffer (if any) is rewritten in place.
    pub fn upload(&mut self, len: usize) -> (r: BufferUpload)
        ensures
            len > old(self).capacity ==> r == BufferUpload::Recreate && final(self).has_buffer
                && final(self).capacity == len,
            len <= old(self).capacity ==> final(self).has_buffer == old(self).has_buffer
                && final(self).capacity == old(self).capacity && r == (if old(self).has_buffer {
                BufferUpload::Write
            } else {
                BufferUpload::Skip
            }),
            final(self).vertex_count == old(self).vertex_count,
    {
        if len > self.capacity {
            self.has_buffer = true;
            self.capacity = len;
            BufferUpload::Recreate
        } else if self.has_buffer {
            BufferUpload::Write
        } else {
            BufferUpload::Skip
        }
    }
}

/// Size and sampling of the offscreen render targets.
#[derive(Debug, Clone, Copy, PartialEq, Eq, Structural)]
pub struct OffscreenKey {
    pub width: u32,
    pub height: u32,
    pub msaa: bool,
}

/// The offscreen targets are recreated when missing or when size or MSAA changed.
pub fn offscreen_needs_recreate(current: Option<OffscreenKey>, wanted: OffscreenKey) -> (r: bool)
    ensures
        r == match current {
            Some(c) => c != wanted,
            None => true,
        },
{
    match current {
        Some(c) => c.width != wanted.width || c.height != wanted.height || c.msaa != wanted.msaa,
        None => true,
    }
}

/// Which of the four lazily created pipeline sets serves a frame:
/// 0 = MSAA sRGB, 1 = no-MSAA sRGB, 2 = MSAA Unorm, 3 = no-MSAA Unorm.
pub fn pipeline_set_slot(msaa: bool, use_unorm: bool) -> (r: usize)
    ensures
        r < 4,
        r == (if use_unorm { 2usize } else { 0usize }) + (if msaa { 0usize } else { 1usize }),
{
    match (msaa, use_unorm) {
        (true, false) => 0,
        (false, false) => 1,
        (true, true) => 2,
        (false, true) => 3,
    }
}

// ---------------------------------------------------------------------------
// Shared MMD toon ramps (32 rows, row 0 = top)
// ---------------------------------------------------------------------------

/// Rows of a 2-tone step ramp: white on top, `shadow` from row 16 down.
pub open spec fn toon_step_rows(shadow: [u8; 3]) -> Seq<[u8; 3]> {
    Seq::new(32, |i: int| if i < 16 { [255u8, 255u8, 255u8] } else { shadow })
}

/// Rows described by a run-length list of `(color, count)`.
pub open spec fn rle_rows(runs: Seq<([u8; 3], u8)>) -> Seq<[u8; 3]>
    decreases runs.len(),
{
    if runs.len() == 0 {
        Seq::empty()
    } else {
        rle_rows(runs.drop_last()) + Seq::new(runs.last().1 as nat, |i: int| runs.last().0)
    }
}

/// A 2-tone step ramp (top half white, bottom half `shadow`).
pub fn toon_step(shadow: [u8; 3]) -> (rows: Vec<[u8; 3]>)
    ensures
        rows@ == toon_step_rows(shadow),
{
    let mut rows: Vec<[u8; 3]> = Vec::new();
    let mut i: usize = 0;
    while i < 32
        invariant
            i <= 32,
            rows@ == toon_step_rows(shadow).take(i as int),
        decreases 32 - i,
    {
        if i < 16 {
            rows.push([255u8, 255, 255]);
        } else {
            rows.push(shadow);
        }
        i = i + 1;
        assert(rows@ =~= toon_step_rows(shadow).take(i as int));
    }
    assert(toon_step_rows(shadow).take(32) =~= toon_step_rows(shadow));
    rows
}

/// Expand a ramp from a run-length list of `(color, count)`.
pub fn toon_rle(runs: &[([u8; 3], u8)]) -> (rows: Vec<[u8; 3]>)
    ensures
        rows@ == rle_rows(runs@),
{
    let mut rows: Vec<[u8; 3]> = Vec::new();
    let mut r: usize = 0;
    while r < runs.len()
        invariant
            r <= runs@.len(),
            rows@ == rle_rows(runs@.take(r as int)),
        decreases runs.len() - r,
    {
        let (color, count) = runs[r];
        let ghost before = rows@;
        let mut c: u8 = 0;
        while c < count
            invariant
                c <= count,
                rows@ == before + Seq::new(c as nat, |i: int| color),
            decreases count - c,
        {
            rows.push(color);
            c = c + 1;
            assert(rows@ =~= before + Seq::new(c as nat, |i: int| color));
        }
        assert(runs@.take(r + 1).drop_last() =~= runs@.take(r as int));
        r = r + 1;
    }
    assert(runs@.take(runs@.len() as int) =~= runs@);
    rows
}

/// The 1x32 RGBA texture of a ramp (opaque).
pub fn toon_rows_to_rgba(rows: &Vec<[u8; 3]>) -> (rgba: Vec<u8>)
    requires
        rows@.len() * 4 <= usize::MAX,
    ensures
        rgba@.len() == rows@.len() * 4,
        forall|i: int|
            0 <= i < rows@.len() ==> rgba@[4 * i] == rows@[i][0] && rgba@[4 * i + 1] == rows@[i][1]
                && rgba@[4 * i + 2] == rows@[i][2] && rgba@[4 * i + 3] == 255,
{
    let mut rgba: Vec<u8> = Vec::new();
    let mut i: usize = 0;
    while i < rows.len()
        invariant
            i <= rows@.len(),
            rows@.len() * 4 <= usize::MAX,
            rgba@.len() == 4 * i,
            forall|k: int|
                0 <= k < i ==> rgba@[4 * k] == rows@[k][0] && rgba@[4 * k + 1] == rows@[k][1]
                    && rgba@[4 * k + 2] == rows@[k][2] && rgba@[4 * k + 3] == 255,
        decreases rows.len() - i,
    {
        let row = rows[i];
        rgba.push(row[0]);
        rgba.push(row[1]);
        rgba.push(row[2]);
        rgba.push(255);
        i = i + 1;
    }
    rgba
}

/// Number of rows a run-length list describes.
pub open spec fn run_total(runs: Seq<([u8; 3], u8)>) -> nat
    decreases runs.len(),
{
    if runs.len() == 0 {
        0
    } else {
        run_total(runs.drop_last()) + runs.last().1 as nat
    }
}

/// A run-length list expands to as many rows as its counts add up to.
pub proof fn lemma_rle_len(runs: Seq<([u8; 3], u8)>)
    ensures
        rle_rows(runs).len() == run_total(runs),
    decreases runs.len(),
{
    if runs.len() > 0 {
        lemma_rle_len(runs.drop_last());
    }
}

/// All-white rows.
pub open spec fn white_rows() -> Seq<[u8; 3]> {
    Seq::new(32, |i: int| [255u8, 255u8, 255u8])
}

/// The runs of the toon05 gradient (a warm fade at the bottom).
pub open spec fn toon05_runs() -> Seq<([u8; 3], u8)> {
    seq![
        ([255u8, 255u8, 255u8], 19u8), ([255u8, 254u8, 254u8], 1u8), ([255u8, 250u8, 248u8], 1u8),
        ([255u8, 246u8, 242u8], 1u8), ([255u8, 240u8, 234u8], 1u8), ([255u8, 236u8, 229u8], 1u8),
        ([255u8, 233u8, 224u8], 1u8), ([255u8, 231u8, 222u8], 1u8), ([255u8, 231u8, 221u8], 4u8),
        ([255u8, 231u8, 222u8], 1u8), ([254u8, 232u8, 223u8], 1u8),
    ]
}

/// The runs of the toon06 gradient (yellow with a dark band).
pub open spec fn toon06_runs() -> Seq<([u8; 3], u8)> {
    seq![
        ([255u8, 237u8, 97u8], 8u8), ([255u8, 238u8, 106u8], 1u8), ([255u8, 246u8, 175u8], 1u8),
        ([255u8, 254u8, 242u8], 1u8), ([255u8, 242u8, 138u8], 1u8), ([255u8, 237u8, 97u8], 10u8),
        ([254u8, 235u8, 94u8], 1u8), ([238u8, 218u8, 69u8], 1u8), ([209u8, 187u8, 24u8], 1u8),
        ([197u8, 174u8, 6u8], 1u8), ([195u8, 172u8, 3u8], 6u8),
    ]
}

/// The ten shared toon ramps: toon01-04 are 2-tone steps, toon05-06 follow the
/// reference gradients, toon07-10 are plain white.
pub fn shared_toon_ramps() -> (ramps: Vec<Vec<[u8; 3]>>)
    ensures
        ramps@.len() == 10,
        ramps@[0]@ == toon_step_rows([205, 205, 205]),
        ramps@[1]@ == toon_step_rows([245, 225, 225]),
        ramps@[2]@ == toon_step_rows([154, 154, 154]),
        ramps@[3]@ == toon_step_rows([248, 239, 235]),
        ramps@[4]@ == rle_rows(toon05_runs()),
        ramps@[5]@ == rle_rows(toon06_runs()),
        forall|k: int| 0 <= k < 10 ==> (#[trigger] ramps@[k])@.len() == 32,
        forall|k: int| 6 <= k < 10 ==> (#[trigger] ramps@[k])@ == white_rows(),
{
    let mut ramps: Vec<Vec<[u8; 3]>> = Vec::new();
    ramps.push(toon_step([205, 205, 205]));
    ramps.push(toon_step([245, 225, 225]));
    ramps.push(toon_step([154, 154, 154]));
    ramps.push(toon_step([248, 239, 235]));
    let runs05 = [
        ([255u8, 255, 255], 19u8), ([255, 254, 254], 1), ([255, 250, 248], 1),
        ([255, 246, 242], 1), ([255, 240, 234], 1), ([255, 236, 229], 1),
        ([255, 233, 224], 1), ([255, 231, 222], 1), ([255, 231, 221], 4),
        ([255, 231, 222], 1), ([254, 232, 223], 1),
    ];
    let toon05 = toon_rle(&runs05);
    assert(runs05@ =~= toon05_runs());
    proof {
        lemma_rle_len(runs05@);
        reveal_with_fuel(run_total, 12);
    }
    ramps.push(toon05);
    let runs06 = [
        ([255u8, 237, 97], 8u8), ([255, 238, 106], 1), ([255, 246, 175], 1),
        ([255, 254, 242], 1), ([255, 242, 138], 1), ([255, 237, 97], 10),
        ([254, 235, 94], 1), ([238, 218, 69], 1), ([209, 187, 24], 1),
        ([197, 174, 6], 1), ([195, 172, 3], 6),
    ];
    let toon06 = toon_rle(&runs06);
    assert(runs06@ =~= toon06_runs());
    proof {
        lemma_rle_len(runs06@);
        reveal_with_fuel(run_total, 12);
    }
    ramps.push(toon06);
    let mut k: usize = 0;
    while k < 4
        invariant
            k <= 4,
            ramps@.len() == 6 + k,
            ramps@[0]@ == toon_step_rows([205, 205, 205]),
            ramps@[1]@ == toon_step_rows([245, 225, 225]),
            ramps@[2]@ == toon_step_rows([154, 154, 154]),
            ramps@[3]@ == toon_step_rows([248, 239, 235]),
            ramps@[4]@ == rle_rows(toon05_runs()),
            ramps@[5]@ == rle_rows(toon06_runs()),
            forall|j: int| 0 <= j < 6 + k ==> (#[trigger] ramps@[j])@.len() == 32,
            forall|j: int| 6 <= j < 6 + k ==> (#[trigger] ramps@[j])@ == white_rows(),
        decreases 4 - k,
    {
        let w = toon_step([255, 255, 255]);
        assert(w@ =~= white_rows());
        ramps.push(w);
        k = k + 1;
    }
    ramps
}

// ---------------------------------------------------------------------------
// The standard draw pass
// ---------------------------------------------------------------------------

/// Face culling of a material.
#[derive(Debug, Clone, Copy, PartialEq, Eq, Structural)]
pub enum CullMode {
    Back,
    /// Both faces drawn.
    Off,
    Front,
}

/// What the standard pass reads of a draw.
#[derive(Debug, Clone, Copy, PartialEq, Eq, Structural)]
pub struct DrawInfo {
    pub render_queue: RenderQueue,
    pub cull_mode: CullMode,
    pub render_style: RenderStyle,
    /// The draw has an MMD material bind group.
    pub has_mmd_bind_group: bool,
    pub has_outline: bool,
}

/// The switches of the standard pass.
#[derive(Debug, Clone, Copy, PartialEq, Eq, Structural)]
pub struct StandardPassFlags {
    /// Wireframe mode with a wireframe pipeline available.
    pub wireframe: bool,
    /// Solid + wireframe mode with an overlay pipeline available.
    pub solid_wire: bool,
    /// Outlines on, no shader override, and not in MMD mode.
    pub outlines: bool,
    /// MMD draws are drawn by the MMD pass (and skipped here).
    pub mmd_solid: bool,
}

/// The pipeline a step of the standard pass draws with.
#[derive(Debug, Clone, Copy, PartialEq, Eq, Structural)]
pub enum PipelineKind {
    Wireframe,
    /// The surface pipeline of a queue and culling mode.
    Surface(RenderQueue, CullMode),
    Outline,
    OutlineMask,
    OutlineBlend,
    WireOverlay,
}

/// One draw call of the standard pass.
#[derive(Debug, Clone, Copy, PartialEq, Eq, Structural)]
pub struct DrawStep {
    pub draw: usize,
    pub pipeline: PipelineKind,
}

/// A draw is visible unless its flag says otherwise (missing flags count as visible).
pub open spec fn visible_at(visible: Seq<bool>, d: int) -> bool {
    d >= visible.len() || visible[d]
}

/// Translucent queues draw each outline right after its surface.
pub open spec fn interleaves_outline(q: RenderQueue) -> bool {
    q == RenderQueue::Blend || q == RenderQueue::BlendZWrite
}

/// The outline pipeline drawn right after a translucent surface.
pub open spec fn interleaved_outline(q: RenderQueue) -> PipelineKind {
    if q == RenderQueue::Blend { PipelineKind::OutlineBlend } else { PipelineKind::Outline }
}

/// The outline pipeline of the outlines drawn after an opaque or masked phase.
pub open spec fn phase_outline(q: RenderQueue) -> PipelineKind {
    if q == RenderQueue::Mask { PipelineKind::OutlineMask } else { PipelineKind::Outline }
}

/// The steps the surface loop of phase `q` makes for draw `d`: its surface (unless it
/// is in another queue, hidden, or left to the MMD pass), then, for a translucent
/// queue, its outline.
pub open spec fn surface_steps(draws: Seq<DrawInfo>, visible: Seq<bool>, f: StandardPassFlags, q: RenderQueue, d: usize) -> Seq<DrawStep> {
    let x = draws[d as int];
    if x.render_queue != q || !visible_at(visible, d as int) || (f.mmd_solid && x.render_style == RenderStyle::Mmd
        && x.has_mmd_bind_group) {
        Seq::empty()
    } else {
        let surface = DrawStep {
            draw: d,
            pipeline: if f.wireframe { PipelineKind::Wireframe } else { PipelineKind::Surface(q, x.cull_mode) },
        };
        if interleaves_outline(q) && !f.wireframe && f.outlines && x.render_style == RenderStyle::Standard
            && x.has_outline {
            seq![surface, DrawStep { draw: d, pipeline: interleaved_outline(q) }]
        } else {
            seq![surface]
        }
    }
}

/// The outline the closing loop of an opaque or masked phase `q` draws for draw `d`.
pub open spec fn outline_steps(draws: Seq<DrawInfo>, visible: Seq<bool>, f: StandardPassFlags, q: RenderQueue, d: usize) -> Seq<DrawStep> {
    let x = draws[d as int];
    if x.render_queue == q && visible_at(visible, d as int) && x.render_style == RenderStyle::Standard && x.has_outline {
        seq![DrawStep { draw: d, pipeline: phase_outline(q) }]
    } else {
        Seq::empty()
    }
}

/// The surface loop of phase `q` over the first `n` draws of `order`.
pub open spec fn surface_loop(draws: Seq<DrawInfo>, order: Seq<usize>, visible: Seq<bool>, f: StandardPassFlags, q: RenderQueue, n: int) -> Seq<DrawStep>
    decreases n,
{
    if n <= 0 {
        Seq::empty()
    } else {
        surface_loop(draws, order, visible, f, q, n - 1) + surface_steps(draws, visible, f, q, order[n - 1])
    }
}

/// The closing outline loop of phase `q` over the first `n` draws of `order`.
pub open spec fn outline_loop(draws: Seq<DrawInfo>, order: Seq<usize>, visible: Seq<bool>, f: StandardPassFlags, q: RenderQueue, n: int) -> Seq<DrawStep>
    decreases n,
{
    if n <= 0 {
        Seq::empty()
    } else {
        outline_loop(draws, order, visible, f, q, n - 1) + outline_steps(draws, visible, f, q, order[n - 1])
    }
}

/// One phase: the surfaces of queue `q` in draw order, then, for an opaque or masked
/// queue with outlines on (and no wireframe), their outlines.
pub open spec fn phase_steps(draws: Seq<DrawInfo>, order: Seq<usize>, visible: Seq<bool>, f: StandardPassFlags, q: RenderQueue) -> Seq<DrawStep> {
    surface_loop(draws, order, visible, f, q, order.len() as int) + if !interleaves_outline(q) && !f.wireframe
        && f.outlines {
        outline_loop(draws, order, visible, f, q, order.len() as int)
    } else {
        Seq::empty()
    }
}

/// The wire overlay over the first `n` draws (in model order), visible ones only.
pub open spec fn overlay_loop(visible: Seq<bool>, n: int) -> Seq<DrawStep>
    decreases n,
{
    if n <= 0 {
        Seq::empty()
    } else {
        overlay_loop(visible, n - 1) + if visible_at(visible, n - 1) {
            seq![DrawStep { draw: (n - 1) as usize, pipeline: PipelineKind::WireOverlay }]
        } else {
            Seq::empty()
        }
    }
}

/// The whole standard pass: the opaque, masked, translucent-with-depth-write and
/// translucent phases in that order, then the wire overlay in solid + wire mode.
pub open spec fn draw_plan(draws: Seq<DrawInfo>, order: Seq<usize>, visible: Seq<bool>, f: StandardPassFlags) -> Seq<DrawStep> {
    phase_steps(draws, order, visible, f, RenderQueue::Opaque) + phase_steps(draws, order, visible, f, RenderQueue::Mask)
        + phase_steps(draws, order, visible, f, RenderQueue::BlendZWrite) + phase_steps(
        draws,
        order,
        visible,
        f,
        RenderQueue::Blend,
    ) + if f.solid_wire {
        overlay_loop(visible, draws.len() as int)
    } else {
        Seq::empty()
    }
}

fn is_visible(visible: &Vec<bool>, d: usize) -> (r: bool)
    ensures
        r == visible_at(visible@, d as int),
{
    d >= visible.len() || visible[d]
}

/// Append the steps of one phase.
fn push_phase(
    out: &mut Vec<DrawStep>,
    draws: &Vec<DrawInfo>,
    order: &Vec<usize>,
    visible: &Vec<bool>,
    f: StandardPassFlags,
    q: RenderQueue,
)
    requires
        forall|k: int| 0 <= k < order@.len() ==> (#[trigger] order@[k] as int) < draws@.len(),
    ensures
        final(out)@ == old(out)@ + phase_steps(draws@, order@, visible@, f, q),
{
    let interleave = q == RenderQueue::Blend || q == RenderQueue::BlendZWrite;
    let ghost base = out@;
    let mut i: usize = 0;
    while i < order.len()
        invariant
            i <= order@.len(),
            forall|k: int| 0 <= k < order@.len() ==> (#[trigger] order@[k] as int) < draws@.len(),
            interleave == interleaves_outline(q),
            out@ == base + surface_loop(draws@, order@, visible@, f, q, i as int),
        decreases order.len() - i,
    {
        let d = order[i];
        let x = draws[d];
        let ghost before = out@;
        if x.render_queue == q && is_visible(visible, d) && !(f.mmd_solid && x.render_style == RenderStyle::Mmd
            && x.has_mmd_bind_group) {
            let pipeline = if f.wireframe { PipelineKind::Wireframe } else { PipelineKind::Surface(q, x.cull_mode) };
            out.push(DrawStep { draw: d, pipeline });
            if interleave && !f.wireframe && f.outlines && x.render_style == RenderStyle::Standard && x.has_outline {
                let o = if q == RenderQueue::Blend { PipelineKind::OutlineBlend } else { PipelineKind::Outline };
                out.push(DrawStep { draw: d, pipeline: o });
            }
        }
        assert(out@ =~= before + surface_steps(draws@, visible@, f, q, d));
        assert(base + surface_loop(draws@, order@, visible@, f, q, i + 1) =~= base + surface_loop(
            draws@,
            order@,
            visible@,
            f,
            q,
            i as int,
        ) + surface_steps(draws@, visible@, f, q, d));
        i = i + 1;
    }
    let ghost mid = out@;
    if !interleave && !f.wireframe && f.outlines {
        let mut j: usize = 0;
        while j < order.len()
            invariant
                j <= order@.len(),
                forall|k: int| 0 <= k < order@.len() ==> (#[trigger] order@[k] as int) < draws@.len(),
                out@ == mid + outline_loop(draws@, order@, visible@, f, q, j as int),
            decreases order.len() - j,
        {
            let d = order[j];
            let x = draws[d];
            let ghost before = out@;
            if x.render_queue == q && is_visible(visible, d) && x.render_style == RenderStyle::Standard && x.has_outline {
                let o = if q == RenderQueue::Mask { PipelineKind::OutlineMask } else { PipelineKind::Outline };
                out.push(DrawStep { draw: d, pipeline: o });
            }
            assert(out@ =~= before + outline_steps(draws@, visible@, f, q, d));
            assert(mid + outline_loop(draws@, order@, visible@, f, q, j + 1) =~= mid + outline_loop(
                draws@,
                order@,
                visible@,
                f,
                q,
                j as int,
            ) + outline_steps(draws@, visible@, f, q, d));
            j = j + 1;
        }
        assert(out@ =~= base + phase_steps(draws@, order@, visible@, f, q));
    } else {
        assert(out@ =~= base + phase_steps(draws@, order@, visible@, f, q));
    }
}

/// The draw calls of the standard pass, in order: for each queue phase (opaque,
/// masked, translucent with depth write, translucent) the visible draws of that queue
/// in `order` (the sorted draw indices), each with its surface pipeline (or the
/// wireframe one), translucent ones followed at once by their outline; opaque and
/// masked phases end with their outlines. Draws left to the MMD pass are skipped.
/// In solid + wire mode the wire overlay of every visible draw follows.
pub fn standard_draw_plan(
    draws: &Vec<DrawInfo>,
    order: &Vec<usize>,
    visible: &Vec<bool>,
    flags: StandardPassFlags,
) -> (r: Vec<DrawStep>)
    requires
        forall|k: int| 0 <= k < order@.len() ==> (#[trigger] order@[k] as int) < draws@.len(),
    ensures
        r@ == draw_plan(draws@, order@, visible@, flags),
{
    let mut out: Vec<DrawStep> = Vec::new();
    push_phase(&mut out, draws, order, visible, flags, RenderQueue::Opaque);
    push_phase(&mut out, draws, order, visible, flags, RenderQueue::Mask);
    push_phase(&mut out, draws, order, visible, flags, RenderQueue::BlendZWrite);
    push_phase(&mut out, draws, order, visible, flags, RenderQueue::Blend);
    let ghost mid = out@;
    if flags.solid_wire {
        let mut d: usize = 0;
        while d < draws.len()
            invariant
                d <= draws@.len(),
                out@ == mid + overlay_loop(visible@, d as int),
            decreases draws.len() - d,
        {
            let ghost before = out@;
            if is_visible(visible, d) {
                out.push(DrawStep { draw: d, pipeline: PipelineKind::WireOverlay });
            }
            assert(mid + overlay_loop(visible@, d + 1) =~= before + if visible_at(visible@, d as int) {
                seq![DrawStep { draw: d, pipeline: PipelineKind::WireOverlay }]
            } else {
                Seq::empty()
            });
            d = d + 1;
        }
    }
    assert(out@ =~= draw_plan(draws@, order@, visible@, flags));
    out
}


/// Colour class of a rigid-body gizmo.
#[derive(Debug, Clone, Copy, PartialEq, Eq, Structural)]
pub enum RigidColor {
    /// Follows its bone (PMX/PMD physics mode 0): green.
    BoneFollow,
    /// Driven by physics (PMX/PMD mode 1): red.
    Physics,
    /// Physics with bone alignment (PMX/PMD other modes): blue.
    PhysicsBone,
    /// A VRM collider (group 1): red.
    Collider,
    /// A VRM spring-bone chain (any other group): green.
    Spring,
}

/// How a rigid body's gizmo is coloured: by physics mode for PMX/PMD models, by
/// group for VRM models.
pub fn rigid_color_class(is_pmx_pmd: bool, physics_mode: u8, group: u16) -> (r: RigidColor)
    ensures
        r == (if is_pmx_pmd {
            if physics_mode == 0 {
                RigidColor::BoneFollow
            } else if physics_mode == 1 {
                RigidColor::Physics
            } else {
                RigidColor::PhysicsBone
            }
        } else if group == 1 {
            RigidColor::Collider
        } else {
            RigidColor::Spring
        }),
{
    if is_pmx_pmd {
        match physics_mode {
            0 => RigidColor::BoneFollow,
            1 => RigidColor::Physics,
            _ => RigidColor::PhysicsBone,
        }
    } else if group == 1 {
        RigidColor::Collider
    } else {
        RigidColor::Spring
    }
}

} // verus!
