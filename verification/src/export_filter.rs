//! Export of the visible part of a model: the hidden materials and their
//! meshes are dropped, vertex, material, morph and texture indices are
//! renumbered, morphs left without any effect are removed (a group morph lives
//! while one of its children does), and only the textures still referenced
//! are kept.
use vstd::prelude::*;
use std::collections::HashSet;
use crate::texture_mgmt::{IrMaterial, IrTexture, IrTextureInfo, MtoonTextures};

verus! {

broadcast use vstd::std_specs::hash::group_hash_axioms;

/// The parts of a model the export filter passes through untouched.
pub trait IrPayload {
    /// Model name, comment, bones, node-to-bone map, source format and rig data.
    type Header;
    type RigidBody;
    type Joint;
    type Vertex;
    /// Everything else a mesh holds (name, indices, morph targets, node, UV1).
    type MeshData;
    /// Morph name, English name and panel.
    type MorphHeader;
    /// Offset of a vertex morph entry.
    type VertexOffset;
    /// Weight of a group morph child.
    type GroupWeight;
    /// Color bind data of a material morph (bind type, target value).
    type ColorBind;
    /// Texture-transform bind data of a material morph (scale, offset).
    type UvBind;
    /// UV channel of a UV morph.
    type UvChannel;
    /// Offset of a UV morph entry.
    type UvOffset;
}

/// A mesh: its vertices, its material and the rest of its data.
pub struct IrMesh<P: IrPayload> {
    pub vertices: Vec<P::Vertex>,
    pub material_index: usize,
    pub data: P::MeshData,
}

/// A material bind of a material morph.
pub struct MaterialBind<X> {
    pub material_index: usize,
    pub data: X,
}

/// What a morph moves.
pub enum IrMorphKind<P: IrPayload> {
    /// Vertex offsets `(vertex, offset)` of positions, normals and tangents.
    Vertex {
        positions: Vec<(usize, P::VertexOffset)>,
        normals: Vec<(usize, P::VertexOffset)>,
        tangents: Vec<(usize, P::VertexOffset)>,
    },
    /// Child morphs `(morph, weight)`.
    Group(Vec<(usize, P::GroupWeight)>),
    /// Material color and texture-transform binds.
    Material { color_binds: Vec<MaterialBind<P::ColorBind>>, uv_binds: Vec<MaterialBind<P::UvBind>> },
    /// UV offsets `(vertex, offset)` of one channel.
    Uv { channel: P::UvChannel, offsets: Vec<(usize, P::UvOffset)> },
}

/// A morph.
pub struct IrMorph<P: IrPayload> {
    pub header: P::MorphHeader,
    pub kind: IrMorphKind<P>,
}

/// A model, as the export filter sees it.
pub struct IrModel<P: IrPayload> {
    pub header: P::Header,
    pub rigid_bodies: Vec<P::RigidBody>,
    pub joints: Vec<P::Joint>,
    pub meshes: Vec<IrMesh<P>>,
    pub materials: Vec<IrMaterial>,
    pub textures: Vec<IrTexture>,
    pub morphs: Vec<IrMorph<P>>,
}

// ---------------------------------------------------------------------------
// Index tables
// ---------------------------------------------------------------------------

/// Entry `i` of a by-index table (nothing past its end).
pub open spec fn lookup(t: Seq<Option<usize>>, i: usize) -> Option<usize> {
    if (i as int) < t.len() {
        t[i as int]
    } else {
        None
    }
}

/// Number of `i < n` with `keep(i)`.
pub open spec fn count_kept(keep: spec_fn(int) -> bool, n: int) -> nat
    decreases n,
{
    if n <= 0 {
        0
    } else {
        count_kept(keep, n - 1) + if keep(n - 1) { 1nat } else { 0nat }
    }
}

proof fn lemma_count_kept_bound(keep: spec_fn(int) -> bool, n: int)
    requires
        0 <= n,
    ensures
        count_kept(keep, n) <= n,
    decreases n,
{
    if n > 0 {
        lemma_count_kept_bound(keep, n - 1);
    }
}

proof fn lemma_count_kept_mono(keep: spec_fn(int) -> bool, a: int, b: int)
    requires
        0 <= a <= b,
    ensures
        count_kept(keep, a) <= count_kept(keep, b),
        a < b && keep(a) ==> count_kept(keep, a) < count_kept(keep, b),
    decreases b - a,
{
    if a < b {
        lemma_count_kept_mono(keep, a, b - 1);
    }
}

/// The renumbering of `n` items keeping those with `keep`: kept item `i`
/// becomes the number of kept items before it.
pub open spec fn renumbering(keep: spec_fn(int) -> bool, n: int) -> Seq<Option<usize>> {
    Seq::new(n as nat, |i: int| if keep(i) { Some(count_kept(keep, i) as usize) } else { None })
}

/// The renumbering table of `flags`.
fn renumber(flags: &Vec<bool>) -> (r: Vec<Option<usize>>)
    ensures
        r@ == renumbering(|i: int| flags@[i], flags@.len() as int),
{
    let ghost keep = |i: int| flags@[i];
    let mut r: Vec<Option<usize>> = Vec::new();
    let mut next: usize = 0;
    let mut i: usize = 0;
    while i < flags.len()
        invariant
            i <= flags@.len(),
            keep == (|i: int| flags@[i]),
            next == count_kept(keep, i as int),
            r@ == renumbering(keep, i as int),
        decreases flags@.len() - i,
    {
        proof {
            lemma_count_kept_bound(keep, i as int);
        }
        if flags[i] {
            r.push(Some(next));
            next = next + 1;
        } else {
            r.push(None);
        }
        i = i + 1;
        assert(r@ =~= renumbering(keep, i as int));
    }
    r
}

// ---------------------------------------------------------------------------
// Meshes and vertices
// ---------------------------------------------------------------------------

/// Number of vertices of the first `k` meshes.
pub open spec fn verts_before<P: IrPayload>(meshes: Seq<IrMesh<P>>, k: int) -> nat
    decreases k,
{
    if k <= 0 {
        0
    } else {
        verts_before(meshes, k - 1) + meshes[k - 1].vertices@.len()
    }
}

/// Whether mesh `m` is exported (its material is visible).
pub open spec fn mesh_kept<P: IrPayload>(m: IrMesh<P>, visible: Set<usize>) -> bool {
    visible.contains(m.material_index)
}

/// Number of vertices of the exported meshes among the first `k`.
pub open spec fn kept_verts_before<P: IrPayload>(meshes: Seq<IrMesh<P>>, visible: Set<usize>, k: int) -> nat
    decreases k,
{
    if k <= 0 {
        0
    } else {
        kept_verts_before(meshes, visible, k - 1) + if mesh_kept(meshes[k - 1], visible) {
            meshes[k - 1].vertices@.len()
        } else {
            0
        }
    }
}

/// New global index of every old global vertex of the first `k` meshes:
/// vertices of exported meshes are numbered in order, the others have none.
pub open spec fn vertex_renumbering<P: IrPayload>(meshes: Seq<IrMesh<P>>, visible: Set<usize>, k: int) -> Seq<Option<usize>>
    decreases k,
{
    if k <= 0 {
        Seq::empty()
    } else {
        let m = meshes[k - 1];
        let base = kept_verts_before(meshes, visible, k - 1);
        vertex_renumbering(meshes, visible, k - 1) + Seq::new(
            m.vertices@.len(),
            |l: int| if mesh_kept(m, visible) { Some((base + l) as usize) } else { None },
        )
    }
}

/// The exported meshes among the first `k`, in order, with their material renumbered.
pub open spec fn kept_meshes<P: IrPayload>(meshes: Seq<IrMesh<P>>, visible: Set<usize>, mat_new: Seq<Option<usize>>, k: int) -> Seq<IrMesh<P>>
    decreases k,
{
    if k <= 0 {
        Seq::empty()
    } else {
        let m = meshes[k - 1];
        if mesh_kept(m, visible) {
            kept_meshes(meshes, visible, mat_new, k - 1).push(
                IrMesh { material_index: lookup(mat_new, m.material_index)->0, ..m },
            )
        } else {
            kept_meshes(meshes, visible, mat_new, k - 1)
        }
    }
}

proof fn lemma_kept_verts_bound<P: IrPayload>(meshes: Seq<IrMesh<P>>, visible: Set<usize>, k: int)
    requires
        0 <= k <= meshes.len(),
    ensures
        kept_verts_before(meshes, visible, k) <= verts_before(meshes, k),
        vertex_renumbering(meshes, visible, k).len() == verts_before(meshes, k),
    decreases k,
{
    if k > 0 {
        lemma_kept_verts_bound(meshes, visible, k - 1);
    }
}

proof fn lemma_verts_before_mono<P: IrPayload>(meshes: Seq<IrMesh<P>>, a: int, b: int)
    requires
        0 <= a <= b <= meshes.len(),
    ensures
        verts_before(meshes, a) <= verts_before(meshes, b),
    decreases b - a,
{
    if a < b {
        lemma_verts_before_mono(meshes, a, b - 1);
    }
}

/// Keep the meshes whose material is visible (their material renumbered by
/// `mat_new`), and number their vertices anew.
fn filter_meshes<P: IrPayload>(
    meshes: Vec<IrMesh<P>>,
    visible: &HashSet<usize>,
    mat_new: &Vec<Option<usize>>,
) -> (r: (Vec<IrMesh<P>>, Vec<Option<usize>>))
    requires
        verts_before(meshes@, meshes@.len() as int) <= usize::MAX,
        forall|k: int| 0 <= k < meshes@.len() && mesh_kept(#[trigger] meshes@[k], visible@)
            ==> lookup(mat_new@, meshes@[k].material_index) is Some,
    ensures
        r.0@ == kept_meshes(meshes@, visible@, mat_new@, meshes@.len() as int),
        r.1@ == vertex_renumbering(meshes@, visible@, meshes@.len() as int),
{
    let ghost ms = meshes@;
    let mut kept: Vec<IrMesh<P>> = Vec::new();
    let mut remap: Vec<Option<usize>> = Vec::new();
    let mut new_off: usize = 0;
    for mesh in it: meshes
        invariant
            ms == it.seq(),
            it.index() <= ms.len(),
            verts_before(ms, ms.len() as int) <= usize::MAX,
            forall|j: int| 0 <= j < ms.len() && mesh_kept(#[trigger] ms[j], visible@)
                ==> lookup(mat_new@, ms[j].material_index) is Some,
            kept@ == kept_meshes(ms, visible@, mat_new@, it.index() as int),
            remap@ == vertex_renumbering(ms, visible@, it.index() as int),
            new_off == kept_verts_before(ms, visible@, it.index() as int),
    {
        let ghost k = it.index();
        proof {
            lemma_kept_verts_bound(ms, visible@, k as int);
            lemma_verts_before_mono(ms, k + 1, ms.len() as int);
            assert(ms[k as int] == mesh);
        }
        let n = mesh.vertices.len();
        let keep = visible.contains(&mesh.material_index);
        let ghost before = remap@;
        let mut l: usize = 0;
        while l < n
            invariant
                l <= n == mesh.vertices@.len(),
                new_off as int + n <= usize::MAX,
                remap@ == before + Seq::new(
                    l as nat,
                    |q: int| if keep { Some((new_off + q) as usize) } else { None },
                ),
            decreases n - l,
        {
            if keep {
                remap.push(Some(new_off + l));
            } else {
                remap.push(None);
            }
            l = l + 1;
            assert(remap@ =~= before + Seq::new(
                l as nat,
                |q: int| if keep { Some((new_off + q) as usize) } else { None },
            ));
        }
        if keep {
            let new_mat = match mat_new.get(mesh.material_index) {
                Some(Some(x)) => *x,
                _ => 0,
            };
            new_off = new_off + n;
            kept.push(IrMesh { vertices: mesh.vertices, material_index: new_mat, data: mesh.data });
        }
    }
    (kept, remap)
}

// ---------------------------------------------------------------------------
// Morphs
// ---------------------------------------------------------------------------

/// Whether some entry `(index, _)` of `es` has a new index in `table`.
pub open spec fn any_entry_kept<O>(es: Seq<(usize, O)>, table: Seq<Option<usize>>) -> bool {
    exists|j: int| 0 <= j < es.len() && #[trigger] lookup(table, es[j].0) is Some
}

/// Whether some bind of `bs` is on a material that is exported.
pub open spec fn any_bind_kept<X>(bs: Seq<MaterialBind<X>>, mat_new: Seq<Option<usize>>) -> bool {
    exists|j: int| 0 <= j < bs.len() && #[trigger] lookup(mat_new, bs[j].material_index) is Some
}

/// Whether a morph still has an effect on its own: a vertex or UV morph on an
/// exported vertex, a material morph on an exported material. Group morphs
/// live through their children.
pub open spec fn own_effect<P: IrPayload>(m: IrMorph<P>, vert_new: Seq<Option<usize>>, mat_new: Seq<Option<usize>>) -> bool {
    match m.kind {
        IrMorphKind::Vertex { positions, normals, tangents } => any_entry_kept(positions@, vert_new)
            || any_entry_kept(normals@, vert_new) || any_entry_kept(tangents@, vert_new),
        IrMorphKind::Group(_) => false,
        IrMorphKind::Material { color_binds, uv_binds } => any_bind_kept(color_binds@, mat_new)
            || any_bind_kept(uv_binds@, mat_new),
        IrMorphKind::Uv { offsets, .. } => any_entry_kept(offsets@, vert_new),
    }
}

/// Whether morph `c` is alive in `alive`.
pub open spec fn child_alive(c: usize, alive: Seq<bool>) -> bool {
    (c as int) < alive.len() && alive[c as int]
}

/// Whether group morph `m` has a child that is alive in `alive`.
pub open spec fn has_alive_child<P: IrPayload>(m: IrMorph<P>, alive: Seq<bool>) -> bool {
    match m.kind {
        IrMorphKind::Group(children) => exists|j: int|
            0 <= j < children@.len() && #[trigger] child_alive(children@[j].0, alive),
        _ => false,
    }
}

/// `alive` contains every morph with an effect of its own, and every group
/// morph with an alive child.
pub open spec fn closed_alive<P: IrPayload>(
    morphs: Seq<IrMorph<P>>,
    vert_new: Seq<Option<usize>>,
    mat_new: Seq<Option<usize>>,
    alive: Seq<bool>,
) -> bool {
    &&& alive.len() == morphs.len()
    &&& forall|i: int| 0 <= i < morphs.len() && own_effect(#[trigger] morphs[i], vert_new, mat_new) ==> alive[i]
    &&& forall|i: int| 0 <= i < morphs.len() && has_alive_child(#[trigger] morphs[i], alive) ==> alive[i]
}

/// The morphs that survive the export: the least set closed as in `closed_alive`.
pub open spec fn surviving_morphs<P: IrPayload>(
    morphs: Seq<IrMorph<P>>,
    vert_new: Seq<Option<usize>>,
    mat_new: Seq<Option<usize>>,
    alive: Seq<bool>,
) -> bool {
    &&& closed_alive(morphs, vert_new, mat_new, alive)
    &&& forall|other: Seq<bool>| #[trigger] closed_alive(morphs, vert_new, mat_new, other)
        ==> forall|i: int| 0 <= i < alive.len() && alive[i] ==> other[i]
}

/// Number of set flags.
pub open spec fn count_true(s: Seq<bool>) -> nat
    decreases s.len(),
{
    if s.len() == 0 {
        0
    } else {
        count_true(s.drop_last()) + if s.last() { 1nat } else { 0nat }
    }
}

proof fn lemma_count_true_bound(s: Seq<bool>)
    ensures
        count_true(s) <= s.len(),
        count_true(s) == s.len() ==> forall|i: int| 0 <= i < s.len() ==> #[trigger] s[i],
    decreases s.len(),
{
    if s.len() > 0 {
        lemma_count_true_bound(s.drop_last());
        if count_true(s) == s.len() {
            assert forall|i: int| 0 <= i < s.len() implies #[trigger] s[i] by {
                if i < s.len() - 1 {
                    assert(s.drop_last()[i] == s[i]);
                }
            }
        }
    }
}

proof fn lemma_count_true_set(s: Seq<bool>, i: int)
    requires
        0 <= i < s.len(),
        !s[i],
    ensures
        count_true(s.update(i, true)) == count_true(s) + 1,
    decreases s.len(),
{
    if i < s.len() - 1 {
        lemma_count_true_set(s.drop_last(), i);
        assert(s.update(i, true).drop_last() =~= s.drop_last().update(i, true));
    } else {
        assert(s.update(i, true).drop_last() =~= s.drop_last());
    }
}

/// Whether some entry of `es` has a new index in `table`.
fn entries_kept<O>(es: &Vec<(usize, O)>, table: &Vec<Option<usize>>) -> (r: bool)
    ensures
        r == any_entry_kept(es@, table@),
{
    let mut j: usize = 0;
    while j < es.len()
        invariant
            j <= es@.len(),
            forall|q: int| 0 <= q < j ==> !(#[trigger] lookup(table@, es@[q].0) is Some),
        decreases es@.len() - j,
    {
        let vi = es[j].0;
        if vi < table.len() && table[vi].is_some() {
            assert(lookup(table@, es@[j as int].0) is Some);
            return true;
        }
        j = j + 1;
    }
    false
}

/// Whether some bind of `bs` is on an exported material.
fn binds_kept<X>(bs: &Vec<MaterialBind<X>>, mat_new: &Vec<Option<usize>>) -> (r: bool)
    ensures
        r == any_bind_kept(bs@, mat_new@),
{
    let mut j: usize = 0;
    while j < bs.len()
        invariant
            j <= bs@.len(),
            forall|q: int| 0 <= q < j ==> !(#[trigger] lookup(mat_new@, bs@[q].material_index) is Some),
        decreases bs@.len() - j,
    {
        let mi = bs[j].material_index;
        if mi < mat_new.len() && mat_new[mi].is_some() {
            assert(lookup(mat_new@, bs@[j as int].material_index) is Some);
            return true;
        }
        j = j + 1;
    }
    false
}

/// Whether group morph `m` has a child alive in `alive`.
fn alive_child<P: IrPayload>(m: &IrMorph<P>, alive: &Vec<bool>) -> (r: bool)
    ensures
        r == has_alive_child(*m, alive@),
{
    match &m.kind {
        IrMorphKind::Group(children) => {
            assert(m.kind->Group_0 == *children);
            let mut j: usize = 0;
            while j < children.len()
                invariant
                    j <= children@.len(),
                    m.kind is Group && m.kind->Group_0 == *children,
                    forall|q: int| 0 <= q < j ==> !(#[trigger] child_alive(children@[q].0, alive@)),
                decreases children@.len() - j,
            {
                let c = children[j].0;
                if c < alive.len() && alive[c] {
                    assert(child_alive(children@[j as int].0, alive@));
                    assert(has_alive_child(*m, alive@));
                    return true;
                }
                j = j + 1;
            }
            false
        },
        _ => false,
    }
}

/// Which morphs survive the export.
fn morph_liveness<P: IrPayload>(
    morphs: &Vec<IrMorph<P>>,
    vert_new: &Vec<Option<usize>>,
    mat_new: &Vec<Option<usize>>,
) -> (alive: Vec<bool>)
    ensures
        surviving_morphs(morphs@, vert_new@, mat_new@, alive@),
{
    let n = morphs.len();
    let mut alive: Vec<bool> = Vec::new();
    let mut i: usize = 0;
    while i < n
        invariant
            i <= n == morphs@.len(),
            alive@.len() == i,
            forall|k: int| 0 <= k < i ==> #[trigger] alive@[k] == own_effect(morphs@[k], vert_new@, mat_new@),
        decreases n - i,
    {
        let own = match &morphs[i].kind {
            IrMorphKind::Vertex { positions, normals, tangents } => entries_kept(positions, vert_new)
                || entries_kept(normals, vert_new) || entries_kept(tangents, vert_new),
            IrMorphKind::Group(_) => false,
            IrMorphKind::Material { color_binds, uv_binds } => binds_kept(color_binds, mat_new)
                || binds_kept(uv_binds, mat_new),
            IrMorphKind::Uv { offsets, .. } => entries_kept(offsets, vert_new),
        };
        alive.push(own);
        i = i + 1;
    }
    // group morphs live through their children, until nothing changes
    let rounds = if n > 1 { n } else { 1 };
    let mut round: usize = 0;
    let mut settled = false;
    while round < rounds && !settled
        invariant
            n == morphs@.len(),
            rounds >= n,
            alive@.len() == n,
            forall|k: int| 0 <= k < n && own_effect(#[trigger] morphs@[k], vert_new@, mat_new@) ==> alive@[k],
            forall|other: Seq<bool>| #[trigger] closed_alive(morphs@, vert_new@, mat_new@, other)
                ==> forall|k: int| 0 <= k < n && alive@[k] ==> other[k],
            count_true(alive@) >= round,
            settled ==> closed_alive(morphs@, vert_new@, mat_new@, alive@),
        decreases (rounds - round) * 2 + if settled { 0int } else { 1int },
    {
        let ghost start = alive@;
        let mut changed = false;
        let mut i: usize = 0;
        while i < n
            invariant
                i <= n == morphs@.len(),
                alive@.len() == n,
                forall|k: int| 0 <= k < n && own_effect(#[trigger] morphs@[k], vert_new@, mat_new@) ==> alive@[k],
                forall|other: Seq<bool>| #[trigger] closed_alive(morphs@, vert_new@, mat_new@, other)
                    ==> forall|k: int| 0 <= k < n && alive@[k] ==> other[k],
                !changed ==> alive@ == start,
                changed ==> count_true(alive@) > count_true(start),
                count_true(alive@) >= count_true(start),
                !changed ==> forall|k: int| 0 <= k < i && !alive@[k] ==> !has_alive_child(#[trigger] morphs@[k], alive@),
            decreases n - i,
        {
            if !alive[i] {
                if alive_child(&morphs[i], &alive) {
                    let ghost before = alive@;
                    proof {
                        lemma_count_true_set(before, i as int);
                        assert forall|other: Seq<bool>| #[trigger] closed_alive(morphs@, vert_new@, mat_new@, other)
                            implies forall|k: int| 0 <= k < n && before.update(i as int, true)[k] ==> other[k] by {
                            assert(has_alive_child(morphs@[i as int], before));
                            let ch = morphs@[i as int].kind->Group_0@;
                            let j = choose|j: int| 0 <= j < ch.len() && #[trigger] child_alive(ch[j].0, before);
                            assert(other[ch[j].0 as int]);
                            assert(child_alive(ch[j].0, other));
                            assert(has_alive_child(morphs@[i as int], other));
                        }
                    }
                    alive.set(i, true);
                    changed = true;
                }
            }
            i = i + 1;
        }
        if !changed {
            settled = true;
        } else {
            round = round + 1;
        }
    }
    proof {
        if !settled {
            lemma_count_true_bound(alive@);
            assert forall|k: int| 0 <= k < n implies #[trigger] alive@[k] by {}
        }
    }
    alive
}

/// The entries of `es` whose index has a new one in `table`, renumbered, in order.
pub open spec fn remap_entries<O>(es: Seq<(usize, O)>, table: Seq<Option<usize>>) -> Seq<(usize, O)>
    decreases es.len(),
{
    if es.len() == 0 {
        Seq::empty()
    } else {
        let prev = remap_entries(es.drop_last(), table);
        match lookup(table, es.last().0) {
            Some(n) => prev.push((n, es.last().1)),
            None => prev,
        }
    }
}

/// The binds of `bs` on exported materials, with the materials renumbered, in order.
pub open spec fn remap_binds<X>(bs: Seq<MaterialBind<X>>, mat_new: Seq<Option<usize>>) -> Seq<MaterialBind<X>>
    decreases bs.len(),
{
    if bs.len() == 0 {
        Seq::empty()
    } else {
        let prev = remap_binds(bs.drop_last(), mat_new);
        match lookup(mat_new, bs.last().material_index) {
            Some(n) => prev.push(MaterialBind { material_index: n, data: bs.last().data }),
            None => prev,
        }
    }
}

/// `new` is morph kind `old` with its vertex, material and child-morph
/// references renumbered by `vert_new`, `mat_new` and `morph_new` (entries
/// without a new index dropped).
pub open spec fn remapped_kind<P: IrPayload>(
    old: IrMorphKind<P>,
    new: IrMorphKind<P>,
    vert_new: Seq<Option<usize>>,
    mat_new: Seq<Option<usize>>,
    morph_new: Seq<Option<usize>>,
) -> bool {
    match (old, new) {
        (
            IrMorphKind::Vertex { positions: p0, normals: n0, tangents: t0 },
            IrMorphKind::Vertex { positions: p1, normals: n1, tangents: t1 },
        ) => p1@ == remap_entries(p0@, vert_new) && n1@ == remap_entries(n0@, vert_new) && t1@
            == remap_entries(t0@, vert_new),
        (IrMorphKind::Group(c0), IrMorphKind::Group(c1)) => c1@ == remap_entries(c0@, morph_new),
        (
            IrMorphKind::Material { color_binds: c0, uv_binds: u0 },
            IrMorphKind::Material { color_binds: c1, uv_binds: u1 },
        ) => c1@ == remap_binds(c0@, mat_new) && u1@ == remap_binds(u0@, mat_new),
        (IrMorphKind::Uv { channel: ch0, offsets: o0 }, IrMorphKind::Uv { channel: ch1, offsets: o1 }) => ch1
            == ch0 && o1@ == remap_entries(o0@, vert_new),
        _ => false,
    }
}

/// `new` holds, in order, the morphs of `old` flagged in `alive`, each with
/// its references renumbered.
pub open spec fn remapped_morphs<P: IrPayload>(
    old: Seq<IrMorph<P>>,
    alive: Seq<bool>,
    new: Seq<IrMorph<P>>,
    vert_new: Seq<Option<usize>>,
    mat_new: Seq<Option<usize>>,
) -> bool {
    let keep = |i: int| alive[i];
    let morph_new = renumbering(keep, old.len() as int);
    &&& new.len() == count_kept(keep, old.len() as int)
    &&& forall|i: int| #![trigger old[i]] 0 <= i < old.len() && alive[i] ==> {
        &&& new[morph_new[i]->0 as int].header == old[i].header
        &&& remapped_kind(old[i].kind, new[morph_new[i]->0 as int].kind, vert_new, mat_new, morph_new)
    }
}

/// Keep the entries whose index has a new one, renumbered.
fn filter_entries<O>(es: Vec<(usize, O)>, table: &Vec<Option<usize>>) -> (r: Vec<(usize, O)>)
    ensures
        r@ == remap_entries(es@, table@),
{
    let ghost all = es@;
    let mut r: Vec<(usize, O)> = Vec::new();
    for e in it: es
        invariant
            all == it.seq(),
            it.index() <= all.len(),
            r@ == remap_entries(all.take(it.index() as int), table@),
    {
        let ghost i = it.index();
        proof {
            assert(all.take(i + 1).drop_last() =~= all.take(i as int));
            assert(all.take(i + 1).last() == e);
        }
        let (vi, data) = e;
        if vi < table.len() {
            match table[vi] {
                Some(n) => r.push((n, data)),
                None => {},
            }
        }
    }
    proof {
        assert(all.take(all.len() as int) =~= all);
    }
    r
}

/// Keep the binds on exported materials, renumbered.
fn filter_binds<X>(bs: Vec<MaterialBind<X>>, mat_new: &Vec<Option<usize>>) -> (r: Vec<MaterialBind<X>>)
    ensures
        r@ == remap_binds(bs@, mat_new@),
{
    let ghost all = bs@;
    let mut r: Vec<MaterialBind<X>> = Vec::new();
    for b in it: bs
        invariant
            all == it.seq(),
            it.index() <= all.len(),
            r@ == remap_binds(all.take(it.index() as int), mat_new@),
    {
        let ghost i = it.index();
        proof {
            assert(all.take(i + 1).drop_last() =~= all.take(i as int));
            assert(all.take(i + 1).last() == b);
        }
        let MaterialBind { material_index, data } = b;
        if material_index < mat_new.len() {
            match mat_new[material_index] {
                Some(n) => r.push(MaterialBind { material_index: n, data }),
                None => {},
            }
        }
    }
    proof {
        assert(all.take(all.len() as int) =~= all);
    }
    r
}

/// The surviving morphs, in order, with their references renumbered.
fn remap_morphs<P: IrPayload>(
    morphs: Vec<IrMorph<P>>,
    alive: &Vec<bool>,
    vert_new: &Vec<Option<usize>>,
    mat_new: &Vec<Option<usize>>,
) -> (r: Vec<IrMorph<P>>)
    requires
        alive@.len() == morphs@.len(),
    ensures
        remapped_morphs(morphs@, alive@, r@, vert_new@, mat_new@),
{
    let morph_new = renumber(alive);
    let ghost keep = |i: int| alive@[i];
    let ghost all = morphs@;
    let _n = morphs.len();
    let mut r: Vec<IrMorph<P>> = Vec::new();
    let mut pos: usize = 0;
    for morph in it: morphs
        invariant
            all == it.seq(),
            pos == it.index(),
            pos <= all.len() <= usize::MAX,
            alive@.len() == all.len(),
            keep == (|i: int| alive@[i]),
            morph_new@ == renumbering(keep, all.len() as int),
            r@.len() == count_kept(keep, pos as int),
            forall|i: int| #![trigger all[i]] 0 <= i < pos && alive@[i] ==> {
                &&& r@[morph_new@[i]->0 as int].header == all[i].header
                &&& remapped_kind(all[i].kind, r@[morph_new@[i]->0 as int].kind, vert_new@, mat_new@, morph_new@)
            },
    {
        proof {
            lemma_count_kept_bound(keep, pos as int);
            assert(all[pos as int] == morph);
        }
        if alive[pos] {
            let ghost before = r@;
            let IrMorph { header, kind } = morph;
            let new_kind = match kind {
                IrMorphKind::Vertex { positions, normals, tangents } => IrMorphKind::Vertex {
                    positions: filter_entries(positions, vert_new),
                    normals: filter_entries(normals, vert_new),
                    tangents: filter_entries(tangents, vert_new),
                },
                IrMorphKind::Group(children) => IrMorphKind::Group(filter_entries(children, &morph_new)),
                IrMorphKind::Material { color_binds, uv_binds } => IrMorphKind::Material {
                    color_binds: filter_binds(color_binds, mat_new),
                    uv_binds: filter_binds(uv_binds, mat_new),
                },
                IrMorphKind::Uv { channel, offsets } => IrMorphKind::Uv {
                    channel,
                    offsets: filter_entries(offsets, vert_new),
                },
            };
            r.push(IrMorph { header, kind: new_kind });
            proof {
                assert forall|i: int| #![trigger all[i]] 0 <= i < pos + 1 && alive@[i] implies {
                    &&& r@[morph_new@[i]->0 as int].header == all[i].header
                    &&& remapped_kind(all[i].kind, r@[morph_new@[i]->0 as int].kind, vert_new@, mat_new@, morph_new@)
                } by {
                    if i < pos {
                        lemma_count_kept_mono(keep, i, pos as int);
                        assert(r@[morph_new@[i]->0 as int] == before[morph_new@[i]->0 as int]);
                    }
                }
            }
        }
        pos = pos + 1;
    }
    r
}
// ---------------------------------------------------------------------------
// Texture pruning
// ---------------------------------------------------------------------------

/// The items of `s[..k]` flagged by `keep`, in order.
pub open spec fn kept_items<T>(s: Seq<T>, keep: spec_fn(int) -> bool, k: int) -> Seq<T>
    decreases k,
{
    if k <= 0 {
        Seq::empty()
    } else if keep(k - 1) {
        kept_items(s, keep, k - 1).push(s[k - 1])
    } else {
        kept_items(s, keep, k - 1)
    }
}

proof fn lemma_kept_items_len<T>(s: Seq<T>, keep: spec_fn(int) -> bool, k: int)
    requires
        0 <= k,
    ensures
        kept_items(s, keep, k).len() == count_kept(keep, k),
        forall|i: int| 0 <= i < k && keep(i) ==> #[trigger] kept_items(s, keep, k)[count_kept(keep, i) as int] == s[i],
    decreases k,
{
    if k > 0 {
        lemma_kept_items_len(s, keep, k - 1);
        assert forall|i: int| 0 <= i < k && keep(i) implies #[trigger] kept_items(s, keep, k)[count_kept(keep, i) as int] == s[i] by {
            if i < k - 1 {
                lemma_count_kept_mono(keep, i, k - 1);
            }
        }
    }
}

/// The texture index of an optional slot reference.
pub open spec fn info_index(ti: Option<IrTextureInfo>) -> Option<usize> {
    match ti {
        Some(t) => Some(t.index),
        None => None,
    }
}

/// Every texture reference of a material (an entry per slot, `None` where empty).
pub open spec fn texture_refs(m: IrMaterial) -> Seq<Option<usize>> {
    let mt = match m.mtoon {
        Some(t) => t,
        None => MtoonTextures::empty(),
    };
    seq![
        m.texture_index,
        info_index(m.base_color_tex_info),
        info_index(mt.shade_texture),
        info_index(mt.outline_width_texture),
        info_index(mt.matcap_texture),
        info_index(mt.shading_shift_texture),
        info_index(mt.rim_multiply_texture),
        info_index(mt.uv_animation_mask_texture),
        info_index(m.emissive_texture),
        info_index(m.normal_texture),
        m.sphere_texture_index,
        m.toon_texture_index,
    ]
}

/// Whether some material of `mats` references texture `t`.
pub open spec fn texture_used(mats: Seq<IrMaterial>, t: int) -> bool {
    exists|i: int, j: int| 0 <= i < mats.len() && 0 <= j < 12 && #[trigger] texture_refs(mats[i])[j] == Some(t as usize)
}

/// A slot reference renumbered by `tex_new` (dropped when the texture has no new index).
pub open spec fn remap_info(ti: Option<IrTextureInfo>, tex_new: Seq<Option<usize>>) -> Option<IrTextureInfo> {
    match ti {
        Some(t) => match lookup(tex_new, t.index) {
            Some(n) => Some(IrTextureInfo { index: n, ..t }),
            None => None,
        },
        None => None,
    }
}

/// A texture index renumbered by `tex_new`.
pub open spec fn remap_index(i: Option<usize>, tex_new: Seq<Option<usize>>) -> Option<usize> {
    match i {
        Some(x) => lookup(tex_new, x),
        None => None,
    }
}

/// Material `m` with every texture reference renumbered by `tex_new`.
pub open spec fn retextured(m: IrMaterial, tex_new: Seq<Option<usize>>) -> IrMaterial {
    IrMaterial {
        texture_index: remap_index(m.texture_index, tex_new),
        base_color_tex_info: remap_info(m.base_color_tex_info, tex_new),
        mtoon: match m.mtoon {
            Some(mt) => Some(
                MtoonTextures {
                    shade_texture: remap_info(mt.shade_texture, tex_new),
                    shading_shift_texture: remap_info(mt.shading_shift_texture, tex_new),
                    rim_multiply_texture: remap_info(mt.rim_multiply_texture, tex_new),
                    outline_width_texture: remap_info(mt.outline_width_texture, tex_new),
                    matcap_texture: remap_info(mt.matcap_texture, tex_new),
                    uv_animation_mask_texture: remap_info(mt.uv_animation_mask_texture, tex_new),
                },
            ),
            None => None,
        },
        emissive_texture: remap_info(m.emissive_texture, tex_new),
        normal_texture: remap_info(m.normal_texture, tex_new),
        sphere_texture_index: remap_index(m.sphere_texture_index, tex_new),
        toon_texture_index: remap_index(m.toon_texture_index, tex_new),
        ..m
    }
}

fn info_index_of(ti: Option<IrTextureInfo>) -> (r: Option<usize>)
    ensures
        r == info_index(ti),
{
    match ti {
        Some(t) => Some(t.index),
        None => None,
    }
}

/// Every texture reference of a material.
fn material_refs(m: &IrMaterial) -> (r: Vec<Option<usize>>)
    ensures
        r@ == texture_refs(*m),
{
    let mt = match m.mtoon {
        Some(t) => t,
        None => MtoonTextures::new(),
    };
    let r = vec![
        m.texture_index,
        info_index_of(m.base_color_tex_info),
        info_index_of(mt.shade_texture),
        info_index_of(mt.outline_width_texture),
        info_index_of(mt.matcap_texture),
        info_index_of(mt.shading_shift_texture),
        info_index_of(mt.rim_multiply_texture),
        info_index_of(mt.uv_animation_mask_texture),
        info_index_of(m.emissive_texture),
        info_index_of(m.normal_texture),
        m.sphere_texture_index,
        m.toon_texture_index,
    ];
    assert(r@ =~= texture_refs(*m));
    r
}

/// Which of `n` textures the materials reference.
fn used_textures(mats: &Vec<IrMaterial>, n: usize) -> (used: Vec<bool>)
    ensures
        used@.len() == n,
        forall|t: int| 0 <= t < n ==> #[trigger] used@[t] == texture_used(mats@, t),
{
    let mut used: Vec<bool> = Vec::new();
    let mut t: usize = 0;
    while t < n
        invariant
            t <= n,
            used@.len() == t,
            forall|q: int| 0 <= q < t ==> !(#[trigger] used@[q]),
        decreases n - t,
    {
        used.push(false);
        t = t + 1;
    }
    let mut i: usize = 0;
    while i < mats.len()
        invariant
            i <= mats@.len(),
            used@.len() == n,
            forall|q: int| 0 <= q < n ==> #[trigger] used@[q] == exists|a: int, j: int|
                0 <= a < i && 0 <= j < 12 && #[trigger] texture_refs(mats@[a])[j] == Some(q as usize),
        decreases mats@.len() - i,
    {
        let refs = material_refs(&mats[i]);
        let ghost before = used@;
        let mut j: usize = 0;
        while j < refs.len()
            invariant
                j <= refs@.len() == 12,
                refs@ == texture_refs(mats@[i as int]),
                used@.len() == n,
                forall|q: int| 0 <= q < n ==> #[trigger] used@[q] == (before[q] || exists|b: int|
                    0 <= b < j && #[trigger] refs@[b] == Some(q as usize)),
            decreases refs@.len() - j,
        {
            match refs[j] {
                Some(x) => {
                    if x < n {
                        used.set(x, true);
                    }
                },
                None => {},
            }
            proof {
                assert forall|q: int| 0 <= q < n implies #[trigger] used@[q] == (before[q] || exists|b: int|
                    0 <= b < j + 1 && #[trigger] refs@[b] == Some(q as usize)) by {
                    if refs@[j as int] == Some(q as usize) {
                        assert(refs@[j as int] == Some(q as usize));
                    }
                }
            }
            j = j + 1;
        }
        proof {
            assert forall|q: int| 0 <= q < n implies #[trigger] used@[q] == exists|a: int, b: int|
                0 <= a < i + 1 && 0 <= b < 12 && #[trigger] texture_refs(mats@[a])[b] == Some(q as usize) by {
                if used@[q] && !before[q] {
                    let b = choose|b: int| 0 <= b < 12 && #[trigger] refs@[b] == Some(q as usize);
                    assert(texture_refs(mats@[i as int])[b] == Some(q as usize));
                }
                if exists|a: int, b: int| 0 <= a < i + 1 && 0 <= b < 12 && #[trigger] texture_refs(mats@[a])[b] == Some(q as usize) {
                    let (a, b) = choose|a: int, b: int| 0 <= a < i + 1 && 0 <= b < 12 && #[trigger] texture_refs(mats@[a])[b] == Some(q as usize);
                    if a == i as int {
                        assert(refs@[b] == Some(q as usize));
                    }
                }
            }
        }
        i = i + 1;
    }
    used
}

/// Renumber every texture reference of a material.
fn retexture(m: &mut IrMaterial, tex_new: &Vec<Option<usize>>)
    ensures
        *final(m) == retextured(*old(m), tex_new@),
{
    m.texture_index = remap_index_of(m.texture_index, tex_new);
    m.base_color_tex_info = remap_info_of(m.base_color_tex_info, tex_new);
    match m.mtoon {
        Some(mt) => {
            m.mtoon = Some(MtoonTextures {
                shade_texture: remap_info_of(mt.shade_texture, tex_new),
                shading_shift_texture: remap_info_of(mt.shading_shift_texture, tex_new),
                rim_multiply_texture: remap_info_of(mt.rim_multiply_texture, tex_new),
                outline_width_texture: remap_info_of(mt.outline_width_texture, tex_new),
                matcap_texture: remap_info_of(mt.matcap_texture, tex_new),
                uv_animation_mask_texture: remap_info_of(mt.uv_animation_mask_texture, tex_new),
            });
        },
        None => {},
    }
    m.emissive_texture = remap_info_of(m.emissive_texture, tex_new);
    m.normal_texture = remap_info_of(m.normal_texture, tex_new);
    m.sphere_texture_index = remap_index_of(m.sphere_texture_index, tex_new);
    m.toon_texture_index = remap_index_of(m.toon_texture_index, tex_new);
}

fn remap_index_of(i: Option<usize>, tex_new: &Vec<Option<usize>>) -> (r: Option<usize>)
    ensures
        r == remap_index(i, tex_new@),
{
    match i {
        Some(x) => if x < tex_new.len() {
            tex_new[x]
        } else {
            None
        },
        None => None,
    }
}

fn remap_info_of(ti: Option<IrTextureInfo>, tex_new: &Vec<Option<usize>>) -> (r: Option<IrTextureInfo>)
    ensures
        r == remap_info(ti, tex_new@),
{
    match ti {
        Some(t) => match remap_index_of(Some(t.index), tex_new) {
            Some(n) => Some(IrTextureInfo { index: n, ..t }),
            None => None,
        },
        None => None,
    }
}

// ---------------------------------------------------------------------------
// The export
// ---------------------------------------------------------------------------

proof fn lemma_count_kept_ext(a: spec_fn(int) -> bool, b: spec_fn(int) -> bool, n: int)
    requires
        forall|i: int| 0 <= i < n ==> #[trigger] a(i) == b(i),
    ensures
        count_kept(a, n) == count_kept(b, n),
    decreases n,
{
    if n > 0 {
        lemma_count_kept_ext(a, b, n - 1);
    }
}

proof fn lemma_renumbering_ext(a: spec_fn(int) -> bool, b: spec_fn(int) -> bool, n: int)
    requires
        0 <= n,
        forall|i: int| 0 <= i < n ==> #[trigger] a(i) == b(i),
    ensures
        renumbering(a, n) == renumbering(b, n),
{
    assert forall|i: int| 0 <= i < n implies #[trigger] renumbering(a, n)[i] == renumbering(b, n)[i] by {
        lemma_count_kept_ext(a, b, i);
    }
    assert(renumbering(a, n) =~= renumbering(b, n));
}

proof fn lemma_kept_items_ext<T>(s: Seq<T>, a: spec_fn(int) -> bool, b: spec_fn(int) -> bool, n: int)
    requires
        forall|i: int| 0 <= i < n ==> #[trigger] a(i) == b(i),
    ensures
        kept_items(s, a, n) == kept_items(s, b, n),
    decreases n,
{
    if n > 0 {
        lemma_kept_items_ext(s, a, b, n - 1);
    }
}

/// The items flagged in `flags`, in order.
fn keep_flagged<T>(items: Vec<T>, flags: &Vec<bool>) -> (r: Vec<T>)
    requires
        flags@.len() == items@.len(),
    ensures
        r@ == kept_items(items@, |i: int| flags@[i], items@.len() as int),
{
    let ghost all = items@;
    let ghost keep = |i: int| flags@[i];
    let _n = items.len();
    let mut r: Vec<T> = Vec::new();
    let mut pos: usize = 0;
    for x in it: items
        invariant
            all == it.seq(),
            pos == it.index(),
            pos <= all.len() <= usize::MAX,
            flags@.len() == all.len(),
            keep == (|i: int| flags@[i]),
            r@ == kept_items(all, keep, pos as int),
    {
        proof {
            assert(all[pos as int] == x);
        }
        if flags[pos] {
            r.push(x);
        }
        pos = pos + 1;
    }
    r
}

/// The model cut down to the materials in `visible_mat_indices`: their
/// meshes (vertices renumbered in order), the morphs that still have an
/// effect (references renumbered, dangling entries dropped; a group morph
/// survives while one of its children does), and the textures the remaining
/// materials reference (renumbered in the materials). With no visible
/// material the model keeps only its header.
pub fn build_filtered_ir<P: IrPayload>(ir: IrModel<P>, visible_mat_indices: &HashSet<usize>) -> (r: IrModel<P>)
    requires
        verts_before(ir.meshes@, ir.meshes@.len() as int) <= usize::MAX,
        forall|k: int| 0 <= k < ir.meshes@.len() && mesh_kept(#[trigger] ir.meshes@[k], visible_mat_indices@)
            ==> ir.meshes@[k].material_index < ir.materials@.len(),
    ensures
        visible_mat_indices@.is_empty() ==> {
            &&& r.header == ir.header
            &&& r.rigid_bodies@.len() == 0
            &&& r.joints@.len() == 0
            &&& r.meshes@.len() == 0
            &&& r.materials@.len() == 0
            &&& r.textures@.len() == 0
            &&& r.morphs@.len() == 0
        },
        !visible_mat_indices@.is_empty() ==> {
            let vis = |i: int| visible_mat_indices@.contains(i as usize);
            let n_mats = ir.materials@.len() as int;
            let mat_new = renumbering(vis, n_mats);
            let vert_new = vertex_renumbering(ir.meshes@, visible_mat_indices@, ir.meshes@.len() as int);
            let kept_mats = kept_items(ir.materials@, vis, n_mats);
            let used = |t: int| texture_used(kept_mats, t);
            let tex_new = renumbering(used, ir.textures@.len() as int);
            &&& r.header == ir.header
            &&& r.rigid_bodies == ir.rigid_bodies
            &&& r.joints == ir.joints
            &&& r.meshes@ == kept_meshes(ir.meshes@, visible_mat_indices@, mat_new, ir.meshes@.len() as int)
            &&& r.materials@.len() == kept_mats.len()
            &&& forall|i: int| 0 <= i < kept_mats.len() ==> #[trigger] r.materials@[i] == retextured(kept_mats[i], tex_new)
            &&& r.textures@ == kept_items(ir.textures@, used, ir.textures@.len() as int)
            &&& forall|i: int| 0 <= i < kept_mats.len()
                ==> texture_slots_carried(kept_mats[i], #[trigger] r.materials@[i], ir.textures@, r.textures@)
            &&& exists|alive: Seq<bool>| surviving_morphs(ir.morphs@, vert_new, mat_new, alive)
                && remapped_morphs(ir.morphs@, alive, r.morphs@, vert_new, mat_new)
        },
{
    let ghost ir0 = ir;
    let IrModel { header, rigid_bodies, joints, meshes, materials, textures, morphs } = ir;
    if visible_mat_indices.is_empty() {
        return IrModel {
            header,
            rigid_bodies: Vec::new(),
            joints: Vec::new(),
            meshes: Vec::new(),
            materials: Vec::new(),
            textures: Vec::new(),
            morphs: Vec::new(),
        };
    }
    let ghost vis = |i: int| visible_mat_indices@.contains(i as usize);
    // materials: visible ones, renumbered in order
    let n_mats = materials.len();
    let mut vis_flags: Vec<bool> = Vec::new();
    let mut i: usize = 0;
    while i < n_mats
        invariant
            i <= n_mats,
            vis_flags@.len() == i,
            forall|q: int| 0 <= q < i ==> #[trigger] vis_flags@[q] == visible_mat_indices@.contains(q as usize),
        decreases n_mats - i,
    {
        vis_flags.push(visible_mat_indices.contains(&i));
        i = i + 1;
    }
    let mat_new = renumber(&vis_flags);
    proof {
        lemma_renumbering_ext(|q: int| vis_flags@[q], vis, n_mats as int);
        lemma_kept_items_ext(materials@, |q: int| vis_flags@[q], vis, n_mats as int);
        assert forall|k: int| 0 <= k < meshes@.len() && mesh_kept(#[trigger] meshes@[k], visible_mat_indices@)
            implies lookup(mat_new@, meshes@[k].material_index) is Some by {
            assert(vis_flags@[meshes@[k].material_index as int]);
        }
    }
    let mut new_materials = keep_flagged(materials, &vis_flags);
    // meshes and vertices
    let (new_meshes, vert_new) = filter_meshes(meshes, visible_mat_indices, &mat_new);
    // morphs
    let alive = morph_liveness(&morphs, &vert_new, &mat_new);
    let ghost morphs0 = morphs@;
    let new_morphs = remap_morphs(morphs, &alive, &vert_new, &mat_new);
    // textures still referenced
    let ghost kept_mats = new_materials@;
    let used = used_textures(&new_materials, textures.len());
    let tex_new = renumber(&used);
    proof {
        lemma_renumbering_ext(|t: int| used@[t], |t: int| texture_used(kept_mats, t), textures@.len() as int);
        lemma_kept_items_ext(textures@, |t: int| used@[t], |t: int| texture_used(kept_mats, t), textures@.len() as int);
    }
    let new_textures = keep_flagged(textures, &used);
    let nm = new_materials.len();
    let mut k: usize = 0;
    while k < nm
        invariant
            k <= nm == kept_mats.len(),
            new_materials@.len() == nm,
            forall|q: int| 0 <= q < k ==> #[trigger] new_materials@[q] == retextured(kept_mats[q], tex_new@),
            forall|q: int| k <= q < nm ==> #[trigger] new_materials@[q] == kept_mats[q],
        decreases nm - k,
    {
        retexture(&mut new_materials[k], &tex_new);
        k = k + 1;
    }
    proof {
        assert(ir0.textures@.len() == ir0.textures.len());
        assert forall|q: int| 0 <= q < nm
            implies texture_slots_carried(kept_mats[q], #[trigger] new_materials@[q], ir0.textures@, new_textures@) by {
            lemma_slots_carried(kept_mats, ir0.textures@, q);
        }
    }
    IrModel {
        header,
        rigid_bodies,
        joints,
        meshes: new_meshes,
        materials: new_materials,
        textures: new_textures,
        morphs: new_morphs,
    }
}

// ---------------------------------------------------------------------------
// Texture references carried through the export
// ---------------------------------------------------------------------------

/// A plain texture slot carried from a model with textures `src` to an export
/// with textures `out`: empty stays empty, a reference past the end of `src`
/// is dropped, and any other reference points at the same texture in `out`.
pub open spec fn ref_carried(old: Option<usize>, new: Option<usize>, src: Seq<IrTexture>, out: Seq<IrTexture>) -> bool {
    match old {
        None => new is None,
        Some(t) => if (t as int) < src.len() {
            new matches Some(u) && (u as int) < out.len() && out[u as int] == src[t as int]
        } else {
            new is None
        },
    }
}

/// A slot reference with sampling settings carried from `src` to `out`: as
/// for a plain slot, and the UV set, sampler and transform stay as they were.
pub open spec fn info_carried(
    old: Option<IrTextureInfo>,
    new: Option<IrTextureInfo>,
    src: Seq<IrTexture>,
    out: Seq<IrTexture>,
) -> bool {
    match old {
        None => new is None,
        Some(a) => if (a.index as int) < src.len() {
            new matches Some(b) && b == (IrTextureInfo { index: b.index, ..a })
                && (b.index as int) < out.len() && out[b.index as int] == src[a.index as int]
        } else {
            new is None
        },
    }
}

/// Every texture slot of material `old` carried into material `new`: the
/// main, base colour, emissive, normal, sphere and toon slots, and the six
/// MToon slots.
pub open spec fn texture_slots_carried(old: IrMaterial, new: IrMaterial, src: Seq<IrTexture>, out: Seq<IrTexture>) -> bool {
    &&& ref_carried(old.texture_index, new.texture_index, src, out)
    &&& info_carried(old.base_color_tex_info, new.base_color_tex_info, src, out)
    &&& info_carried(old.emissive_texture, new.emissive_texture, src, out)
    &&& info_carried(old.normal_texture, new.normal_texture, src, out)
    &&& ref_carried(old.sphere_texture_index, new.sphere_texture_index, src, out)
    &&& ref_carried(old.toon_texture_index, new.toon_texture_index, src, out)
    &&& (old.mtoon is None ==> new.mtoon is None)
    &&& (old.mtoon matches Some(a) ==> new.mtoon matches Some(b) && {
        &&& info_carried(a.shade_texture, b.shade_texture, src, out)
        &&& info_carried(a.shading_shift_texture, b.shading_shift_texture, src, out)
        &&& info_carried(a.rim_multiply_texture, b.rim_multiply_texture, src, out)
        &&& info_carried(a.outline_width_texture, b.outline_width_texture, src, out)
        &&& info_carried(a.matcap_texture, b.matcap_texture, src, out)
        &&& info_carried(a.uv_animation_mask_texture, b.uv_animation_mask_texture, src, out)
    })
}

/// A texture that slot `j` of kept material `i` references keeps a place
/// among the exported textures.
proof fn lemma_referenced_texture_kept(kept: Seq<IrMaterial>, textures: Seq<IrTexture>, i: int, j: int, t: usize)
    requires
        0 <= i < kept.len(),
        0 <= j < 12,
        texture_refs(kept[i])[j] == Some(t),
        (t as int) < textures.len() <= usize::MAX,
    ensures
        ({
            let used = |q: int| texture_used(kept, q);
            let n = textures.len() as int;
            let out = kept_items(textures, used, n);
            lookup(renumbering(used, n), t) matches Some(u) && (u as int) < out.len() && out[u as int] == textures[t as int]
        }),
{
    let used = |q: int| texture_used(kept, q);
    let n = textures.len() as int;
    assert(texture_used(kept, t as int));
    assert(used(t as int));
    lemma_kept_items_len(textures, used, n);
    lemma_count_kept_mono(used, t as int, n);
    lemma_count_kept_bound(used, n);
    let c = count_kept(used, t as int);
    assert(renumbering(used, n)[t as int] == Some(c as usize));
    assert((c as usize) as int == c);
}

/// The slots of kept material `i` after renumbering, against the exported textures.
proof fn lemma_slots_carried(kept: Seq<IrMaterial>, textures: Seq<IrTexture>, i: int)
    requires
        0 <= i < kept.len(),
        textures.len() <= usize::MAX,
    ensures
        ({
            let used = |q: int| texture_used(kept, q);
            let n = textures.len() as int;
            texture_slots_carried(kept[i], retextured(kept[i], renumbering(used, n)), textures, kept_items(textures, used, n))
        }),
{
    let m = kept[i];
    let mt = match m.mtoon {
        Some(t) => t,
        None => MtoonTextures::empty(),
    };
    let refs = texture_refs(m);
    if let Some(t) = m.texture_index {
        if (t as int) < textures.len() {
            assert(refs[0] == Some(t));
            lemma_referenced_texture_kept(kept, textures, i, 0, t);
        }
    }
    if let Some(a) = m.base_color_tex_info {
        if (a.index as int) < textures.len() {
            assert(refs[1] == Some(a.index));
            lemma_referenced_texture_kept(kept, textures, i, 1, a.index);
        }
    }
    if let Some(a) = mt.shade_texture {
        if (a.index as int) < textures.len() {
            assert(refs[2] == Some(a.index));
            lemma_referenced_texture_kept(kept, textures, i, 2, a.index);
        }
    }
    if let Some(a) = mt.outline_width_texture {
        if (a.index as int) < textures.len() {
            assert(refs[3] == Some(a.index));
            lemma_referenced_texture_kept(kept, textures, i, 3, a.index);
        }
    }
    if let Some(a) = mt.matcap_texture {
        if (a.index as int) < textures.len() {
            assert(refs[4] == Some(a.index));
            lemma_referenced_texture_kept(kept, textures, i, 4, a.index);
        }
    }
    if let Some(a) = mt.shading_shift_texture {
        if (a.index as int) < textures.len() {
            assert(refs[5] == Some(a.index));
            lemma_referenced_texture_kept(kept, textures, i, 5, a.index);
        }
    }
    if let Some(a) = mt.rim_multiply_texture {
        if (a.index as int) < textures.len() {
            assert(refs[6] == Some(a.index));
            lemma_referenced_texture_kept(kept, textures, i, 6, a.index);
        }
    }
    if let Some(a) = mt.uv_animation_mask_texture {
        if (a.index as int) < textures.len() {
            assert(refs[7] == Some(a.index));
            lemma_referenced_texture_kept(kept, textures, i, 7, a.index);
        }
    }
    if let Some(a) = m.emissive_texture {
        if (a.index as int) < textures.len() {
            assert(refs[8] == Some(a.index));
            lemma_referenced_texture_kept(kept, textures, i, 8, a.index);
        }
    }
    if let Some(a) = m.normal_texture {
        if (a.index as int) < textures.len() {
            assert(refs[9] == Some(a.index));
            lemma_referenced_texture_kept(kept, textures, i, 9, a.index);
        }
    }
    if let Some(t) = m.sphere_texture_index {
        if (t as int) < textures.len() {
            assert(refs[10] == Some(t));
            lemma_referenced_texture_kept(kept, textures, i, 10, t);
        }
    }
    if let Some(t) = m.toon_texture_index {
        if (t as int) < textures.len() {
            assert(refs[11] == Some(t));
            lemma_referenced_texture_kept(kept, textures, i, 11, t);
        }
    }
}

/// Exporting the visible part of a model loses no texture of a material it
/// keeps: every slot of every kept material (the toon and sphere slots and
/// the MToon slots included) that referenced a texture of the model
/// references the same texture among the exported ones, with its sampling
/// settings unchanged; an empty slot stays empty.
pub proof fn kept_materials_keep_their_textures<P: IrPayload>(ir: IrModel<P>, visible: Set<usize>, r: IrModel<P>)
    requires
        ({
            let vis = |i: int| visible.contains(i as usize);
            let n_mats = ir.materials@.len() as int;
            let kept_mats = kept_items(ir.materials@, vis, n_mats);
            let used = |t: int| texture_used(kept_mats, t);
            let tex_new = renumbering(used, ir.textures@.len() as int);
            &&& r.materials@.len() == kept_mats.len()
            &&& forall|i: int| 0 <= i < kept_mats.len() ==> #[trigger] r.materials@[i] == retextured(kept_mats[i], tex_new)
            &&& r.textures@ == kept_items(ir.textures@, used, ir.textures@.len() as int)
        }),
    ensures
        ({
            let vis = |i: int| visible.contains(i as usize);
            let kept_mats = kept_items(ir.materials@, vis, ir.materials@.len() as int);
            forall|i: int| 0 <= i < kept_mats.len()
                ==> texture_slots_carried(kept_mats[i], #[trigger] r.materials@[i], ir.textures@, r.textures@)
        }),
{
    let vis = |i: int| visible.contains(i as usize);
    let kept_mats = kept_items(ir.materials@, vis, ir.materials@.len() as int);
    assert(ir.textures@.len() == ir.textures.len());
    assert forall|i: int| 0 <= i < kept_mats.len()
        implies texture_slots_carried(kept_mats[i], #[trigger] r.materials@[i], ir.textures@, r.textures@) by {
        lemma_slots_carried(kept_mats, ir.textures@, i);
    }
}

// ---------------------------------------------------------------------------
// Consistency of the exported model
// ---------------------------------------------------------------------------

/// Every number a renumbering hands out is below the number of kept items.
proof fn lemma_renumbering_bound(keep: spec_fn(int) -> bool, n: int)
    requires
        0 <= n,
    ensures
        forall|i: int| 0 <= i < n && #[trigger] renumbering(keep, n)[i] is Some
            ==> renumbering(keep, n)[i]->0 < count_kept(keep, n),
{
    assert forall|i: int| 0 <= i < n && #[trigger] renumbering(keep, n)[i] is Some
        implies renumbering(keep, n)[i]->0 < count_kept(keep, n) by {
        lemma_count_kept_mono(keep, i, n);
        lemma_count_kept_bound(keep, i);
    }
}

/// Every number in `table` is below `bound`.
pub open spec fn table_below(table: Seq<Option<usize>>, bound: int) -> bool {
    forall|i: int| 0 <= i < table.len() && #[trigger] table[i] is Some ==> table[i]->0 < bound
}

proof fn lemma_remap_entries_below<O>(es: Seq<(usize, O)>, table: Seq<Option<usize>>, bound: int)
    requires
        table_below(table, bound),
    ensures
        forall|j: int| 0 <= j < remap_entries(es, table).len() ==> (#[trigger] remap_entries(es, table)[j]).0 < bound,
    decreases es.len(),
{
    if es.len() > 0 {
        lemma_remap_entries_below(es.drop_last(), table, bound);
        let prev = remap_entries(es.drop_last(), table);
        let cur = remap_entries(es, table);
        let x = es.last().0;
        if lookup(table, x) is Some {
            assert(table[x as int] is Some);
            assert(cur == prev.push((lookup(table, x)->0, es.last().1)));
        } else {
            assert(cur == prev);
        }
        assert forall|j: int| 0 <= j < cur.len() implies (#[trigger] cur[j]).0 < bound by {
            if j < prev.len() {
                assert(cur[j] == prev[j]);
            }
        }
    }
}

proof fn lemma_remap_binds_below<X>(bs: Seq<MaterialBind<X>>, table: Seq<Option<usize>>, bound: int)
    requires
        table_below(table, bound),
    ensures
        forall|j: int| 0 <= j < remap_binds(bs, table).len() ==> (#[trigger] remap_binds(bs, table)[j]).material_index < bound,
    decreases bs.len(),
{
    if bs.len() > 0 {
        lemma_remap_binds_below(bs.drop_last(), table, bound);
        let prev = remap_binds(bs.drop_last(), table);
        let cur = remap_binds(bs, table);
        let x = bs.last().material_index;
        if lookup(table, x) is Some {
            assert(table[x as int] is Some);
            assert(cur == prev.push(MaterialBind { material_index: lookup(table, x)->0, data: bs.last().data }));
        } else {
            assert(cur == prev);
        }
        assert forall|j: int| 0 <= j < cur.len() implies (#[trigger] cur[j]).material_index < bound by {
            if j < prev.len() {
                assert(cur[j] == prev[j]);
            }
        }
    }
}

proof fn lemma_kept_meshes<P: IrPayload>(meshes: Seq<IrMesh<P>>, visible: Set<usize>, mat_new: Seq<Option<usize>>, k: int, bound: int)
    requires
        0 <= k <= meshes.len(),
        forall|q: int| 0 <= q < meshes.len() && mesh_kept(#[trigger] meshes[q], visible)
            ==> lookup(mat_new, meshes[q].material_index) is Some
                && lookup(mat_new, meshes[q].material_index)->0 < bound,
    ensures
        verts_before(kept_meshes(meshes, visible, mat_new, k), kept_meshes(meshes, visible, mat_new, k).len() as int)
            == kept_verts_before(meshes, visible, k),
        forall|j: int| 0 <= j < kept_meshes(meshes, visible, mat_new, k).len()
            ==> (#[trigger] kept_meshes(meshes, visible, mat_new, k)[j]).material_index < bound,
    decreases k,
{
    if k > 0 {
        lemma_kept_meshes(meshes, visible, mat_new, k - 1, bound);
        let prev = kept_meshes(meshes, visible, mat_new, k - 1);
        if mesh_kept(meshes[k - 1], visible) {
            let cur = kept_meshes(meshes, visible, mat_new, k);
            assert(cur.drop_last() == prev);
            lemma_verts_before_prefix(cur, prev.len() as int);
        }
    }
}

proof fn lemma_verts_before_prefix<P: IrPayload>(s: Seq<IrMesh<P>>, k: int)
    requires
        0 <= k <= s.len(),
    ensures
        verts_before(s.subrange(0, k), k) == verts_before(s, k),
    decreases k,
{
    if k > 0 {
        lemma_verts_before_prefix(s, k - 1);
        lemma_verts_before_same(s.subrange(0, k), s.subrange(0, k - 1), k - 1);
    }
}

proof fn lemma_verts_before_same<P: IrPayload>(a: Seq<IrMesh<P>>, b: Seq<IrMesh<P>>, k: int)
    requires
        0 <= k <= a.len(),
        k <= b.len(),
        forall|i: int| 0 <= i < k ==> #[trigger] a[i] == b[i],
    ensures
        verts_before(a, k) == verts_before(b, k),
    decreases k,
{
    if k > 0 {
        lemma_verts_before_same(a, b, k - 1);
    }
}

proof fn lemma_vertex_renumbering_below<P: IrPayload>(meshes: Seq<IrMesh<P>>, visible: Set<usize>, k: int)
    requires
        0 <= k <= meshes.len(),
        kept_verts_before(meshes, visible, k) <= usize::MAX,
    ensures
        table_below(vertex_renumbering(meshes, visible, k), kept_verts_before(meshes, visible, k) as int),
    decreases k,
{
    if k > 0 {
        lemma_vertex_renumbering_below(meshes, visible, k - 1);
        let prev = vertex_renumbering(meshes, visible, k - 1);
        let cur = vertex_renumbering(meshes, visible, k);
        assert forall|i: int| 0 <= i < cur.len() && #[trigger] cur[i] is Some
            implies cur[i]->0 < kept_verts_before(meshes, visible, k) by {
            if i < prev.len() {
                assert(cur[i] == prev[i]);
            }
        }
    }
}

/// The references of a material renumbered by `tex_new` are numbers `tex_new` hands out.
proof fn lemma_retextured_refs_below(m: IrMaterial, tex_new: Seq<Option<usize>>, bound: int)
    requires
        table_below(tex_new, bound),
    ensures
        forall|j: int| 0 <= j < 12 && #[trigger] texture_refs(retextured(m, tex_new))[j] is Some
            ==> texture_refs(retextured(m, tex_new))[j]->0 < bound,
{
}

/// Every index in an exported model points at something it holds: mesh
/// materials at its materials, material texture references at its textures,
/// vertex and UV morph entries at its vertices, group morph children at its
/// morphs, material morph binds at its materials.
pub proof fn exported_model_is_consistent<P: IrPayload>(
    ir: IrModel<P>,
    visible: Set<usize>,
    r: IrModel<P>,
    alive: Seq<bool>,
)
    requires
        verts_before(ir.meshes@, ir.meshes@.len() as int) <= usize::MAX,
        forall|k: int| 0 <= k < ir.meshes@.len() && mesh_kept(#[trigger] ir.meshes@[k], visible)
            ==> ir.meshes@[k].material_index < ir.materials@.len(),
        ({
            let vis = |i: int| visible.contains(i as usize);
            let n_mats = ir.materials@.len() as int;
            let mat_new = renumbering(vis, n_mats);
            let vert_new = vertex_renumbering(ir.meshes@, visible, ir.meshes@.len() as int);
            let kept_mats = kept_items(ir.materials@, vis, n_mats);
            let used = |t: int| texture_used(kept_mats, t);
            let tex_new = renumbering(used, ir.textures@.len() as int);
            &&& r.meshes@ == kept_meshes(ir.meshes@, visible, mat_new, ir.meshes@.len() as int)
            &&& r.materials@.len() == kept_mats.len()
            &&& forall|i: int| 0 <= i < kept_mats.len() ==> #[trigger] r.materials@[i] == retextured(kept_mats[i], tex_new)
            &&& r.textures@ == kept_items(ir.textures@, used, ir.textures@.len() as int)
            &&& surviving_morphs(ir.morphs@, vert_new, mat_new, alive)
            &&& remapped_morphs(ir.morphs@, alive, r.morphs@, vert_new, mat_new)
        }),
    ensures
        forall|j: int| 0 <= j < r.meshes@.len() ==> (#[trigger] r.meshes@[j]).material_index < r.materials@.len(),
        forall|i: int, j: int| 0 <= i < r.materials@.len() && 0 <= j < 12
            && #[trigger] texture_refs(r.materials@[i])[j] is Some
            ==> texture_refs(r.materials@[i])[j]->0 < r.textures@.len(),
        forall|k: int| 0 <= k < r.morphs@.len() ==> match (#[trigger] r.morphs@[k]).kind {
            IrMorphKind::Vertex { positions, normals, tangents } => {
                &&& forall|e: int| 0 <= e < positions@.len()
                    ==> (#[trigger] positions@[e]).0 < verts_before(r.meshes@, r.meshes@.len() as int)
                &&& forall|e: int| 0 <= e < normals@.len()
                    ==> (#[trigger] normals@[e]).0 < verts_before(r.meshes@, r.meshes@.len() as int)
                &&& forall|e: int| 0 <= e < tangents@.len()
                    ==> (#[trigger] tangents@[e]).0 < verts_before(r.meshes@, r.meshes@.len() as int)
            },
            IrMorphKind::Group(children) => forall|e: int| 0 <= e < children@.len()
                ==> (#[trigger] children@[e]).0 < r.morphs@.len(),
            IrMorphKind::Material { color_binds, uv_binds } => {
                &&& forall|e: int| 0 <= e < color_binds@.len()
                    ==> (#[trigger] color_binds@[e]).material_index < r.materials@.len()
                &&& forall|e: int| 0 <= e < uv_binds@.len()
                    ==> (#[trigger] uv_binds@[e]).material_index < r.materials@.len()
            },
            IrMorphKind::Uv { offsets, .. } => forall|e: int| 0 <= e < offsets@.len()
                ==> (#[trigger] offsets@[e]).0 < verts_before(r.meshes@, r.meshes@.len() as int),
        },
{
    let vis = |i: int| visible.contains(i as usize);
    let n_mats = ir.materials@.len() as int;
    let mat_new = renumbering(vis, n_mats);
    let vert_new = vertex_renumbering(ir.meshes@, visible, ir.meshes@.len() as int);
    let kept_mats = kept_items(ir.materials@, vis, n_mats);
    let used = |t: int| texture_used(kept_mats, t);
    let tex_new = renumbering(used, ir.textures@.len() as int);
    let n_meshes = ir.meshes@.len() as int;
    // materials
    lemma_kept_items_len(ir.materials@, vis, n_mats);
    lemma_renumbering_bound(vis, n_mats);
    assert(table_below(mat_new, kept_mats.len() as int));
    // meshes
    assert forall|q: int| 0 <= q < ir.meshes@.len() && mesh_kept(#[trigger] ir.meshes@[q], visible)
        implies lookup(mat_new, ir.meshes@[q].material_index) is Some
            && lookup(mat_new, ir.meshes@[q].material_index)->0 < kept_mats.len() by {
        let mi = ir.meshes@[q].material_index as int;
        assert(mat_new[mi] is Some);
    }
    lemma_kept_meshes(ir.meshes@, visible, mat_new, n_meshes, kept_mats.len() as int);
    // textures
    lemma_kept_items_len(ir.textures@, used, ir.textures@.len() as int);
    lemma_renumbering_bound(used, ir.textures@.len() as int);
    assert forall|i: int, j: int| 0 <= i < r.materials@.len() && 0 <= j < 12
        && #[trigger] texture_refs(r.materials@[i])[j] is Some
        implies texture_refs(r.materials@[i])[j]->0 < r.textures@.len() by {
        lemma_retextured_refs_below(kept_mats[i], tex_new, r.textures@.len() as int);
    }
    // morphs
    lemma_kept_verts_bound(ir.meshes@, visible, n_meshes);
    lemma_vertex_renumbering_below(ir.meshes@, visible, n_meshes);
    let keep_m = |i: int| alive[i];
    let morph_new = renumbering(keep_m, ir.morphs@.len() as int);
    lemma_renumbering_bound(keep_m, ir.morphs@.len() as int);
    let vbound = verts_before(r.meshes@, r.meshes@.len() as int);
    assert(r.morphs@.len() == r.morphs.len());
    assert forall|k: int| 0 <= k < r.morphs@.len() implies match (#[trigger] r.morphs@[k]).kind {
        IrMorphKind::Vertex { positions, normals, tangents } => {
            &&& forall|e: int| 0 <= e < positions@.len() ==> (#[trigger] positions@[e]).0 < vbound
            &&& forall|e: int| 0 <= e < normals@.len() ==> (#[trigger] normals@[e]).0 < vbound
            &&& forall|e: int| 0 <= e < tangents@.len() ==> (#[trigger] tangents@[e]).0 < vbound
        },
        IrMorphKind::Group(children) => forall|e: int| 0 <= e < children@.len()
            ==> (#[trigger] children@[e]).0 < r.morphs@.len(),
        IrMorphKind::Material { color_binds, uv_binds } => {
            &&& forall|e: int| 0 <= e < color_binds@.len() ==> (#[trigger] color_binds@[e]).material_index < r.materials@.len()
            &&& forall|e: int| 0 <= e < uv_binds@.len() ==> (#[trigger] uv_binds@[e]).material_index < r.materials@.len()
        },
        IrMorphKind::Uv { offsets, .. } => forall|e: int| 0 <= e < offsets@.len() ==> (#[trigger] offsets@[e]).0 < vbound,
    } by {
        // morph k of the export is surviving morph i of the model
        assert(r.morphs@.len() == count_kept(keep_m, ir.morphs@.len() as int));
        lemma_renumbering_onto(keep_m, ir.morphs@.len() as int, k);
        let i = choose|i: int| 0 <= i < ir.morphs@.len() && alive[i] && #[trigger] morph_new[i] == Some(k as usize);
        assert(ir.morphs@[i] == ir.morphs@[i]);
        assert(morph_new[i]->0 as int == k);
        assert(remapped_kind(ir.morphs@[i].kind, r.morphs@[k].kind, vert_new, mat_new, morph_new));
        match (ir.morphs@[i].kind, r.morphs@[k].kind) {
            (IrMorphKind::Vertex { positions: p0, normals: n0, tangents: t0 }, IrMorphKind::Vertex { .. }) => {
                lemma_remap_entries_below(p0@, vert_new, vbound as int);
                lemma_remap_entries_below(n0@, vert_new, vbound as int);
                lemma_remap_entries_below(t0@, vert_new, vbound as int);
            },
            (IrMorphKind::Group(c0), IrMorphKind::Group(_)) => {
                lemma_remap_entries_below(c0@, morph_new, r.morphs@.len() as int);
            },
            (IrMorphKind::Material { color_binds: c0, uv_binds: u0 }, IrMorphKind::Material { .. }) => {
                lemma_remap_binds_below(c0@, mat_new, r.materials@.len() as int);
                lemma_remap_binds_below(u0@, mat_new, r.materials@.len() as int);
            },
            (IrMorphKind::Uv { offsets: o0, .. }, IrMorphKind::Uv { .. }) => {
                lemma_remap_entries_below(o0@, vert_new, vbound as int);
            },
            _ => {},
        }
    }
}

/// Every number below the count of kept items is handed to some kept item.
proof fn lemma_renumbering_onto(keep: spec_fn(int) -> bool, n: int, k: int)
    requires
        0 <= n,
        0 <= k < count_kept(keep, n),
    ensures
        exists|i: int| 0 <= i < n && keep(i) && #[trigger] renumbering(keep, n)[i] == Some(k as usize),
    decreases n,
{
    if n > 0 {
        if k < count_kept(keep, n - 1) {
            lemma_renumbering_onto(keep, n - 1, k);
            let i = choose|i: int| 0 <= i < n - 1 && keep(i) && #[trigger] renumbering(keep, n - 1)[i] == Some(k as usize);
            assert(renumbering(keep, n)[i] == renumbering(keep, n - 1)[i]);
        } else {
            assert(keep(n - 1));
            assert(renumbering(keep, n)[n - 1] == Some(k as usize));
        }
    }
}

} // verus!
