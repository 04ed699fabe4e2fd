//! Layout of the dual-Kawase bloom pass: how many levels it runs, the size of
//! each downsample level, which level each blur pass reads, and when the
//! level textures have to be built again.
use vstd::prelude::*;
use vstd::arithmetic::power2::{pow2, lemma_pow2_pos, lemma_pow2_unfold};
use vstd::arithmetic::div_mod::lemma_div_denominator;

verus! {

/// Most downsample levels the pass runs.
pub const MAX_LEVELS: usize = 6;

/// Default number of levels (the bloom radius).
pub const DEFAULT_BLOOM_RADIUS: u32 = 4;

/// Number of levels actually run for a requested count: at least one, at most [`MAX_LEVELS`].
pub open spec fn clamped_levels(n: nat) -> nat {
    if n < 1 {
        1
    } else if n > MAX_LEVELS {
        MAX_LEVELS as nat
    } else {
        n
    }
}

/// Number of levels actually run for a requested count.
pub fn clamp_levels(n: usize) -> (r: usize)
    ensures
        r == clamped_levels(n as nat),
        1 <= r <= MAX_LEVELS,
{
    if n < 1 {
        1
    } else if n > MAX_LEVELS {
        MAX_LEVELS
    } else {
        n
    }
}

/// Extent of downsample level `i` along a side of `d` pixels: half of the
/// previous level (the first: half of `d`), never below one pixel.
pub open spec fn level_dim(d: nat, i: nat) -> nat
    decreases i,
{
    let prev = if i == 0 { d } else { level_dim(d, (i - 1) as nat) };
    if prev / 2 < 1 {
        1
    } else {
        prev / 2
    }
}

/// Level `i` along a side of `d` pixels is `d / 2^(i+1)` pixels, at least one.
pub proof fn level_dim_is_shifted_size(d: nat, i: nat)
    ensures
        level_dim(d, i) == if d / pow2(i + 1) < 1 { 1 } else { d / pow2(i + 1) },
    decreases i,
{
    lemma_pow2_pos(i + 1);
    lemma_pow2_unfold(i + 1);
    if i == 0 {
        lemma_pow2_unfold(0 + 1);
        assert(pow2(0) == 1) by {
            reveal(vstd::arithmetic::power::pow);
            vstd::arithmetic::power2::lemma_pow2(0);
        }
    } else {
        level_dim_is_shifted_size(d, (i - 1) as nat);
        lemma_pow2_pos(i);
        lemma_div_denominator(d as int, pow2(i) as int, 2);
        assert(pow2(i) * 2 == pow2(i + 1));
        let q = d / pow2(i);
        if q < 1 {
            assert(q == 0);
            assert(d / pow2(i + 1) == 0);
        }
    }
}

/// Sizes `(width, height)` of the downsample levels for a target of
/// `width` x `height` and `num_levels` requested levels.
pub fn level_sizes(width: u32, height: u32, num_levels: usize) -> (r: Vec<(u32, u32)>)
    ensures
        r@.len() == clamped_levels(num_levels as nat),
        forall|i: int| 0 <= i < r@.len() ==> #[trigger] r@[i] == (
            level_dim(width as nat, i as nat) as u32,
            level_dim(height as nat, i as nat) as u32,
        ),
{
    let n = clamp_levels(num_levels);
    let mut r: Vec<(u32, u32)> = Vec::new();
    let mut w = width / 2;
    let mut h = height / 2;
    let mut i: usize = 0;
    while i < n
        invariant
            i <= n,
            n == clamped_levels(num_levels as nat),
            r@.len() == i,
            forall|k: int| 0 <= k < i ==> #[trigger] r@[k] == (
                level_dim(width as nat, k as nat) as u32,
                level_dim(height as nat, k as nat) as u32,
            ),
            w as nat == (if i == 0 { width as nat } else { level_dim(width as nat, (i - 1) as nat) }) / 2,
            h as nat == (if i == 0 { height as nat } else { level_dim(height as nat, (i - 1) as nat) }) / 2,
        decreases n - i,
    {
        if w < 1 {
            w = 1;
        }
        if h < 1 {
            h = 1;
        }
        r.push((w, h));
        w = w / 2;
        h = h / 2;
        i = i + 1;
    }
    r
}

/// Level read by downsample pass `i` (`i >= 1`; pass 0 reads the bloom input).
pub open spec fn down_source(i: nat) -> nat {
    (i - 1) as nat
}

/// Level read by upsample pass `i`: from the deepest level back up.
pub open spec fn up_source(num_levels: nat, i: nat) -> nat {
    (num_levels - 1 - i) as nat
}

/// Levels read by the upsample passes, in pass order, for `num_levels` levels.
pub fn up_sources(num_levels: usize) -> (r: Vec<usize>)
    requires
        1 <= num_levels,
    ensures
        r@.len() == num_levels - 1,
        forall|i: int| 0 <= i < r@.len() ==> #[trigger] r@[i] == up_source(num_levels as nat, i as nat),
{
    let mut r: Vec<usize> = Vec::new();
    let passes = num_levels - 1;
    let mut i: usize = 0;
    while i < passes
        invariant
            i <= passes == num_levels - 1,
            r@.len() == i,
            forall|k: int| 0 <= k < i ==> #[trigger] r@[k] == up_source(num_levels as nat, k as nat),
        decreases passes - i,
    {
        r.push(num_levels - 1 - i);
        i = i + 1;
    }
    r
}

/// Levels read by the downsample passes after the first, in pass order.
pub fn down_sources(num_levels: usize) -> (r: Vec<usize>)
    requires
        1 <= num_levels,
    ensures
        r@.len() == num_levels - 1,
        forall|i: int| 0 <= i < r@.len() ==> #[trigger] r@[i] == down_source((i + 1) as nat),
{
    let mut r: Vec<usize> = Vec::new();
    let mut i: usize = 1;
    while i < num_levels
        invariant
            1 <= i <= num_levels,
            r@.len() == i - 1,
            forall|k: int| 0 <= k < r@.len() ==> #[trigger] r@[k] == down_source((k + 1) as nat),
        decreases num_levels - i,
    {
        r.push(i - 1);
        i = i + 1;
    }
    r
}

/// What the level textures were built for.
#[derive(Clone, Copy, PartialEq, Eq, Structural, Debug)]
pub struct BloomTargets {
    pub width: u32,
    pub height: u32,
    pub num_levels: usize,
}

/// Whether the level textures must be built again for a `width` x `height`
/// target and `num_levels` requested levels.
pub open spec fn must_rebuild(built: Option<BloomTargets>, width: u32, height: u32, num_levels: nat) -> bool {
    match built {
        None => true,
        Some(t) => !(t.width == width && t.height == height && t.num_levels == clamped_levels(num_levels)),
    }
}

/// Decide whether to rebuild the level textures; when they are rebuilt the
/// cached bind groups on the external views are dropped as well.
/// Returns the targets the textures are built for afterwards.
pub fn ensure_targets(built: Option<BloomTargets>, width: u32, height: u32, num_levels: usize) -> (r: (
    BloomTargets,
    bool,
))
    ensures
        r.1 == must_rebuild(built, width, height, num_levels as nat),
        r.0 == (BloomTargets { width, height, num_levels: clamped_levels(num_levels as nat) as usize }),
        !r.1 ==> built == Some(r.0),
        built == Some(r.0) ==> !r.1,
{
    let n = clamp_levels(num_levels);
    let target = BloomTargets { width, height, num_levels: n };
    match built {
        Some(t) => {
            if t.width == width && t.height == height && t.num_levels == n {
                return (t, false);
            }
            (target, true)
        },
        None => (target, true),
    }
}

/// The bind groups that the pass caches on the views it is handed.
pub struct ExternalBindCache<G> {
    /// Bind group reading the bloom input (first downsample).
    pub down0: Option<G>,
    /// Bind group reading the scene and the bloom result (composite).
    pub composite: Option<G>,
}

impl<G> ExternalBindCache<G> {
    /// Drop the cached bind groups (the offscreen textures were recreated).
    pub fn invalidate_external_cache(&mut self)
        ensures
            final(self).down0 is None,
            final(self).composite is None,
    {
        self.down0 = None;
        self.composite = None;
    }
}

/// Every level is at least one pixel along a side, and no larger than the
/// level before it.
pub proof fn levels_never_empty(d: nat, i: nat)
    ensures
        level_dim(d, i) >= 1,
        i > 0 ==> level_dim(d, i) <= level_dim(d, (i - 1) as nat),
{
}


/// The level textures are kept exactly when they were built for the size and
/// (clamped) level count now wanted: a rebuild is skipped only when the built
/// targets are the wanted ones, and never needed when they are. In particular a
/// change of level count alone forces a rebuild.
pub proof fn rebuild_exactly_when_targets_differ(built: Option<BloomTargets>, width: u32, height: u32, num_levels: nat)
    ensures
        !must_rebuild(built, width, height, num_levels) <==> built == Some(
            BloomTargets { width, height, num_levels: clamped_levels(num_levels) as usize },
        ),
        built matches Some(t) && t.num_levels != clamped_levels(num_levels) ==> must_rebuild(
            built,
            width,
            height,
            num_levels,
        ),
{
}

} // verus!
