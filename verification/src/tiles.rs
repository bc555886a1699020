//! Displayed-tile lifecycle: reconciling the tiles a view needs against the
//! tiles on screen, with fade-in and the substitution policy that keeps old
//! imagery visible where a needed tile is not yet available.
//!
//! Opacity is held as an integer in thousandths, and time as milliseconds
//! supplied by the caller, so the fade arithmetic is exact.

use crate::tile_schema::{Rect, TileIndex, TileSchema, WrappingTileIndex};
use vstd::arithmetic::div_mod::lemma_div_is_ordered;
use vstd::prelude::*;

verus! {

/// Full opacity, in thousandths.
pub const OPACITY_SCALE: u64 = 1000;

/// Default fade-in duration, in milliseconds.
pub const DEFAULT_FADE_IN_DURATION_MS: u64 = 300;

/// One tile currently on screen, together with its render-ready bundle.
pub struct DisplayedTile<B> {
    /// Address of the tile.
    pub index: WrappingTileIndex,
    /// Render-ready payload; immutable after creation.
    pub bundle: B,
    /// Style the bundle was produced for.
    pub style_id: u64,
    /// Opacity in thousandths, `0 ..= OPACITY_SCALE`.
    pub opacity: u64,
    /// When the tile first appeared, in milliseconds.
    pub displayed_at: u64,
}

impl<B> DisplayedTile<B> {
    /// Whether the fade-in has effectively finished.
    pub open spec fn spec_is_opaque(self) -> bool {
        self.opacity >= 999
    }

    /// Decides whether the fade-in has effectively finished.
    pub fn is_opaque(&self) -> (r: bool)
        ensures
            r == self.spec_is_opaque(),
    {
        self.opacity >= 999
    }
}

/// Opacity of a tile admitted at `displayed_at`, seen at `now_ms`, with the
/// fade duration `fade_ms`: elapsed time over the duration, scaled to
/// thousandths and clamped to full.  A duration of at most one millisecond
/// disables the fade.
pub open spec fn spec_opacity_at(displayed_at: u64, now_ms: u64, fade_ms: u64) -> int {
    if fade_ms <= 1 {
        OPACITY_SCALE as int
    } else {
        let elapsed: int = if now_ms >= displayed_at {
            now_ms - displayed_at
        } else {
            0
        };
        let scaled: int = elapsed * (OPACITY_SCALE as int) / (fade_ms as int);
        if scaled > OPACITY_SCALE {
            OPACITY_SCALE as int
        } else {
            scaled
        }
    }
}

/// Computes [`spec_opacity_at`].
pub fn opacity_at(displayed_at: u64, now_ms: u64, fade_ms: u64) -> (r: u64)
    ensures
        r == spec_opacity_at(displayed_at, now_ms, fade_ms),
        r <= OPACITY_SCALE,
{
    if fade_ms <= 1 {
        return OPACITY_SCALE;
    }
    let elapsed = if now_ms >= displayed_at {
        now_ms - displayed_at
    } else {
        0
    };
    proof {
        assert(elapsed * (OPACITY_SCALE as int) <= 0xffff_ffff_ffff_ffff * 1000) by (
        nonlinear_arith)
            requires
                0 <= elapsed <= 0xffff_ffff_ffff_ffff,
        ;
    }
    let scaled = (elapsed as u128 * OPACITY_SCALE as u128) / (fade_ms as u128);
    if scaled > OPACITY_SCALE as u128 {
        OPACITY_SCALE
    } else {
        scaled as u64
    }
}

/// While a tile stays displayed and the fade duration is unchanged, its
/// opacity never decreases as time advances; within the fade window it is
/// exactly the elapsed share of the duration, scaled and clamped.
pub proof fn lemma_fade_monotonic(displayed_at: u64, t1: u64, t2: u64, fade_ms: u64)
    requires
        t1 <= t2,
    ensures
        spec_opacity_at(displayed_at, t1, fade_ms) <= spec_opacity_at(displayed_at, t2, fade_ms),
{
    if fade_ms > 1 {
        let e1: int = if t1 >= displayed_at {
            t1 - displayed_at
        } else {
            0
        };
        let e2: int = if t2 >= displayed_at {
            t2 - displayed_at
        } else {
            0
        };
        assert(e1 <= e2);
        vstd::arithmetic::mul::lemma_mul_inequality(e1, e2, OPACITY_SCALE as int);
        lemma_div_is_ordered(e1 * (OPACITY_SCALE as int), e2 * (OPACITY_SCALE as int), fade_ms as int);
    }
}

/// The fade formula stays within the scale.
pub proof fn lemma_opacity_at_bounds(displayed_at: u64, now_ms: u64, fade_ms: u64)
    ensures
        0 <= spec_opacity_at(displayed_at, now_ms, fade_ms) <= OPACITY_SCALE,
{
    if fade_ms > 1 {
        let elapsed: int = if now_ms >= displayed_at {
            now_ms - displayed_at
        } else {
            0
        };
        vstd::arithmetic::mul::lemma_mul_inequality(0, elapsed, OPACITY_SCALE as int);
        lemma_div_is_ordered(0, elapsed * (OPACITY_SCALE as int), fade_ms as int);
    }
}

/// The stored opacity does not run ahead of the fade: the tile is either
/// effectively opaque — terminal, never modified again — or its opacity is
/// at most what the fade formula yields now.  Reconciliation admits and
/// refreshes tiles this way, so the property carries from frame to frame.
pub open spec fn spec_fade_consistent<B>(t: DisplayedTile<B>, now_ms: u64, fade_ms: u64) -> bool {
    t.spec_is_opaque() || t.opacity <= spec_opacity_at(t.displayed_at, now_ms, fade_ms)
}

/// Every tile of the list is fade-consistent at `now_ms`.
pub open spec fn tiles_fade_consistent<B>(
    tiles: Seq<DisplayedTile<B>>,
    now_ms: u64,
    fade_ms: u64,
) -> bool {
    forall|i: int|
        0 <= i < tiles.len() ==> spec_fade_consistent(#[trigger] tiles[i], now_ms, fade_ms)
}

/// Fade consistency survives the passage of time: what held of the tiles at
/// `t1` holds at any later `t2`.
pub proof fn lemma_fade_consistent_later<B>(
    tiles: Seq<DisplayedTile<B>>,
    t1: u64,
    t2: u64,
    fade_ms: u64,
)
    requires
        tiles_fade_consistent(tiles, t1, fade_ms),
        t1 <= t2,
    ensures
        tiles_fade_consistent(tiles, t2, fade_ms),
{
    assert forall|i: int|
        0 <= i < tiles.len() implies spec_fade_consistent(#[trigger] tiles[i], t2, fade_ms) by {
        lemma_fade_monotonic(tiles[i].displayed_at, t1, t2, fade_ms);
    }
}

/// Refreshing a fade-consistent tile never lowers its opacity.  With the
/// consistency that reconciliation carries from frame to frame, opacity
/// never decreases across calls while the tile stays needed; an opaque tile
/// is never modified again.
pub proof fn lemma_refresh_never_decreases<B>(t: DisplayedTile<B>, now_ms: u64, fade_ms: u64)
    requires
        spec_fade_consistent(t, now_ms, fade_ms),
    ensures
        spec_refreshed(t, now_ms, fade_ms).opacity >= t.opacity,
{
    if !t.spec_is_opaque() {
        lemma_opacity_at_bounds(t.displayed_at, now_ms, fade_ms);
    }
}

/// Opacity a tile is admitted with: transparent while a fade is configured,
/// else immediately opaque.
pub open spec fn spec_initial_opacity(fade_ms: u64) -> u64 {
    if fade_ms > 1 {
        0
    } else {
        OPACITY_SCALE
    }
}

/// A displayed tile after one reconciliation pass refreshed its opacity.
pub open spec fn spec_refreshed<B>(t: DisplayedTile<B>, now_ms: u64, fade_ms: u64) -> DisplayedTile<
    B,
> {
    if t.spec_is_opaque() {
        t
    } else {
        DisplayedTile { opacity: spec_opacity_at(t.displayed_at, now_ms, fade_ms) as u64, ..t }
    }
}

/// Two displayed tiles address the same cell in the same style.
pub open spec fn pair_matches<B>(a: DisplayedTile<B>, b: DisplayedTile<B>) -> bool {
    a.index == b.index && a.style_id == b.style_id
}

/// The list holds at most one tile per address and style.
pub open spec fn tiles_unique<B>(tiles: Seq<DisplayedTile<B>>) -> bool {
    forall|i: int, j: int|
        0 <= i < j < tiles.len() ==> !pair_matches(#[trigger] tiles[i], #[trigger] tiles[j])
}

/// Every opacity in the list is at most full scale.
pub open spec fn tiles_opacity_bounded<B>(tiles: Seq<DisplayedTile<B>>) -> bool {
    forall|i: int| 0 <= i < tiles.len() ==> (#[trigger] tiles[i]).opacity <= OPACITY_SCALE
}

/// Whether the list holds a tile at this address in this style.
pub open spec fn has_tile<B>(
    tiles: Seq<DisplayedTile<B>>,
    idx: WrappingTileIndex,
    style: u64,
) -> bool {
    exists|i: int|
        0 <= i < tiles.len() && (#[trigger] tiles[i]).index == idx && tiles[i].style_id == style
}

/// Whether some listed index has a rectangle that meets `tb`.
pub open spec fn spec_rect_hits_any(
    schema: TileSchema,
    indices: Seq<WrappingTileIndex>,
    tb: Rect,
) -> bool {
    exists|j: int|
        0 <= j < indices.len() && match schema.spec_tile_bbox(
            (#[trigger] indices[j]).unwrapped_spec(),
        ) {
            Some(mb) => tb.spec_intersects(mb),
            None => false,
        }
}

/// An old tile stands in for the needed index `k` when `k` has no tile on
/// screen after the pass and the two rectangles overlap.
pub open spec fn spec_retained_for<B>(
    schema: TileSchema,
    new_tiles: Seq<DisplayedTile<B>>,
    needed: Seq<WrappingTileIndex>,
    style: u64,
    t: DisplayedTile<B>,
) -> bool {
    match schema.spec_tile_bbox(t.index.unwrapped_spec()) {
        None => false,
        Some(tb) => exists|k: int|
            0 <= k < needed.len() && !has_tile(new_tiles, #[trigger] needed[k], style) && match
                schema.spec_tile_bbox(needed[k].unwrapped_spec()) {
                Some(mb) => tb.spec_intersects(mb),
                None => false,
            },
    }
}

/// Source of render-ready tile bundles.  The render side of the boundary:
/// implementations are archive-backed or web-backed providers; a tile that is
/// not ready yet simply yields nothing this frame.
pub trait TileProvider<B> {
    /// Produces the bundle for the tile, or nothing while it is unavailable.
    fn get_tile(&self, index: TileIndex, style_id: u64) -> Option<B>;
}

/// The displayed-tile set of one layer, reconciled once per frame.  The
/// embedding serialises calls through its own single-writer lock.
pub struct TilesContainer<B, P> {
    /// Tiles currently on screen.
    pub tiles: Vec<DisplayedTile<B>>,
    /// Grid geometry used for the substitution overlap test.
    pub tile_schema: TileSchema,
    /// Source the container asks for missing tiles.
    pub tile_provider: P,
    /// Fade-in duration in milliseconds; at most one disables the fade.
    pub fade_in_duration_ms: u64,
}

impl<B, P: TileProvider<B>> TilesContainer<B, P> {
    /// Creates an empty container with the default fade-in duration.
    pub fn new(tile_schema: TileSchema, tile_provider: P) -> (r: TilesContainer<B, P>)
        ensures
            r.tiles@ =~= Seq::<DisplayedTile<B>>::empty(),
            r.tile_schema == tile_schema,
            r.tile_provider == tile_provider,
            r.fade_in_duration_ms == DEFAULT_FADE_IN_DURATION_MS,
    {
        TilesContainer {
            tiles: Vec::new(),
            tile_schema,
            tile_provider,
            fade_in_duration_ms: DEFAULT_FADE_IN_DURATION_MS,
        }
    }

    /// The configured fade-in duration, in milliseconds.
    pub fn fade_in_duration(&self) -> (r: u64)
        ensures
            r == self.fade_in_duration_ms,
    {
        self.fade_in_duration_ms
    }

    /// Reconfigures the fade-in duration, in milliseconds.
    pub fn set_fade_in_duration(&mut self, ms: u64)
        ensures
            final(self).fade_in_duration_ms == ms,
            final(self).tiles == old(self).tiles,
            final(self).tile_schema == old(self).tile_schema,
    {
        self.fade_in_duration_ms = ms;
    }

    /// Whether newly admitted tiles fade in rather than appear at once.
    pub fn requires_animation(&self) -> (r: bool)
        ensures
            r == (self.fade_in_duration_ms > 1),
    {
        self.fade_in_duration_ms > 1
    }
}

/// The rectangle of `t`'s index exists and meets the rectangle of some
/// listed index.
pub open spec fn spec_hits_missing_list<B>(
    schema: TileSchema,
    m_seq: Seq<WrappingTileIndex>,
    t: DisplayedTile<B>,
) -> bool {
    match schema.spec_tile_bbox(t.index.unwrapped_spec()) {
        Some(tb) => spec_rect_hits_any(schema, m_seq, tb),
        None => false,
    }
}

/// Where a tile of the reconciled set may come from: a needed tile that was
/// already displayed, refreshed; an old tile retained as a substitute; or a
/// tile newly admitted this pass.
pub open spec fn spec_from_update<B>(
    old_tiles: Seq<DisplayedTile<B>>,
    needed: Seq<WrappingTileIndex>,
    style: u64,
    now_ms: u64,
    fade_ms: u64,
    schema: TileSchema,
    new_tiles: Seq<DisplayedTile<B>>,
    t: DisplayedTile<B>,
) -> bool {
    ||| exists|i: int|
        0 <= i < old_tiles.len() && needed.contains((#[trigger] old_tiles[i]).index)
            && old_tiles[i].style_id == style && t == spec_refreshed(old_tiles[i], now_ms, fade_ms)
    ||| exists|i: int|
        0 <= i < old_tiles.len() && t == #[trigger] old_tiles[i] && !(needed.contains(
            old_tiles[i].index,
        ) && old_tiles[i].style_id == style) && spec_retained_for(
            schema,
            new_tiles,
            needed,
            style,
            t,
        )
    ||| (needed.contains(t.index) && t.style_id == style && !has_tile(old_tiles, t.index, style)
        && t.displayed_at == now_ms && t.opacity == spec_initial_opacity(fade_ms))
}

/// A tile at this address and style sits in a concatenation exactly when it
/// sits in one of the halves.
proof fn lemma_has_tile_concat<B>(
    a: Seq<DisplayedTile<B>>,
    b: Seq<DisplayedTile<B>>,
    idx: WrappingTileIndex,
    style: u64,
)
    ensures
        has_tile(a + b, idx, style) <==> has_tile(a, idx, style) || has_tile(b, idx, style),
{
    if has_tile(a + b, idx, style) {
        let i = choose|i: int|
            0 <= i < (a + b).len() && ((a + b)[i]).index == idx && (a + b)[i].style_id == style;
        if i < a.len() {
            assert(a[i].index == idx && a[i].style_id == style);
        } else {
            assert(b[i - a.len()].index == idx && b[i - a.len()].style_id == style);
        }
    }
    if has_tile(a, idx, style) {
        let i = choose|i: int| 0 <= i < a.len() && (a[i]).index == idx && a[i].style_id == style;
        assert((a + b)[i].index == idx && (a + b)[i].style_id == style);
    }
    if has_tile(b, idx, style) {
        let i = choose|i: int| 0 <= i < b.len() && (b[i]).index == idx && b[i].style_id == style;
        assert((a + b)[a.len() + i].index == idx && (a + b)[a.len() + i].style_id == style);
    }
}

/// Decides [`has_tile`] on a vector.
fn find_has_tile<B>(tiles: &Vec<DisplayedTile<B>>, idx: WrappingTileIndex, style: u64) -> (r:
    bool)
    ensures
        r == has_tile(tiles@, idx, style),
{
    let mut i: usize = 0;
    while i < tiles.len()
        invariant
            0 <= i <= tiles@.len(),
            forall|j: int|
                0 <= j < i ==> !((#[trigger] tiles@[j]).index == idx && tiles@[j].style_id
                    == style),
        decreases tiles@.len() - i,
    {
        if tiles[i].index == idx && tiles[i].style_id == style {
            return true;
        }
        i += 1;
    }
    false
}

/// Decides membership in a list of indices.
fn contains_index(v: &Vec<WrappingTileIndex>, idx: WrappingTileIndex) -> (r: bool)
    ensures
        r == v@.contains(idx),
{
    let mut i: usize = 0;
    while i < v.len()
        invariant
            0 <= i <= v@.len(),
            forall|j: int| 0 <= j < i ==> v@[j] != idx,
        decreases v@.len() - i,
    {
        if v[i] == idx {
            return true;
        }
        i += 1;
    }
    false
}

/// Decides [`spec_rect_hits_any`].
fn rect_hits_any(schema: &TileSchema, indices: &Vec<WrappingTileIndex>, tb: &Rect) -> (r: bool)
    requires
        schema.wf(),
    ensures
        r == spec_rect_hits_any(*schema, indices@, *tb),
{
    let mut j: usize = 0;
    while j < indices.len()
        invariant
            schema.wf(),
            0 <= j <= indices@.len(),
            forall|jj: int|
                0 <= jj < j ==> match schema.spec_tile_bbox(
                    (#[trigger] indices@[jj]).unwrapped_spec(),
                ) {
                    Some(mb) => !tb.spec_intersects(mb),
                    None => true,
                },
        decreases indices@.len() - j,
    {
        match schema.tile_bbox(indices[j].unwrapped()) {
            Some(mb) => {
                if tb.intersects(&mb) {
                    return true;
                }
            },
            None => {},
        }
        j += 1;
    }
    false
}

impl<B, P: TileProvider<B>> TilesContainer<B, P> {
    /// Reconciles the displayed set against the indices the view needs this
    /// frame, in the current style, at the current time in milliseconds.
    ///
    /// Needed tiles already on screen stay and their opacity is refreshed
    /// from the elapsed time.  Needed tiles not on screen are requested from
    /// the provider and admitted transparent (or opaque when the fade is
    /// disabled).  An old tile that is no longer needed is retained exactly
    /// when its rectangle meets the rectangle of some needed index that has
    /// no tile on screen after the pass; all others are dropped.  The result
    /// says whether anything changed that warrants a redraw.
    pub fn update_displayed_tiles(
        &mut self,
        needed_indices: &Vec<WrappingTileIndex>,
        style_id: u64,
        now_ms: u64,
    ) -> (redraw: bool)
        requires
            old(self).tile_schema.wf(),
        ensures
            final(self).tile_schema == old(self).tile_schema,
            final(self).fade_in_duration_ms == old(self).fade_in_duration_ms,
            forall|i: int|
                0 <= i < old(self).tiles@.len() && needed_indices@.contains(
                    (#[trigger] old(self).tiles@[i]).index,
                ) && old(self).tiles@[i].style_id == style_id ==> final(self).tiles@.contains(
                    spec_refreshed(
                        old(self).tiles@[i],
                        now_ms,
                        old(self).fade_in_duration_ms,
                    ),
                ),
            forall|i: int|
                0 <= i < old(self).tiles@.len() && !(needed_indices@.contains(
                    (#[trigger] old(self).tiles@[i]).index,
                ) && old(self).tiles@[i].style_id == style_id) ==> (final(self).tiles@.contains(
                    old(self).tiles@[i],
                ) <==> spec_retained_for(
                    old(self).tile_schema,
                    final(self).tiles@,
                    needed_indices@,
                    style_id,
                    old(self).tiles@[i],
                )),
            forall|j: int|
                0 <= j < final(self).tiles@.len() ==> spec_from_update(
                    old(self).tiles@,
                    needed_indices@,
                    style_id,
                    now_ms,
                    old(self).fade_in_duration_ms,
                    old(self).tile_schema,
                    final(self).tiles@,
                    #[trigger] final(self).tiles@[j],
                ),
            redraw == ((exists|j: int|
                0 <= j < final(self).tiles@.len() && needed_indices@.contains(
                    (#[trigger] final(self).tiles@[j]).index,
                ) && final(self).tiles@[j].style_id == style_id && !has_tile(
                    old(self).tiles@,
                    final(self).tiles@[j].index,
                    style_id,
                )) || (exists|i: int|
                0 <= i < old(self).tiles@.len() && needed_indices@.contains(
                    (#[trigger] old(self).tiles@[i]).index,
                ) && old(self).tiles@[i].style_id == style_id && !old(
                    self,
                ).tiles@[i].spec_is_opaque())),
            tiles_unique(old(self).tiles@) ==> tiles_unique(final(self).tiles@),
            tiles_opacity_bounded(old(self).tiles@) ==> tiles_opacity_bounded(final(self).tiles@),
            tiles_fade_consistent(old(self).tiles@, now_ms, old(self).fade_in_duration_ms)
                ==> tiles_fade_consistent(
                final(self).tiles@,
                now_ms,
                old(self).fade_in_duration_ms,
            ),
    {
        let fade_ms = self.fade_in_duration_ms;
        let ghost o_tiles = self.tiles@;
        let ghost need = needed_indices@;
        let ghost schema = self.tile_schema;

        // ask the provider for every needed index with no tile on screen
        let mut fresh: Vec<DisplayedTile<B>> = Vec::new();
        let mut missing: Vec<WrappingTileIndex> = Vec::new();
        let initial_opacity = if fade_ms > 1 {
            0
        } else {
            OPACITY_SCALE
        };
        let mut k: usize = 0;
        while k < needed_indices.len()
            invariant
                *self == *old(self),
                o_tiles == self.tiles@,
                need == needed_indices@,
                schema == self.tile_schema,
                fade_ms == self.fade_in_duration_ms,
                initial_opacity == spec_initial_opacity(fade_ms),
                0 <= k <= need.len(),
                forall|j: int|
                    0 <= j < fresh@.len() ==> need.contains((#[trigger] fresh@[j]).index)
                        && fresh@[j].style_id == style_id && !has_tile(
                        o_tiles,
                        fresh@[j].index,
                        style_id,
                    ) && fresh@[j].displayed_at == now_ms && fresh@[j].opacity
                        == spec_initial_opacity(fade_ms),
                forall|j: int|
                    0 <= j < missing@.len() ==> need.contains(#[trigger] missing@[j]) && !has_tile(
                        o_tiles,
                        missing@[j],
                        style_id,
                    ) && !has_tile(fresh@, missing@[j], style_id),
                forall|kk: int|
                    0 <= kk < k ==> has_tile(o_tiles, #[trigger] need[kk], style_id) || has_tile(
                        fresh@,
                        need[kk],
                        style_id,
                    ) || missing@.contains(need[kk]),
                forall|i: int, j: int|
                    0 <= i < j < fresh@.len() ==> (#[trigger] fresh@[i]).index != (
                    #[trigger] fresh@[j]).index,
            decreases need.len() - k,
        {
            let idx = needed_indices[k];
            let on_screen = find_has_tile(&self.tiles, idx, style_id);
            let in_fresh = find_has_tile(&fresh, idx, style_id);
            let in_missing = contains_index(&missing, idx);
            if !on_screen && !in_fresh && !in_missing {
                let ghost fresh_before = fresh@;
                let ghost missing_before = missing@;
                match self.tile_provider.get_tile(idx.unwrapped(), style_id) {
                    Some(b) => {
                        fresh.push(
                            DisplayedTile {
                                index: idx,
                                bundle: b,
                                style_id,
                                opacity: initial_opacity,
                                displayed_at: now_ms,
                            },
                        );
                        proof {
                            assert forall|j: int|
                                0 <= j < missing@.len() implies !has_tile(
                                fresh@,
                                #[trigger] missing@[j],
                                style_id,
                            ) by {
                                if has_tile(fresh@, missing@[j], style_id) {
                                    let w = choose|w: int|
                                        0 <= w < fresh@.len() && (fresh@[w]).index == missing@[j]
                                            && fresh@[w].style_id == style_id;
                                    if w < fresh_before.len() {
                                        assert(has_tile(fresh_before, missing@[j], style_id));
                                    } else {
                                        assert(missing@.contains(missing@[j]));
                                    }
                                }
                            }
                            assert(has_tile(fresh@, idx, style_id)) by {
                                assert(fresh@[fresh@.len() - 1].index == idx);
                            }
                            assert forall|i: int, j: int|
                                0 <= i < j < fresh@.len() implies (#[trigger] fresh@[i]).index
                                != (#[trigger] fresh@[j]).index by {
                                if j == fresh@.len() - 1 {
                                    assert(fresh@[i] == fresh_before[i]);
                                    if fresh_before[i].index == idx {
                                        assert(has_tile(fresh_before, idx, style_id));
                                    }
                                }
                            }
                            assert forall|kk: int| 0 <= kk < k + 1 implies has_tile(
                                o_tiles,
                                #[trigger] need[kk],
                                style_id,
                            ) || has_tile(fresh@, need[kk], style_id) || missing@.contains(
                                need[kk],
                            ) by {
                                if kk < k {
                                    if has_tile(fresh_before, need[kk], style_id) {
                                        let w = choose|w: int|
                                            0 <= w < fresh_before.len() && (fresh_before[w]).index
                                                == need[kk] && fresh_before[w].style_id
                                                == style_id;
                                        assert(fresh@[w].index == need[kk] && fresh@[w].style_id
                                            == style_id);
                                    }
                                }
                            }
                        }
                    },
                    None => {
                        missing.push(idx);
                        proof {
                            assert forall|kk: int| 0 <= kk < k + 1 implies has_tile(
                                o_tiles,
                                #[trigger] need[kk],
                                style_id,
                            ) || has_tile(fresh@, need[kk], style_id) || missing@.contains(
                                need[kk],
                            ) by {
                                if kk < k {
                                    if missing_before.contains(need[kk]) {
                                        let w = choose|w: int|
                                            0 <= w < missing_before.len() && missing_before[w]
                                                == need[kk];
                                        assert(missing@[w] == need[kk]);
                                    }
                                } else {
                                    assert(missing@[missing@.len() - 1] == idx);
                                }
                            }
                        }
                    },
                }
            }
            k += 1;
        }
        let admitted = fresh.len() > 0;

        // sweep the previous tiles: refresh the needed ones, retain the
        // substitutes, drop the rest
        let mut old_tiles: Vec<DisplayedTile<B>> = Vec::new();
        core::mem::swap(&mut self.tiles, &mut old_tiles);
        proof {
            assert(old_tiles@ =~= o_tiles.subrange(0, o_tiles.len() as int));
        }
        let mut kept: Vec<DisplayedTile<B>> = Vec::new();
        let mut opacity_changed = false;
        let ghost m_seq = missing@;
        while old_tiles.len() > 0
            invariant
                schema == self.tile_schema,
                schema.wf(),
                fade_ms == self.fade_in_duration_ms,
                need == needed_indices@,
                m_seq == missing@,
                old_tiles@.len() <= o_tiles.len(),
                old_tiles@ == o_tiles.subrange(
                    o_tiles.len() - old_tiles@.len(),
                    o_tiles.len() as int,
                ),
                forall|j: int|
                    0 <= j < kept@.len() ==> spec_kept_from(
                        o_tiles,
                        need,
                        style_id,
                        now_ms,
                        fade_ms,
                        schema,
                        m_seq,
                        o_tiles.len() - old_tiles@.len(),
                        #[trigger] kept@[j],
                    ),
                forall|i: int|
                    0 <= i < o_tiles.len() - old_tiles@.len() && need.contains(
                        (#[trigger] o_tiles[i]).index,
                    ) && o_tiles[i].style_id == style_id ==> kept@.contains(
                        spec_refreshed(o_tiles[i], now_ms, fade_ms),
                    ),
                forall|i: int|
                    0 <= i < o_tiles.len() - old_tiles@.len() && !(need.contains(
                        (#[trigger] o_tiles[i]).index,
                    ) && o_tiles[i].style_id == style_id) ==> (kept@.contains(o_tiles[i]) <==>
                        spec_hits_missing_list(schema, m_seq, o_tiles[i])),
                opacity_changed == (exists|i: int|
                    0 <= i < o_tiles.len() - old_tiles@.len() && need.contains(
                        (#[trigger] o_tiles[i]).index,
                    ) && o_tiles[i].style_id == style_id && !o_tiles[i].spec_is_opaque()),
                tiles_unique(o_tiles) ==> tiles_unique(kept@),
                tiles_unique(o_tiles) ==> forall|w: int, u: int|
                    0 <= w < kept@.len() && 0 <= u < old_tiles@.len() ==> !pair_matches(
                        #[trigger] kept@[w],
                        #[trigger] old_tiles@[u],
                    ),
                tiles_opacity_bounded(o_tiles) ==> tiles_opacity_bounded(kept@),
            decreases old_tiles@.len(),
        {
            let ghost p = o_tiles.len() - old_tiles@.len();
            let ghost kept_before = kept@;
            let ghost old_rest = old_tiles@;
            let t = old_tiles.remove(0);
            proof {
                assert(t == o_tiles[p]);
                assert(old_tiles@ =~= o_tiles.subrange(p + 1, o_tiles.len() as int));
            }
            let needed_here = contains_index(needed_indices, t.index) && t.style_id == style_id;
            proof {
                assert(needed_here == (need.contains(o_tiles[p].index) && o_tiles[p].style_id
                    == style_id));
            }
            if needed_here {
                let was_translucent = !t.is_opaque();
                let mut t = t;
                if was_translucent {
                    t.opacity = opacity_at(t.displayed_at, now_ms, fade_ms);
                    opacity_changed = true;
                }
                proof {
                    assert(t == spec_refreshed(o_tiles[p], now_ms, fade_ms));
                }
                kept.push(t);
                proof {
                    assert(kept@[kept@.len() - 1] == spec_refreshed(o_tiles[p], now_ms, fade_ms));
                    lemma_contains_after_push(kept_before, t);
                    assert forall|i: int|
                        0 <= i < p + 1 && !(need.contains((#[trigger] o_tiles[i]).index)
                            && o_tiles[i].style_id == style_id) implies (kept@.contains(o_tiles[i])
                        <==> spec_hits_missing_list(schema, m_seq, o_tiles[i])) by {
                        if kept@.contains(o_tiles[i]) {
                            let w = choose|w: int| 0 <= w < kept@.len() && kept@[w] == o_tiles[i];
                            if w < kept_before.len() {
                                assert(kept_before.contains(o_tiles[i]));
                            } else {
                                assert(o_tiles[i] == t);
                                assert(t.index == o_tiles[p].index && t.style_id
                                    == o_tiles[p].style_id);
                                assert(need.contains(o_tiles[i].index) && o_tiles[i].style_id
                                    == style_id);
                            }
                        } else {
                            assert(!kept_before.contains(o_tiles[i]));
                        }
                    }
                }
                proof {
                    if tiles_unique(o_tiles) {
                        assert(t.index == o_tiles[p].index && t.style_id == o_tiles[p].style_id);
                        assert forall|w: int, u: int|
                            0 <= w < kept@.len() && 0 <= u < old_tiles@.len() implies !pair_matches(
                            #[trigger] kept@[w],
                            #[trigger] old_tiles@[u],
                        ) by {
                            assert(old_tiles@[u] == old_rest[u + 1]);
                            assert(old_rest[u + 1] == o_tiles[p + 1 + u]);
                            if w < kept_before.len() {
                                assert(!pair_matches(kept_before[w], old_rest[u + 1]));
                            } else {
                                assert(kept@[w] == t);
                                assert(!pair_matches(o_tiles[p], o_tiles[p + 1 + u]));
                            }
                        }
                        assert forall|w1: int, w2: int|
                            0 <= w1 < w2 < kept@.len() implies !pair_matches(
                            #[trigger] kept@[w1],
                            #[trigger] kept@[w2],
                        ) by {
                            if w2 == kept@.len() - 1 {
                                assert(old_rest[0] == o_tiles[p]);
                                assert(!pair_matches(kept_before[w1], old_rest[0]));
                                assert(kept@[w2] == t);
                            } else {
                                assert(!pair_matches(kept_before[w1], kept_before[w2]));
                            }
                        }
                    }
                    if tiles_opacity_bounded(o_tiles) {
                        assert forall|w: int|
                            0 <= w < kept@.len() implies (#[trigger] kept@[w]).opacity
                            <= OPACITY_SCALE by {
                            if w == kept@.len() - 1 {
                                assert(kept@[w] == t);
                                assert(o_tiles[p].opacity <= OPACITY_SCALE);
                            }
                        }
                    }
                }
            } else {
                let tb_opt = self.tile_schema.tile_bbox(t.index.unwrapped());
                let hit = match tb_opt {
                    Some(tb) => rect_hits_any(&self.tile_schema, &missing, &tb),
                    None => false,
                };
                proof {
                    assert(hit == spec_hits_missing_list(schema, m_seq, t));
                }
                if hit {
                    kept.push(t);
                    proof {
                        lemma_contains_after_push(kept_before, t);
                        assert forall|i: int|
                            0 <= i < p + 1 && !(need.contains((#[trigger] o_tiles[i]).index)
                                && o_tiles[i].style_id == style_id) implies (kept@.contains(
                            o_tiles[i],
                        ) <==> spec_hits_missing_list(schema, m_seq, o_tiles[i])) by {
                            if o_tiles[i] == t {
                                assert(kept@[kept@.len() - 1] == o_tiles[i]);
                            } else {
                                if kept@.contains(o_tiles[i]) {
                                    let w = choose|w: int|
                                        0 <= w < kept@.len() && kept@[w] == o_tiles[i];
                                    assert(w < kept_before.len());
                                    assert(kept_before.contains(o_tiles[i]));
                                } else {
                                    assert(!kept_before.contains(o_tiles[i]));
                                }
                            }
                        }
                    }
                    proof {
                        if tiles_unique(o_tiles) {
                            assert(t.index == o_tiles[p].index && t.style_id == o_tiles[p].style_id);
                            assert forall|w: int, u: int|
                                0 <= w < kept@.len() && 0 <= u < old_tiles@.len() implies !pair_matches(
                                #[trigger] kept@[w],
                                #[trigger] old_tiles@[u],
                            ) by {
                                assert(old_tiles@[u] == old_rest[u + 1]);
                                assert(old_rest[u + 1] == o_tiles[p + 1 + u]);
                                if w < kept_before.len() {
                                    assert(!pair_matches(kept_before[w], old_rest[u + 1]));
                                } else {
                                    assert(kept@[w] == t);
                                    assert(!pair_matches(o_tiles[p], o_tiles[p + 1 + u]));
                                }
                            }
                            assert forall|w1: int, w2: int|
                                0 <= w1 < w2 < kept@.len() implies !pair_matches(
                                #[trigger] kept@[w1],
                                #[trigger] kept@[w2],
                            ) by {
                                if w2 == kept@.len() - 1 {
                                    assert(old_rest[0] == o_tiles[p]);
                                    assert(!pair_matches(kept_before[w1], old_rest[0]));
                                    assert(kept@[w2] == t);
                                } else {
                                    assert(!pair_matches(kept_before[w1], kept_before[w2]));
                                }
                            }
                        }
                        if tiles_opacity_bounded(o_tiles) {
                            assert forall|w: int|
                                0 <= w < kept@.len() implies (#[trigger] kept@[w]).opacity
                                <= OPACITY_SCALE by {
                                if w == kept@.len() - 1 {
                                    assert(kept@[w] == t);
                                    assert(o_tiles[p].opacity <= OPACITY_SCALE);
                                }
                            }
                        }
                    }
                } else {
                    proof {
                        assert forall|i: int|
                            0 <= i < p + 1 && !(need.contains((#[trigger] o_tiles[i]).index)
                                && o_tiles[i].style_id == style_id) implies (kept@.contains(
                            o_tiles[i],
                        ) <==> spec_hits_missing_list(schema, m_seq, o_tiles[i])) by {
                            if i == p || o_tiles[i] == t {
                                if kept@.contains(o_tiles[i]) {
                                    let w = choose|w: int|
                                        0 <= w < kept@.len() && kept@[w] == o_tiles[i];
                                    assert(spec_kept_from(
                                        o_tiles,
                                        need,
                                        style_id,
                                        now_ms,
                                        fade_ms,
                                        schema,
                                        m_seq,
                                        p,
                                        kept@[w],
                                    ));
                                }
                            }
                        }
                        if tiles_unique(o_tiles) {
                            assert forall|w: int, u: int|
                                0 <= w < kept@.len() && 0 <= u
                                    < old_tiles@.len() implies !pair_matches(
                                #[trigger] kept@[w],
                                #[trigger] old_tiles@[u],
                            ) by {
                                assert(old_tiles@[u] == old_rest[u + 1]);
                                assert(!pair_matches(kept_before[w], old_rest[u + 1]));
                            }
                        }
                    }
                }
            }
        }

        // admit the fresh tiles and publish the new set
        let ghost kept_seq = kept@;
        let ghost fresh_seq = fresh@;
        let mut fresh = fresh;
        kept.append(&mut fresh);
        self.tiles = kept;
        let redraw = admitted || opacity_changed;
        proof {
            let n_seq = self.tiles@;
            assert(n_seq == kept_seq + fresh_seq);

            // membership in the published set splits over its two halves
            assert forall|x: DisplayedTile<B>| #[trigger]
                n_seq.contains(x) implies kept_seq.contains(x) || fresh_seq.contains(x) by {
                let w = choose|w: int| 0 <= w < n_seq.len() && n_seq[w] == x;
                if w < kept_seq.len() {
                    assert(kept_seq[w] == x);
                } else {
                    assert(fresh_seq[w - kept_seq.len()] == x);
                }
            }
            assert forall|x: DisplayedTile<B>| kept_seq.contains(x) implies n_seq.contains(x) by {
                let w = choose|w: int| 0 <= w < kept_seq.len() && kept_seq[w] == x;
                assert(n_seq[w] == x);
            }
            assert forall|x: DisplayedTile<B>| fresh_seq.contains(x) implies n_seq.contains(x) by {
                let w = choose|w: int| 0 <= w < fresh_seq.len() && fresh_seq[w] == x;
                assert(n_seq[kept_seq.len() + w] == x);
            }

            // every listed missing index is needed and ends the pass with no
            // tile on screen
            assert forall|widx: int| 0 <= widx < m_seq.len() implies need.contains(
                #[trigger] m_seq[widx],
            ) && !has_tile(n_seq, m_seq[widx], style_id) by {
                let kidx = m_seq[widx];
                lemma_has_tile_concat(kept_seq, fresh_seq, kidx, style_id);
                if has_tile(kept_seq, kidx, style_id) {
                    let w = choose|w: int|
                        0 <= w < kept_seq.len() && (kept_seq[w]).index == kidx
                            && kept_seq[w].style_id == style_id;
                    assert(spec_kept_from(
                        o_tiles,
                        need,
                        style_id,
                        now_ms,
                        fade_ms,
                        schema,
                        m_seq,
                        o_tiles.len() as int,
                        kept_seq[w],
                    ));
                    if exists|i: int|
                        0 <= i < o_tiles.len() && need.contains((#[trigger] o_tiles[i]).index)
                            && o_tiles[i].style_id == style_id && kept_seq[w] == spec_refreshed(
                            o_tiles[i],
                            now_ms,
                            fade_ms,
                        ) {
                        let i = choose|i: int|
                            0 <= i < o_tiles.len() && need.contains((#[trigger] o_tiles[i]).index)
                                && o_tiles[i].style_id == style_id && kept_seq[w]
                                == spec_refreshed(o_tiles[i], now_ms, fade_ms);
                        assert(o_tiles[i].index == kidx && o_tiles[i].style_id == style_id);
                        assert(has_tile(o_tiles, kidx, style_id));
                    } else {
                        let i = choose|i: int|
                            0 <= i < o_tiles.len() && kept_seq[w] == #[trigger] o_tiles[i] && !(
                            need.contains(o_tiles[i].index) && o_tiles[i].style_id == style_id)
                                && spec_hits_missing_list(schema, m_seq, kept_seq[w]);
                        assert(o_tiles[i].index == kidx && o_tiles[i].style_id == style_id);
                        assert(need.contains(kidx));
                    }
                }
            }

            // and every needed index with no tile on screen is listed
            assert forall|kk: int| 0 <= kk < need.len() && !has_tile(
                n_seq,
                #[trigger] need[kk],
                style_id,
            ) implies m_seq.contains(need[kk]) by {
                let kidx = need[kk];
                lemma_has_tile_concat(kept_seq, fresh_seq, kidx, style_id);
                if has_tile(o_tiles, kidx, style_id) {
                    let i = choose|i: int|
                        0 <= i < o_tiles.len() && (o_tiles[i]).index == kidx
                            && o_tiles[i].style_id == style_id;
                    assert(need.contains(o_tiles[i].index));
                    assert(kept_seq.contains(spec_refreshed(o_tiles[i], now_ms, fade_ms)));
                    let rt = spec_refreshed(o_tiles[i], now_ms, fade_ms);
                    let w = choose|w: int| 0 <= w < kept_seq.len() && kept_seq[w] == rt;
                    assert((kept_seq[w]).index == kidx && kept_seq[w].style_id == style_id);
                    assert(has_tile(kept_seq, kidx, style_id));
                }
            }

            // the missing-list overlap test and the published-set retention
            // condition agree on every tile
            assert forall|t: DisplayedTile<B>| #[trigger]
                spec_hits_missing_list(schema, m_seq, t) == spec_retained_for(
                schema,
                n_seq,
                need,
                style_id,
                t,
            ) by {
                if spec_hits_missing_list(schema, m_seq, t) {
                    let tb = schema.spec_tile_bbox(t.index.unwrapped_spec())->Some_0;
                    let j = choose|j: int|
                        0 <= j < m_seq.len() && match schema.spec_tile_bbox(
                            (#[trigger] m_seq[j]).unwrapped_spec(),
                        ) {
                            Some(mb) => tb.spec_intersects(mb),
                            None => false,
                        };
                    assert(need.contains(m_seq[j]));
                    let kk = choose|kk: int| 0 <= kk < need.len() && need[kk] == m_seq[j];
                    assert(!has_tile(n_seq, need[kk], style_id));
                    assert(spec_retained_for(schema, n_seq, need, style_id, t));
                }
                if spec_retained_for(schema, n_seq, need, style_id, t) {
                    let tb = schema.spec_tile_bbox(t.index.unwrapped_spec())->Some_0;
                    let kk = choose|kk: int|
                        0 <= kk < need.len() && !has_tile(n_seq, #[trigger] need[kk], style_id)
                            && match schema.spec_tile_bbox(need[kk].unwrapped_spec()) {
                            Some(mb) => tb.spec_intersects(mb),
                            None => false,
                        };
                    assert(m_seq.contains(need[kk]));
                    let j = choose|j: int| 0 <= j < m_seq.len() && m_seq[j] == need[kk];
                    assert(match schema.spec_tile_bbox((m_seq[j]).unwrapped_spec()) {
                        Some(mb) => tb.spec_intersects(mb),
                        None => false,
                    });
                    assert(spec_hits_missing_list(schema, m_seq, t));
                }
            }

            // needed tiles that were on screen stay, refreshed
            assert forall|i: int|
                0 <= i < o_tiles.len() && need.contains((#[trigger] o_tiles[i]).index)
                    && o_tiles[i].style_id == style_id implies n_seq.contains(
                spec_refreshed(o_tiles[i], now_ms, fade_ms),
            ) by {
                assert(kept_seq.contains(spec_refreshed(o_tiles[i], now_ms, fade_ms)));
            }

            // the retention rule, both ways
            assert forall|i: int|
                0 <= i < o_tiles.len() && !(need.contains((#[trigger] o_tiles[i]).index)
                    && o_tiles[i].style_id == style_id) implies (n_seq.contains(o_tiles[i]) <==>
            spec_retained_for(schema, n_seq, need, style_id, o_tiles[i])) by {
                let t = o_tiles[i];
                assert(!fresh_seq.contains(t)) by {
                    if fresh_seq.contains(t) {
                        let w = choose|w: int| 0 <= w < fresh_seq.len() && fresh_seq[w] == t;
                        assert(need.contains((fresh_seq[w]).index) && fresh_seq[w].style_id
                            == style_id);
                    }
                }
                assert(kept_seq.contains(t) <==> spec_hits_missing_list(schema, m_seq, t));
                assert(spec_hits_missing_list(schema, m_seq, t) == spec_retained_for(
                    schema,
                    n_seq,
                    need,
                    style_id,
                    t,
                ));
            }

            // provenance of every published tile
            assert forall|j: int| 0 <= j < n_seq.len() implies spec_from_update(
                o_tiles,
                need,
                style_id,
                now_ms,
                fade_ms,
                schema,
                n_seq,
                #[trigger] n_seq[j],
            ) by {
                if j < kept_seq.len() {
                    assert(n_seq[j] == kept_seq[j]);
                    assert(spec_kept_from(
                        o_tiles,
                        need,
                        style_id,
                        now_ms,
                        fade_ms,
                        schema,
                        m_seq,
                        o_tiles.len() as int,
                        kept_seq[j],
                    ));
                    assert(spec_hits_missing_list(schema, m_seq, n_seq[j]) == spec_retained_for(
                        schema,
                        n_seq,
                        need,
                        style_id,
                        n_seq[j],
                    ));
                } else {
                    assert(n_seq[j] == fresh_seq[j - kept_seq.len()]);
                }
            }

            // the redraw flag names exactly the two kinds of change
            let admitted_view = exists|j: int|
                0 <= j < n_seq.len() && need.contains((#[trigger] n_seq[j]).index)
                    && n_seq[j].style_id == style_id && !has_tile(o_tiles, n_seq[j].index, style_id);
            if admitted {
                assert(fresh_seq.len() > 0);
                assert(n_seq[kept_seq.len() as int] == fresh_seq[0]);
                assert(need.contains((fresh_seq[0]).index) && fresh_seq[0].style_id == style_id
                    && !has_tile(o_tiles, fresh_seq[0].index, style_id));
                assert(admitted_view);
            } else {
                assert(fresh_seq.len() == 0);
                if admitted_view {
                    let j = choose|j: int|
                        0 <= j < n_seq.len() && need.contains((#[trigger] n_seq[j]).index)
                            && n_seq[j].style_id == style_id && !has_tile(
                            o_tiles,
                            n_seq[j].index,
                            style_id,
                        );
                    assert(n_seq[j] == kept_seq[j]);
                    assert(spec_kept_from(
                        o_tiles,
                        need,
                        style_id,
                        now_ms,
                        fade_ms,
                        schema,
                        m_seq,
                        o_tiles.len() as int,
                        kept_seq[j],
                    ));
                    if exists|i: int|
                        0 <= i < o_tiles.len() && need.contains((#[trigger] o_tiles[i]).index)
                            && o_tiles[i].style_id == style_id && kept_seq[j] == spec_refreshed(
                            o_tiles[i],
                            now_ms,
                            fade_ms,
                        ) {
                        let i = choose|i: int|
                            0 <= i < o_tiles.len() && need.contains((#[trigger] o_tiles[i]).index)
                                && o_tiles[i].style_id == style_id && kept_seq[j]
                                == spec_refreshed(o_tiles[i], now_ms, fade_ms);
                        assert(o_tiles[i].index == n_seq[j].index && o_tiles[i].style_id
                            == style_id);
                        assert(has_tile(o_tiles, n_seq[j].index, style_id));
                    }
                    assert(false);
                }
            }

            // one tile per address and style survives when the pass started
            // that way
            if tiles_unique(o_tiles) {
                assert forall|j1: int, j2: int|
                    0 <= j1 < j2 < n_seq.len() implies !pair_matches(
                    #[trigger] n_seq[j1],
                    #[trigger] n_seq[j2],
                ) by {
                    if j2 < kept_seq.len() {
                        assert(n_seq[j1] == kept_seq[j1] && n_seq[j2] == kept_seq[j2]);
                        assert(!pair_matches(kept_seq[j1], kept_seq[j2]));
                    } else if j1 >= kept_seq.len() {
                        let v1 = j1 - kept_seq.len();
                        let v2 = j2 - kept_seq.len();
                        assert(n_seq[j1] == fresh_seq[v1] && n_seq[j2] == fresh_seq[v2]);
                        assert(fresh_seq[v1].index != fresh_seq[v2].index);
                    } else {
                        let v2 = j2 - kept_seq.len();
                        assert(n_seq[j1] == kept_seq[j1] && n_seq[j2] == fresh_seq[v2]);
                        if pair_matches(kept_seq[j1], fresh_seq[v2]) {
                            assert(spec_kept_from(
                                o_tiles,
                                need,
                                style_id,
                                now_ms,
                                fade_ms,
                                schema,
                                m_seq,
                                o_tiles.len() as int,
                                kept_seq[j1],
                            ));
                            if exists|i: int|
                                0 <= i < o_tiles.len() && need.contains(
                                    (#[trigger] o_tiles[i]).index,
                                ) && o_tiles[i].style_id == style_id && kept_seq[j1]
                                    == spec_refreshed(o_tiles[i], now_ms, fade_ms) {
                                let i = choose|i: int|
                                    0 <= i < o_tiles.len() && need.contains(
                                        (#[trigger] o_tiles[i]).index,
                                    ) && o_tiles[i].style_id == style_id && kept_seq[j1]
                                        == spec_refreshed(o_tiles[i], now_ms, fade_ms);
                                assert(o_tiles[i].index == fresh_seq[v2].index
                                    && o_tiles[i].style_id == style_id);
                                assert(has_tile(o_tiles, fresh_seq[v2].index, style_id));
                            } else {
                                let i = choose|i: int|
                                    0 <= i < o_tiles.len() && kept_seq[j1] == #[trigger] o_tiles[i]
                                        && !(need.contains(o_tiles[i].index)
                                        && o_tiles[i].style_id == style_id)
                                        && spec_hits_missing_list(schema, m_seq, kept_seq[j1]);
                                assert(o_tiles[i].index == fresh_seq[v2].index
                                    && o_tiles[i].style_id == style_id);
                                assert(has_tile(o_tiles, fresh_seq[v2].index, style_id));
                            }
                            assert(false);
                        }
                    }
                }
            }

            // the fade-consistency the next frame's refresh relies on
            if tiles_fade_consistent(o_tiles, now_ms, fade_ms) {
                assert forall|j: int|
                    0 <= j < n_seq.len() implies spec_fade_consistent(
                    #[trigger] n_seq[j],
                    now_ms,
                    fade_ms,
                ) by {
                    let t = n_seq[j];
                    assert(spec_from_update(
                        o_tiles,
                        need,
                        style_id,
                        now_ms,
                        fade_ms,
                        schema,
                        n_seq,
                        t,
                    ));
                    if exists|i: int|
                        0 <= i < o_tiles.len() && need.contains((#[trigger] o_tiles[i]).index)
                            && o_tiles[i].style_id == style_id && t == spec_refreshed(
                            o_tiles[i],
                            now_ms,
                            fade_ms,
                        ) {
                        let i = choose|i: int|
                            0 <= i < o_tiles.len() && need.contains((#[trigger] o_tiles[i]).index)
                                && o_tiles[i].style_id == style_id && t == spec_refreshed(
                                o_tiles[i],
                                now_ms,
                                fade_ms,
                            );
                        if !o_tiles[i].spec_is_opaque() {
                            lemma_opacity_at_bounds(o_tiles[i].displayed_at, now_ms, fade_ms);
                        }
                    } else if exists|i: int|
                        0 <= i < o_tiles.len() && t == #[trigger] o_tiles[i] && !(need.contains(
                            o_tiles[i].index,
                        ) && o_tiles[i].style_id == style_id) && spec_retained_for(
                            schema,
                            n_seq,
                            need,
                            style_id,
                            t,
                        ) {
                        let i = choose|i: int|
                            0 <= i < o_tiles.len() && t == #[trigger] o_tiles[i] && !(
                            need.contains(o_tiles[i].index) && o_tiles[i].style_id == style_id)
                                && spec_retained_for(schema, n_seq, need, style_id, t);
                        assert(spec_fade_consistent(o_tiles[i], now_ms, fade_ms));
                    } else {
                        // a tile admitted this pass: transparent at its own
                        // admission instant, or opaque with the fade off
                        assert(t.displayed_at == now_ms && t.opacity == spec_initial_opacity(
                            fade_ms,
                        ));
                        if fade_ms > 1 {
                            lemma_opacity_at_bounds(t.displayed_at, now_ms, fade_ms);
                            assert(spec_opacity_at(t.displayed_at, now_ms, fade_ms) >= 0);
                        }
                    }
                }
            }

            // opacities stay within the scale
            if tiles_opacity_bounded(o_tiles) {
                assert forall|j: int|
                    0 <= j < n_seq.len() implies (#[trigger] n_seq[j]).opacity
                    <= OPACITY_SCALE by {
                    if j < kept_seq.len() {
                        assert(n_seq[j] == kept_seq[j]);
                        assert(kept_seq[j].opacity <= OPACITY_SCALE);
                    } else {
                        assert(n_seq[j] == fresh_seq[j - kept_seq.len()]);
                        assert(fresh_seq[j - kept_seq.len()].opacity == spec_initial_opacity(
                            fade_ms,
                        ));
                    }
                }
            }
        }
        redraw
    }
}

/// Where a tile of the swept list may come from, phrased against the list of
/// missing indices gathered before the sweep; `p` bounds the processed
/// prefix of the old tiles.
pub open spec fn spec_kept_from<B>(
    o_tiles: Seq<DisplayedTile<B>>,
    need: Seq<WrappingTileIndex>,
    style: u64,
    now_ms: u64,
    fade_ms: u64,
    schema: TileSchema,
    m_seq: Seq<WrappingTileIndex>,
    p: int,
    t: DisplayedTile<B>,
) -> bool {
    ||| exists|i: int|
        0 <= i < p && need.contains((#[trigger] o_tiles[i]).index) && o_tiles[i].style_id == style
            && t == spec_refreshed(o_tiles[i], now_ms, fade_ms)
    ||| exists|i: int|
        0 <= i < p && t == #[trigger] o_tiles[i] && !(need.contains(o_tiles[i].index)
            && o_tiles[i].style_id == style) && spec_hits_missing_list(schema, m_seq, t)
}

/// After a push, a value sits in the vector exactly when it sat there before
/// or equals the pushed one.
proof fn lemma_contains_after_push<T>(before: Seq<T>, v: T)
    ensures
        forall|x: T| #[trigger] (before.push(v)).contains(x) <==> before.contains(x) || x == v,
{
    assert forall|x: T| #[trigger] (before.push(v)).contains(x) implies before.contains(x) || x
        == v by {
        let w = choose|w: int| 0 <= w < before.push(v).len() && before.push(v)[w] == x;
        if w < before.len() {
            assert(before[w] == x);
        }
    }
    assert forall|x: T| before.contains(x) implies (before.push(v)).contains(x) by {
        let w = choose|w: int| 0 <= w < before.len() && before[w] == x;
        assert(before.push(v)[w] == x);
    }
    assert forall|x: T| x == v implies (before.push(v)).contains(x) by {
        assert(before.push(v)[before.len() as int] == x);
    }
}

} // verus!
