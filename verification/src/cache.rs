//! The tile cache: the orchestrator of the pipeline.
//!
//! The cache maps tile addresses to fully built tiles, tracks which
//! addresses have a fetch in flight, remembers recent failures with a
//! retry time, and enforces a hard bound on the number of resident
//! tiles.  A tile only ever enters the cache complete: decoded, styled,
//! tessellated and indexed (`Tile::build` does all four or fails
//! atomically), so a lookup can never observe a partially constructed
//! tile.  Whoever drives the cache calls `get_or_load` each frame; a
//! `StartFetch` answer commissions exactly one fetch for that address,
//! and `insert_tile` or `report_tile_failure` settles it.  When an
//! insertion would exceed `max_tiles`, the evicted tile is the least
//! valuable by a deterministic order: tiles outside the padded viewport
//! go before tiles inside it, least-recently-used first among equals,
//! and the smaller address first when even that ties.

use vstd::prelude::*;
use crate::collider::Collider;
use crate::css::Stylesheet;
use crate::math::TileId;
use crate::object::{Object, object_views, objects_wf};
use crate::tessellator::{Mesh, mesh_wf, tessellate_tile};
use crate::vector_tile::{DecodeError, decode_tile, sp_tile};

verus! {

/// Why a fetch failed; transient, retried after a backoff.
#[derive(Clone, Copy, Debug, PartialEq, Eq, Structural)]
pub enum FetchError {
    NotFound,
    Network,
    Timeout,
}

/// The unit of caching: one tile's decoded objects, its tessellated
/// buffers, its spatial index and its GPU upload state.  Everything but
/// `loaded_to_gpu` is immutable once built.
#[derive(Clone, Debug)]
pub struct Tile {
    pub tile_id: TileId,
    pub extent: u32,
    pub objects: Vec<Object>,
    pub mesh: Mesh,
    pub collider: Collider,
    pub loaded_to_gpu: bool,
}

impl Tile {
    /// A complete tile: a valid address, well-formed objects, a mesh
    /// whose indices are in range, and a collider built over exactly
    /// the tile's objects.
    pub open spec fn wf(self) -> bool {
        &&& self.tile_id.valid()
        &&& 1 <= self.extent <= 65536
        &&& objects_wf(self.objects@)
        &&& mesh_wf(self.mesh)
        &&& self.collider.wf()
        &&& self.collider.of_objects(object_views(self.objects@))
    }

    /// Build a tile from a raw payload: decode and style, tessellate,
    /// and index, or fail atomically with the decode error.
    pub fn build(tile_id: TileId, data: &Vec<u8>, style: &Stylesheet) -> (r: Result<
        Tile,
        DecodeError,
    >)
        requires
            tile_id.valid(),
        ensures
            (match r {
                Ok(t) => {
                    &&& t.wf()
                    &&& t.tile_id == tile_id
                    &&& !t.loaded_to_gpu
                    &&& sp_tile(data@, style.rules@, tile_id.zoom) == Ok::<_, DecodeError>(
                        (object_views(t.objects@), t.extent as int),
                    )
                    &&& t.mesh.vertices@.len() == crate::tessellator::tile_mesh_counts(
                        t.objects@,
                        t.objects@.len() as int,
                    ).0
                    &&& t.mesh.indices@.len() == crate::tessellator::tile_mesh_counts(
                        t.objects@,
                        t.objects@.len() as int,
                    ).1
                    &&& t.collider.of_objects(object_views(t.objects@))
                },
                Err(e) => sp_tile(data@, style.rules@, tile_id.zoom) == Err::<
                    (Seq<crate::object::ObjectM>, int),
                    _,
                >(e),
            }),
    {
        let (objects, extent) = match decode_tile(data, style, tile_id.zoom) {
            Ok(t) => t,
            Err(e) => {
                return Err(e);
            },
        };
        let mesh = tessellate_tile(&objects, extent);
        let collider = Collider::new(&objects);
        Ok(Tile { tile_id, extent, objects, mesh, collider, loaded_to_gpu: false })
    }
}

/// One resident tile with its recency stamp.
#[derive(Clone, Debug)]
pub struct CacheEntry {
    pub tile: Tile,
    pub last_used: u64,
}

/// A failed address and when it may be retried.
#[derive(Clone, Copy, Debug, PartialEq, Eq, Structural)]
pub struct Failure {
    pub tile_id: TileId,
    pub retry_at: u64,
}

/// The padded viewport rectangle eviction ranks against.
#[derive(Clone, Copy, Debug, PartialEq, Eq, Structural)]
pub struct ViewRect {
    pub zoom: u8,
    pub min_x: u32,
    pub max_x: u32,
    pub min_y: u32,
    pub max_y: u32,
}

impl ViewRect {
    pub open spec fn covers(self, id: TileId) -> bool {
        id.zoom == self.zoom && self.min_x <= id.x <= self.max_x && self.min_y <= id.y
            <= self.max_y
    }

    /// How far outside the rectangle a tile sits: zero inside, the
    /// Chebyshev gap to the nearest covered column and row outside,
    /// and beyond every gap for a tile of another zoom level.
    pub open spec fn outside_gap(self, id: TileId) -> int {
        if id.zoom != self.zoom {
            0x1_0000_0000
        } else {
            let gx: int = if id.x < self.min_x {
                self.min_x - id.x
            } else if id.x > self.max_x {
                id.x - self.max_x
            } else {
                0
            };
            let gy: int = if id.y < self.min_y {
                self.min_y - id.y
            } else if id.y > self.max_y {
                id.y - self.max_y
            } else {
                0
            };
            if gx >= gy {
                gx
            } else {
                gy
            }
        }
    }
}

/// Whether `a` is evicted in preference to `b`: the tile further
/// outside the padded viewport first (so every outside tile goes
/// before any inside one), least recently used among equally-outside
/// tiles, and the smaller address when even the stamps tie.
pub open spec fn evict_before(a: CacheEntry, b: CacheEntry, view: ViewRect) -> bool {
    let ga = view.outside_gap(a.tile.tile_id);
    let gb = view.outside_gap(b.tile.tile_id);
    ||| ga > gb
    ||| (ga == gb && a.last_used < b.last_used)
    ||| (ga == gb && a.last_used == b.last_used && a.tile.tile_id.lex_less(b.tile.tile_id))
}

/// What one `get_or_load` call decided.
#[derive(Clone, Copy, Debug, PartialEq, Eq, Structural)]
pub enum LoadOutcome {
    /// The tile is resident; render it this frame.
    Cached,
    /// A fetch is already in flight or in backoff; render without it.
    Pending,
    /// No fetch exists yet: the caller must start exactly one.
    StartFetch,
}

/// The tile cache.
#[derive(Clone, Debug)]
pub struct TileCache {
    pub entries: Vec<CacheEntry>,
    pub in_flight: Vec<TileId>,
    pub failures: Vec<Failure>,
    pub max_tiles: usize,
    pub clock: u64,
}

impl TileCache {
    /// Whether a tile for `id` is resident.
    pub open spec fn has_tile(self, id: TileId) -> bool {
        exists|i: int|
            0 <= i < self.entries@.len() && (#[trigger] self.entries@[i]).tile.tile_id == id
    }

    /// Whether a fetch for `id` is in flight.
    pub open spec fn fetch_in_flight(self, id: TileId) -> bool {
        self.in_flight@.contains(id)
    }

    /// Whether `id` failed recently and is still backing off at `now`.
    pub open spec fn in_backoff(self, id: TileId, now: u64) -> bool {
        exists|i: int|
            0 <= i < self.failures@.len() && (#[trigger] self.failures@[i]).tile_id == id && now
                < self.failures@[i].retry_at
    }

    pub open spec fn wf(self) -> bool {
        &&& 1 <= self.max_tiles
    &&& self.entries@.len() <= self.max_tiles
        &&& forall|i: int, j: int|
            #![trigger self.entries@[i], self.entries@[j]]
            0 <= i < j < self.entries@.len() ==> self.entries@[i].tile.tile_id
                != self.entries@[j].tile.tile_id
        &&& forall|i: int|
            0 <= i < self.entries@.len() ==> (#[trigger] self.entries@[i]).tile.wf()
        &&& forall|i: int, j: int|
            #![trigger self.in_flight@[i], self.in_flight@[j]]
            0 <= i < j < self.in_flight@.len() ==> self.in_flight@[i] != self.in_flight@[j]
        &&& forall|i: int|
            0 <= i < self.in_flight@.len() ==> !self.has_tile(#[trigger] self.in_flight@[i])
    }

    /// An empty cache holding at most `max_tiles` tiles.
    pub fn new(max_tiles: usize) -> (c: TileCache)
        requires
            max_tiles >= 1,
        ensures
            c.wf(),
            c.entries@.len() == 0,
            c.in_flight@.len() == 0,
            c.failures@.len() == 0,
            c.max_tiles == max_tiles,
    {
        TileCache {
            entries: Vec::new(),
            in_flight: Vec::new(),
            failures: Vec::new(),
            max_tiles,
            clock: 0,
        }
    }

    /// The resident entry index for `id`, if any.
    fn find_entry(&self, id: &TileId) -> (r: Option<usize>)
        ensures
            (match r {
                Some(i) => i < self.entries@.len() && self.entries@[i as int].tile.tile_id == *id,
                None => !self.has_tile(*id),
            }),
    {
        let mut i: usize = 0;
        while i < self.entries.len()
            invariant
                i <= self.entries@.len(),
                forall|k: int|
                    0 <= k < i ==> (#[trigger] self.entries@[k]).tile.tile_id != *id,
            decreases self.entries@.len() - i,
        {
            if self.entries[i].tile.tile_id == *id {
                return Some(i);
            }
            i = i + 1;
        }
        None
    }

    fn flight_contains(&self, id: &TileId) -> (r: bool)
        ensures
            r == self.fetch_in_flight(*id),
    {
        let mut i: usize = 0;
        while i < self.in_flight.len()
            invariant
                i <= self.in_flight@.len(),
                forall|k: int| 0 <= k < i ==> (#[trigger] self.in_flight@[k]) != *id,
            decreases self.in_flight@.len() - i,
        {
            if self.in_flight[i] == *id {
                proof {
                    assert(self.in_flight@[i as int] == *id);
                }
                return true;
            }
            i = i + 1;
        }
        false
    }

    fn backoff_active(&self, id: &TileId, now: u64) -> (r: bool)
        ensures
            r == self.in_backoff(*id, now),
    {
        let mut i: usize = 0;
        while i < self.failures.len()
            invariant
                i <= self.failures@.len(),
                forall|k: int|
                    0 <= k < i ==> !((#[trigger] self.failures@[k]).tile_id == *id && now
                        < self.failures@[k].retry_at),
            decreases self.failures@.len() - i,
        {
            let f = &self.failures[i];
            if f.tile_id == *id && now < f.retry_at {
                return true;
            }
            i = i + 1;
        }
        false
    }

    /// Non-blocking lookup, used by the render loop and the hit-test
    /// path every frame; never triggers a fetch.  A returned tile is
    /// always complete: objects, selectors, buffers and collider all
    /// present and consistent.
    pub fn try_get_tile(&self, tile_id: &TileId) -> (r: Option<&Tile>)
        requires
            self.wf(),
        ensures
            (r is Some) == self.has_tile(*tile_id),
            (match r {
                Some(t) => t.tile_id == *tile_id && t.wf(),
                None => true,
            }),
    {
        match self.find_entry(tile_id) {
            Some(i) => {
                proof {
                    assert(self.entries@[i as int].tile.wf());
                }
                Some(&self.entries[i].tile)
            },
            None => None,
        }
    }

    /// What one `get_or_load` call does: the answer classifies the
    /// address, a `StartFetch` answer registers the fetch, and nothing
    /// else changes (except the recency stamp of a hit).
    pub open spec fn get_or_load_post(
        pre: TileCache,
        post: TileCache,
        id: TileId,
        now: u64,
        r: LoadOutcome,
    ) -> bool {
        &&& (r == LoadOutcome::Cached <==> pre.has_tile(id))
        &&& (r == LoadOutcome::StartFetch <==> (!pre.has_tile(id) && !pre.fetch_in_flight(id)
            && !pre.in_backoff(id, now)))
        &&& (r == LoadOutcome::Pending <==> (!pre.has_tile(id) && (pre.fetch_in_flight(id)
            || pre.in_backoff(id, now))))
        &&& post.entries@.len() == pre.entries@.len()
        &&& forall|i: int|
            0 <= i < pre.entries@.len() ==> (#[trigger] post.entries@[i]).tile
                == pre.entries@[i].tile
        &&& (r == LoadOutcome::Cached ==> exists|i: int|
            0 <= i < pre.entries@.len() && (#[trigger] pre.entries@[i]).tile.tile_id == id
                && post.entries@ == pre.entries@.update(
                i,
                CacheEntry { tile: pre.entries@[i].tile, last_used: pre.clock },
            ))
        &&& (r != LoadOutcome::Cached ==> post.entries@ == pre.entries@ && post.clock == pre.clock)
        &&& (r == LoadOutcome::Cached ==> post.clock == (if pre.clock < 0xFFFF_FFFF_FFFF_FFFFu64 {
            (pre.clock + 1) as u64
        } else {
            pre.clock
        }))
        &&& post.failures == pre.failures
        &&& post.max_tiles == pre.max_tiles
        &&& (r == LoadOutcome::StartFetch ==> post.in_flight@ == pre.in_flight@.push(id))
        &&& (r != LoadOutcome::StartFetch ==> post.in_flight@ == pre.in_flight@)
        &&& (r == LoadOutcome::StartFetch ==> post.fetch_in_flight(id))
    }

    /// Resolve one address for this frame.  On a hit the tile is
    /// resident and its recency stamp is refreshed.  On a miss the
    /// caller is told to start a fetch only if none is in flight and
    /// the address is not backing off, and the fetch is registered at
    /// once, so concurrent misses commission exactly one fetch.
    pub fn get_or_load(&mut self, tile_id: &TileId, now: u64) -> (r: LoadOutcome)
        requires
            old(self).wf(),
        ensures
            final(self).wf(),
            TileCache::get_or_load_post(*old(self), *final(self), *tile_id, now, r),
    {
        let found = self.find_entry(tile_id);
        if let Some(i) = found {
            let stamp = self.clock;
            self.entries[i].last_used = stamp;
            if self.clock < 0xFFFF_FFFF_FFFF_FFFFu64 {
                self.clock = self.clock + 1;
            }
            proof {
                assert(self.entries@[i as int].tile.tile_id == *tile_id);
                assert(self.has_tile(*tile_id));
                assert(old(self).entries@[i as int].tile.tile_id == *tile_id);
                assert(self.entries@ =~= old(self).entries@.update(
                    i as int,
                    CacheEntry {
                        tile: old(self).entries@[i as int].tile,
                        last_used: old(self).clock,
                    },
                ));
                assert(forall|k: int|
                    0 <= k < self.entries@.len() ==> (#[trigger] self.entries@[k]).tile == old(
                        self,
                    ).entries@[k].tile);
                assert forall|k: int|
                    0 <= k < self.in_flight@.len() implies !self.has_tile(
                    #[trigger] self.in_flight@[k],
                ) by {
                    assert(!old(self).has_tile(old(self).in_flight@[k]));
                    if self.has_tile(self.in_flight@[k]) {
                        let e = choose|e: int|
                            0 <= e < self.entries@.len() && (#[trigger] self.entries@[e]).tile.tile_id
                                == self.in_flight@[k];
                        assert(old(self).entries@[e].tile.tile_id == old(self).in_flight@[k]);
                    }
                }
            }
            return LoadOutcome::Cached;
        }
        if self.flight_contains(tile_id) || self.backoff_active(tile_id, now) {
            return LoadOutcome::Pending;
        }
        self.in_flight.push(*tile_id);
        proof {
            assert(self.in_flight@ == old(self).in_flight@.push(*tile_id));
            assert(self.in_flight@[self.in_flight@.len() - 1] == *tile_id);
            assert(self.fetch_in_flight(*tile_id));
            assert forall|i: int, j: int|
                #![trigger self.in_flight@[i], self.in_flight@[j]]
                0 <= i < j < self.in_flight@.len() implies self.in_flight@[i]
                != self.in_flight@[j] by {
                if j == self.in_flight@.len() - 1 {
                    assert(self.in_flight@[i] == old(self).in_flight@[i]);
                    assert(!old(self).fetch_in_flight(*tile_id));
                    assert(old(self).in_flight@.contains(old(self).in_flight@[i]));
                } else {
                    assert(self.in_flight@[i] == old(self).in_flight@[i]);
                    assert(self.in_flight@[j] == old(self).in_flight@[j]);
                }
            }
            assert forall|i: int|
                0 <= i < self.in_flight@.len() implies !self.has_tile(
                #[trigger] self.in_flight@[i],
            ) by {
                if i < self.in_flight@.len() - 1 {
                    assert(self.in_flight@[i] == old(self).in_flight@[i]);
                    assert(!old(self).has_tile(old(self).in_flight@[i]));
                } else {
                    assert(self.in_flight@[i] == *tile_id);
                }
            }
        }
        LoadOutcome::StartFetch
    }

    /// Calling `get_or_load` twice in a row for the same missing
    /// address starts at most one fetch: once the first call answered
    /// `StartFetch`, the fetch is registered, so the second call
    /// answers `Cached` or `Pending`.
    pub proof fn lemma_at_most_one_fetch(
        c0: TileCache,
        c1: TileCache,
        c2: TileCache,
        id: TileId,
        now1: u64,
        now2: u64,
        r1: LoadOutcome,
        r2: LoadOutcome,
    )
        requires
            TileCache::get_or_load_post(c0, c1, id, now1, r1),
            TileCache::get_or_load_post(c1, c2, id, now2, r2),
            r1 == LoadOutcome::StartFetch,
        ensures
            r2 != LoadOutcome::StartFetch,
    {
        assert(c1.fetch_in_flight(id));
    }

    /// Install a freshly built tile under its address, replacing any
    /// placeholder and retiring the in-flight mark and any failure
    /// record.  If the bound would be exceeded, the least valuable
    /// resident tile by `evict_before` is evicted and returned; a fetch
    /// in flight for a different address is never disturbed.
    pub fn insert_tile(&mut self, tile: Tile, view: &ViewRect) -> (evicted: Option<TileId>)
        requires
            old(self).wf(),
            tile.wf(),
        ensures
            final(self).wf(),
            final(self).has_tile(tile.tile_id),
            !final(self).fetch_in_flight(tile.tile_id),
            forall|id2: TileId|
                id2 != tile.tile_id ==> final(self).fetch_in_flight(id2) == old(
                    self,
                ).fetch_in_flight(id2),
            forall|id2: TileId, t: u64|
                #![trigger final(self).in_backoff(id2, t)]
                final(self).in_backoff(id2, t) == (old(self).in_backoff(id2, t) && id2
                    != tile.tile_id),
            final(self).entries@.len() <= old(self).max_tiles,
            final(self).max_tiles == old(self).max_tiles,
            old(self).has_tile(tile.tile_id) ==> evicted is None && exists|j: int|
                0 <= j < old(self).entries@.len() && (#[trigger] old(self).entries@[j]).tile.tile_id
                    == tile.tile_id && final(self).entries@ == old(self).entries@.update(
                    j,
                    CacheEntry { tile, last_used: old(self).clock },
                ),
            (!old(self).has_tile(tile.tile_id) && old(self).entries@.len() < old(self).max_tiles)
                ==> evicted is None && final(self).entries@ == old(self).entries@.push(
                CacheEntry { tile, last_used: old(self).clock },
            ),
            (!old(self).has_tile(tile.tile_id) && old(self).entries@.len() == old(self).max_tiles)
                ==> (match evicted {
                Some(eid) => eid != tile.tile_id && exists|j: int|
                    0 <= j < old(self).entries@.len() && (#[trigger] old(
                        self,
                    ).entries@[j]).tile.tile_id == eid && (forall|k: int|
                        0 <= k < old(self).entries@.len() && k != j ==> evict_before(
                            old(self).entries@[j],
                            #[trigger] old(self).entries@[k],
                            *view,
                        )) && final(self).entries@ == old(self).entries@.remove(j).push(
                        CacheEntry { tile, last_used: old(self).clock },
                    ),
                None => false,
            }),
            forall|id2: TileId|
                id2 != tile.tile_id && (match evicted {
                    Some(eid) => id2 != eid,
                    None => true,
                }) ==> final(self).has_tile(id2) == old(self).has_tile(id2),
    {
        self.remove_flight(&tile.tile_id);
        proof {
            lemma_backoff_congruence(*self, *old(self));
            lemma_has_tile_congruence(*self, *old(self));
        }
        self.remove_failures(&tile.tile_id);
        let ghost afterfail = *self;
        let stamp = self.clock;
        if self.clock < 0xFFFF_FFFF_FFFF_FFFFu64 {
            self.clock = self.clock + 1;
        }
        let id = tile.tile_id;
        let ghost mid = *self;
        proof {
            assert(mid.entries@ == old(self).entries@);
            lemma_has_tile_congruence(mid, *old(self));
            lemma_backoff_congruence(mid, afterfail);
        }
        let r = match self.insert_settled(tile, view, stamp) {
            x => x,
        };
        proof {
            assert(self.failures@ == mid.failures@);
            lemma_backoff_congruence(*self, mid);
        }
        r
    }

    /// Place a tile whose in-flight mark and failure records are
    /// already retired.
    fn insert_settled(&mut self, tile: Tile, view: &ViewRect, stamp: u64) -> (evicted: Option<
        TileId,
    >)
        requires
            old(self).wf(),
            tile.wf(),
            !old(self).fetch_in_flight(tile.tile_id),
        ensures
            final(self).wf(),
            final(self).has_tile(tile.tile_id),
            final(self).in_flight@ == old(self).in_flight@,
            final(self).failures@ == old(self).failures@,
            final(self).entries@.len() <= old(self).max_tiles,
            final(self).max_tiles == old(self).max_tiles,
            final(self).clock == old(self).clock,
            old(self).has_tile(tile.tile_id) ==> evicted is None && exists|j: int|
                0 <= j < old(self).entries@.len() && (#[trigger] old(self).entries@[j]).tile.tile_id
                    == tile.tile_id && final(self).entries@ == old(self).entries@.update(
                    j,
                    CacheEntry { tile, last_used: stamp },
                ),
            (!old(self).has_tile(tile.tile_id) && old(self).entries@.len() < old(self).max_tiles)
                ==> evicted is None && final(self).entries@ == old(self).entries@.push(
                CacheEntry { tile, last_used: stamp },
            ),
            (!old(self).has_tile(tile.tile_id) && old(self).entries@.len() == old(self).max_tiles)
                ==> (match evicted {
                Some(eid) => eid != tile.tile_id && exists|j: int|
                    0 <= j < old(self).entries@.len() && (#[trigger] old(
                        self,
                    ).entries@[j]).tile.tile_id == eid && (forall|k: int|
                        0 <= k < old(self).entries@.len() && k != j ==> evict_before(
                            old(self).entries@[j],
                            #[trigger] old(self).entries@[k],
                            *view,
                        )) && final(self).entries@ == old(self).entries@.remove(j).push(
                        CacheEntry { tile, last_used: stamp },
                    ),
                None => false,
            }),
            forall|id2: TileId|
                id2 != tile.tile_id && (match evicted {
                    Some(eid) => id2 != eid,
                    None => true,
                }) ==> final(self).has_tile(id2) == old(self).has_tile(id2),
    {
        let id = tile.tile_id;
        let ghost mid = *self;
        let found = self.find_entry(&id);
        match found {
            Some(i) => {
                let entry = CacheEntry { tile, last_used: stamp };
                self.entries[i] = entry;
                proof {
                    assert(self.entries@[i as int] == entry);
                    assert(forall|k: int|
                        0 <= k < mid.entries@.len() && k != i ==> #[trigger] self.entries@[k]
                            == mid.entries@[k]);
                    assert(self.entries@ =~= mid.entries@.update(i as int, entry));
                    lemma_post_update(mid, *self, i as int, id);
                }
                None
            },
            None => {
                if self.entries.len() < self.max_tiles {
                    let entry = CacheEntry { tile, last_used: stamp };
                    self.entries.push(entry);
                    proof {
                        assert(self.entries@[self.entries@.len() - 1] == entry);
                        assert(forall|k: int|
                            0 <= k < mid.entries@.len() ==> #[trigger] self.entries@[k]
                                == mid.entries@[k]);
                        assert(self.entries@ =~= mid.entries@.push(entry));
                        lemma_post_push(mid, *self, id);
                    }
                    None
                } else {
                    let victim = self.pick_victim(view);
                    let evicted_id = self.entries[victim].tile.tile_id;
                    self.entries.remove(victim);
                    let entry = CacheEntry { tile, last_used: stamp };
                    self.entries.push(entry);
                    proof {
                        assert(self.entries@ == mid.entries@.remove(victim as int).push(entry));
                        assert(self.entries@[self.entries@.len() - 1] == entry);
                        lemma_post_evict(mid, *self, victim as int, id, evicted_id);
                    }
                    Some(evicted_id)
                }
            },
        }
    }

    /// Note that a tile's buffers reached the GPU.  The upload flag is
    /// the only part of a published tile that ever changes in place;
    /// objects, buffers and collider stay immutable.
    pub fn mark_loaded(&mut self, tile_id: &TileId)
        requires
            old(self).wf(),
        ensures
            final(self).wf(),
            final(self).entries@.len() == old(self).entries@.len(),
            forall|i: int|
                0 <= i < old(self).entries@.len() ==> {
                    let pre = old(self).entries@[i];
                    let post = #[trigger] final(self).entries@[i];
                    &&& post.tile.tile_id == pre.tile.tile_id
                    &&& post.tile.objects == pre.tile.objects
                    &&& post.tile.mesh == pre.tile.mesh
                    &&& post.tile.collider == pre.tile.collider
                    &&& post.tile.extent == pre.tile.extent
                    &&& post.last_used == pre.last_used
                    &&& (pre.tile.tile_id == *tile_id ==> post.tile.loaded_to_gpu)
                    &&& (pre.tile.tile_id != *tile_id ==> post.tile.loaded_to_gpu
                        == pre.tile.loaded_to_gpu)
                },
            final(self).in_flight == old(self).in_flight,
            final(self).failures == old(self).failures,
            final(self).max_tiles == old(self).max_tiles,
    {
        let found = self.find_entry(tile_id);
        if let Some(i) = found {
            self.entries[i].tile.loaded_to_gpu = true;
            proof {
                assert(self.entries@[i as int].tile.tile_id == *tile_id);
                assert forall|k1: int, k2: int|
                    #![trigger self.entries@[k1], self.entries@[k2]]
                    0 <= k1 < k2 < self.entries@.len() implies self.entries@[k1].tile.tile_id
                    != self.entries@[k2].tile.tile_id by {
                    assert(old(self).entries@[k1].tile.tile_id
                        != old(self).entries@[k2].tile.tile_id);
                }
                assert forall|k: int|
                    0 <= k < self.entries@.len() implies (#[trigger] self.entries@[k]).tile.wf()
                    by {
                    assert(old(self).entries@[k].tile.wf());
                }
                assert forall|k: int|
                    0 <= k < self.in_flight@.len() implies !self.has_tile(
                    #[trigger] self.in_flight@[k],
                ) by {
                    assert(!old(self).has_tile(old(self).in_flight@[k]));
                    if self.has_tile(self.in_flight@[k]) {
                        let e = choose|e: int|
                            0 <= e < self.entries@.len() && (#[trigger] self.entries@[e]).tile.tile_id
                                == self.in_flight@[k];
                        assert(old(self).entries@[e].tile.tile_id == old(self).in_flight@[k]);
                    }
                }
            }
        }
    }

    /// Record a failed fetch: the in-flight mark is retired and the
    /// address backs off until `retry_at` instead of being retried
    /// every frame.
    pub fn report_tile_failure(&mut self, tile_id: &TileId, retry_at: u64) -> (nothing: ())
        requires
            old(self).wf(),
        ensures
            final(self).wf(),
            !final(self).fetch_in_flight(*tile_id),
            forall|id2: TileId|
                id2 != *tile_id ==> final(self).fetch_in_flight(id2) == old(self).fetch_in_flight(
                    id2,
                ),
            forall|t: u64|
                final(self).in_backoff(*tile_id, t) == (old(self).in_backoff(*tile_id, t) || t
                    < retry_at),
            forall|id2: TileId, t: u64|
                #![trigger final(self).in_backoff(id2, t)]
                id2 != *tile_id ==> final(self).in_backoff(id2, t) == old(self).in_backoff(id2, t),
            final(self).entries@ == old(self).entries@,
            final(self).max_tiles == old(self).max_tiles,
    {
        self.remove_flight(tile_id);
        let ghost mid = *self;
        self.failures.push(Failure { tile_id: *tile_id, retry_at });
        proof {
            assert forall|id2: TileId, t: u64|
                true implies #[trigger] self.in_backoff(id2, t) == (mid.in_backoff(id2, t) || (id2
                == *tile_id && t < retry_at)) by {
                let n = self.failures@.len() - 1;
                assert(self.failures@[n] == Failure { tile_id: *tile_id, retry_at });
                assert(forall|k: int|
                    0 <= k < n ==> #[trigger] self.failures@[k] == mid.failures@[k]);
                if mid.in_backoff(id2, t) {
                    let k = choose|k: int|
                        0 <= k < mid.failures@.len() && (#[trigger] mid.failures@[k]).tile_id == id2
                            && t < mid.failures@[k].retry_at;
                    assert(self.failures@[k].tile_id == id2 && t < self.failures@[k].retry_at);
                }
                if id2 == *tile_id && t < retry_at {
                    assert(self.failures@[n].tile_id == id2 && t < self.failures@[n].retry_at);
                }
                if self.in_backoff(id2, t) && !(id2 == *tile_id && t < retry_at) {
                    let k = choose|k: int|
                        0 <= k < self.failures@.len() && (#[trigger] self.failures@[k]).tile_id
                            == id2 && t < self.failures@[k].retry_at;
                    assert(k < n ==> mid.failures@[k].tile_id == id2 && t
                        < mid.failures@[k].retry_at);
                }
            }
        }
    }

    /// Take the in-flight mark for `id` out, if present.
    fn remove_flight(&mut self, id: &TileId)
        requires
            old(self).wf(),
        ensures
            final(self).wf(),
            !final(self).fetch_in_flight(*id),
            forall|id2: TileId|
                id2 != *id ==> final(self).fetch_in_flight(id2) == old(self).fetch_in_flight(id2),
            final(self).entries@ == old(self).entries@,
            final(self).failures@ == old(self).failures@,
            final(self).max_tiles == old(self).max_tiles,
            final(self).clock == old(self).clock,
    {
        let mut kept: Vec<TileId> = Vec::new();
        let mut i: usize = 0;
        while i < self.in_flight.len()
            invariant
                i <= self.in_flight@.len(),
                forall|k: int|
                    0 <= k < kept@.len() ==> (#[trigger] kept@[k]) != *id,
                forall|k: int|
                    0 <= k < kept@.len() ==> old(self).in_flight@.contains(#[trigger] kept@[k]),
                forall|k: int|
                    0 <= k < i && self.in_flight@[k] != *id ==> kept@.contains(
                        #[trigger] self.in_flight@[k],
                    ),
                forall|k1: int, k2: int|
                    #![trigger kept@[k1], kept@[k2]]
                    0 <= k1 < k2 < kept@.len() ==> kept@[k1] != kept@[k2],
                self.in_flight@ == old(self).in_flight@,
                self.entries == old(self).entries,
                self.failures == old(self).failures,
                self.max_tiles == old(self).max_tiles,
                self.clock == old(self).clock,
                old(self).wf(),
            decreases self.in_flight@.len() - i,
        {
            let cur = self.in_flight[i];
            if !(cur == *id) {
                let ghost old_kept = kept@;
                if !vec_contains_tile(&kept, &cur) {
                    kept.push(cur);
                    proof {
                        assert(kept@[kept@.len() - 1] == cur);
                        assert(forall|k: int|
                            0 <= k < old_kept.len() ==> #[trigger] kept@[k] == old_kept[k]);
                        assert(kept@.contains(self.in_flight@[i as int]));
                        assert forall|k: int|
                            0 <= k < i + 1 && self.in_flight@[k] != *id implies kept@.contains(
                            #[trigger] self.in_flight@[k],
                        ) by {
                            if k < i {
                                assert(old_kept.contains(self.in_flight@[k]));
                                let m = choose|m: int|
                                    0 <= m < old_kept.len() && old_kept[m] == self.in_flight@[k];
                                assert(kept@[m] == self.in_flight@[k]);
                            }
                        }
                    }
                } else {
                    proof {
                        assert forall|k: int|
                            0 <= k < i + 1 && self.in_flight@[k] != *id implies kept@.contains(
                            #[trigger] self.in_flight@[k],
                        ) by {}
                    }
                }
            }
            i = i + 1;
        }
        self.in_flight = kept;
        proof {
            assert forall|id2: TileId|
                id2 != *id implies self.fetch_in_flight(id2) == old(self).fetch_in_flight(
                id2,
            ) by {
                if self.fetch_in_flight(id2) {
                    let k = choose|k: int|
                        0 <= k < self.in_flight@.len() && self.in_flight@[k] == id2;
                    assert(old(self).in_flight@.contains(self.in_flight@[k]));
                }
                if old(self).fetch_in_flight(id2) {
                    let k = choose|k: int|
                        0 <= k < old(self).in_flight@.len() && old(self).in_flight@[k] == id2;
                    assert(self.in_flight@.contains(old(self).in_flight@[k]));
                }
            }
            assert forall|k: int|
                0 <= k < self.in_flight@.len() implies !self.has_tile(
                #[trigger] self.in_flight@[k],
            ) by {
                assert(old(self).in_flight@.contains(self.in_flight@[k]));
                assert(!old(self).has_tile(self.in_flight@[k]));
                if self.has_tile(self.in_flight@[k]) {
                    let e = choose|e: int|
                        0 <= e < self.entries@.len() && (#[trigger] self.entries@[e]).tile.tile_id
                            == self.in_flight@[k];
                    assert(old(self).entries@[e].tile.tile_id == self.in_flight@[k]);
                }
            }
            assert(!self.in_flight@.contains(*id)) by {
                if self.in_flight@.contains(*id) {
                    let k = choose|k: int|
                        0 <= k < self.in_flight@.len() && self.in_flight@[k] == *id;
                }
            }
        }
    }

    /// Drop every failure record for `id`.
    fn remove_failures(&mut self, id: &TileId)
        requires
            old(self).wf(),
        ensures
            final(self).wf(),
            forall|id2: TileId, t: u64|
                #![trigger final(self).in_backoff(id2, t)]
                final(self).in_backoff(id2, t) == (old(self).in_backoff(id2, t) && id2 != *id),
            final(self).entries@ == old(self).entries@,
            final(self).in_flight@ == old(self).in_flight@,
            final(self).max_tiles == old(self).max_tiles,
            final(self).clock == old(self).clock,
    {
        let mut kept: Vec<Failure> = Vec::new();
        let mut i: usize = 0;
        while i < self.failures.len()
            invariant
                i <= self.failures@.len(),
                forall|k: int|
                    0 <= k < kept@.len() ==> (#[trigger] kept@[k]).tile_id != *id,
                forall|k: int|
                    0 <= k < kept@.len() ==> old(self).failures@.contains(#[trigger] kept@[k]),
                forall|k: int|
                    0 <= k < i && self.failures@[k].tile_id != *id ==> kept@.contains(
                        #[trigger] self.failures@[k],
                    ),
                self.failures@ == old(self).failures@,
                self.entries == old(self).entries,
                self.in_flight == old(self).in_flight,
                self.max_tiles == old(self).max_tiles,
                self.clock == old(self).clock,
                old(self).wf(),
            decreases self.failures@.len() - i,
        {
            let cur = self.failures[i];
            if !(cur.tile_id == *id) {
                let ghost old_kept = kept@;
                kept.push(cur);
                proof {
                    assert(kept@[kept@.len() - 1] == cur);
                    assert(forall|k: int|
                        0 <= k < old_kept.len() ==> #[trigger] kept@[k] == old_kept[k]);
                    assert(kept@.contains(self.failures@[i as int]));
                    assert forall|k: int|
                        0 <= k < i + 1 && self.failures@[k].tile_id != *id implies kept@.contains(
                        #[trigger] self.failures@[k],
                    ) by {
                        if k < i {
                            let m = choose|m: int|
                                0 <= m < old_kept.len() && old_kept[m] == self.failures@[k];
                            assert(kept@[m] == self.failures@[k]);
                        }
                    }
                }
            }
            i = i + 1;
        }
        self.failures = kept;
        proof {
            assert forall|id2: TileId, t: u64|
                true implies #[trigger] self.in_backoff(id2, t) == (old(self).in_backoff(id2, t)
                && id2 != *id) by {
                if self.in_backoff(id2, t) {
                    let k = choose|k: int|
                        0 <= k < self.failures@.len() && (#[trigger] self.failures@[k]).tile_id
                            == id2 && t < self.failures@[k].retry_at;
                    assert(old(self).failures@.contains(self.failures@[k]));
                    let m = choose|m: int|
                        0 <= m < old(self).failures@.len() && old(self).failures@[m]
                            == self.failures@[k];
                }
                if old(self).in_backoff(id2, t) && id2 != *id {
                    let k = choose|k: int|
                        0 <= k < old(self).failures@.len() && (#[trigger] old(
                            self,
                        ).failures@[k]).tile_id == id2 && t < old(self).failures@[k].retry_at;
                    assert(kept@.contains(old(self).failures@[k]));
                    let m = choose|m: int|
                        0 <= m < self.failures@.len() && self.failures@[m] == old(
                            self,
                        ).failures@[k];
                    assert(self.failures@[m].tile_id == id2 && t < self.failures@[m].retry_at);
                }
            }
        }
    }

    /// The index of the entry to evict: minimal in the `evict_before`
    /// order against every other resident entry.
    fn pick_victim(&self, view: &ViewRect) -> (r: usize)
        requires
            self.wf(),
            self.entries@.len() >= 1,
        ensures
            r < self.entries@.len(),
            forall|k: int|
                0 <= k < self.entries@.len() && k != r ==> evict_before(
                    self.entries@[r as int],
                    #[trigger] self.entries@[k],
                    *view,
                ),
    {
        let mut best: usize = 0;
        let mut i: usize = 1;
        while i < self.entries.len()
            invariant
                self.wf(),
                self.entries@.len() >= 1,
                best < i <= self.entries@.len(),
                forall|k: int|
                    0 <= k < i && k != best ==> evict_before(
                        self.entries@[best as int],
                        #[trigger] self.entries@[k],
                        *view,
                    ),
            decreases self.entries@.len() - i,
        {
            if evict_before_exec(&self.entries[i], &self.entries[best], view) {
                proof {
                    lemma_evict_order(*self, i as int, best as int, i as int, *view);
                }
                best = i;
            }
            i = i + 1;
        }
        best
    }
}

/// Residency depends only on the entry list.
proof fn lemma_has_tile_congruence(a: TileCache, b: TileCache)
    requires
        a.entries@ == b.entries@,
    ensures
        forall|id2: TileId| #![trigger a.has_tile(id2)] a.has_tile(id2) == b.has_tile(id2),
{
    assert forall|id2: TileId| true implies #[trigger] a.has_tile(id2) == b.has_tile(id2) by {
        if a.has_tile(id2) {
            let k = choose|k: int|
                0 <= k < a.entries@.len() && (#[trigger] a.entries@[k]).tile.tile_id == id2;
            assert(b.entries@[k].tile.tile_id == id2);
        }
        if b.has_tile(id2) {
            let k = choose|k: int|
                0 <= k < b.entries@.len() && (#[trigger] b.entries@[k]).tile.tile_id == id2;
            assert(a.entries@[k].tile.tile_id == id2);
        }
    }
}

/// Backoff depends only on the failure list.
proof fn lemma_backoff_congruence(a: TileCache, b: TileCache)
    requires
        a.failures@ == b.failures@,
    ensures
        forall|id2: TileId, t: u64|
            #![trigger a.in_backoff(id2, t)]
            a.in_backoff(id2, t) == b.in_backoff(id2, t),
{
    assert forall|id2: TileId, t: u64|
        true implies #[trigger] a.in_backoff(id2, t) == b.in_backoff(id2, t) by {
        if a.in_backoff(id2, t) {
            let k = choose|k: int|
                0 <= k < a.failures@.len() && (#[trigger] a.failures@[k]).tile_id == id2 && t
                    < a.failures@[k].retry_at;
            assert(b.failures@[k].tile_id == id2 && t < b.failures@[k].retry_at);
        }
        if b.in_backoff(id2, t) {
            let k = choose|k: int|
                0 <= k < b.failures@.len() && (#[trigger] b.failures@[k]).tile_id == id2 && t
                    < b.failures@[k].retry_at;
            assert(a.failures@[k].tile_id == id2 && t < a.failures@[k].retry_at);
        }
    }
}

/// Transitivity of the eviction preference across the already-scanned
/// prefix: the new best still precedes every earlier entry.
proof fn lemma_evict_order(c: TileCache, new_best: int, old_best: int, upto: int, view: ViewRect)
    requires
        c.wf(),
        0 <= new_best < c.entries@.len(),
        0 <= old_best < c.entries@.len(),
        new_best != old_best,
        upto <= c.entries@.len(),
        evict_before(c.entries@[new_best], c.entries@[old_best], view),
        forall|k: int|
            0 <= k < upto && k != old_best ==> evict_before(
                c.entries@[old_best],
                #[trigger] c.entries@[k],
                view,
            ),
    ensures
        forall|k: int|
            0 <= k < upto && k != new_best ==> evict_before(
                c.entries@[new_best],
                #[trigger] c.entries@[k],
                view,
            ),
{
    assert forall|k: int|
        0 <= k < upto && k != new_best implies evict_before(
        c.entries@[new_best],
        #[trigger] c.entries@[k],
        view,
    ) by {
        if k != old_best {
            assert(evict_before(c.entries@[old_best], c.entries@[k], view));
        }
    }
}

fn vec_contains_tile(v: &Vec<TileId>, id: &TileId) -> (r: bool)
    ensures
        r == v@.contains(*id),
{
    let mut i: usize = 0;
    while i < v.len()
        invariant
            i <= v@.len(),
            forall|k: int| 0 <= k < i ==> (#[trigger] v@[k]) != *id,
        decreases v@.len() - i,
    {
        if v[i] == *id {
            proof {
                assert(v@[i as int] == *id);
            }
            return true;
        }
        i = i + 1;
    }
    false
}

/// Compare two entries by the eviction preference.
fn evict_before_exec(a: &CacheEntry, b: &CacheEntry, view: &ViewRect) -> (r: bool)
    ensures
        r == evict_before(*a, *b, *view),
{
    let ga = outside_gap_exec(view, &a.tile.tile_id);
    let gb = outside_gap_exec(view, &b.tile.tile_id);
    if ga > gb {
        return true;
    }
    if ga < gb {
        return false;
    }
    if a.last_used < b.last_used {
        return true;
    }
    if a.last_used > b.last_used {
        return false;
    }
    let x = &a.tile.tile_id;
    let y = &b.tile.tile_id;
    x.zoom < y.zoom || (x.zoom == y.zoom && (x.x < y.x || (x.x == y.x && x.y < y.y)))
}

/// How far outside the padded viewport a tile sits.
fn outside_gap_exec(view: &ViewRect, id: &TileId) -> (r: u64)
    ensures
        r as int == view.outside_gap(*id),
{
    if id.zoom != view.zoom {
        return 0x1_0000_0000;
    }
    let gx: u64 = if id.x < view.min_x {
        (view.min_x - id.x) as u64
    } else if id.x > view.max_x {
        (id.x - view.max_x) as u64
    } else {
        0
    };
    let gy: u64 = if id.y < view.min_y {
        (view.min_y - id.y) as u64
    } else if id.y > view.max_y {
        (id.y - view.max_y) as u64
    } else {
        0
    };
    if gx >= gy {
        gx
    } else {
        gy
    }
}

/// After replacing the entry at `i` in place, the cache is well formed
/// and holds the new tile.
proof fn lemma_post_update(pre: TileCache, post: TileCache, i: int, id: TileId)
    requires
        pre.wf(),
        0 <= i < pre.entries@.len(),
        pre.entries@[i].tile.tile_id == id,
        post.entries@.len() == pre.entries@.len(),
        post.entries@[i].tile.tile_id == id,
        post.entries@[i].tile.wf(),
        forall|k: int|
            0 <= k < pre.entries@.len() && k != i ==> #[trigger] post.entries@[k]
                == pre.entries@[k],
        post.in_flight@ == pre.in_flight@,
        !pre.fetch_in_flight(id),
        post.max_tiles == pre.max_tiles,
    ensures
        post.wf(),
        post.has_tile(id),
        forall|id2: TileId| id2 != id ==> post.has_tile(id2) == pre.has_tile(id2),
{
    assert(post.entries@[i].tile.tile_id == id);
    assert(post.has_tile(id));
    assert forall|k1: int, k2: int|
        #![trigger post.entries@[k1], post.entries@[k2]]
        0 <= k1 < k2 < post.entries@.len() implies post.entries@[k1].tile.tile_id
        != post.entries@[k2].tile.tile_id by {
        assert(pre.entries@[k1].tile.tile_id != pre.entries@[k2].tile.tile_id);
    }
    assert forall|k: int|
        0 <= k < post.entries@.len() implies (#[trigger] post.entries@[k]).tile.wf() by {
        if k != i {
            assert(pre.entries@[k].tile.wf());
        }
    }
    assert forall|k: int|
        0 <= k < post.in_flight@.len() implies !post.has_tile(#[trigger] post.in_flight@[k]) by {
        assert(!pre.has_tile(pre.in_flight@[k]));
        assert(pre.in_flight@.contains(pre.in_flight@[k]));
        if post.has_tile(post.in_flight@[k]) {
            let e = choose|e: int|
                0 <= e < post.entries@.len() && (#[trigger] post.entries@[e]).tile.tile_id
                    == post.in_flight@[k];
            if e == i {
                assert(post.in_flight@[k] == id);
                assert(pre.fetch_in_flight(id));
            } else {
                assert(pre.entries@[e].tile.tile_id == post.in_flight@[k]);
            }
        }
    }
    assert forall|id2: TileId| id2 != id implies post.has_tile(id2) == pre.has_tile(id2) by {
        if post.has_tile(id2) {
            let e = choose|e: int|
                0 <= e < post.entries@.len() && (#[trigger] post.entries@[e]).tile.tile_id == id2;
            assert(e != i);
            assert(pre.entries@[e].tile.tile_id == id2);
        }
        if pre.has_tile(id2) {
            let e = choose|e: int|
                0 <= e < pre.entries@.len() && (#[trigger] pre.entries@[e]).tile.tile_id == id2;
            assert(e != i);
            assert(post.entries@[e].tile.tile_id == id2);
        }
    }
}

/// After appending a new entry, the cache is well formed and holds the
/// new tile.
proof fn lemma_post_push(pre: TileCache, post: TileCache, id: TileId)
    requires
        pre.wf(),
        !pre.has_tile(id),
        pre.entries@.len() < pre.max_tiles,
        post.entries@.len() == pre.entries@.len() + 1,
        post.entries@[post.entries@.len() - 1].tile.tile_id == id,
        post.entries@[post.entries@.len() - 1].tile.wf(),
        forall|k: int|
            0 <= k < pre.entries@.len() ==> #[trigger] post.entries@[k] == pre.entries@[k],
        post.in_flight@ == pre.in_flight@,
        !pre.fetch_in_flight(id),
        post.max_tiles == pre.max_tiles,
    ensures
        post.wf(),
        post.has_tile(id),
        forall|id2: TileId| id2 != id ==> post.has_tile(id2) == pre.has_tile(id2),
{
    let n = post.entries@.len() - 1;
    assert(post.entries@[n].tile.tile_id == id);
    assert(post.has_tile(id));
    assert forall|k1: int, k2: int|
        #![trigger post.entries@[k1], post.entries@[k2]]
        0 <= k1 < k2 < post.entries@.len() implies post.entries@[k1].tile.tile_id
        != post.entries@[k2].tile.tile_id by {
        if k2 == n {
            if post.entries@[k1].tile.tile_id == id {
                assert(pre.entries@[k1].tile.tile_id == id);
            }
        } else {
            assert(pre.entries@[k1].tile.tile_id != pre.entries@[k2].tile.tile_id);
        }
    }
    assert forall|k: int|
        0 <= k < post.entries@.len() implies (#[trigger] post.entries@[k]).tile.wf() by {
        if k < n {
            assert(pre.entries@[k].tile.wf());
        }
    }
    assert forall|k: int|
        0 <= k < post.in_flight@.len() implies !post.has_tile(#[trigger] post.in_flight@[k]) by {
        assert(!pre.has_tile(pre.in_flight@[k]));
        assert(pre.in_flight@.contains(pre.in_flight@[k]));
        if post.has_tile(post.in_flight@[k]) {
            let e = choose|e: int|
                0 <= e < post.entries@.len() && (#[trigger] post.entries@[e]).tile.tile_id
                    == post.in_flight@[k];
            if e == n {
                assert(post.in_flight@[k] == id);
                assert(pre.fetch_in_flight(id));
            } else {
                assert(pre.entries@[e].tile.tile_id == post.in_flight@[k]);
            }
        }
    }
    assert forall|id2: TileId| id2 != id implies post.has_tile(id2) == pre.has_tile(id2) by {
        if post.has_tile(id2) {
            let e = choose|e: int|
                0 <= e < post.entries@.len() && (#[trigger] post.entries@[e]).tile.tile_id == id2;
            assert(e != n);
            assert(pre.entries@[e].tile.tile_id == id2);
        }
        if pre.has_tile(id2) {
            let e = choose|e: int|
                0 <= e < pre.entries@.len() && (#[trigger] pre.entries@[e]).tile.tile_id == id2;
            assert(post.entries@[e].tile.tile_id == id2);
        }
    }
}

/// After evicting the victim and appending the new entry, the cache is
/// well formed, holds the new tile, and has lost exactly the victim.
proof fn lemma_post_evict(pre: TileCache, post: TileCache, victim: int, id: TileId, eid: TileId)
    requires
        pre.wf(),
        !pre.has_tile(id),
        0 <= victim < pre.entries@.len(),
        pre.entries@[victim].tile.tile_id == eid,
        post.entries@ == pre.entries@.remove(victim).push(post.entries@[post.entries@.len() - 1]),
        post.entries@.len() == pre.entries@.len(),
        post.entries@[post.entries@.len() - 1].tile.tile_id == id,
        post.entries@[post.entries@.len() - 1].tile.wf(),
        post.in_flight@ == pre.in_flight@,
        !pre.fetch_in_flight(id),
        post.max_tiles == pre.max_tiles,
    ensures
        post.wf(),
        post.has_tile(id),
        eid != id,
        forall|id2: TileId|
            id2 != id && id2 != eid ==> post.has_tile(id2) == pre.has_tile(id2),
{
    let n = post.entries@.len() - 1;
    assert(eid != id) by {
        if eid == id {
            assert(pre.has_tile(id));
        }
    }
    assert(post.has_tile(id)) by {
        assert(post.entries@[n].tile.tile_id == id);
    }
    assert(forall|k: int|
        0 <= k < victim ==> #[trigger] post.entries@[k] == pre.entries@[k]);
    assert(forall|k: int|
        victim <= k < n ==> #[trigger] post.entries@[k] == pre.entries@[k + 1]);
    assert forall|k1: int, k2: int|
        #![trigger post.entries@[k1], post.entries@[k2]]
        0 <= k1 < k2 < post.entries@.len() implies post.entries@[k1].tile.tile_id
        != post.entries@[k2].tile.tile_id by {
        if k2 == n {
            if post.entries@[k1].tile.tile_id == id {
                if k1 < victim {
                    assert(pre.entries@[k1].tile.tile_id == id);
                } else {
                    assert(pre.entries@[k1 + 1].tile.tile_id == id);
                }
            }
        } else {
            if k1 < victim && k2 < victim {
                assert(pre.entries@[k1].tile.tile_id != pre.entries@[k2].tile.tile_id);
            } else if k1 < victim {
                assert(pre.entries@[k1].tile.tile_id != pre.entries@[k2 + 1].tile.tile_id);
            } else {
                assert(pre.entries@[k1 + 1].tile.tile_id != pre.entries@[k2 + 1].tile.tile_id);
            }
        }
    }
    assert forall|k: int|
        0 <= k < post.entries@.len() implies (#[trigger] post.entries@[k]).tile.wf() by {
        if k < victim {
            assert(pre.entries@[k].tile.wf());
        } else if k < n {
            assert(pre.entries@[k + 1].tile.wf());
        }
    }
    assert forall|k: int|
        0 <= k < post.in_flight@.len() implies !post.has_tile(#[trigger] post.in_flight@[k]) by {
        assert(!pre.has_tile(pre.in_flight@[k]));
        assert(pre.in_flight@.contains(pre.in_flight@[k]));
        if post.has_tile(post.in_flight@[k]) {
            let e = choose|e: int|
                0 <= e < post.entries@.len() && (#[trigger] post.entries@[e]).tile.tile_id
                    == post.in_flight@[k];
            if e == n {
                assert(post.in_flight@[k] == id);
                assert(pre.fetch_in_flight(id));
            } else if e < victim {
                assert(pre.entries@[e].tile.tile_id == post.in_flight@[k]);
            } else {
                assert(pre.entries@[e + 1].tile.tile_id == post.in_flight@[k]);
            }
        }
    }
    assert forall|id2: TileId|
        id2 != id && id2 != eid implies post.has_tile(id2) == pre.has_tile(id2) by {
        if post.has_tile(id2) {
            let e = choose|e: int|
                0 <= e < post.entries@.len() && (#[trigger] post.entries@[e]).tile.tile_id == id2;
            if e < victim {
                assert(pre.entries@[e].tile.tile_id == id2);
            } else if e < n {
                assert(pre.entries@[e + 1].tile.tile_id == id2);
            }
        }
        if pre.has_tile(id2) {
            let e = choose|e: int|
                0 <= e < pre.entries@.len() && (#[trigger] pre.entries@[e]).tile.tile_id == id2;
            assert(e != victim);
            if e < victim {
                assert(post.entries@[e].tile.tile_id == id2);
            } else {
                assert(post.entries@[e - 1].tile.tile_id == id2);
            }
        }
    }
}

} // verus!
