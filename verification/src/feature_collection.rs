//! The per-frame feature collection: the resolved selectors of every
//! visible object, and the flat style buffer the renderer consumes.
//!
//! The collection is rebuilt each frame from the currently visible
//! tiles and never mutates them.  The style buffer packs one
//! fixed-stride record of twelve 32-bit words per feature, in
//! ascending z-order (back to front) with ties kept in collection
//! order.  When the feature count exceeds the configured bound the
//! lowest-z records are dropped first, so the buffer never outgrows
//! the fixed-size uniform region.

use vstd::prelude::*;
use crate::cache::Tile;
use crate::css::Selector;
use crate::object::Object;

verus! {

/// Words per packed paint record.
pub const RECORD_WORDS: usize = 12;

/// The selectors of a tile's objects, in object order.
pub open spec fn selectors_of(objects: Seq<Object>) -> Seq<Selector> {
    objects.map_values(|o: Object| o.selector)
}

/// The snapshot of one frame's visible features.
#[derive(Clone, Debug)]
pub struct FeatureCollection {
    pub selectors: Vec<Selector>,
}

/// Whether words `12k .. 12k+12` of the buffer hold the record of `s`:
/// the colour channels, the width, the z-order reinterpreted as a
/// word, the draw flag, and zero padding.
pub open spec fn record_at(buf: Seq<u32>, k: int, s: Selector) -> bool {
    &&& buf[12 * k] == s.color.r as u32
    &&& buf[12 * k + 1] == s.color.g as u32
    &&& buf[12 * k + 2] == s.color.b as u32
    &&& buf[12 * k + 3] == s.color.a as u32
    &&& buf[12 * k + 4] == s.width
    &&& buf[12 * k + 5] == s.z_index as u32
    &&& buf[12 * k + 6] == (if s.visible {
        1u32
    } else {
        0u32
    })
    &&& buf[12 * k + 7] == 0
    &&& buf[12 * k + 8] == 0
    &&& buf[12 * k + 9] == 0
    &&& buf[12 * k + 10] == 0
    &&& buf[12 * k + 11] == 0
}

/// The back-to-front order on features: lower z first, earlier
/// feature first among equals.
pub open spec fn z_order_less(z1: int, i1: int, z2: int, i2: int) -> bool {
    z1 < z2 || (z1 == z2 && i1 < i2)
}

/// Whether `order` lists every feature exactly once, back to front.
pub open spec fn is_paint_order(selectors: Seq<Selector>, order: Seq<usize>) -> bool {
    &&& order.len() == selectors.len()
    &&& forall|i: int| 0 <= i < order.len() ==> (#[trigger] order[i]) < selectors.len()
    &&& forall|i: usize| i < selectors.len() ==> #[trigger] order.contains(i)
    &&& forall|k1: int, k2: int|
        #![trigger order[k1], order[k2]]
        0 <= k1 < k2 < order.len() ==> z_order_less(
            selectors[order[k1] as int].z_index as int,
            order[k1] as int,
            selectors[order[k2] as int].z_index as int,
            order[k2] as int,
        )
}

impl FeatureCollection {
    /// An empty snapshot.
    pub fn new() -> (c: FeatureCollection)
        ensures
            c.selectors@.len() == 0,
    {
        FeatureCollection { selectors: Vec::new() }
    }

    /// Fold one visible tile's resolved selectors into the snapshot,
    /// in object order; the tile itself is read-only.
    pub fn add_tile(&mut self, tile: &Tile)
        ensures
            final(self).selectors@ == old(self).selectors@ + selectors_of(tile.objects@),
    {
        let ghost start = self.selectors@;
        let mut i: usize = 0;
        while i < tile.objects.len()
            invariant
                i <= tile.objects@.len(),
                self.selectors@ == start + selectors_of(tile.objects@).subrange(0, i as int),
            decreases tile.objects@.len() - i,
        {
            self.selectors.push(tile.objects[i].selector);
            proof {
                assert(selectors_of(tile.objects@)[i as int] == tile.objects@[i as int].selector);
                assert(self.selectors@ =~= start + selectors_of(tile.objects@).subrange(
                    0,
                    i + 1 as int,
                ));
            }
            i = i + 1;
        }
        proof {
            assert(selectors_of(tile.objects@).subrange(
                0,
                tile.objects@.len() as int,
            ) =~= selectors_of(tile.objects@));
        }
    }

    /// The flattened visible feature list, for emptiness checks
    /// upstream.
    pub fn get_features(&self) -> (r: &Vec<Selector>)
        ensures
            r == &self.selectors,
    {
        &self.selectors
    }

    /// The indices of the features in back-to-front paint order:
    /// ascending z, stable for equal z.
    fn paint_order(&self) -> (r: Vec<usize>)
        ensures
            is_paint_order(self.selectors@, r@),
    {
        let mut out: Vec<usize> = Vec::new();
        let mut i: usize = 0;
        while i < self.selectors.len()
            invariant
                i <= self.selectors@.len(),
                out@.len() == i,
                forall|k: int| 0 <= k < out@.len() ==> (#[trigger] out@[k]) < i,
                forall|j: usize| j < i ==> #[trigger] out@.contains(j),
                forall|k1: int, k2: int|
                    #![trigger out@[k1], out@[k2]]
                    0 <= k1 < k2 < out@.len() ==> z_order_less(
                        self.selectors@[out@[k1] as int].z_index as int,
                        out@[k1] as int,
                        self.selectors@[out@[k2] as int].z_index as int,
                        out@[k2] as int,
                    ),
            decreases self.selectors@.len() - i,
        {
            out = insert_by_z(&self.selectors, out, i);
            i = i + 1;
        }
        out
    }

    /// Pack the visible selectors into the flat style buffer: twelve
    /// words per feature, ascending z-order, earlier features first
    /// among equal z.  If more than `max_features` features are
    /// visible, the lowest-z records are dropped so exactly
    /// `max_features` remain.
    pub fn assemble_style_buffer(&self, max_features: usize) -> (r: Vec<u32>)
        requires
            self.selectors@.len() < 0x1000_0000,
        ensures
            ({
                let n = self.selectors@.len() as int;
                let kept = if n <= max_features {
                    n
                } else {
                    max_features as int
                };
                &&& r@.len() == 12 * kept
                &&& exists|order: Seq<usize>|
                    #[trigger] is_paint_order(self.selectors@, order) && (forall|k: int|
                        0 <= k < kept ==> record_at(
                            r@,
                            k,
                            self.selectors@[#[trigger] order[n - kept + k] as int],
                        ))
            }),
    {
        let order = self.paint_order();
        let n = self.selectors.len();
        let kept: usize = if n <= max_features {
            n
        } else {
            max_features
        };
        let start = n - kept;
        let mut r: Vec<u32> = Vec::with_capacity(RECORD_WORDS * kept);
        let mut k: usize = 0;
        while k < kept
            invariant
                kept <= n == self.selectors@.len() < 0x1000_0000,
                start == n - kept,
                order@.len() == n,
                forall|i: int| 0 <= i < n ==> (#[trigger] order@[i]) < n,
                k <= kept,
                r@.len() == 12 * k,
                forall|t: int|
                    0 <= t < k ==> record_at(r@, t, self.selectors@[#[trigger] order@[start + t] as int]),
            decreases kept - k,
        {
            let idx = order[start + k];
            let s = self.selectors[idx];
            let ghost old_r = r@;
            r.push(s.color.r as u32);
            r.push(s.color.g as u32);
            r.push(s.color.b as u32);
            r.push(s.color.a as u32);
            r.push(s.width);
            r.push(s.z_index as u32);
            r.push(if s.visible {
                1u32
            } else {
                0u32
            });
            r.push(0);
            r.push(0);
            r.push(0);
            r.push(0);
            r.push(0);
            proof {
                assert(forall|t: int| 0 <= t < old_r.len() ==> #[trigger] r@[t] == old_r[t]);
                assert(record_at(r@, k as int, s));
            }
            k = k + 1;
        }
        proof {
            assert(is_paint_order(self.selectors@, order@) && (forall|t: int|
                0 <= t < kept ==> record_at(
                    r@,
                    t,
                    self.selectors@[#[trigger] order@[self.selectors@.len() - kept + t] as int],
                )));
        }
        r
    }
}

/// Insert index `x` (larger than every held index) into a z-ordered
/// index list, keeping the order stable.
fn insert_by_z(selectors: &Vec<Selector>, out: Vec<usize>, x: usize) -> (r: Vec<usize>)
    requires
        x < selectors@.len(),
        forall|k: int| 0 <= k < out@.len() ==> (#[trigger] out@[k]) < x,
        forall|k1: int, k2: int|
            #![trigger out@[k1], out@[k2]]
            0 <= k1 < k2 < out@.len() ==> z_order_less(
                selectors@[out@[k1] as int].z_index as int,
                out@[k1] as int,
                selectors@[out@[k2] as int].z_index as int,
                out@[k2] as int,
            ),
    ensures
        r@.len() == out@.len() + 1,
        forall|v: usize| r@.contains(v) <==> (out@.contains(v) || v == x),
        forall|k: int| 0 <= k < r@.len() ==> (#[trigger] r@[k]) < x + 1,
        forall|k1: int, k2: int|
            #![trigger r@[k1], r@[k2]]
            0 <= k1 < k2 < r@.len() ==> z_order_less(
                selectors@[r@[k1] as int].z_index as int,
                r@[k1] as int,
                selectors@[r@[k2] as int].z_index as int,
                r@[k2] as int,
            ),
{
    let mut pos: usize = 0;
    while pos < out.len() && z_ranks_before(selectors, out[pos], x)
        invariant
            x < selectors@.len(),
            pos <= out@.len(),
            forall|k: int| 0 <= k < out@.len() ==> (#[trigger] out@[k]) < x,
            forall|k: int|
                0 <= k < pos ==> z_order_less(
                    selectors@[(#[trigger] out@[k]) as int].z_index as int,
                    out@[k] as int,
                    selectors@[x as int].z_index as int,
                    x as int,
                ),
        decreases out@.len() - pos,
    {
        pos = pos + 1;
    }
    proof {
        if pos < out@.len() {
            assert(z_order_less(
                selectors@[x as int].z_index as int,
                x as int,
                selectors@[out@[pos as int] as int].z_index as int,
                out@[pos as int] as int,
            ));
        }
    }
    let ghost old_out = out@;
    let mut r = out;
    r.insert(pos, x);
    proof {
        assert(r@ == old_out.insert(pos as int, x));
        assert forall|k: int| 0 <= k < r@.len() implies (#[trigger] r@[k]) < x + 1 by {
            if k < pos {
                assert(r@[k] == old_out[k]);
            } else if k == pos {
                assert(r@[k] == x);
            } else {
                assert(r@[k] == old_out[k - 1]);
            }
        }
        assert forall|v: usize| r@.contains(v) <==> (old_out.contains(v) || v == x) by {
            if r@.contains(v) {
                let k = choose|k: int| 0 <= k < r@.len() && r@[k] == v;
                if k < pos {
                    assert(old_out[k] == v);
                } else if k == pos {
                } else {
                    assert(old_out[k - 1] == v);
                }
            }
            if old_out.contains(v) {
                let k = choose|k: int| 0 <= k < old_out.len() && old_out[k] == v;
                if k < pos {
                    assert(r@[k] == v);
                } else {
                    assert(r@[k + 1] == v);
                }
            }
            if v == x {
                assert(r@[pos as int] == v);
            }
        }
        assert forall|k1: int, k2: int|
            #![trigger r@[k1], r@[k2]]
            0 <= k1 < k2 < r@.len() implies z_order_less(
                selectors@[r@[k1] as int].z_index as int,
                r@[k1] as int,
                selectors@[r@[k2] as int].z_index as int,
                r@[k2] as int,
            ) by {
            if k1 < pos {
                assert(r@[k1] == old_out[k1]);
            } else if k1 == pos {
                assert(r@[k1] == x);
            } else {
                assert(r@[k1] == old_out[k1 - 1]);
            }
            if k2 < pos {
                assert(r@[k2] == old_out[k2]);
            } else if k2 == pos {
                assert(r@[k2] == x);
            } else {
                assert(r@[k2] == old_out[k2 - 1]);
            }
            if k1 == pos && k2 > pos {
                assert(z_order_less(
                    selectors@[x as int].z_index as int,
                    x as int,
                    selectors@[old_out[k2 - 1] as int].z_index as int,
                    old_out[k2 - 1] as int,
                ));
            }
        }
    }
    r
}

/// Whether feature `a` paints before (below) feature `x`.
fn z_ranks_before(selectors: &Vec<Selector>, a: usize, x: usize) -> (r: bool)
    requires
        a < selectors@.len(),
        x < selectors@.len(),
    ensures
        r == z_order_less(
            selectors@[a as int].z_index as int,
            a as int,
            selectors@[x as int].z_index as int,
            x as int,
        ),
{
    let az = selectors[a].z_index;
    let xz = selectors[x].z_index;
    az < xz || (az == xz && a < x)
}

} // verus!
