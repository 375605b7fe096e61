//! The GPU resource pool: which (tile, layer) geometry is resident.
use vstd::prelude::*;
use crate::coords::{TileCoordinate, ViewRegion};
use crate::style::Color;

verus! {

/// The paint of one index of a layer's geometry.
#[derive(Clone, Copy, Debug, PartialEq, Eq, Structural)]
pub struct FeatureStyle {
    pub color: Color,
}

/// The GPU-side data of one resident layer of one tile.
#[derive(Debug)]
pub struct IndexEntry {
    pub coords: TileCoordinate,
    /// The source layer the geometry was tessellated from.
    pub layer_name: String,
    /// The paint-order index of the style layer that draws it.
    pub style_layer_index: u32,
    /// Vertex and index bytes.
    pub buffer: Vec<u8>,
    /// One paint per index of the geometry.
    pub feature_metadata: Vec<FeatureStyle>,
}

/// The resident layers, in order of allocation.
#[derive(Debug)]
pub struct BufferPool {
    entries: Vec<IndexEntry>,
}

/// Whether the entries hold geometry for `name` at `c`.
pub open spec fn holds(entries: Seq<IndexEntry>, c: TileCoordinate, name: Seq<char>) -> bool {
    exists|i: int| 0 <= i < entries.len() && (#[trigger] entries[i]).coords == c && entries[i].layer_name@ == name
}

/// Whether the tile of an entry is visible in `region`.
pub open spec fn visible(region: ViewRegion, e: IndexEntry) -> bool {
    region.tiles@.contains(e.coords)
}

/// No two entries are for the same layer of the same tile.
pub open spec fn pairs_distinct(s: Seq<IndexEntry>) -> bool {
    forall|i: int, j: int| 0 <= i < j < s.len() ==> !(
        (#[trigger] s[i]).coords == (#[trigger] s[j]).coords && s[i].layer_name@ == s[j].layer_name@)
}

impl BufferPool {
    /// The resident entries, in order of allocation.
    pub closed spec fn spec_entries(&self) -> Seq<IndexEntry> {
        self.entries@
    }

    /// Whether layer `name` of tile `c` is resident.
    pub open spec fn resident(&self, c: TileCoordinate, name: Seq<char>) -> bool {
        holds(self.spec_entries(), c, name)
    }

    /// No (tile, layer) pair has two live buffers.
    pub open spec fn wf(&self) -> bool {
        pairs_distinct(self.spec_entries())
    }

    /// An empty pool.
    pub fn new() -> (r: BufferPool)
        ensures
            r.wf(),
            r.spec_entries().len() == 0,
    {
        BufferPool { entries: Vec::new() }
    }

    /// The resident entries, in order of allocation.
    pub fn entries(&self) -> (r: &Vec<IndexEntry>)
        ensures
            r@ == self.spec_entries(),
    {
        &self.entries
    }

    /// The names of the layers of tile `coords` that are resident.
    pub fn get_loaded_layers_at(&self, coords: &TileCoordinate) -> (r: Vec<String>)
        ensures
            forall|name: Seq<char>| (exists|k: int| 0 <= k < r@.len() && (#[trigger] r@[k])@ == name)
                <==> self.resident(*coords, name),
    {
        let mut r: Vec<String> = Vec::new();
        let mut i: usize = 0;
        while i < self.entries.len()
            invariant
                i <= self.entries@.len(),
                forall|name: Seq<char>| (exists|k: int| 0 <= k < r@.len() && (#[trigger] r@[k])@ == name)
                    <==> holds(self.entries@.take(i as int), *coords, name),
            decreases self.entries@.len() - i,
        {
            let ghost before = r@;
            let ghost es0 = self.entries@.take(i as int);
            let ghost es = self.entries@.take(i + 1);
            assert(es0 =~= es.take(i as int));
            if self.entries[i].coords == *coords {
                r.push(self.entries[i].layer_name.clone());
            }
            proof {
                assert forall|name: Seq<char>| (exists|k: int| 0 <= k < r@.len() && (#[trigger] r@[k])@ == name)
                    <==> holds(es, *coords, name) by {
                    if exists|k: int| 0 <= k < r@.len() && (#[trigger] r@[k])@ == name {
                        let k = choose|k: int| 0 <= k < r@.len() && (#[trigger] r@[k])@ == name;
                        if k < before.len() {
                            assert(before[k] == r@[k]);
                            assert(exists|k: int| 0 <= k < before.len() && (#[trigger] before[k])@ == name);
                            assert(holds(es0, *coords, name));
                            let x = choose|x: int| 0 <= x < es0.len() && (#[trigger] es0[x]).coords == *coords && es0[x].layer_name@ == name;
                            assert(es[x] == es0[x]);
                        } else {
                            assert(es[i as int] == self.entries@[i as int]);
                        }
                    }
                    if holds(es, *coords, name) {
                        let x = choose|x: int| 0 <= x < es.len() && (#[trigger] es[x]).coords == *coords && es[x].layer_name@ == name;
                        if x < i {
                            assert(es0[x] == es[x]);
                            assert(holds(es0, *coords, name));
                            let k = choose|k: int| 0 <= k < before.len() && (#[trigger] before[k])@ == name;
                            assert(r@[k] == before[k]);
                        } else {
                            assert(r@[before.len() as int]@ == name);
                        }
                    }
                };
            }
            i = i + 1;
        }
        assert(self.entries@.take(i as int) =~= self.entries@);
        r
    }

    /// Makes layer `layer_name` of tile `coords` resident with the given
    /// geometry. Where it is resident already nothing changes and `false`
    /// comes back.
    pub fn allocate_layer_geometry(
        &mut self,
        coords: TileCoordinate,
        layer_name: String,
        style_layer_index: u32,
        buffer: Vec<u8>,
        feature_metadata: Vec<FeatureStyle>,
    ) -> (r: bool)
        requires
            old(self).wf(),
        ensures
            final(self).wf(),
            r == !old(self).resident(coords, layer_name@),
            !r ==> final(self).spec_entries() == old(self).spec_entries(),
            r ==> final(self).spec_entries() == old(self).spec_entries().push(IndexEntry {
                coords, layer_name, style_layer_index, buffer, feature_metadata }),
    {
        let mut i: usize = 0;
        while i < self.entries.len() && !(self.entries[i].coords == coords && self.entries[i].layer_name == layer_name)
            invariant
                i <= self.entries@.len(),
                forall|k: int| 0 <= k < i ==> !(#[trigger] self.entries@[k].coords == coords && self.entries@[k].layer_name@ == layer_name@),
            decreases self.entries@.len() - i,
        {
            i = i + 1;
        }
        if i < self.entries.len() {
            return false;
        }
        let ghost pre = self.entries@;
        self.entries.push(IndexEntry { coords, layer_name, style_layer_index, buffer, feature_metadata });
        proof {
            let now = self.entries@;
            assert forall|x: int, y: int| 0 <= x < y < now.len() implies !(
                (#[trigger] now[x]).coords == (#[trigger] now[y]).coords
                && now[x].layer_name@ == now[y].layer_name@) by {
                if y == pre.len() {
                    assert(self.entries@[x] == pre[x]);
                } else {
                    assert(self.entries@[x] == pre[x]);
                    assert(self.entries@[y] == pre[y]);
                }
            };
        }
        true
    }

    /// Releases the geometry of every tile that `region` does not show,
    /// keeping the others in their order.
    pub fn retain_in_region(&mut self, region: &ViewRegion)
        requires
            old(self).wf(),
        ensures
            final(self).wf(),
            final(self).spec_entries() == old(self).spec_entries().filter(|e: IndexEntry| visible(*region, e)),
            forall|c: TileCoordinate, name: Seq<char>| final(self).resident(c, name) <==> (old(self).resident(c, name) && region.tiles@.contains(c)),
    {
        let ghost pre = self.entries@;
        let ghost p = |e: IndexEntry| visible(*region, e);
        let mut i: usize = self.entries.len();
        assert(pre.skip(i as int).filter(p) =~= Seq::<IndexEntry>::empty()) by {
            reveal(Seq::filter);
        }
        assert(pre.take(i as int) =~= pre);
        while i > 0
            invariant
                i <= pre.len(),
                self.entries@ == pre.take(i as int) + pre.skip(i as int).filter(p),
                self.wf(),
                forall|e: IndexEntry| #[trigger] p(e) == visible(*region, e),
            decreases i,
        {
            i = i - 1;
            let ghost before = self.entries@;
            assert(pre.skip(i as int) =~= seq![pre[i as int]] + pre.skip(i + 1));
            proof { pre.skip(i + 1).lemma_filter_prepend(pre[i as int], p); }
            assert(before[i as int] == pre[i as int]);
            let shown = contains_tile(&region.tiles, &self.entries[i].coords);
            assert(self.entries@[i as int] == pre[i as int]);
            assert(p(pre[i as int]) == region.tiles@.contains(pre[i as int].coords));
            if !shown {
                assert(!p(pre[i as int]));
                assert(pre.skip(i as int).filter(p) == pre.skip(i + 1).filter(p));
                self.entries.remove(i);
                assert(self.entries@ =~= pre.take(i as int) + pre.skip(i as int).filter(p));
                proof {
                    let now = self.entries@;
                    assert(pairs_distinct(before));
                    assert forall|x: int, y: int| 0 <= x < y < now.len() implies !(
                        (#[trigger] now[x]).coords == (#[trigger] now[y]).coords
                        && now[x].layer_name@ == now[y].layer_name@) by {
                        let x0 = if x < i { x } else { x + 1 };
                        let y0 = if y < i { y } else { y + 1 };
                        assert(now[x] == before[x0]);
                        assert(now[y] == before[y0]);
                    };
                }
            } else {
                assert(p(pre[i as int]));
                assert(pre.skip(i as int).filter(p) == seq![pre[i as int]] + pre.skip(i + 1).filter(p));
                assert(self.entries@ =~= pre.take(i as int) + pre.skip(i as int).filter(p));
            }
        }
        assert(pre.skip(0) =~= pre);
        assert(self.entries@ =~= pre.filter(p));
        proof {
            broadcast use vstd::seq_lib::group_filter_ensures;
            assert forall|c: TileCoordinate, name: Seq<char>| self.resident(c, name) <==> (holds(pre, c, name) && region.tiles@.contains(c)) by {
                if self.resident(c, name) {
                    let k = choose|k: int| 0 <= k < self.entries@.len() && (#[trigger] self.entries@[k]).coords == c && self.entries@[k].layer_name@ == name;
                    assert(pre.filter(p).contains(self.entries@[k]));
                    pre.lemma_filter_contains_rev(p, self.entries@[k]);
                    let x = pre.index_of(self.entries@[k]);
                    assert(pre[x] == self.entries@[k]);
                }
                if holds(pre, c, name) && region.tiles@.contains(c) {
                    let x = choose|x: int| 0 <= x < pre.len() && (#[trigger] pre[x]).coords == c && pre[x].layer_name@ == name;
                    assert(p(pre[x]));
                    assert(pre.filter(p).contains(pre[x]));
                    let k = self.entries@.index_of(pre[x]);
                    assert(self.entries@[k] == pre[x]);
                }
            };
        }
    }
}

/// Whether `tiles` holds `c`.
pub fn contains_tile(tiles: &Vec<TileCoordinate>, c: &TileCoordinate) -> (r: bool)
    ensures
        r == tiles@.contains(*c),
{
    let mut i: usize = 0;
    while i < tiles.len()
        invariant
            i <= tiles@.len(),
            forall|k: int| 0 <= k < i ==> tiles@[k] != *c,
        decreases tiles@.len() - i,
    {
        if tiles[i] == *c {
            assert(tiles@[i as int] == *c);
            return true;
        }
        i = i + 1;
    }
    false
}

} // verus!
