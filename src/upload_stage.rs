//! The stage that makes visible tessellated geometry resident on the GPU.
use vstd::prelude::*;
use crate::buffer_pool::{BufferPool, FeatureStyle, IndexEntry, holds, pairs_distinct};
use crate::coords::{TileCoordinate, ViewRegion, clipped_level, in_region, is_degenerate, row_major_sorted};
use crate::style::{Color, Style, StyleLayer};
use crate::tile_cache::{LayerTessellateMessage, TileCache, inserted, layers_wf, lemma_insert_then_query, lemma_layers_at_wf};

verus! {

/// Total number of indices over the features' runs.
pub open spec fn index_count(counts: Seq<u32>) -> int
    decreases counts.len(),
{
    if counts.len() == 0 { 0 } else { index_count(counts.drop_last()) + counts.last() }
}

/// One paint per index: `color` repeated over every feature's run.
pub open spec fn replicated(counts: Seq<u32>, color: Color) -> Seq<FeatureStyle> {
    Seq::new(index_count(counts) as nat, |_i: int| FeatureStyle { color })
}

/// The runs of a prefix never hold more indices than all of them.
proof fn lemma_index_count_prefix(counts: Seq<u32>, i: int)
    requires
        0 <= i <= counts.len(),
    ensures
        0 <= index_count(counts.take(i)) <= index_count(counts),
    decreases counts.len(),
{
    if counts.len() > 0 {
        if i == counts.len() {
            assert(counts.take(i) =~= counts);
            lemma_index_count_prefix(counts.drop_last(), i - 1);
        } else {
            assert(counts.take(i) =~= counts.drop_last().take(i));
            lemma_index_count_prefix(counts.drop_last(), i);
        }
    } else {
        assert(counts.take(i) =~= counts);
    }
}

/// The per-index paint of a layer: each feature's color repeated over the
/// feature's run of indices. A layer has a single paint color, so every
/// index gets `color`. `None` where the total does not fit in memory.
pub fn feature_metadata(feature_indices: &Vec<u32>, color: Color) -> (r: Option<Vec<FeatureStyle>>)
    ensures
        r is None <==> index_count(feature_indices@) > usize::MAX,
        r matches Some(v) ==> v@ == replicated(feature_indices@, color),
{
    let mut v: Vec<FeatureStyle> = Vec::new();
    let mut i: usize = 0;
    while i < feature_indices.len()
        invariant
            i <= feature_indices@.len(),
            v@ == replicated(feature_indices@.take(i as int), color),
            0 <= index_count(feature_indices@.take(i as int)) == v@.len() <= usize::MAX,
        decreases feature_indices@.len() - i,
    {
        let n = feature_indices[i];
        proof {
            assert(feature_indices@.take(i + 1).drop_last() =~= feature_indices@.take(i as int));
            lemma_index_count_prefix(feature_indices@, i + 1);
            assert(index_count(feature_indices@.take(i + 1)) == index_count(feature_indices@.take(i as int)) + n);
        }
        if n as usize > usize::MAX - v.len() {
            return None;
        }
        let mut j: u32 = 0;
        while j < n
            invariant
                j <= n,
                v.len() + n - j <= usize::MAX,
                0 <= index_count(feature_indices@.take(i as int)),
                v@.len() == index_count(feature_indices@.take(i as int)) + j,
                v@ == Seq::new((index_count(feature_indices@.take(i as int)) + j) as nat, |_i: int| FeatureStyle { color }),
            decreases n - j,
        {
            v.push(FeatureStyle { color });
            j = j + 1;
            assert(v@ =~= Seq::new((index_count(feature_indices@.take(i as int)) + j) as nat, |_i: int| FeatureStyle { color }));
        }
        i = i + 1;
        assert(v@ =~= replicated(feature_indices@.take(i as int), color));
    }
    assert(feature_indices@.take(i as int) =~= feature_indices@);
    Some(v)
}

} // verus!
verus! {

/// Whether style layer `l` draws `m`, and `e` is the resident geometry made
/// from them: `m`'s bytes and, for every index, `l`'s paint.
pub open spec fn made_from(e: IndexEntry, l: StyleLayer, m: LayerTessellateMessage) -> bool {
    match m {
        LayerTessellateMessage::TessellatedLayer { coords, layer_name, buffer, feature_indices } => {
            &&& coords == e.coords
            &&& layer_name@ == e.layer_name@
            &&& sources(l, e.layer_name@)
            &&& e.style_layer_index == l.index
            &&& e.buffer@ == buffer@
            &&& e.feature_metadata@ == replicated(feature_indices@, l.paint_color())
        },
        LayerTessellateMessage::UnavailableLayer { .. } => false,
    }
}

/// Whether `e` was made from a result the cache holds for its tile and a
/// layer of the style.
pub open spec fn entry_from(e: IndexEntry, cache: TileCache, style: Style) -> bool {
    exists|k: int, j: int| 0 <= k < style.layers@.len() && 0 <= j < cache.layers_at(e.coords).len()
        && #[trigger] made_from(e, style.layers@[k], cache.layers_at(e.coords)[j])
}

/// Whether the cache holds tessellated geometry for layer `name` of tile
/// `c` whose total index count fits in `usize`, so that its per-index
/// paint can be built.
pub open spec fn tessellated(cache: TileCache, c: TileCoordinate, name: Seq<char>) -> bool {
    exists|j: int| 0 <= j < cache.layers_at(c).len() && match #[trigger] cache.layers_at(c)[j] {
        LayerTessellateMessage::TessellatedLayer { layer_name, feature_indices, .. } =>
            layer_name@ == name && index_count(feature_indices@) <= usize::MAX,
        LayerTessellateMessage::UnavailableLayer { .. } => false,
    }
}

/// Whether one of `layers` draws source layer `name`.
pub open spec fn drawn_by(layers: Seq<StyleLayer>, name: Seq<char>) -> bool {
    exists|k: int| 0 <= k < layers.len() && sources(#[trigger] layers[k], name)
}

/// Whether style layer `l` is drawn from source layer `name`.
pub open spec fn sources(l: StyleLayer, name: Seq<char>) -> bool {
    match l.source_layer {
        Some(s) => s@ == name,
        None => false,
    }
}

/// Whether upload makes layer `name` of tile `c` resident: the tile is in
/// view, the style draws the layer, and the cache holds its geometry.
pub open spec fn wanted(cache: TileCache, style: Style, region: ViewRegion, c: TileCoordinate, name: Seq<char>) -> bool {
    &&& region.tiles@.contains(c)
    &&& drawn_by(style.layers@, name)
    &&& tessellated(cache, c, name)
}

/// What a resident entry holds, as plain values: its tile, layer name,
/// style layer index, bytes and per-index paint.
pub type EntryView = (TileCoordinate, Seq<char>, u32, Seq<u8>, Seq<FeatureStyle>);

pub open spec fn entry_view(e: IndexEntry) -> EntryView {
    (e.coords, e.layer_name@, e.style_layer_index, e.buffer@, e.feature_metadata@)
}

pub open spec fn entry_views(s: Seq<IndexEntry>) -> Seq<EntryView> {
    s.map_values(|e: IndexEntry| entry_view(e))
}

/// Whether the views hold layer `name` of tile `c`.
pub open spec fn held(vs: Seq<EntryView>, c: TileCoordinate, name: Seq<char>) -> bool {
    exists|i: int| 0 <= i < vs.len() && (#[trigger] vs[i]).0 == c && vs[i].1 == name
}

/// Whether `m` is tessellated geometry of layer `name` whose index count
/// fits in `usize`.
pub open spec fn is_geometry_of(m: LayerTessellateMessage, name: Seq<char>) -> bool {
    match m {
        LayerTessellateMessage::TessellatedLayer { layer_name, feature_indices, .. } =>
            layer_name@ == name && index_count(feature_indices@) <= usize::MAX,
        LayerTessellateMessage::UnavailableLayer { .. } => false,
    }
}

/// The entry style layer `l` makes on tile `c` from geometry `m`.
pub open spec fn view_from(c: TileCoordinate, l: StyleLayer, m: LayerTessellateMessage) -> EntryView {
    match m {
        LayerTessellateMessage::TessellatedLayer { buffer, feature_indices, .. } =>
            (c, l.source_layer->Some_0@, l.index, buffer@, replicated(feature_indices@, l.paint_color())),
        LayerTessellateMessage::UnavailableLayer { .. } => (c, l.source_layer->Some_0@, l.index, Seq::empty(), Seq::empty()),
    }
}

/// Upload of one style layer on tile `c`: where the layer draws a source
/// layer that the cache has geometry for and that is not resident yet, one
/// entry is appended; otherwise nothing changes. So of several style layers
/// drawing one source layer, only the first in paint order gets geometry.
pub open spec fn upload_layer(vs: Seq<EntryView>, cache: TileCache, c: TileCoordinate, l: StyleLayer) -> Seq<EntryView> {
    match l.source_layer {
        Some(src) => if tessellated(cache, c, src@) && !held(vs, c, src@) {
            let msgs = cache.layers_at(c);
            let j = choose|j: int| 0 <= j < msgs.len() && is_geometry_of(msgs[j], src@);
            vs.push(view_from(c, l, msgs[j]))
        } else {
            vs
        },
        None => vs,
    }
}

/// Upload of tile `c` for the style layers in paint order.
pub open spec fn upload_tile(vs: Seq<EntryView>, cache: TileCache, c: TileCoordinate, layers: Seq<StyleLayer>) -> Seq<EntryView>
    decreases layers.len(),
{
    if layers.len() == 0 {
        vs
    } else {
        upload_layer(upload_tile(vs, cache, c, layers.drop_last()), cache, c, layers.last())
    }
}

/// Upload of the tiles in region order.
pub open spec fn upload_tiles(vs: Seq<EntryView>, cache: TileCache, style: Style, tiles: Seq<TileCoordinate>) -> Seq<EntryView>
    decreases tiles.len(),
{
    if tiles.len() == 0 {
        vs
    } else {
        upload_tile(upload_tiles(vs, cache, style, tiles.drop_last()), cache, tiles.last(), style.layers@)
    }
}

proof fn lemma_held_views(s: Seq<IndexEntry>)
    ensures
        forall|c: TileCoordinate, name: Seq<char>| #[trigger] held(entry_views(s), c, name) <==> holds(s, c, name),
{
    assert forall|c: TileCoordinate, name: Seq<char>| #[trigger] held(entry_views(s), c, name) <==> holds(s, c, name) by {
        if held(entry_views(s), c, name) {
            let i = choose|i: int| 0 <= i < entry_views(s).len() && (#[trigger] entry_views(s)[i]).0 == c && entry_views(s)[i].1 == name;
            assert(entry_views(s)[i] == entry_view(s[i]));
        }
        if holds(s, c, name) {
            let i = choose|i: int| 0 <= i < s.len() && (#[trigger] s[i]).coords == c && s[i].layer_name@ == name;
            assert(entry_views(s)[i] == entry_view(s[i]));
        }
    };
}

/// What one upload does to the pool: the entries already there stay as
/// they were, a (tile, layer) pair becomes resident exactly where it was or
/// is wanted, and every new entry is made from the cache and the style.
/// The new entries are fixed exactly, in order: tiles in region order, and
/// on each tile the style layers in paint order (`upload_tiles`).
pub open spec fn upload_post(p0: BufferPool, p1: BufferPool, cache: TileCache, style: Style, region: ViewRegion) -> bool {
    &&& grown_from(p0, p1, cache, style, region)
    &&& entry_views(p1.spec_entries()) == upload_tiles(entry_views(p0.spec_entries()), cache, style, region.tiles@)
    &&& forall|c: TileCoordinate, name: Seq<char>| #[trigger] p1.resident(c, name) <==> (p0.resident(c, name) || wanted(cache, style, region, c, name))
}

} // verus!
verus! {

/// The pool has grown from `p0` by appending only, keeping its pairs
/// distinct, and each appended entry comes from the cache and the style for
/// a tile of the region.
pub open spec fn grown_from(p0: BufferPool, p1: BufferPool, cache: TileCache, style: Style, region: ViewRegion) -> bool {
    &&& p1.wf()
    &&& p0.spec_entries().len() <= p1.spec_entries().len()
    &&& p1.spec_entries().take(p0.spec_entries().len() as int) == p0.spec_entries()
    &&& forall|i: int| p0.spec_entries().len() <= i < p1.spec_entries().len() ==> {
        &&& region.tiles@.contains(#[trigger] p1.spec_entries()[i].coords)
        &&& entry_from(p1.spec_entries()[i], cache, style)
    }
}

proof fn lemma_prefix_resident(a: BufferPool, b: BufferPool)
    requires
        a.spec_entries().len() <= b.spec_entries().len(),
        b.spec_entries().take(a.spec_entries().len() as int) == a.spec_entries(),
    ensures
        forall|c: TileCoordinate, name: Seq<char>| a.resident(c, name) ==> b.resident(c, name),
{
    assert forall|c: TileCoordinate, name: Seq<char>| a.resident(c, name) implies b.resident(c, name) by {
        let x = choose|x: int| 0 <= x < a.spec_entries().len() && (#[trigger] a.spec_entries()[x]).coords == c
            && a.spec_entries()[x].layer_name@ == name;
        assert(b.spec_entries().take(a.spec_entries().len() as int)[x] == b.spec_entries()[x]);
    };
}

proof fn lemma_grown_trans(p0: BufferPool, p1: BufferPool, p2: BufferPool, cache: TileCache, style: Style, region: ViewRegion)
    requires
        grown_from(p0, p1, cache, style, region),
        grown_from(p1, p2, cache, style, region),
    ensures
        grown_from(p0, p2, cache, style, region),
{
    let n0 = p0.spec_entries().len() as int;
    let n1 = p1.spec_entries().len() as int;
    assert(p2.spec_entries().take(n0) =~= p2.spec_entries().take(n1).take(n0));
    assert forall|i: int| n0 <= i < p2.spec_entries().len() implies {
        &&& region.tiles@.contains(#[trigger] p2.spec_entries()[i].coords)
        &&& entry_from(p2.spec_entries()[i], cache, style)
    } by {
        if i < n1 {
            assert(p2.spec_entries().take(n1)[i] == p2.spec_entries()[i]);
        }
    };
}

/// One style layer's worth of upload on tile `c`: the pool gains exactly
/// the layer it draws, where the cache holds its geometry.
pub open spec fn layer_step(mid: BufferPool, p: BufferPool, cache: TileCache, layer: StyleLayer, c: TileCoordinate) -> bool {
    forall|d: TileCoordinate, name: Seq<char>| #[trigger] p.resident(d, name) <==>
        (mid.resident(d, name) || (d == c && sources(layer, name) && tessellated(cache, c, name)))
}

proof fn lemma_push_resident(mid: BufferPool, p: BufferPool, e: IndexEntry)
    requires
        p.spec_entries() == mid.spec_entries().push(e),
    ensures
        forall|d: TileCoordinate, name: Seq<char>| #[trigger] p.resident(d, name) <==>
            (mid.resident(d, name) || (d == e.coords && name == e.layer_name@)),
{
    assert forall|d: TileCoordinate, name: Seq<char>| #[trigger] p.resident(d, name) <==>
        (mid.resident(d, name) || (d == e.coords && name == e.layer_name@)) by {
        if p.resident(d, name) {
            let x = choose|x: int| 0 <= x < p.spec_entries().len() && (#[trigger] p.spec_entries()[x]).coords == d
                && p.spec_entries()[x].layer_name@ == name;
            if x < mid.spec_entries().len() {
                assert(mid.spec_entries()[x] == p.spec_entries()[x]);
            }
        }
        if mid.resident(d, name) {
            let x = choose|x: int| 0 <= x < mid.spec_entries().len() && (#[trigger] mid.spec_entries()[x]).coords == d
                && mid.spec_entries()[x].layer_name@ == name;
            assert(mid.spec_entries()[x] == p.spec_entries()[x]);
        }
        if d == e.coords && name == e.layer_name@ {
            assert(p.spec_entries()[mid.spec_entries().len() as int] == e);
        }
    };
}

/// Makes resident every layer that the style draws, on every tile of the
/// region, for which the cache holds geometry.
fn upload_layers(pool: &mut BufferPool, tile_cache: &TileCache, style: &Style, view_region: &ViewRegion)
    requires
        old(pool).wf(),
        tile_cache.wf(),
    ensures
        upload_post(*old(pool), *final(pool), *tile_cache, *style, *view_region),
{
    let ghost p0 = *pool;
    let ghost tiles = view_region.tiles@;
    let mut i: usize = 0;
    assert(pool.spec_entries().take(p0.spec_entries().len() as int) =~= p0.spec_entries());
    assert(tiles.take(0) =~= Seq::<TileCoordinate>::empty());
    while i < view_region.tiles.len()
        invariant
            tile_cache.wf(),
            tiles == view_region.tiles@,
            i <= tiles.len(),
            grown_from(p0, *pool, *tile_cache, *style, *view_region),
            entry_views(pool.spec_entries()) == upload_tiles(entry_views(p0.spec_entries()), *tile_cache, *style, tiles.take(i as int)),
            forall|c: TileCoordinate, name: Seq<char>| #[trigger] pool.resident(c, name) <==>
                (p0.resident(c, name) || (tiles.take(i as int).contains(c) && drawn_by(style.layers@, name) && tessellated(*tile_cache, c, name))),
        decreases tiles.len() - i,
    {
        let c = view_region.tiles[i];
        let ghost before = *pool;
        assert(forall|d: TileCoordinate, name: Seq<char>| #[trigger] before.resident(d, name) <==>
            (p0.resident(d, name) || (tiles.take(i as int).contains(d) && drawn_by(style.layers@, name) && tessellated(*tile_cache, d, name))));
        let loaded = pool.get_loaded_layers_at(&c);
        let cached = tile_cache.iter_tessellated_layers_at(&c);
        proof {
            lemma_layers_at_wf(tile_cache, c);
        }
        let ghost msgs = tile_cache.layers_at(c);
        let mut k: usize = 0;
        assert(style.layers@.take(0) =~= Seq::<StyleLayer>::empty());
        assert(grown_from(before, *pool, *tile_cache, *style, *view_region)) by {
            assert(pool.spec_entries().take(before.spec_entries().len() as int) =~= before.spec_entries());
        };
        while k < style.layers.len()
            invariant
                tile_cache.wf(),
                tiles == view_region.tiles@,
                i < tiles.len(),
                c == tiles[i as int],
                msgs == tile_cache.layers_at(c),
                layers_wf(c, msgs),
                cached is None ==> msgs.len() == 0,
                cached matches Some(v) ==> v@ == msgs,
                k <= style.layers@.len(),
                forall|name: Seq<char>| (exists|x: int| 0 <= x < loaded@.len() && (#[trigger] loaded@[x])@ == name)
                    <==> before.resident(c, name),
                grown_from(before, *pool, *tile_cache, *style, *view_region),
                entry_views(pool.spec_entries()) == upload_tile(entry_views(before.spec_entries()), *tile_cache, c, style.layers@.take(k as int)),
                forall|d: TileCoordinate, name: Seq<char>| #[trigger] pool.resident(d, name) <==>
                    (before.resident(d, name) || (d == c && drawn_by(style.layers@.take(k as int), name) && tessellated(*tile_cache, c, name))),
            decreases style.layers@.len() - k,
        {
            let ghost mid = *pool;
            let layer = &style.layers[k];
            proof {
                lemma_held_views(mid.spec_entries());
                assert(style.layers@.take(k + 1).drop_last() =~= style.layers@.take(k as int));
                assert(style.layers@.take(k + 1).last() == *layer);
            }
            assert(grown_from(mid, mid, *tile_cache, *style, *view_region)) by {
                assert(mid.spec_entries().take(mid.spec_entries().len() as int) =~= mid.spec_entries());
            };
            proof {
                assert forall|name: Seq<char>| drawn_by(style.layers@.take(k + 1), name)
                    <==> (drawn_by(style.layers@.take(k as int), name) || sources(*layer, name)) by {
                    if drawn_by(style.layers@.take(k + 1), name) {
                        let x = choose|x: int| 0 <= x < k + 1 && sources(#[trigger] style.layers@.take(k + 1)[x], name);
                        if x < k {
                            assert(style.layers@.take(k as int)[x] == style.layers@.take(k + 1)[x]);
                        }
                    }
                    if drawn_by(style.layers@.take(k as int), name) {
                        let x = choose|x: int| 0 <= x < k && sources(#[trigger] style.layers@.take(k as int)[x], name);
                        assert(style.layers@.take(k as int)[x] == style.layers@.take(k + 1)[x]);
                    }
                    if sources(*layer, name) {
                        assert(style.layers@.take(k + 1)[k as int] == *layer);
                    }
                };
            }
            match (&layer.source_layer, cached) {
                (Some(source), Some(layers)) => {
                    let mut j: usize = 0;
                    while j < layers.len() && !(*layers[j].layer_name() == *source)
                        invariant
                            j <= layers@.len(),
                            forall|x: int| 0 <= x < j ==> layers@[x].name() != source@,
                        decreases layers@.len() - j,
                    {
                        j = j + 1;
                    }
                    if j < layers.len() {
                        match &layers[j] {
                            LayerTessellateMessage::TessellatedLayer { buffer, feature_indices, .. } => {
                                let color = match layer.color {
                                    Some(col) => col,
                                    None => crate::style::default_color(),
                                };
                                let meta = feature_metadata(feature_indices, color);
                                let mut is_loaded = false;
                                let mut x: usize = 0;
                                while x < loaded.len()
                                    invariant
                                        x <= loaded@.len(),
                                        is_loaded == exists|y: int| 0 <= y < x && (#[trigger] loaded@[y])@ == source@,
                                    decreases loaded@.len() - x,
                                {
                                    if loaded[x] == *source {
                                        is_loaded = true;
                                    }
                                    x = x + 1;
                                }
                                match meta {
                                    Some(m) => {
                                        if !is_loaded {
                                            let bytes = buffer.clone();
                                            assert(bytes@ =~= buffer@);
                                            let name = source.clone();
                                            let ghost e = IndexEntry { coords: c, layer_name: name, style_layer_index: layer.index, buffer: bytes, feature_metadata: m };
                                            let added = pool.allocate_layer_geometry(c, name, layer.index, bytes, m);
                                            proof {
                                                let jj = j as int;
                                                assert(msgs[jj] == layers@[jj]);
                                                assert(msgs[jj].spec_coords() == c);
                                                assert(tessellated(*tile_cache, c, source@));
                                                assert(is_geometry_of(msgs[jj], source@));
                                                assert forall|jx: int| 0 <= jx < msgs.len() && is_geometry_of(msgs[jx], source@) implies jx == jj by {
                                                    if jx < jj { assert(msgs[jx].name() != msgs[jj].name()); }
                                                    if jx > jj { assert(msgs[jj].name() != msgs[jx].name()); }
                                                };
                                                if added {
                                                    assert(entry_views(pool.spec_entries()) =~= entry_views(mid.spec_entries()).push(entry_view(e)));
                                                    assert(!held(entry_views(mid.spec_entries()), c, source@));
                                                    assert(entry_view(e) == view_from(c, *layer, msgs[jj]));
                                                } else {
                                                    assert(held(entry_views(mid.spec_entries()), c, source@));
                                                }
                                                if added {
                                                    lemma_push_resident(mid, *pool, e);
                                                    assert(made_from(e, style.layers@[k as int], msgs[jj]));
                                                    assert(entry_from(e, *tile_cache, *style));
                                                    let nb = mid.spec_entries().len() as int;
                                                    assert(pool.spec_entries().take(nb) =~= mid.spec_entries().take(nb));
                                                    assert(tiles.contains(c)) by { assert(tiles[i as int] == c); }
                                                    assert forall|y: int| nb <= y < pool.spec_entries().len() implies {
                                                        &&& view_region.tiles@.contains(#[trigger] pool.spec_entries()[y].coords)
                                                        &&& entry_from(pool.spec_entries()[y], *tile_cache, *style)
                                                    } by {
                                                        if y < mid.spec_entries().len() {
                                                            assert(mid.spec_entries()[y] == pool.spec_entries()[y]);
                                                        }
                                                    };
                                                }
                                                assert(layer_step(mid, *pool, *tile_cache, *layer, c));
                                            }
                                        } else {
                                            proof {
                                                lemma_prefix_resident(before, mid);
                                                assert(before.resident(c, source@));
                                            }
                                        }
                                    },
                                    None => {
                                        proof {
                                            assert forall|jx: int| 0 <= jx < msgs.len() && msgs[jx].name() == source@ implies jx == j as int by {
                                                assert(msgs[j as int] == layers@[j as int]);
                                                if jx < j as int { assert(msgs[jx].name() != msgs[j as int].name()); }
                                                if jx > j as int { assert(msgs[j as int].name() != msgs[jx].name()); }
                                            };
                                            assert(msgs[j as int] == layers@[j as int]);
                                        }
                                    },
                                }
                            },
                            LayerTessellateMessage::UnavailableLayer { .. } => {
                                proof {
                                    assert forall|jx: int| 0 <= jx < msgs.len() && msgs[jx].name() == source@ implies jx == j as int by {
                                        assert(msgs[j as int] == layers@[j as int]);
                                        if jx < j as int { assert(msgs[jx].name() != msgs[j as int].name()); }
                                        if jx > j as int { assert(msgs[j as int].name() != msgs[jx].name()); }
                                    };
                                    assert(msgs[j as int] == layers@[j as int]);
                                }
                            },
                        }
                    }
                    proof {
                        assert(layer_step(mid, *pool, *tile_cache, *layer, c));
                        assert(grown_from(mid, *pool, *tile_cache, *style, *view_region));
                        assert(entry_views(pool.spec_entries()) == upload_layer(entry_views(mid.spec_entries()), *tile_cache, c, *layer));
                    }
                },
                _ => {
                    proof {
                        assert(layer_step(mid, *pool, *tile_cache, *layer, c));
                        assert(grown_from(mid, *pool, *tile_cache, *style, *view_region));
                        assert(entry_views(pool.spec_entries()) == upload_layer(entry_views(mid.spec_entries()), *tile_cache, c, *layer));
                    }
                },
            }
            proof {
                lemma_grown_trans(before, mid, *pool, *tile_cache, *style, *view_region);
            }
            k = k + 1;
        }
        proof {
            assert(style.layers@.take(k as int) =~= style.layers@);
            assert(tiles.take(i + 1).drop_last() =~= tiles.take(i as int));
            assert(tiles.take(i + 1).last() == c);
            lemma_grown_trans(p0, before, *pool, *tile_cache, *style, *view_region);
            assert forall|d: TileCoordinate| tiles.take(i + 1).contains(d) <==> (tiles.take(i as int).contains(d) || d == c) by {
                if tiles.take(i + 1).contains(d) {
                    let x = tiles.take(i + 1).index_of(d);
                    if x < i { assert(tiles.take(i as int)[x] == d); }
                }
                if tiles.take(i as int).contains(d) {
                    let x = tiles.take(i as int).index_of(d);
                    assert(tiles.take(i + 1)[x] == d);
                }
                if d == c { assert(tiles.take(i + 1)[i as int] == d); }
            };
            assert forall|d: TileCoordinate, name: Seq<char>| #[trigger] pool.resident(d, name) <==>
                (p0.resident(d, name) || (tiles.take(i + 1).contains(d) && drawn_by(style.layers@, name) && tessellated(*tile_cache, d, name))) by {
                assert(pool.resident(d, name) <==> (before.resident(d, name) || (d == c && drawn_by(style.layers@, name) && tessellated(*tile_cache, c, name))));
                assert(before.resident(d, name) <==> (p0.resident(d, name) || (tiles.take(i as int).contains(d) && drawn_by(style.layers@, name) && tessellated(*tile_cache, d, name))));
            };
        }
        i = i + 1;
    }
    assert(tiles.take(i as int) =~= tiles);
}

} // verus!
verus! {

/// A GPU resource that needs deferred setup before its first use. Anything
/// that is not yet `Initialized` is passed over, not treated as an error.
#[derive(Debug)]
pub enum Eventually<T> {
    Uninitialized,
    Initializing,
    Initialized(T),
}

/// Whether any layer of tile `c` is resident.
pub open spec fn has_geometry(pool: BufferPool, c: TileCoordinate) -> bool {
    exists|x: int| 0 <= x < pool.spec_entries().len() && (#[trigger] pool.spec_entries()[x]).coords == c
}

/// One visible tile of the tile-view pattern.
#[derive(Clone, Copy, Debug, PartialEq, Eq, Structural)]
pub struct TileInView {
    pub coords: TileCoordinate,
    /// Whether geometry for the tile is resident and can be drawn.
    pub has_geometry: bool,
}

/// The table that maps each visible tile to the screen, at one zoom.
#[derive(Debug)]
pub struct TileViewPattern {
    pub tiles: Vec<TileInView>,
    pub zoom: u8,
}

/// Whether `tiles` is the pattern of `region` over `pool`.
pub open spec fn pattern_of(tiles: Seq<TileInView>, region: Seq<TileCoordinate>, pool: BufferPool) -> bool {
    &&& tiles.len() == region.len()
    &&& forall|i: int| 0 <= i < tiles.len() ==> (#[trigger] tiles[i]).coords == region[i]
        && tiles[i].has_geometry == has_geometry(pool, region[i])
}

impl TileViewPattern {
    /// An empty pattern.
    pub fn new() -> (r: TileViewPattern)
        ensures
            r.tiles@.len() == 0,
    {
        TileViewPattern { tiles: Vec::new(), zoom: 0 }
    }

    /// Rebuilds the pattern for the tiles of `view_region`, recording which
    /// of them have resident geometry.
    pub fn update_pattern(&mut self, view_region: &ViewRegion, pool: &BufferPool, zoom: u8)
        ensures
            final(self).zoom == zoom,
            pattern_of(final(self).tiles@, view_region.tiles@, *pool),
    {
        let mut tiles: Vec<TileInView> = Vec::new();
        let mut i: usize = 0;
        while i < view_region.tiles.len()
            invariant
                i <= view_region.tiles@.len(),
                pattern_of(tiles@, view_region.tiles@.take(i as int), *pool),
            decreases view_region.tiles@.len() - i,
        {
            let c = view_region.tiles[i];
            let entries = pool.entries();
            let mut x: usize = 0;
            while x < entries.len() && entries[x].coords != c
                invariant
                    x <= entries@.len(),
                    entries@ == pool.spec_entries(),
                    forall|y: int| 0 <= y < x ==> entries@[y].coords != c,
                decreases entries@.len() - x,
            {
                x = x + 1;
            }
            let ghost before = tiles@;
            tiles.push(TileInView { coords: c, has_geometry: x < entries.len() });
            proof {
                assert(x < entries@.len() ==> pool.spec_entries()[x as int].coords == c);
                assert forall|k: int| 0 <= k < tiles@.len() implies (#[trigger] tiles@[k]).coords == view_region.tiles@.take(i + 1)[k]
                    && tiles@[k].has_geometry == has_geometry(*pool, view_region.tiles@.take(i + 1)[k]) by {
                    if k < i {
                        assert(tiles@[k] == before[k]);
                        assert(view_region.tiles@.take(i + 1)[k] == view_region.tiles@.take(i as int)[k]);
                    }
                };
            }
            i = i + 1;
        }
        assert(view_region.tiles@.take(i as int) =~= view_region.tiles@);
        self.tiles = tiles;
        self.zoom = zoom;
    }
}

/// The render resources the pipeline stages work on.
#[derive(Debug)]
pub struct RenderState {
    pub buffer_pool: Eventually<BufferPool>,
    pub tile_view_pattern: Eventually<TileViewPattern>,
}

/// What the camera shows this frame: its inverse-projected bounding box in
/// tile units (`None` where the projection cannot be inverted), its zoom
/// and the level of detail it asks for.
#[derive(Clone, Copy, Debug)]
pub struct CameraView {
    pub bounding_box: Option<crate::coords::BoundingBox>,
    pub zoom: u8,
    pub visible_level: u8,
}

/// The prepare sub-stage that uploads visible geometry.
#[derive(Debug, Default)]
pub struct UploadStage;

/// What one upload does to the render state: an initialized pool is
/// uploaded into, anything else stays as it was.
pub open spec fn uploaded(s0: RenderState, s1: RenderState, cache: TileCache, style: Style, region: ViewRegion) -> bool {
    match s0.buffer_pool {
        Eventually::Initialized(p0) => s1.buffer_pool matches Eventually::Initialized(p1)
            && upload_post(p0, p1, cache, style, region),
        _ => s1.buffer_pool == s0.buffer_pool,
    }
}

/// The pool of a render state is sound where it is initialized.
pub open spec fn state_wf(s: RenderState) -> bool {
    s.buffer_pool matches Eventually::Initialized(p) ==> p.wf()
}

impl UploadStage {
    /// Makes resident, in an initialized pool, every layer that the style
    /// draws on a tile of `view_region` and the cache holds geometry for.
    /// A layer already resident is never allocated again.
    pub fn upload_tile_geometry(&self, state: &mut RenderState, tile_cache: &TileCache, style: &Style, view_region: &ViewRegion)
        requires
            state_wf(*old(state)),
            tile_cache.wf(),
        ensures
            uploaded(*old(state), *final(state), *tile_cache, *style, *view_region),
            final(state).tile_view_pattern == old(state).tile_view_pattern,
    {
        match &mut state.buffer_pool {
            Eventually::Initialized(pool) => upload_layers(pool, tile_cache, style, view_region),
            _ => {},
        }
    }
}

/// What a rebuild of the tile-view pattern does to the render state.
pub open spec fn pattern_updated(s0: RenderState, s1: RenderState, region: ViewRegion, zoom: u8) -> bool {
    match (s0.tile_view_pattern, s0.buffer_pool) {
        (Eventually::Initialized(_), Eventually::Initialized(pool)) =>
            s1.tile_view_pattern matches Eventually::Initialized(t)
            && t.zoom == zoom && pattern_of(t.tiles@, region.tiles@, pool),
        _ => s1.tile_view_pattern == s0.tile_view_pattern,
    }
}

/// One frame of the stage for a camera that could be inverted: `region` is
/// the camera's view region, the pool was uploaded into for it, and the
/// pattern rebuilt over the new pool.
pub open spec fn frame_done(s0: RenderState, s1: RenderState, cache: TileCache, style: Style, camera: CameraView, region: ViewRegion) -> bool {
    &&& region.zoom == camera.zoom
    &&& row_major_sorted(region.tiles@)
    &&& forall|t: TileCoordinate| region.tiles@.contains(t) <==> (!is_degenerate(camera.bounding_box)
        && in_region(camera.bounding_box->Some_0, 0, clipped_level(camera.visible_level), t))
    &&& exists|mid: RenderState| uploaded(s0, mid, cache, style, region)
        && pattern_updated(mid, s1, region, camera.zoom)
        && s1.buffer_pool == mid.buffer_pool
}

impl UploadStage {
    /// Rebuilds the tile-view pattern for `view_region` where the pattern and
    /// the pool are both initialized.
    pub fn update_tile_view_pattern(&self, state: &mut RenderState, view_region: &ViewRegion, zoom: u8)
        ensures
            pattern_updated(*old(state), *final(state), *view_region, zoom),
            final(state).buffer_pool == old(state).buffer_pool,
    {
        let RenderState { buffer_pool, tile_view_pattern } = state;
        match (tile_view_pattern, &*buffer_pool) {
            (Eventually::Initialized(pattern), Eventually::Initialized(pool)) => {
                pattern.update_pattern(view_region, pool, zoom);
            },
            _ => {},
        }
    }

    /// Per-feature paint is fixed at upload: every index of a layer carries
    /// the layer's single paint color, so there is nothing to refresh.
    pub fn update_metadata(&self) {
    }

    /// Runs the stage for one frame: computes the view region from the
    /// camera and, where the camera's projection could be inverted, uploads
    /// the visible geometry and rebuilds the tile-view pattern over the
    /// updated pool. Returns the region for the transforms to be written.
    pub fn run(&mut self, state: &mut RenderState, tile_cache: &TileCache, style: &Style, camera: &CameraView) -> (r: Option<ViewRegion>)
        requires
            state_wf(*old(state)),
            tile_cache.wf(),
        ensures
            state_wf(*final(state)),
            camera.bounding_box is None ==> r is None && *final(state) == *old(state),
            camera.bounding_box is Some ==> (r matches Some(region)
                && frame_done(*old(state), *final(state), *tile_cache, *style, *camera, region)),
    {
        if camera.bounding_box.is_none() {
            return None;
        }
        let region = ViewRegion::new(camera.bounding_box, 0, camera.zoom, camera.visible_level);
        self.upload_tile_geometry(state, tile_cache, style, &region);
        let ghost mid = *state;
        self.update_tile_view_pattern(state, &region, camera.zoom);
        self.update_metadata();
        assert(uploaded(*old(state), mid, *tile_cache, *style, region));
        Some(region)
    }
}

/// Upload never allocates a layer twice: run again on a pool it has just
/// filled, with the same cache, style and region, it allocates nothing.
pub proof fn lemma_upload_idempotent(p0: BufferPool, p1: BufferPool, p2: BufferPool, cache: TileCache, style: Style, region: ViewRegion)
    requires
        upload_post(p0, p1, cache, style, region),
        upload_post(p1, p2, cache, style, region),
    ensures
        p2.spec_entries() == p1.spec_entries(),
{
    let n1 = p1.spec_entries().len() as int;
    if p2.spec_entries().len() > n1 {
        let e = p2.spec_entries()[n1];
        assert(p2.resident(e.coords, e.layer_name@));
        assert(p1.resident(e.coords, e.layer_name@));
        let x = choose|x: int| 0 <= x < n1 && (#[trigger] p1.spec_entries()[x]).coords == e.coords
            && p1.spec_entries()[x].layer_name@ == e.layer_name@;
        assert(p2.spec_entries().take(n1)[x] == p2.spec_entries()[x]);
        assert(pairs_distinct(p2.spec_entries()));
        assert(false);
    }
    assert(p2.spec_entries() =~= p2.spec_entries().take(n1));
}

/// Upload never re-allocates a layer that was resident before it: no entry
/// it adds is for a (tile, layer) pair the pool already held, and the
/// entries already there stay as they were.
pub proof fn lemma_upload_keeps_resident_layers(p0: BufferPool, p1: BufferPool, cache: TileCache, style: Style, region: ViewRegion)
    requires
        upload_post(p0, p1, cache, style, region),
    ensures
        forall|i: int| 0 <= i < p0.spec_entries().len() ==> p1.spec_entries()[i] == p0.spec_entries()[i],
        forall|i: int| p0.spec_entries().len() <= i < p1.spec_entries().len()
            ==> !p0.resident(#[trigger] p1.spec_entries()[i].coords, p1.spec_entries()[i].layer_name@),
{
    let n0 = p0.spec_entries().len() as int;
    assert forall|i: int| 0 <= i < n0 implies p1.spec_entries()[i] == p0.spec_entries()[i] by {
        assert(p1.spec_entries().take(n0)[i] == p1.spec_entries()[i]);
    };
    assert forall|i: int| n0 <= i < p1.spec_entries().len()
        implies !p0.resident(#[trigger] p1.spec_entries()[i].coords, p1.spec_entries()[i].layer_name@) by {
        let e = p1.spec_entries()[i];
        if p0.resident(e.coords, e.layer_name@) {
            let x = choose|x: int| 0 <= x < n0 && (#[trigger] p0.spec_entries()[x]).coords == e.coords
                && p0.spec_entries()[x].layer_name@ == e.layer_name@;
            assert(p1.spec_entries().take(n0)[x] == p1.spec_entries()[x]);
            assert(pairs_distinct(p1.spec_entries()));
        }
    };
}

/// A tile outside the view region gains no geometry from an upload: its
/// resident layers stay as they were.
pub proof fn lemma_upload_skips_hidden_tiles(p0: BufferPool, p1: BufferPool, cache: TileCache, style: Style, region: ViewRegion, c: TileCoordinate)
    requires
        upload_post(p0, p1, cache, style, region),
        !region.tiles@.contains(c),
    ensures
        forall|name: Seq<char>| p1.resident(c, name) == p0.resident(c, name),
        forall|i: int| p0.spec_entries().len() <= i < p1.spec_entries().len() ==> (#[trigger] p1.spec_entries()[i]).coords != c,
{
    assert forall|name: Seq<char>| p1.resident(c, name) == p0.resident(c, name) by {
        assert(p1.resident(c, name) <==> (p0.resident(c, name) || wanted(cache, style, region, c, name)));
    };
}

/// A tessellated result just inserted into the cache, for a tile in view
/// and a layer the style draws, is resident after the next upload,
/// provided its index count fits in `usize` and the cache can hold a tile.
pub proof fn lemma_inserted_geometry_uploaded(
    c0: TileCache,
    c1: TileCache,
    m: LayerTessellateMessage,
    p0: BufferPool,
    p1: BufferPool,
    style: Style,
    region: ViewRegion,
)
    requires
        c0.wf(),
        c0.spec_capacity() > 0,
        inserted(c0, c1, m),
        is_geometry_of(m, m.name()),
        region.tiles@.contains(m.spec_coords()),
        drawn_by(style.layers@, m.name()),
        upload_post(p0, p1, c1, style, region),
    ensures
        p1.resident(m.spec_coords(), m.name()),
{
    lemma_insert_then_query(c0, c1, m);
    let ls = c1.layers_at(m.spec_coords());
    let j = ls.index_of(m);
    assert(ls[j] == m);
    assert(tessellated(c1, m.spec_coords(), m.name()));
    assert(wanted(c1, style, region, m.spec_coords(), m.name()));
}

/// Where the cache holds no usable geometry for layer `name` of tile `c`
/// (only an unavailable result, or nothing, as after eviction), upload
/// does not make it resident.
pub proof fn lemma_upload_skips_missing_geometry(
    p0: BufferPool,
    p1: BufferPool,
    cache: TileCache,
    style: Style,
    region: ViewRegion,
    c: TileCoordinate,
    name: Seq<char>,
)
    requires
        upload_post(p0, p1, cache, style, region),
        !p0.resident(c, name),
        forall|j: int| 0 <= j < cache.layers_at(c).len() ==> !is_geometry_of(#[trigger] cache.layers_at(c)[j], name),
    ensures
        !p1.resident(c, name),
{
    if tessellated(cache, c, name) {
        let j = choose|j: int| 0 <= j < cache.layers_at(c).len() && match #[trigger] cache.layers_at(c)[j] {
            LayerTessellateMessage::TessellatedLayer { layer_name, feature_indices, .. } =>
                layer_name@ == name && index_count(feature_indices@) <= usize::MAX,
            LayerTessellateMessage::UnavailableLayer { .. } => false,
        };
        assert(is_geometry_of(cache.layers_at(c)[j], name));
    }
}

} // verus!
