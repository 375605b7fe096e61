//! The store of tessellation results, keyed by tile and layer name.
use vstd::prelude::*;
use crate::coords::TileCoordinate;

verus! {

/// What the tessellation pipeline reports for one layer of one tile.
#[derive(Clone, Debug)]
pub enum LayerTessellateMessage {
    /// The layer could not be tessellated; the tile renders without it.
    UnavailableLayer { coords: TileCoordinate, layer_name: String },
    /// GPU-ready geometry: the vertex and index bytes, and for each feature
    /// the number of indices it spans.
    TessellatedLayer {
        coords: TileCoordinate,
        layer_name: String,
        buffer: Vec<u8>,
        feature_indices: Vec<u32>,
    },
}

impl LayerTessellateMessage {
    pub open spec fn spec_coords(&self) -> TileCoordinate {
        match self {
            LayerTessellateMessage::UnavailableLayer { coords, .. } => *coords,
            LayerTessellateMessage::TessellatedLayer { coords, .. } => *coords,
        }
    }

    pub open spec fn name(&self) -> Seq<char> {
        match self {
            LayerTessellateMessage::UnavailableLayer { layer_name, .. } => layer_name@,
            LayerTessellateMessage::TessellatedLayer { layer_name, .. } => layer_name@,
        }
    }

    /// The tile this result belongs to.
    pub fn coords(&self) -> (r: TileCoordinate)
        ensures
            r == self.spec_coords(),
    {
        match self {
            LayerTessellateMessage::UnavailableLayer { coords, .. } => *coords,
            LayerTessellateMessage::TessellatedLayer { coords, .. } => *coords,
        }
    }

    /// The source layer this result belongs to.
    pub fn layer_name(&self) -> (r: &String)
        ensures
            r@ == self.name(),
    {
        match self {
            LayerTessellateMessage::UnavailableLayer { layer_name, .. } => layer_name,
            LayerTessellateMessage::TessellatedLayer { layer_name, .. } => layer_name,
        }
    }
}

/// The results known for one tile, one per layer name.
#[derive(Debug)]
pub struct TileEntry {
    pub coords: TileCoordinate,
    pub layers: Vec<LayerTessellateMessage>,
}

/// Tessellation results by tile, oldest-inserted tile first. Once more
/// than `capacity` tiles are held, the oldest is dropped.
#[derive(Debug)]
pub struct TileCache {
    entries: Vec<TileEntry>,
    capacity: usize,
}

/// No two results of a tile share a layer name, and each belongs to the tile.
pub open spec fn layers_wf(c: TileCoordinate, layers: Seq<LayerTessellateMessage>) -> bool {
    &&& forall|i: int| 0 <= i < layers.len() ==> (#[trigger] layers[i]).spec_coords() == c
    &&& forall|i: int, j: int| 0 <= i < j < layers.len() ==> (#[trigger] layers[i]).name() != (#[trigger] layers[j]).name()
}

/// Where the result for `name` at `c` goes once `m` is added: it takes the
/// place of an earlier result with the same name, or comes last.
pub open spec fn insert_layer(layers: Seq<LayerTessellateMessage>, m: LayerTessellateMessage) -> Seq<LayerTessellateMessage> {
    if exists|i: int| 0 <= i < layers.len() && layers[i].name() == m.name() {
        let i = choose|i: int| 0 <= i < layers.len() && layers[i].name() == m.name();
        layers.update(i, m)
    } else {
        layers.push(m)
    }
}

/// What inserting `m` into `c0` gives `c1`.
pub open spec fn inserted(c0: TileCache, c1: TileCache, m: LayerTessellateMessage) -> bool {
    let c = m.spec_coords();
    &&& c1.spec_capacity() == c0.spec_capacity()
    &&& c0.tiles().contains(c) ==> {
        &&& c1.tiles() == c0.tiles()
        &&& forall|d: TileCoordinate| d != c ==> c1.layers_at(d) == c0.layers_at(d)
        &&& c1.layers_at(c) == insert_layer(c0.layers_at(c), m)
    }
    &&& !c0.tiles().contains(c) && c0.tiles().len() < c0.spec_capacity() ==> {
        &&& c1.tiles() == c0.tiles().push(c)
        &&& forall|d: TileCoordinate| d != c ==> c1.layers_at(d) == c0.layers_at(d)
        &&& c1.layers_at(c) == seq![m]
    }
    &&& !c0.tiles().contains(c) && c0.tiles().len() == c0.spec_capacity() && c0.spec_capacity() > 0 ==> {
        &&& c1.tiles() == c0.tiles().push(c).drop_first()
        &&& forall|d: TileCoordinate| d != c && d != c0.tiles()[0] ==> c1.layers_at(d) == c0.layers_at(d)
        &&& c1.layers_at(c) == seq![m]
        &&& c1.layers_at(c0.tiles()[0]).len() == 0
    }
    &&& !c0.tiles().contains(c) && c0.spec_capacity() == 0 ==> c1.tiles().len() == 0
}

impl TileCache {
    /// The tiles held, oldest first.
    pub closed spec fn tiles(&self) -> Seq<TileCoordinate> {
        self.entries@.map_values(|e: TileEntry| e.coords)
    }

    /// The results held for the `i`-th tile.
    pub closed spec fn layers(&self, i: int) -> Seq<LayerTessellateMessage> {
        self.entries@[i].layers@
    }

    pub closed spec fn spec_capacity(&self) -> usize {
        self.capacity
    }

    /// The results held for tile `c`, empty where none are.
    pub open spec fn layers_at(&self, c: TileCoordinate) -> Seq<LayerTessellateMessage> {
        if self.tiles().contains(c) {
            self.layers(self.tiles().index_of(c))
        } else {
            Seq::empty()
        }
    }

    pub open spec fn wf(&self) -> bool {
        &&& self.tiles().no_duplicates()
        &&& self.tiles().len() <= self.spec_capacity()
        &&& forall|i: int| 0 <= i < self.tiles().len() ==> layers_wf(self.tiles()[i], #[trigger] self.layers(i))
    }

    /// An empty cache that holds at most `capacity` tiles.
    pub fn new(capacity: usize) -> (r: TileCache)
        ensures
            r.wf(),
            r.tiles().len() == 0,
            r.spec_capacity() == capacity,
    {
        TileCache { entries: Vec::new(), capacity }
    }

    /// Records a tessellation result. A result for a tile already held joins
    /// that tile's results, replacing one of the same layer name; a new tile
    /// comes last, and the oldest tile is dropped if that exceeds the capacity.
    pub fn insert(&mut self, message: LayerTessellateMessage)
        requires
            old(self).wf(),
        ensures
            final(self).wf(),
            inserted(*old(self), *final(self), message),
    {
        let c = message.coords();
        let ghost old_tiles = self.tiles();
        let mut i: usize = 0;
        while i < self.entries.len() && self.entries[i].coords != c
            invariant
                self.wf(),
                self.tiles() == old_tiles,
                i <= self.entries@.len(),
                forall|k: int| 0 <= k < i ==> self.entries@[k].coords != c,
            decreases self.entries@.len() - i,
        {
            i = i + 1;
        }
        let ghost pre = *self;
        if i < self.entries.len() {
            proof {
                assert(old_tiles[i as int] == c);
                lemma_index_of_unique(old_tiles, i as int);
            }
            let mut entry = self.entries.remove(i);
            let name = message.layer_name().clone();
            let ghost old_layers = entry.layers@;
            assert(old_layers == pre.layers(i as int));
            let mut j: usize = 0;
            assert(name@ == message.name());
            while j < entry.layers.len() && !(*entry.layers[j].layer_name() == name)
                invariant
                    entry.layers@ == old_layers,
                    j <= old_layers.len(),
                    forall|k: int| 0 <= k < j ==> old_layers[k].name() != name@,
                decreases old_layers.len() - j,
            {
                j = j + 1;
            }
            proof {
                assert(layers_wf(c, old_layers)) by {
                    assert(pre.tiles()[i as int] == c);
                }
            }
            if j < entry.layers.len() {
                proof {
                    let k = choose|k: int| 0 <= k < old_layers.len() && old_layers[k].name() == message.name();
                    if k != j as int {
                        if k < j { } else { assert(old_layers[j as int].name() != old_layers[k].name()); }
                    }
                }
                entry.layers.set(j, message);
            } else {
                entry.layers.push(message);
            }
            let ghost new_layers = entry.layers@;
            assert(new_layers == insert_layer(old_layers, message));
            self.entries.insert(i, entry);
            proof {
                assert(self.entries@ == pre.entries@.update(i as int, self.entries@[i as int]));
                assert(self.tiles() =~= old_tiles);
                assert forall|x: int, y: int| 0 <= x < y < new_layers.len() implies (#[trigger] new_layers[x]).name() != (#[trigger] new_layers[y]).name() by {
                    if x < old_layers.len() && y < old_layers.len() {
                    } else if y == old_layers.len() {
                        assert(new_layers[x] == old_layers[x]);
                    }
                };
                assert forall|k: int| 0 <= k < self.tiles().len() implies layers_wf(self.tiles()[k], #[trigger] self.layers(k)) by {
                    if k != i { assert(self.layers(k) == pre.layers(k)); }
                };
                assert forall|d: TileCoordinate| d != c implies self.layers_at(d) == pre.layers_at(d) by {
                    if old_tiles.contains(d) {
                        let k = old_tiles.index_of(d);
                        lemma_index_of_unique(old_tiles, k);
                        assert(self.layers(k) == pre.layers(k));
                    }
                };
            }
        } else {
            let ghost cap = self.capacity;
            let mut layers: Vec<LayerTessellateMessage> = Vec::new();
            layers.push(message);
            self.entries.push(TileEntry { coords: c, layers });
            proof {
                assert(!old_tiles.contains(c));
                assert(self.tiles() =~= old_tiles.push(c));
                lemma_push_no_dup(old_tiles, c);
                lemma_index_of_unique(self.tiles(), old_tiles.len() as int);
                assert forall|d: TileCoordinate| d != c implies self.layers_at(d) == pre.layers_at(d) by {
                    if old_tiles.contains(d) {
                        let k = old_tiles.index_of(d);
                        lemma_index_of_unique(old_tiles, k);
                        assert(self.tiles()[k] == d);
                        lemma_index_of_unique(self.tiles(), k);
                    }
                };
                assert(self.layers(old_tiles.len() as int) =~= seq![message]);
                assert(self.layers_at(c) == seq![message]);
                assert forall|k: int| 0 <= k < self.tiles().len() implies layers_wf(self.tiles()[k], #[trigger] self.layers(k)) by {
                    if k < old_tiles.len() {
                        assert(self.layers(k) == pre.layers(k));
                        assert(self.tiles()[k] == old_tiles[k]);
                    }
                };
            }
            let ghost mid = *self;
            if self.entries.len() > self.capacity {
                let _ = self.entries.remove(0);
                proof {
                    assert(self.tiles() =~= mid.tiles().drop_first());
                    assert forall|x: int, y: int| 0 <= x < y < self.tiles().len() implies self.tiles()[x] != self.tiles()[y] by {
                        assert(self.tiles()[x] == mid.tiles()[x + 1]);
                        assert(self.tiles()[y] == mid.tiles()[y + 1]);
                    };
                    assert forall|k: int| 0 <= k < self.tiles().len() implies layers_wf(self.tiles()[k], #[trigger] self.layers(k)) by {
                        assert(self.layers(k) == mid.layers(k + 1));
                        assert(self.tiles()[k] == mid.tiles()[k + 1]);
                    };
                    if cap > 0 {
                        let first = old_tiles[0];
                        assert forall|d: TileCoordinate| d != first implies self.layers_at(d) == mid.layers_at(d) by {
                            if mid.tiles().contains(d) {
                                let k = mid.tiles().index_of(d);
                                lemma_index_of_unique(mid.tiles(), k);
                                assert(k != 0);
                                assert(self.tiles()[k - 1] == d);
                                lemma_index_of_unique(self.tiles(), k - 1);
                                assert(self.layers(k - 1) == mid.layers(k));
                            } else {
                                assert forall|x: int| 0 <= x < self.tiles().len() implies self.tiles()[x] != d by {
                                    assert(self.tiles()[x] == mid.tiles()[x + 1]);
                                };
                            }
                        };
                        if old_tiles.len() > 0 {
                            assert(old_tiles.contains(first)) by { assert(old_tiles[0] == first); }
                            assert(c != first);
                            assert(self.layers_at(c) == mid.layers_at(c));
                        }
                        assert(!self.tiles().contains(first)) by {
                            if self.tiles().contains(first) {
                                let x = self.tiles().index_of(first);
                                assert(self.tiles()[x] == mid.tiles()[x + 1]);
                                assert(mid.tiles()[0] == first);
                            }
                        };
                    }
                }
            }
        }
    }

    /// The results held for tile `coords`, or `None` where the tile is not
    /// held: not tessellated yet, or dropped.
    pub fn iter_tessellated_layers_at(&self, coords: &TileCoordinate) -> (r: Option<&Vec<LayerTessellateMessage>>)
        requires
            self.wf(),
        ensures
            r is None <==> !self.tiles().contains(*coords),
            r matches Some(v) ==> v@ == self.layers_at(*coords),
    {
        let mut i: usize = 0;
        while i < self.entries.len()
            invariant
                self.wf(),
                i <= self.entries@.len(),
                forall|k: int| 0 <= k < i ==> self.tiles()[k] != *coords,
            decreases self.entries@.len() - i,
        {
            if self.entries[i].coords == *coords {
                proof {
                    assert(self.tiles()[i as int] == *coords);
                    lemma_index_of_unique(self.tiles(), i as int);
                }
                return Some(&self.entries[i].layers);
            }
            i = i + 1;
        }
        None
    }
}

/// A result just inserted is what a query for its tile yields, as long as
/// the cache can hold a tile at all.
pub proof fn lemma_insert_then_query(c0: TileCache, c1: TileCache, m: LayerTessellateMessage)
    requires
        c0.wf(),
        c0.spec_capacity() > 0,
        inserted(c0, c1, m),
    ensures
        c1.tiles().contains(m.spec_coords()),
        c1.layers_at(m.spec_coords()).contains(m),
{
    let c = m.spec_coords();
    if c0.tiles().contains(c) {
        let ls = c0.layers_at(c);
        if exists|i: int| 0 <= i < ls.len() && ls[i].name() == m.name() {
            let i = choose|i: int| 0 <= i < ls.len() && ls[i].name() == m.name();
            assert(insert_layer(ls, m)[i] == m);
        } else {
            assert(insert_layer(ls, m)[ls.len() as int] == m);
        }
    } else {
        assert(seq![m][0] == m);
        if c0.tiles().len() < c0.spec_capacity() {
            assert(c1.tiles()[c0.tiles().len() as int] == c);
        } else {
            assert(c1.tiles()[c0.tiles().len() - 1] == c0.tiles().push(c)[c0.tiles().len() as int]);
        }
    }
}

/// Inserting a new tile into a full cache drops the oldest-inserted tile
/// first: a query for it then yields nothing.
pub proof fn lemma_eviction_oldest_first(c0: TileCache, c1: TileCache, m: LayerTessellateMessage)
    requires
        c0.wf(),
        c0.spec_capacity() > 0,
        c0.tiles().len() == c0.spec_capacity(),
        !c0.tiles().contains(m.spec_coords()),
        inserted(c0, c1, m),
    ensures
        !c1.tiles().contains(c0.tiles()[0]),
        c1.layers_at(c0.tiles()[0]).len() == 0,
        c1.tiles() == c0.tiles().drop_first().push(m.spec_coords()),
{
    let first = c0.tiles()[0];
    assert(c1.tiles() =~= c0.tiles().drop_first().push(m.spec_coords()));
    if c1.tiles().contains(first) {
        let x = c1.tiles().index_of(first);
        if x < c1.tiles().len() - 1 {
            assert(c1.tiles()[x] == c0.tiles()[x + 1]);
        } else {
            assert(c0.tiles().contains(m.spec_coords())) by { assert(c0.tiles()[0] == m.spec_coords()); }
        }
    }
}

/// The results held for a tile have distinct names and belong to it.
pub proof fn lemma_layers_at_wf(cache: &TileCache, c: TileCoordinate)
    requires
        cache.wf(),
    ensures
        layers_wf(c, cache.layers_at(c)),
{
    if cache.tiles().contains(c) {
        let i = cache.tiles().index_of(c);
        assert(cache.tiles()[i] == c);
        assert(layers_wf(cache.tiles()[i], cache.layers(i)));
    }
}

/// In a sequence without repeats, an element's index is the one it sits at.
proof fn lemma_index_of_unique<A>(s: Seq<A>, i: int)
    requires
        s.no_duplicates(),
        0 <= i < s.len(),
    ensures
        s.contains(s[i]),
        s.index_of(s[i]) == i,
{
    assert(s.contains(s[i]));
    let k = s.index_of(s[i]);
    assert(s[k] == s[i]);
}

proof fn lemma_push_no_dup<A>(s: Seq<A>, a: A)
    requires
        s.no_duplicates(),
        !s.contains(a),
    ensures
        s.push(a).no_duplicates(),
{
    assert forall|x: int, y: int| 0 <= x < y < s.push(a).len() implies s.push(a)[x] != s.push(a)[y] by {
        if y == s.len() {
            assert(s[x] == s.push(a)[x]);
        }
    };
}

} // verus!
