use vstd::prelude::*;
use crate::civ::EntityId;
use crate::keyed::{pairs_map, unique_keys, no_duplicates, lemma_pairs_map_index, lemma_pairs_map_keys,
    lemma_pairs_map_update, lemma_pairs_map_push, lemma_pairs_map_remove, lemma_remove_from_set, lemma_push_to_set};
use crate::position::Position;
use crate::terrain::terrain_name;
use crate::world_map::{WorldMap, in_bounds};

verus! {

/// Default side of a chunk, in tiles.
pub const DEFAULT_CHUNK_SIZE_IN_TILES: u32 = 8;
/// Default number of chunks kept loaded on each side of the camera's chunk.
pub const DEFAULT_CHUNK_LOAD_RADIUS: u32 = 3;

/// Rust's `/` on integers: the quotient rounded toward zero.
pub open spec fn trunc_div(a: int, b: int) -> int {
    let q = abs(a) / abs(b);
    if (a >= 0) == (b > 0) { q } else { -q }
}

/// The absolute value.
pub open spec fn abs(a: int) -> int {
    if a < 0 { -a } else { a }
}

/// How chunks are sized and how many are kept around the camera.
#[derive(Debug, Clone, Copy, PartialEq, Eq, Structural)]
pub struct ChunkConfig {
    pub chunk_size: u32,
    pub load_radius: u32,
}

impl Default for ChunkConfig {
    fn default() -> (c: ChunkConfig)
        ensures
            c.chunk_size == DEFAULT_CHUNK_SIZE_IN_TILES,
            c.load_radius == DEFAULT_CHUNK_LOAD_RADIUS,
    {
        ChunkConfig { chunk_size: DEFAULT_CHUNK_SIZE_IN_TILES, load_radius: DEFAULT_CHUNK_LOAD_RADIUS }
    }
}

/// A square block of tiles, by its column and row among chunks.
#[derive(Debug, Clone, Copy, PartialEq, Eq, Hash, Structural)]
pub struct ChunkId {
    pub x: i32,
    pub y: i32,
}

/// The chunk that holds `p` when chunks are `chunk_size` tiles wide (the size taken
/// as an `i32`, as Rust's `as` does; division rounds toward zero).
pub open spec fn chunk_of(p: Position, chunk_size: u32) -> ChunkId {
    ChunkId {
        x: trunc_div(p.x as int, (chunk_size as i32) as int) as i32,
        y: trunc_div(p.y as int, (chunk_size as i32) as int) as i32,
    }
}

/// Whether `chunk_of` is defined without overflow: the size is not zero as an `i32`,
/// and no coordinate is `i32::MIN` divided by `-1`.
pub open spec fn chunk_of_defined(p: Position, chunk_size: u32) -> bool {
    &&& (chunk_size as i32) != 0
    &&& !((chunk_size as i32) == -1 && (p.x == i32::MIN || p.y == i32::MIN))
}

/// `a / b` on `i32`, rounding toward zero.
fn div_toward_zero(a: i32, b: i32) -> (r: i32)
    requires
        b != 0,
        !(a == i32::MIN && b == -1),
    ensures
        r == trunc_div(a as int, b as int),
{
    if b > 0 {
        a / b
    } else if b == i32::MIN {
        let ghost m = abs(a as int);
        assert(m / 0x8000_0000int == (if m == 0x8000_0000int { 1int } else { 0int })) by (nonlinear_arith)
            requires
                0 <= m <= 0x8000_0000int,
        ;
        if a == i32::MIN { 1 } else { 0 }
    } else {
        let q = a / (-b);
        assert(q == trunc_div(a as int, -b));
        let ghost m = abs(a as int);
        let ghost d = -b;
        proof {
            if d >= 2 {
                assert(2 * (m / d) <= m) by (nonlinear_arith)
                    requires
                        m >= 0,
                        d >= 2,
                ;
            }
        }
        -q
    }
}

impl ChunkId {
    /// The chunk at column `x` and row `y`.
    pub fn new(x: i32, y: i32) -> (c: ChunkId)
        ensures
            c == (ChunkId { x, y }),
    {
        ChunkId { x, y }
    }

    /// The chunk that holds `pos` when chunks are `chunk_size` tiles wide.
    pub fn from_position(pos: Position, chunk_size: u32) -> (c: ChunkId)
        requires
            chunk_of_defined(pos, chunk_size),
        ensures
            c == chunk_of(pos, chunk_size),
    {
        let size = chunk_size as i32;
        ChunkId { x: div_toward_zero(pos.x, size), y: div_toward_zero(pos.y, size) }
    }
}

/// Column `x` of the square of chunks of radius `r` around `c`, top to bottom.
pub open spec fn chunk_column(c: ChunkId, r: int, x: int) -> Seq<ChunkId> {
    Seq::new((2 * r + 1) as nat, |j: int| ChunkId { x: x as i32, y: (c.y - r + j) as i32 })
}

/// The first `cols` columns of the square of chunks of radius `r` around `c`, left to right.
pub open spec fn square_upto(c: ChunkId, r: int, cols: nat) -> Seq<ChunkId>
    decreases cols,
{
    if cols == 0 {
        Seq::empty()
    } else {
        square_upto(c, r, (cols - 1) as nat) + chunk_column(c, r, c.x - r + cols - 1)
    }
}

/// The square of chunks of radius `r` around `c`: columns `c.x - r` to `c.x + r`, each
/// from row `c.y - r` to `c.y + r`.
pub open spec fn chunk_square(c: ChunkId, r: int) -> Seq<ChunkId> {
    square_upto(c, r, (2 * r + 1) as nat)
}

/// Whether the square of radius `r` around `c` stays within `i32`.
pub open spec fn square_fits(c: ChunkId, r: int) -> bool {
    &&& 0 <= r
    &&& i32::MIN <= c.x - r
    &&& c.x + r <= i32::MAX
    &&& i32::MIN <= c.y - r
    &&& c.y + r <= i32::MAX
}

/// A square of radius `r` holds `(2r + 1)²` chunks.
pub proof fn lemma_square_len(c: ChunkId, r: int, cols: nat)
    requires
        0 <= r,
    ensures
        square_upto(c, r, cols).len() == cols * (2 * r + 1),
    decreases cols,
{
    if cols > 0 {
        let p = (cols - 1) as nat;
        lemma_square_len(c, r, p);
        assert(chunk_column(c, r, c.x - r + cols - 1).len() == 2 * r + 1);
        assert(p * (2 * r + 1) + (2 * r + 1) == cols * (2 * r + 1)) by (nonlinear_arith)
            requires
                p == cols - 1,
        ;
    } else {
        assert(cols * (2 * r + 1) == 0) by (nonlinear_arith)
            requires
                cols == 0,
        ;
    }
}

/// A chunk lies in the square of radius `r` around `c` exactly when both its column and
/// its row are within `r` of `c`'s.
pub proof fn lemma_square_membership(c: ChunkId, r: int, k: ChunkId)
    requires
        square_fits(c, r),
    ensures
        chunk_square(c, r).contains(k) <==> (c.x - r <= k.x <= c.x + r && c.y - r <= k.y <= c.y + r),
{
    lemma_square_upto_membership(c, r, (2 * r + 1) as nat, k);
}

proof fn lemma_square_upto_membership(c: ChunkId, r: int, cols: nat, k: ChunkId)
    requires
        square_fits(c, r),
        cols <= 2 * r + 1,
    ensures
        square_upto(c, r, cols).contains(k) <==> (c.x - r <= k.x < c.x - r + cols && c.y - r <= k.y <= c.y + r),
    decreases cols,
{
    if cols > 0 {
        lemma_square_upto_membership(c, r, (cols - 1) as nat, k);
        let prev = square_upto(c, r, (cols - 1) as nat);
        let col = chunk_column(c, r, c.x - r + cols - 1);
        let whole = prev + col;
        if c.x - r <= k.x < c.x - r + cols && c.y - r <= k.y <= c.y + r {
            if k.x < c.x - r + cols - 1 {
                let i = choose|i: int| 0 <= i < prev.len() && prev[i] == k;
                assert(whole[i] == k);
            } else {
                let j = k.y - (c.y - r);
                assert(col[j] == k);
                assert(whole[prev.len() + j] == k);
            }
        }
        if whole.contains(k) {
            let i = choose|i: int| 0 <= i < whole.len() && whole[i] == k;
            if i >= prev.len() {
                assert(col[i - prev.len()] == k);
            } else {
                assert(prev[i] == k);
            }
        }
    }
}

/// Keeps the chunks that are not in `s`.
pub open spec fn not_in(s: Seq<ChunkId>) -> spec_fn(ChunkId) -> bool {
    |k: ChunkId| !s.contains(k)
}

/// Keeps track of which chunks are loaded around the camera, and of the entity that
/// shows each.
#[derive(Debug, Clone)]
pub struct ChunkManager {
    pub config: ChunkConfig,
    pub loaded_chunks: Vec<ChunkId>,
    pub chunk_entities: Vec<(ChunkId, EntityId)>,
    pub last_camera_pos: Option<Position>,
    pub last_logged_chunk_count: Option<usize>,
}

/// Whether the square of chunks to load around `pos` is defined under `config`.
pub open spec fn radius_defined(config: ChunkConfig, pos: Position) -> bool {
    &&& chunk_of_defined(pos, config.chunk_size)
    &&& config.load_radius <= i32::MAX
    &&& square_fits(chunk_of(pos, config.chunk_size), config.load_radius as int)
}

/// The chunks to load around `pos` under `config`.
pub open spec fn chunks_around(config: ChunkConfig, pos: Position) -> Seq<ChunkId> {
    chunk_square(chunk_of(pos, config.chunk_size), config.load_radius as int)
}

/// Whether the square of chunks to load around `pos` is defined under `config`: the
/// chunk of `pos` is, the radius fits in an `i32`, and the square stays within `i32`.
pub fn radius_is_defined(config: ChunkConfig, pos: Position) -> (b: bool)
    ensures
        b == radius_defined(config, pos),
{
    let size = config.chunk_size as i32;
    if size == 0 || (size == -1 && (pos.x == i32::MIN || pos.y == i32::MIN)) {
        return false;
    }
    if config.load_radius > i32::MAX as u32 {
        return false;
    }
    let center = ChunkId::from_position(pos, config.chunk_size);
    let r = config.load_radius as i64;
    let cx = center.x as i64;
    let cy = center.y as i64;
    cx - r >= i32::MIN as i64 && cx + r <= i32::MAX as i64 && cy - r >= i32::MIN as i64 && cy + r <= i32::MAX as i64
}

fn contains_chunk(s: &Vec<ChunkId>, k: ChunkId) -> (b: bool)
    ensures
        b == s@.contains(k),
{
    let mut i: usize = 0;
    while i < s.len()
        invariant
            i <= s@.len(),
            forall|j: int| 0 <= j < i ==> s@[j] != k,
        decreases s@.len() - i,
    {
        if s[i] == k {
            return true;
        }
        i = i + 1;
    }
    false
}

fn keep_absent(s: &Vec<ChunkId>, other: &Vec<ChunkId>) -> (r: Vec<ChunkId>)
    ensures
        r@ == s@.filter(not_in(other@)),
{
    let mut r: Vec<ChunkId> = Vec::new();
    let mut i: usize = 0;
    while i < s.len()
        invariant
            i <= s@.len(),
            r@ == s@.take(i as int).filter(not_in(other@)),
        decreases s@.len() - i,
    {
        proof {
            reveal(Seq::filter);
            assert(s@.take(i + 1).drop_last() =~= s@.take(i as int));
            assert(s@.take(i + 1).last() == s@[i as int]);
        }
        let k = s[i];
        if !contains_chunk(other, k) {
            r.push(k);
        }
        i = i + 1;
    }
    proof {
        assert(s@.take(s@.len() as int) =~= s@);
    }
    r
}

impl ChunkManager {
    /// A manager with `config` and no chunk loaded.
    pub fn new(config: ChunkConfig) -> (m: ChunkManager)
        ensures
            m.config == config,
            m.loaded_chunks@ == Seq::<ChunkId>::empty(),
            m.chunk_entities@ == Seq::<(ChunkId, EntityId)>::empty(),
            m.last_camera_pos.is_none(),
            m.last_logged_chunk_count.is_none(),
    {
        ChunkManager {
            config,
            loaded_chunks: Vec::new(),
            chunk_entities: Vec::new(),
            last_camera_pos: None,
            last_logged_chunk_count: None,
        }
    }

    /// The chunks to load around tile `pos`: the square of the configured radius around
    /// the chunk that holds it, column after column.
    pub fn get_chunks_in_radius(&self, pos: Position) -> (r: Vec<ChunkId>)
        requires
            radius_defined(self.config, pos),
        ensures
            r@ == chunks_around(self.config, pos),
    {
        let center = ChunkId::from_position(pos, self.config.chunk_size);
        let radius = self.config.load_radius as i64;
        let ghost rr = radius as int;
        let mut chunks: Vec<ChunkId> = Vec::new();
        let mut x: i64 = center.x as i64 - radius;
        while x <= center.x as i64 + radius
            invariant
                center == chunk_of(pos, self.config.chunk_size),
                radius == self.config.load_radius,
                rr == radius,
                square_fits(center, rr),
                center.x - rr <= x <= center.x + rr + 1,
                chunks@ == square_upto(center, rr, (x - (center.x - rr)) as nat),
            decreases center.x + rr + 1 - x,
        {
            let ghost before = chunks@;
            let mut y: i64 = center.y as i64 - radius;
            while y <= center.y as i64 + radius
                invariant
                    rr == radius,
                    square_fits(center, rr),
                    center.x - rr <= x <= center.x + rr,
                    center.y - rr <= y <= center.y + rr + 1,
                    chunks@ == before + chunk_column(center, rr, x as int).take(y - (center.y - rr)),
                decreases center.y + rr + 1 - y,
            {
                let ghost prev = chunks@;
                chunks.push(ChunkId { x: x as i32, y: y as i32 });
                proof {
                    let col = chunk_column(center, rr, x as int);
                    let j = y - (center.y - rr);
                    assert(col[j] == ChunkId { x: x as i32, y: y as i32 });
                    assert(col.take(j + 1) =~= col.take(j).push(col[j]));
                }
                y = y + 1;
            }
            proof {
                let col = chunk_column(center, rr, x as int);
                assert(col.take(2 * rr + 1) =~= col);
                let cols = (x + 1 - (center.x - rr)) as nat;
                assert(square_upto(center, rr, cols) == square_upto(center, rr, (cols - 1) as nat)
                    + chunk_column(center, rr, center.x - rr + cols - 1));
            }
            x = x + 1;
        }
        chunks
    }

    /// What to change around tile `pos`: the chunks of the square around it that are not
    /// loaded yet, in the square's order, and the loaded chunks outside the square, in
    /// the order they were loaded.
    pub fn get_chunk_updates(&self, pos: Position) -> (r: (Vec<ChunkId>, Vec<ChunkId>))
        requires
            radius_defined(self.config, pos),
        ensures
            r.0@ == chunks_around(self.config, pos).filter(not_in(self.loaded_chunks@)),
            r.1@ == self.loaded_chunks@.filter(not_in(chunks_around(self.config, pos))),
    {
        let to_load_all = self.get_chunks_in_radius(pos);
        let to_unload = keep_absent(&self.loaded_chunks, &to_load_all);
        let to_load = keep_absent(&to_load_all, &self.loaded_chunks);
        (to_load, to_unload)
    }

    /// Whether `chunk_id` is loaded.
    pub fn is_chunk_loaded(&self, chunk_id: ChunkId) -> (b: bool)
        ensures
            b == self.loaded_chunks@.contains(chunk_id),
    {
        contains_chunk(&self.loaded_chunks, chunk_id)
    }

    /// No chunk is listed twice as loaded, and no chunk has two entities.
    pub open spec fn wf(&self) -> bool {
        no_duplicates(self.loaded_chunks@) && unique_keys(self.chunk_entities@)
    }

    /// The loaded chunks.
    pub open spec fn loaded(&self) -> Set<ChunkId> {
        self.loaded_chunks@.to_set()
    }

    /// The entity that shows each chunk that has one.
    pub open spec fn entities(&self) -> Map<ChunkId, EntityId> {
        pairs_map(self.chunk_entities@)
    }

    fn entity_index(&self, chunk_id: ChunkId) -> (r: Option<usize>)
        requires
            self.wf(),
        ensures
            match r {
                Some(i) => i < self.chunk_entities@.len() && self.chunk_entities@[i as int].0 == chunk_id,
                None => !self.entities().contains_key(chunk_id),
            },
    {
        let mut i: usize = 0;
        while i < self.chunk_entities.len()
            invariant
                i <= self.chunk_entities@.len(),
                forall|j: int| 0 <= j < i ==> (#[trigger] self.chunk_entities@[j]).0 != chunk_id,
            decreases self.chunk_entities@.len() - i,
        {
            if self.chunk_entities[i].0 == chunk_id {
                return Some(i);
            }
            i = i + 1;
        }
        proof {
            lemma_pairs_map_keys(self.chunk_entities@, chunk_id);
        }
        None
    }

    fn loaded_index(&self, chunk_id: ChunkId) -> (r: Option<usize>)
        ensures
            match r {
                Some(i) => i < self.loaded_chunks@.len() && self.loaded_chunks@[i as int] == chunk_id,
                None => !self.loaded_chunks@.contains(chunk_id),
            },
    {
        let mut i: usize = 0;
        while i < self.loaded_chunks.len()
            invariant
                i <= self.loaded_chunks@.len(),
                forall|j: int| 0 <= j < i ==> self.loaded_chunks@[j] != chunk_id,
            decreases self.loaded_chunks@.len() - i,
        {
            if self.loaded_chunks[i] == chunk_id {
                return Some(i);
            }
            i = i + 1;
        }
        None
    }

    /// Records that `chunk_id` is loaded and shown by `entity`.
    pub fn mark_chunk_loaded(&mut self, chunk_id: ChunkId, entity: EntityId)
        requires
            old(self).wf(),
        ensures
            final(self).wf(),
            final(self).loaded() == old(self).loaded().insert(chunk_id),
            final(self).entities() == old(self).entities().insert(chunk_id, entity),
            final(self).config == old(self).config,
            final(self).last_camera_pos == old(self).last_camera_pos,
            final(self).last_logged_chunk_count == old(self).last_logged_chunk_count,
    {
        match self.loaded_index(chunk_id) {
            Some(i) => {
                proof {
                    assert(self.loaded_chunks@.contains(chunk_id));
                    assert(self.loaded() =~= self.loaded().insert(chunk_id));
                }
            },
            None => {
                proof { lemma_push_to_set(self.loaded_chunks@, chunk_id); }
                self.loaded_chunks.push(chunk_id);
            },
        }
        match self.entity_index(chunk_id) {
            Some(i) => {
                proof { lemma_pairs_map_update(self.chunk_entities@, i as int, entity); }
                self.chunk_entities.set(i, (chunk_id, entity));
            },
            None => {
                proof { lemma_pairs_map_push(self.chunk_entities@, chunk_id, entity); }
                self.chunk_entities.push((chunk_id, entity));
            },
        }
    }

    /// Records that `chunk_id` is no longer loaded and has no entity.
    pub fn mark_chunk_unloaded(&mut self, chunk_id: ChunkId)
        requires
            old(self).wf(),
        ensures
            final(self).wf(),
            final(self).loaded() == old(self).loaded().remove(chunk_id),
            final(self).entities() == old(self).entities().remove(chunk_id),
            final(self).config == old(self).config,
            final(self).last_camera_pos == old(self).last_camera_pos,
            final(self).last_logged_chunk_count == old(self).last_logged_chunk_count,
    {
        match self.loaded_index(chunk_id) {
            Some(i) => {
                proof { lemma_remove_from_set(self.loaded_chunks@, i as int); }
                self.loaded_chunks.remove(i);
            },
            None => {
                proof { assert(self.loaded() =~= self.loaded().remove(chunk_id)); }
            },
        }
        match self.entity_index(chunk_id) {
            Some(i) => {
                proof { lemma_pairs_map_remove(self.chunk_entities@, i as int); }
                self.chunk_entities.remove(i);
            },
            None => {
                proof { assert(self.entities() =~= self.entities().remove(chunk_id)); }
            },
        }
    }

    /// The entity that shows `chunk_id`, if any.
    pub fn get_chunk_entity(&self, chunk_id: ChunkId) -> (r: Option<EntityId>)
        requires
            self.wf(),
        ensures
            r == (if self.entities().contains_key(chunk_id) { Some(self.entities()[chunk_id]) } else { None::<EntityId> }),
    {
        match self.entity_index(chunk_id) {
            Some(i) => {
                proof { lemma_pairs_map_index(self.chunk_entities@, i as int); }
                Some(self.chunk_entities[i].1)
            },
            None => None,
        }
    }

    /// The loaded chunks, in the order they were loaded.
    pub fn get_loaded_chunks(&self) -> (r: Vec<ChunkId>)
        ensures
            r@ == self.loaded_chunks@,
    {
        let mut r: Vec<ChunkId> = Vec::new();
        let mut i: usize = 0;
        while i < self.loaded_chunks.len()
            invariant
                i <= self.loaded_chunks@.len(),
                r@ == self.loaded_chunks@.take(i as int),
            decreases self.loaded_chunks@.len() - i,
        {
            r.push(self.loaded_chunks[i]);
            i = i + 1;
            proof { assert(r@ =~= self.loaded_chunks@.take(i as int)); }
        }
        proof { assert(self.loaded_chunks@.take(i as int) =~= self.loaded_chunks@); }
        r
    }

    /// Whether tile `pos` lies in a loaded chunk.
    pub fn is_position_in_loaded_chunk(&self, pos: Position) -> (b: bool)
        requires
            chunk_of_defined(pos, self.config.chunk_size),
        ensures
            b == self.loaded().contains(chunk_of(pos, self.config.chunk_size)),
    {
        let chunk_id = ChunkId::from_position(pos, self.config.chunk_size);
        self.is_chunk_loaded(chunk_id)
    }
}

impl Default for ChunkManager {
    fn default() -> (m: ChunkManager)
        ensures
            m.config == (ChunkConfig { chunk_size: DEFAULT_CHUNK_SIZE_IN_TILES, load_radius: DEFAULT_CHUNK_LOAD_RADIUS }),
            m.loaded_chunks@ == Seq::<ChunkId>::empty(),
            m.chunk_entities@ == Seq::<(ChunkId, EntityId)>::empty(),
            m.last_camera_pos.is_none(),
            m.last_logged_chunk_count.is_none(),
    {
        ChunkManager::new(ChunkConfig::default())
    }
}

proof fn lemma_filter_membership(s: Seq<ChunkId>, other: Seq<ChunkId>, c: ChunkId)
    ensures
        s.filter(not_in(other)).contains(c) <==> (s.contains(c) && !other.contains(c)),
{
    broadcast use vstd::seq_lib::group_filter_ensures;
    if s.filter(not_in(other)).contains(c) {
        s.lemma_filter_contains_rev(not_in(other), c);
        let i = choose|i: int| 0 <= i < s.filter(not_in(other)).len() && s.filter(not_in(other))[i] == c;
        s.lemma_filter_pred(not_in(other), i);
    }
    if s.contains(c) && !other.contains(c) {
        let i = choose|i: int| 0 <= i < s.len() && s[i] == c;
        s.lemma_filter_contains(not_in(other), i);
    }
}

/// Unloading the chunks to unload and loading the chunks to load leaves exactly the
/// square around the camera loaded; no chunk is both to load and to unload.
pub proof fn lemma_chunk_updates_reach_square(loaded: Seq<ChunkId>, square: Seq<ChunkId>)
    ensures
        loaded.to_set().difference(loaded.filter(not_in(square)).to_set())
            .union(square.filter(not_in(loaded)).to_set()) == square.to_set(),
        loaded.filter(not_in(square)).to_set().disjoint(square.filter(not_in(loaded)).to_set()),
{
    let unload = loaded.filter(not_in(square));
    let load = square.filter(not_in(loaded));
    assert forall|c: ChunkId| #[trigger] square.to_set().contains(c)
        <==> loaded.to_set().difference(unload.to_set()).union(load.to_set()).contains(c) by {
        lemma_filter_membership(loaded, square, c);
        lemma_filter_membership(square, loaded, c);
    }
    assert(loaded.to_set().difference(unload.to_set()).union(load.to_set()) =~= square.to_set());
    assert forall|c: ChunkId| !(unload.to_set().contains(c) && load.to_set().contains(c)) by {
        lemma_filter_membership(loaded, square, c);
        lemma_filter_membership(square, loaded, c);
    }
}

proof fn lemma_filter_no_duplicates(s: Seq<ChunkId>, other: Seq<ChunkId>)
    requires
        no_duplicates(s),
    ensures
        no_duplicates(s.filter(not_in(other))),
    decreases s.len(),
{
    reveal(Seq::filter);
    if s.len() > 0 {
        let p = s.drop_last();
        assert(no_duplicates(p)) by {
            assert forall|i: int, j: int| 0 <= i < j < p.len() implies #[trigger] p[i] != #[trigger] p[j] by {
                assert(p[i] == s[i] && p[j] == s[j]);
            }
        }
        lemma_filter_no_duplicates(p, other);
        let f = p.filter(not_in(other));
        if not_in(other)(s.last()) {
            if f.contains(s.last()) {
                p.lemma_filter_contains_rev(not_in(other), s.last());
                let k = choose|k: int| 0 <= k < p.len() && p[k] == s.last();
                assert(s[k] == s[s.len() - 1]);
            }
            let g = f.push(s.last());
            assert forall|i: int, j: int| 0 <= i < j < g.len() implies #[trigger] g[i] != #[trigger] g[j] by {
                if j == f.len() {
                    assert(g[i] == f[i]);
                    assert(f.contains(f[i]));
                } else {
                    assert(g[i] == f[i] && g[j] == f[j]);
                }
            }
        }
    }
}

/// The chunks among `u` that have an entity in `m`.
pub open spec fn with_entity(m: Map<ChunkId, EntityId>) -> spec_fn(ChunkId) -> bool {
    |c: ChunkId| m.contains_key(c)
}

/// The entity of each chunk in `m`.
pub open spec fn entity_of(m: Map<ChunkId, EntityId>) -> spec_fn(ChunkId) -> EntityId {
    |c: ChunkId| m[c]
}

impl ChunkManager {
    /// The chunks to unload around the last camera position.
    pub open spec fn chunks_to_unload(&self) -> Seq<ChunkId> {
        self.loaded_chunks@.filter(not_in(chunks_around(self.config, self.last_camera_pos.unwrap())))
    }

    /// Brings the chunks up to date with the last camera position: every loaded chunk
    /// outside the square around it that has an entity is unloaded, and its entity is
    /// returned, in the order the chunks were loaded, to be despawned. A chunk outside
    /// the square without an entity stays loaded. Nothing happens before the camera has
    /// a position.
    pub fn update_chunks(&mut self) -> (despawn: Vec<EntityId>)
        requires
            old(self).wf(),
            old(self).last_camera_pos.is_some() ==> radius_defined(old(self).config, old(self).last_camera_pos.unwrap()),
        ensures
            final(self).wf(),
            final(self).config == old(self).config,
            final(self).last_camera_pos == old(self).last_camera_pos,
            final(self).last_logged_chunk_count == old(self).last_logged_chunk_count,
            old(self).last_camera_pos.is_none() ==> *final(self) == *old(self) && despawn@.len() == 0,
            old(self).last_camera_pos.is_some() ==> {
                let u = old(self).chunks_to_unload();
                &&& despawn@ == u.filter(with_entity(old(self).entities())).map_values(entity_of(old(self).entities()))
                &&& final(self).entities() == old(self).entities().remove_keys(u.to_set())
                &&& forall|c: ChunkId| #[trigger] final(self).loaded().contains(c)
                    <==> old(self).loaded().contains(c) && !(u.contains(c) && old(self).entities().contains_key(c))
            },
    {
        let mut despawn: Vec<EntityId> = Vec::new();
        let pos = match self.last_camera_pos {
            None => { return despawn; },
            Some(p) => p,
        };
        let (_to_load, to_unload) = self.get_chunk_updates(pos);
        let ghost u = to_unload@;
        let ghost orig = *self;
        proof {
            lemma_filter_no_duplicates(self.loaded_chunks@, chunks_around(self.config, pos));
        }
        let mut i: usize = 0;
        while i < to_unload.len()
            invariant
                u == to_unload@,
                u == orig.chunks_to_unload(),
                no_duplicates(u),
                orig.wf(),
                self.wf(),
                self.config == orig.config,
                self.last_camera_pos == orig.last_camera_pos,
                self.last_logged_chunk_count == orig.last_logged_chunk_count,
                i <= u.len(),
                despawn@ == u.take(i as int).filter(with_entity(orig.entities())).map_values(entity_of(orig.entities())),
                self.entities() == orig.entities().remove_keys(u.take(i as int).to_set()),
                forall|c: ChunkId| #[trigger] self.loaded().contains(c)
                    <==> orig.loaded().contains(c) && !(u.take(i as int).contains(c) && orig.entities().contains_key(c)),
            decreases u.len() - i,
        {
            let c = to_unload[i];
            let ghost prefix = u.take(i as int);
            proof {
                reveal(Seq::filter);
                assert(u.take(i + 1).drop_last() =~= prefix);
                assert(u.take(i + 1).last() == c);
                assert(!prefix.contains(c)) by {
                    if prefix.contains(c) {
                        let k = choose|k: int| 0 <= k < prefix.len() && prefix[k] == c;
                        assert(u[k] == u[i as int]);
                    }
                }
                let next = u.take(i + 1);
                assert(next.to_set() =~= prefix.to_set().insert(c)) by {
                    assert forall|x: ChunkId| next.contains(x) <==> prefix.contains(x) || x == c by {
                        if next.contains(x) && x != c {
                            let k = choose|k: int| 0 <= k < next.len() && #[trigger] next[k] == x;
                            assert(prefix[k] == x);
                        }
                        if prefix.contains(x) {
                            let k = choose|k: int| 0 <= k < prefix.len() && #[trigger] prefix[k] == x;
                            assert(next[k] == x);
                        }
                        if x == c {
                            assert(next[i as int] == c);
                        }
                    }
                }
            }
            match self.get_chunk_entity(c) {
                Some(e) => {
                    let ghost before = despawn@;
                    despawn.push(e);
                    self.mark_chunk_unloaded(c);
                    proof {
                        assert(orig.entities().contains_key(c));
                        let f = u.take(i + 1).filter(with_entity(orig.entities()));
                        assert(f == prefix.filter(with_entity(orig.entities())).push(c));
                        assert(despawn@ =~= f.map_values(entity_of(orig.entities())));
                        assert(self.entities() =~= orig.entities().remove_keys(u.take(i + 1).to_set()));
                    }
                },
                None => {
                    proof {
                        assert(!orig.entities().contains_key(c));
                        let f = u.take(i + 1).filter(with_entity(orig.entities()));
                        assert(f == prefix.filter(with_entity(orig.entities())));
                        assert(self.entities() =~= orig.entities().remove_keys(u.take(i + 1).to_set()));
                    }
                },
            }
            i = i + 1;
        }
        proof {
            assert(u.take(u.len() as int) =~= u);
        }
        despawn
    }
}

/// What a chunk keeps of a tile: its terrain's name and its owner's number.
#[derive(Debug, Clone)]
pub struct ChunkTile {
    pub terrain: String,
    pub owner: Option<u32>,
}

/// The tiles of one chunk, column after column.
#[derive(Debug, Clone)]
pub struct ChunkData {
    pub id: ChunkId,
    pub tiles: Vec<Vec<ChunkTile>>,
}

/// What a chunk keeps of the tile at `p`: its terrain's name and owner on the map, and
/// `"Unknown"` without owner off it.
pub open spec fn chunk_tile_view(map: WorldMap, p: Position) -> (Seq<char>, Option<u32>) {
    if in_bounds(map.width, map.height, p) {
        let t = map.tile_at(p);
        (terrain_name(t.terrain), match t.owner { Some(c) => Some(c.0), None => None })
    } else {
        ("Unknown"@, None)
    }
}

/// The first tile coordinate of chunk coordinate `c` (taken as a `u32`, as Rust's `as`
/// does) with chunks `size` tiles wide.
pub open spec fn chunk_start(c: i32, size: u32) -> int {
    (c as u32) as int * size as int
}

fn create_chunk_tile_from_world_map(world_map: &WorldMap, pos: Position) -> (t: ChunkTile)
    requires
        world_map.wf(),
    ensures
        (t.terrain@, t.owner) == chunk_tile_view(*world_map, pos),
{
    match world_map.get_tile(pos) {
        Some(tile) => ChunkTile {
            terrain: tile.terrain.name(),
            owner: match tile.owner {
                Some(c) => Some(c.0),
                None => None,
            },
        },
        None => ChunkTile { terrain: String::from_str("Unknown"), owner: None },
    }
}

/// The tiles of chunk `chunk_id`: column `start_x + i`, row `start_y + j` at
/// `tiles[i][j]`, where the starts are the chunk coordinates (as `u32`) times
/// `chunk_size`, and tile coordinates are taken as `i32`.
pub fn extract_chunk_from_world(world_map: &WorldMap, chunk_id: ChunkId, chunk_size: u32) -> (d: ChunkData)
    requires
        world_map.wf(),
        chunk_start(chunk_id.x, chunk_size) + chunk_size <= u32::MAX,
        chunk_start(chunk_id.y, chunk_size) + chunk_size <= u32::MAX,
    ensures
        d.id == chunk_id,
        d.tiles@.len() == chunk_size,
        forall|i: int| 0 <= i < chunk_size ==> (#[trigger] d.tiles@[i])@.len() == chunk_size,
        forall|i: int, j: int| 0 <= i < chunk_size && 0 <= j < chunk_size ==>
            ((#[trigger] d.tiles@[i]@[j]).terrain@, d.tiles@[i]@[j].owner) == chunk_tile_view(*world_map, Position {
                x: (chunk_start(chunk_id.x, chunk_size) + i) as i32,
                y: (chunk_start(chunk_id.y, chunk_size) + j) as i32,
            }),
{
    let start_x = (chunk_id.x as u32) * chunk_size;
    let start_y = (chunk_id.y as u32) * chunk_size;
    let mut tiles: Vec<Vec<ChunkTile>> = Vec::new();
    let mut i: u32 = 0;
    while i < chunk_size
        invariant
            world_map.wf(),
            start_x == chunk_start(chunk_id.x, chunk_size),
            start_y == chunk_start(chunk_id.y, chunk_size),
            start_x + chunk_size <= u32::MAX,
            start_y + chunk_size <= u32::MAX,
            i <= chunk_size,
            tiles@.len() == i,
            forall|a: int| 0 <= a < i ==> (#[trigger] tiles@[a])@.len() == chunk_size,
            forall|a: int, b: int| 0 <= a < i && 0 <= b < chunk_size ==>
                ((#[trigger] tiles@[a]@[b]).terrain@, tiles@[a]@[b].owner) == chunk_tile_view(*world_map, Position {
                    x: (start_x + a) as i32,
                    y: (start_y + b) as i32,
                }),
        decreases chunk_size - i,
    {
        let x = start_x + i;
        let mut column: Vec<ChunkTile> = Vec::new();
        let mut j: u32 = 0;
        while j < chunk_size
            invariant
                world_map.wf(),
                x == start_x + i,
                start_y + chunk_size <= u32::MAX,
                j <= chunk_size,
                column@.len() == j,
                forall|b: int| 0 <= b < j ==> ((#[trigger] column@[b]).terrain@, column@[b].owner)
                    == chunk_tile_view(*world_map, Position { x: x as i32, y: (start_y + b) as i32 }),
            decreases chunk_size - j,
        {
            let y = start_y + j;
            let pos = Position::new(x as i32, y as i32);
            column.push(create_chunk_tile_from_world_map(world_map, pos));
            j = j + 1;
        }
        tiles.push(column);
        i = i + 1;
    }
    ChunkData { id: chunk_id, tiles }
}

} // verus!
