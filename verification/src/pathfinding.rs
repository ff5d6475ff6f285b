use vstd::prelude::*;
use crate::position::{Position, Direction, step, has_room, manhattan};
use crate::world_map::{WorldMap, MapTile, in_bounds, neighbors_of};
use crate::keyed::{pairs_map, unique_keys, lemma_pairs_map_keys, lemma_pairs_map_index, lemma_pairs_map_update, lemma_pairs_map_push};

verus! {

/// Whether a search from `s` gets onto the map: `s` lies on it or next to one of its sides.
pub open spec fn reaches(m: WorldMap, s: Position) -> bool {
    in_bounds(m.width, m.height, s) || neighbors_of(m.width, m.height, s).len() > 0
}

/// Whether `p` is one of the tiles that a search from `s` looks at when it goes at most
/// `max` steps: a tile of the map other than `s`, within `max` steps of it.
pub open spec fn searched(m: WorldMap, s: Position, max: int, p: Position) -> bool {
    &&& in_bounds(m.width, m.height, p)
    &&& p != s
    &&& reaches(m, s)
    &&& manhattan(s, p) <= max
}

/// A place the search can stand on: a tile of the map, or the start.
pub open spec fn is_node(m: WorldMap, s: Position, p: Position) -> bool {
    in_bounds(m.width, m.height, p) || p == s
}

/// One coordinate moved one unit toward another.
pub open spec fn closer(from: i32, to: i32) -> i32 {
    if from < to { (from + 1) as i32 } else { (from - 1) as i32 }
}

/// A neighbour of `r` one step nearer to `s` that is still a place of the search.
pub open spec fn toward(m: WorldMap, s: Position, r: Position) -> Position {
    if 0 <= s.x < m.width {
        if r.x != s.x { Position { x: closer(r.x, s.x), y: r.y } } else { Position { x: r.x, y: closer(r.y, s.y) } }
    } else {
        if r.y != s.y { Position { x: r.x, y: closer(r.y, s.y) } } else { Position { x: closer(r.x, s.x), y: r.y } }
    }
}

/// A step that lands on the map is listed among the neighbours.
proof fn lemma_step_listed(w: u32, h: u32, t: Position, d: Direction)
    requires
        in_bounds(w, h, step(t, d)),
    ensures
        neighbors_of(w, h, t).contains(step(t, d)),
{
    let keep = |e: Direction| if in_bounds(w, h, step(t, e)) { seq![step(t, e)] } else { Seq::<Position>::empty() };
    let a = keep(Direction::North);
    let b = keep(Direction::South);
    let c = keep(Direction::East);
    let e = keep(Direction::West);
    assert(neighbors_of(w, h, t) == a + b + c + e);
    match d {
        Direction::North => {
            assert((a + b + c + e)[0] == step(t, d));
        },
        Direction::South => {
            assert((a + b + c + e)[a.len() as int] == step(t, d));
        },
        Direction::East => {
            assert((a + b + c + e)[(a.len() + b.len()) as int] == step(t, d));
        },
        Direction::West => {
            assert((a + b + c + e)[(a.len() + b.len() + c.len()) as int] == step(t, d));
        },
    }
}

/// Every neighbour is one step away in some direction and lies on the map.
proof fn lemma_listed_is_step(w: u32, h: u32, t: Position, n: Position)
    requires
        neighbors_of(w, h, t).contains(n),
    ensures
        in_bounds(w, h, n),
        exists|d: Direction| n == #[trigger] step(t, d),
{
    let keep = |e: Direction| if in_bounds(w, h, step(t, e)) { seq![step(t, e)] } else { Seq::<Position>::empty() };
    let a = keep(Direction::North);
    let b = keep(Direction::South);
    let c = keep(Direction::East);
    let e = keep(Direction::West);
    let all = a + b + c + e;
    assert(neighbors_of(w, h, t) == all);
    let i = choose|i: int| 0 <= i < all.len() && all[i] == n;
    if i < a.len() {
        assert(n == step(t, Direction::North));
    } else if i < a.len() + b.len() {
        assert(n == step(t, Direction::South));
    } else if i < a.len() + b.len() + c.len() {
        assert(n == step(t, Direction::East));
    } else {
        assert(n == step(t, Direction::West));
    }
}

/// From a tile of the map other than the start there is a place one step nearer to the
/// start, of which the tile is a neighbour.
proof fn lemma_toward(m: WorldMap, s: Position, r: Position)
    requires
        m.wf(),
        has_room(s),
        reaches(m, s),
        in_bounds(m.width, m.height, r),
        r != s,
    ensures
        is_node(m, s, toward(m, s, r)),
        has_room(toward(m, s, r)),
        manhattan(s, toward(m, s, r)) == manhattan(s, r) - 1,
        neighbors_of(m.width, m.height, toward(m, s, r)).contains(r),
{
    let t = toward(m, s, r);
    if !in_bounds(m.width, m.height, s) {
        let n = neighbors_of(m.width, m.height, s)[0];
        assert(neighbors_of(m.width, m.height, s).contains(n));
        lemma_listed_is_step(m.width, m.height, s, n);
    }
    if t.x == r.x + 1 && t.y == r.y {
        assert(r == step(t, Direction::West));
        lemma_step_listed(m.width, m.height, t, Direction::West);
    } else if t.x == r.x - 1 && t.y == r.y {
        assert(r == step(t, Direction::East));
        lemma_step_listed(m.width, m.height, t, Direction::East);
    } else if t.y == r.y + 1 {
        assert(r == step(t, Direction::South));
        lemma_step_listed(m.width, m.height, t, Direction::South);
    } else {
        assert(r == step(t, Direction::North));
        lemma_step_listed(m.width, m.height, t, Direction::North);
    }
}

/// Whether some entry of the search queue holds `p`.
pub open spec fn queued(q: Seq<(Position, i32)>, p: Position) -> bool {
    exists|j: int| 0 <= j < q.len() && (#[trigger] q[j]).0 == p
}

/// The shape of the breadth-first queue `q` of places and their step counts while the
/// entry at `h` is next: it starts with `s` at 0, holds places of the search at their
/// distance from `s`, none twice, in order of distance, and nothing more than one step
/// beyond the next entry.
pub open spec fn bfs_shape(m: WorldMap, s: Position, q: Seq<(Position, i32)>, h: int) -> bool {
    &&& 1 <= q.len()
    &&& q[0] == (s, 0i32)
    &&& 0 <= h <= q.len()
    &&& forall|i: int| 0 <= i < q.len() ==> is_node(m, s, (#[trigger] q[i]).0) && q[i].1 == manhattan(s, q[i].0)
    &&& forall|i: int, j: int| 0 <= i < j < q.len() ==> (#[trigger] q[i]).0 != (#[trigger] q[j]).0
    &&& forall|i: int, j: int| 0 <= i <= j < q.len() ==> (#[trigger] q[i]).1 <= (#[trigger] q[j]).1
    &&& h < q.len() ==> forall|j: int| 0 <= j < q.len() ==> (#[trigger] q[j]).1 <= q[h].1 + 1
}

/// Every entry before `h` that lies within `max` steps has had all its neighbours queued.
pub open spec fn bfs_expanded(m: WorldMap, q: Seq<(Position, i32)>, h: int, max: int) -> bool {
    forall|i: int, n: Position|
        0 <= i < h && q[i].1 <= max && #[trigger] neighbors_of(m.width, m.height, q[i].0).contains(n)
            ==> queued(q, n)
}

/// `q` after each of `ns`, in order, that no entry holds yet is added at distance `d`.
#[verifier::opaque]
pub open spec fn push_unqueued(q: Seq<(Position, i32)>, ns: Seq<Position>, d: i32) -> Seq<(Position, i32)>
    decreases ns.len(),
{
    if ns.len() == 0 {
        q
    } else {
        let q1 = push_unqueued(q, ns.drop_last(), d);
        if queued(q1, ns.last()) { q1 } else { q1.push((ns.last(), d)) }
    }
}

/// Taking one more of `ns` into account adds it when it is not queued yet.
proof fn lemma_push_unqueued_step(q: Seq<(Position, i32)>, ns: Seq<Position>, k: int, d: i32)
    requires
        0 <= k < ns.len(),
    ensures
        push_unqueued(q, ns.take(k + 1), d) == ({
            let q1 = push_unqueued(q, ns.take(k), d);
            if queued(q1, ns[k]) { q1 } else { q1.push((ns[k], d)) }
        }),
{
    reveal(push_unqueued);
    assert(ns.take(k + 1).drop_last() =~= ns.take(k));
    assert(ns.take(k + 1).last() == ns[k]);
}

/// Taking none of `ns` into account leaves the queue as it is.
proof fn lemma_push_unqueued_none(q: Seq<(Position, i32)>, ns: Seq<Position>, d: i32)
    ensures
        push_unqueued(q, ns.take(0), d) == q,
{
    reveal(push_unqueued);
    assert(ns.take(0).len() == 0);
}

/// The queue after its entry `i` is taken: an entry within `max` steps adds its
/// neighbours (north, south, east, west) that are not queued yet, one step farther.
pub open spec fn bfs_step(m: WorldMap, max: int, q: Seq<(Position, i32)>, i: int) -> Seq<(Position, i32)> {
    if q[i].1 > max {
        q
    } else {
        push_unqueued(q, neighbors_of(m.width, m.height, q[i].0), (q[i].1 + 1) as i32)
    }
}

/// The breadth-first queue from `s` once its first `h` entries have been taken: it
/// starts with `s` at distance 0. Its entries come in the order the search visits them.
pub open spec fn bfs_queue(m: WorldMap, s: Position, max: int, h: nat) -> Seq<(Position, i32)>
    decreases h,
{
    if h == 0 {
        seq![(s, 0i32)]
    } else {
        let q = bfs_queue(m, s, max, (h - 1) as nat);
        if h - 1 < q.len() { bfs_step(m, max, q, h - 1) } else { q }
    }
}

/// Every place of the search within `max + 1` steps of the start, and no farther than the
/// next entry (or anywhere once the queue is used up), is queued.
proof fn lemma_frontier_complete(m: WorldMap, s: Position, max: int, q: Seq<(Position, i32)>, h: int, r: Position)
    requires
        m.wf(),
        has_room(s),
        reaches(m, s),
        bfs_shape(m, s, q, h),
        bfs_expanded(m, q, h, max),
        is_node(m, s, r),
        manhattan(s, r) <= max + 1,
        h == q.len() || manhattan(s, r) <= q[h].1,
    ensures
        queued(q, r),
    decreases manhattan(s, r),
{
    if r == s {
        assert(q[0].0 == r);
    } else {
        let t = toward(m, s, r);
        lemma_toward(m, s, r);
        lemma_frontier_complete(m, s, max, q, h, t);
        let j = choose|j: int| 0 <= j < q.len() && (#[trigger] q[j]).0 == t;
        if h < q.len() && j >= h {
            assert(q[h].1 <= q[j].1);
        }
        assert(neighbors_of(m.width, m.height, q[j].0).contains(r));
    }
}

/// A numbering of the places of the search: the start gets -1, a tile its column-major index.
pub open spec fn node_index(m: WorldMap, s: Position, p: Position) -> int {
    if p == s { -1 } else { p.x * m.height + p.y }
}

proof fn lemma_index_in_range(x: int, y: int, w: int, h: int)
    by (nonlinear_arith)
    requires
        0 <= x < w,
        0 <= y < h,
    ensures
        0 <= x * h + y < w * h,
{
    assert(x * h <= (w - 1) * h);
}

proof fn lemma_index_injective(x1: int, y1: int, x2: int, y2: int, h: int)
    by (nonlinear_arith)
    requires
        0 <= y1 < h,
        0 <= y2 < h,
        x1 * h + y1 == x2 * h + y2,
    ensures
        x1 == x2,
        y1 == y2,
{
    if x1 < x2 {
        assert(x1 * h + h <= x2 * h);
    } else if x2 < x1 {
        assert(x2 * h + h <= x1 * h);
    }
}

/// A queue of distinct places of the search holds at most one entry per tile, plus the start.
proof fn lemma_queue_fits(m: WorldMap, s: Position, q: Seq<(Position, i32)>)
    requires
        m.wf(),
        forall|i: int| 0 <= i < q.len() ==> is_node(m, s, (#[trigger] q[i]).0),
        forall|i: int, j: int| 0 <= i < j < q.len() ==> (#[trigger] q[i]).0 != (#[trigger] q[j]).0,
    ensures
        q.len() <= m.width * m.height + 1,
{
    let keys = q.map_values(|e: (Position, i32)| node_index(m, s, e.0));
    assert forall|i: int, j: int| 0 <= i < keys.len() && 0 <= j < keys.len() && i != j implies keys[i] != keys[j] by {
        let (a, b) = if i < j { (i, j) } else { (j, i) };
        assert(q[a].0 != q[b].0);
        let p1 = q[i].0;
        let p2 = q[j].0;
        if p1 != s && p2 != s && keys[i] == keys[j] {
            lemma_index_injective(p1.x as int, p1.y as int, p2.x as int, p2.y as int, m.height as int);
        }
        if p1 != s {
            lemma_index_in_range(p1.x as int, p1.y as int, m.width as int, m.height as int);
        }
        if p2 != s {
            lemma_index_in_range(p2.x as int, p2.y as int, m.width as int, m.height as int);
        }
    }
    assert(keys.no_duplicates());
    keys.unique_seq_to_set();
    let range = vstd::set_lib::set_int_range(-1, m.width * m.height);
    vstd::set_lib::lemma_int_range(-1, m.width * m.height);
    assert forall|k: int| keys.to_set().contains(k) implies range.contains(k) by {
        let i = choose|i: int| 0 <= i < keys.len() && keys[i] == k;
        let p = q[i].0;
        if p != s {
            lemma_index_in_range(p.x as int, p.y as int, m.width as int, m.height as int);
        }
    }
    vstd::set_lib::lemma_len_subset(keys.to_set(), range);
}

/// The view of a cached search result.
pub open spec fn path_view(p: Option<Vec<Position>>) -> Option<Seq<Position>> {
    match p {
        Some(v) => Some(v@),
        None => None,
    }
}

/// The cache entries seen through `path_view`.
pub open spec fn cache_entries(c: Seq<((Position, Position), Option<Vec<Position>>)>) -> Seq<((Position, Position), Option<Seq<Position>>)> {
    c.map_values(|e: ((Position, Position), Option<Vec<Position>>)| (e.0, path_view(e.1)))
}

/// Path searches over the map, with the results of earlier searches kept by start and goal.
pub struct Pathfinder {
    cache: Vec<((Position, Position), Option<Vec<Position>>)>,
}

impl View for Pathfinder {
    type V = Map<(Position, Position), Option<Seq<Position>>>;

    closed spec fn view(&self) -> Map<(Position, Position), Option<Seq<Position>>> {
        pairs_map(cache_entries(self.cache@))
    }
}

/// A copy of a path.
fn copy_path(path: &Vec<Position>) -> (c: Vec<Position>)
    ensures
        c@ == path@,
{
    let mut c: Vec<Position> = Vec::new();
    let mut i: usize = 0;
    while i < path.len()
        invariant
            0 <= i <= path.len(),
            c@ == path@.subrange(0, i as int),
        decreases path.len() - i,
    {
        c.push(path[i]);
        i = i + 1;
        assert(c@ =~= path@.subrange(0, i as int));
    }
    assert(path@.subrange(0, path@.len() as int) =~= path@);
    c
}

impl Default for Pathfinder {
    fn default() -> (p: Pathfinder)
        ensures
            p.wf(),
            p@ == Map::<(Position, Position), Option<Seq<Position>>>::empty(),
    {
        Pathfinder::new()
    }
}

impl Pathfinder {
    /// Each start and goal pair is cached at most once.
    pub closed spec fn wf(&self) -> bool {
        unique_keys(cache_entries(self.cache@))
    }

    /// A pathfinder with nothing cached.
    pub fn new() -> (p: Pathfinder)
        ensures
            p.wf(),
            p@ == Map::<(Position, Position), Option<Seq<Position>>>::empty(),
    {
        let p = Pathfinder { cache: Vec::new() };
        assert(cache_entries(p.cache@) =~= Seq::empty());
        assert(p@ =~= Map::<(Position, Position), Option<Seq<Position>>>::empty());
        p
    }

    /// Forgets every cached result.
    pub fn clear_cache(&mut self)
        ensures
            final(self).wf(),
            final(self)@ == Map::<(Position, Position), Option<Seq<Position>>>::empty(),
    {
        self.cache.clear();
        assert(cache_entries(self.cache@) =~= Seq::empty());
        assert(self@ =~= Map::<(Position, Position), Option<Seq<Position>>>::empty());
    }

    /// The cached result of the search from `start` to `goal`, if there is one.
    pub fn cached_path(&self, start: Position, goal: Position) -> (r: Option<Option<Vec<Position>>>)
        requires
            self.wf(),
        ensures
            match r {
                Some(p) => self@.contains_key((start, goal)) && self@[(start, goal)] == path_view(p),
                None => !self@.contains_key((start, goal)),
            },
    {
        let ghost es = cache_entries(self.cache@);
        let mut i: usize = 0;
        while i < self.cache.len()
            invariant
                0 <= i <= self.cache.len(),
                es == cache_entries(self.cache@),
                unique_keys(es),
                forall|j: int| 0 <= j < i ==> (#[trigger] self.cache@[j]).0 != (start, goal),
            decreases self.cache.len() - i,
        {
            let key = self.cache[i].0;
            if key.0 == start && key.1 == goal {
                proof {
                    lemma_pairs_map_index(es, i as int);
                    assert(es[i as int] == (key, path_view(self.cache@[i as int].1)));
                }
                let found = match &self.cache[i].1 {
                    Some(path) => Some(copy_path(path)),
                    None => None,
                };
                return Some(found);
            }
            i = i + 1;
        }
        proof {
            lemma_pairs_map_keys(es, (start, goal));
            assert forall|j: int| 0 <= j < es.len() implies (#[trigger] es[j]).0 != (start, goal) by {
                assert(es[j].0 == self.cache@[j].0);
            }
        }
        None
    }

    /// Keeps `path` as the result of the search from `start` to `goal`, in place of any
    /// earlier one.
    pub fn cache_path(&mut self, start: Position, goal: Position, path: Option<Vec<Position>>)
        requires
            old(self).wf(),
        ensures
            final(self).wf(),
            final(self)@ == old(self)@.insert((start, goal), path_view(path)),
    {
        let ghost es = cache_entries(self.cache@);
        let ghost pv = path_view(path);
        let mut i: usize = 0;
        while i < self.cache.len()
            invariant
                0 <= i <= self.cache.len(),
                *self == *old(self),
                pv == path_view(path),
                es == cache_entries(self.cache@),
                unique_keys(es),
                forall|j: int| 0 <= j < i ==> (#[trigger] self.cache@[j]).0 != (start, goal),
            decreases self.cache.len() - i,
        {
            let key = self.cache[i].0;
            if key.0 == start && key.1 == goal {
                proof {
                    assert(key == (start, goal));
                    assert(es[i as int].0 == (start, goal));
                    lemma_pairs_map_update(es, i as int, pv);
                }
                let ghost before = self.cache@;
                let ghost entry = ((start, goal), path);
                self.cache.set(i, ((start, goal), path));
                proof {
                    assert(self.cache@ == before.update(i as int, entry));
                    assert forall|j: int| 0 <= j < es.len() implies #[trigger] cache_entries(self.cache@)[j]
                        == es.update(i as int, (es[i as int].0, pv))[j] by {
                        if j != i {
                            assert(self.cache@[j] == before[j]);
                        }
                    }
                    assert(cache_entries(self.cache@) =~= es.update(i as int, (es[i as int].0, pv)));
                }
                return;
            }
            i = i + 1;
        }
        proof {
            lemma_pairs_map_keys(es, (start, goal));
            assert forall|j: int| 0 <= j < es.len() implies (#[trigger] es[j]).0 != (start, goal) by {
                assert(es[j].0 == self.cache@[j].0);
            }
            lemma_pairs_map_push(es, (start, goal), pv);
        }
        self.cache.push(((start, goal), path));
        proof {
            assert(cache_entries(self.cache@) =~= es.push(((start, goal), pv)));
        }
    }

    /// The nearest tile of `world_map` other than `start` whose tile satisfies `predicate`,
    /// searching breadth-first over the four-neighbour grid up to `max_search_distance`
    /// steps; `None` when no tile in that range does.
    ///
    /// On the grid the number of steps to a tile is its Manhattan distance from `start`, so
    /// the tile found is within range, satisfies `predicate`, and every tile strictly nearer
    /// failed it. The search gets onto the map only from a start on the map or next to it.
    pub fn find_nearest<F: Fn(&MapTile) -> bool>(
        &self,
        world_map: &WorldMap,
        start: Position,
        predicate: F,
        max_search_distance: i32,
    ) -> (r: Option<Position>)
        requires
            world_map.wf(),
            has_room(start),
            max_search_distance < i32::MAX || world_map.width + world_map.height <= i32::MAX,
            forall|t: MapTile| #[trigger] predicate.requires((&t,)),
        ensures
            match r {
                Some(p) => {
                    &&& searched(*world_map, start, max_search_distance as int, p)
                    &&& predicate.ensures((&world_map.tile_at(p),), true)
                    &&& forall|q: Position|
                        searched(*world_map, start, max_search_distance as int, q) && manhattan(start, q) < manhattan(start, p)
                            ==> #[trigger] predicate.ensures((&world_map.tile_at(q),), false)
                    &&& exists|j: nat| #![trigger bfs_queue(*world_map, start, max_search_distance as int, j)] {
                        let order = bfs_queue(*world_map, start, max_search_distance as int, j);
                        &&& j < order.len()
                        &&& order[j as int].0 == p
                        &&& forall|i: int| 0 <= i < j && (#[trigger] order[i]).1 <= max_search_distance
                            && in_bounds(world_map.width, world_map.height, order[i].0) && order[i].0 != start
                            ==> predicate.ensures((&world_map.tile_at(order[i].0),), false)
                    }
                },
                None => forall|q: Position|
                    searched(*world_map, start, max_search_distance as int, q)
                        ==> #[trigger] predicate.ensures((&world_map.tile_at(q),), false),
            },
    {
        let ghost m = *world_map;
        let ghost max = max_search_distance as int;
        let ghost bound = world_map.width * world_map.height + 1;
        let mut queue: Vec<(Position, i32)> = Vec::new();
        queue.push((start, 0));
        let mut head: usize = 0;
        while head < queue.len()
            invariant
                m == *world_map,
                max == max_search_distance as int,
                bound == world_map.width * world_map.height + 1,
                world_map.wf(),
                has_room(start),
                max_search_distance < i32::MAX || world_map.width + world_map.height <= i32::MAX,
                forall|t: MapTile| #[trigger] predicate.requires((&t,)),
                bfs_shape(m, start, queue@, head as int),
                bfs_expanded(m, queue@, head as int, max),
                forall|i: int|
                    0 <= i < head && (#[trigger] queue@[i]).1 <= max && in_bounds(m.width, m.height, queue@[i].0)
                        && queue@[i].0 != start ==> predicate.ensures((&m.tile_at(queue@[i].0),), false),
                queue.len() > 1 ==> reaches(m, start),
                queue.len() <= bound,
                queue@ == bfs_queue(m, start, max, head as nat),
            decreases bound - head,
        {
            let entry = queue[head];
            let current = entry.0;
            let distance = entry.1;
            let ghost q0 = queue@;
            if distance <= max_search_distance {
                match world_map.get_tile(current) {
                    Some(tile) => {
                        let hit = predicate(tile);
                        if hit && current != start {
                            proof {
                                assert(head != 0);
                                let order = bfs_queue(m, start, max, head as nat);
                                assert(order[head as int].0 == current);
                                assert forall|q: Position|
                                    searched(m, start, max, q) && manhattan(start, q) < manhattan(start, current)
                                        implies #[trigger] predicate.ensures((&m.tile_at(q),), false) by {
                                    lemma_frontier_complete(m, start, max, q0, head as int, q);
                                    let j = choose|j: int| 0 <= j < q0.len() && (#[trigger] q0[j]).0 == q;
                                    if j >= head {
                                        assert(q0[head as int].1 <= q0[j].1);
                                    }
                                }
                            }
                            return Some(current);
                        }
                    },
                    None => {},
                }
                let ghost done_here = in_bounds(m.width, m.height, current) && current != start
                    ==> predicate.ensures((&m.tile_at(current),), false);
                assert(done_here);
                let ns = world_map.neighbors(current);
                proof {
                    lemma_push_unqueued_none(q0, ns@, (distance + 1) as i32);
                }
                let mut k: usize = 0;
                while k < ns.len()
                    invariant
                        m == *world_map,
                        max == max_search_distance as int,
                        bound == world_map.width * world_map.height + 1,
                        world_map.wf(),
                        has_room(start),
                        max_search_distance < i32::MAX || world_map.width + world_map.height <= i32::MAX,
                        0 <= k <= ns.len(),
                        ns@ == neighbors_of(m.width, m.height, current),
                        head < q0.len(),
                        q0[head as int] == (current, distance),
                        distance <= max,
                        q0.len() <= queue@.len(),
                        forall|i: int| 0 <= i < q0.len() ==> #[trigger] queue@[i] == q0[i],
                        bfs_shape(m, start, queue@, head as int),
                        bfs_expanded(m, queue@, head as int, max),
                        forall|j: int| 0 <= j < k ==> queued(queue@, #[trigger] ns@[j]),
                        queue.len() > 1 ==> reaches(m, start),
                        queue.len() <= bound,
                        q0 == bfs_queue(m, start, max, head as nat),
                        queue@ == push_unqueued(q0, ns@.take(k as int), (distance + 1) as i32),
                    decreases ns.len() - k,
                {
                    let n = ns[k];
                    assert(neighbors_of(m.width, m.height, current).contains(n));
                    proof {
                        lemma_push_unqueued_step(q0, ns@, k as int, (distance + 1) as i32);
                    }
                    if !queue_has(&queue, n) {
                        let ghost qb = queue@;
                        proof {
                            lemma_listed_is_step(m.width, m.height, current, n);
                            let d = choose|d: Direction| n == #[trigger] step(current, d);
                            assert(reaches(m, start)) by {
                                if current == start {
                                    assert(ns@.len() > 0);
                                } else {
                                    assert(head != 0);
                                }
                            }
                            if manhattan(start, n) < distance {
                                lemma_frontier_complete(m, start, max, qb, head as int, n);
                            }
                            assert(manhattan(start, n) == distance + 1);
                        }
                        queue.push((n, distance + 1));
                        proof {
                            let qa = queue@;
                            assert(qa == qb.push((n, (distance + 1) as i32)));
                            assert(qa[head as int] == qb[head as int]);
                            assert forall|i: int, x: Position|
                                0 <= i < head && qa[i].1 <= max && #[trigger] neighbors_of(m.width, m.height, qa[i].0).contains(x)
                                    implies queued(qa, x) by {
                                assert(qa[i] == qb[i]);
                                let j = choose|j: int| 0 <= j < qb.len() && (#[trigger] qb[j]).0 == x;
                                assert(qa[j] == qb[j]);
                            }
                            assert forall|j: int| 0 <= j < k + 1 implies queued(qa, #[trigger] ns@[j]) by {
                                if j < k {
                                    let i = choose|i: int| 0 <= i < qb.len() && (#[trigger] qb[i]).0 == ns@[j];
                                    assert(qa[i] == qb[i]);
                                } else {
                                    assert(qa[qb.len() as int].0 == n);
                                }
                            }
                            assert forall|i: int| 0 <= i < qa.len() implies is_node(m, start, (#[trigger] qa[i]).0) by {
                                if i < qb.len() {
                                    assert(qa[i] == qb[i]);
                                }
                            }
                            assert forall|i: int, j: int| 0 <= i < j < qa.len() implies (#[trigger] qa[i]).0 != (#[trigger] qa[j]).0 by {
                                assert(qa[i] == qb[i]);
                                if j < qb.len() {
                                    assert(qa[j] == qb[j]);
                                }
                            }
                            lemma_queue_fits(m, start, qa);
                        }
                    } else {
                        proof {
                            assert forall|j: int| 0 <= j < k + 1 implies queued(queue@, #[trigger] ns@[j]) by {
                            }
                        }
                    }
                    k = k + 1;
                }
                proof {
                    let qa = queue@;
                    assert(ns@.take(ns@.len() as int) =~= ns@);
                    assert(qa == bfs_queue(m, start, max, (head + 1) as nat));
                    assert forall|i: int, x: Position|
                        0 <= i < head + 1 && qa[i].1 <= max && #[trigger] neighbors_of(m.width, m.height, qa[i].0).contains(x)
                            implies queued(qa, x) by {
                        if i == head {
                            let j = choose|j: int| 0 <= j < ns@.len() && ns@[j] == x;
                            assert(queued(qa, ns@[j]));
                        }
                    }
                }
            }
            head = head + 1;
        }
        proof {
            assert forall|q: Position| searched(m, start, max, q)
                implies #[trigger] predicate.ensures((&m.tile_at(q),), false) by {
                lemma_frontier_complete(m, start, max, queue@, head as int, q);
                let j = choose|j: int| 0 <= j < queue@.len() && (#[trigger] queue@[j]).0 == q;
            }
        }
        None
    }

}
/// A cached search result is what the last `cache_path` for its start and goal kept:
/// after `cache_path(start, goal, path)` changed the cache from `before` to `after`,
/// `cached_path(start, goal)` finds `path`, and every other start and goal pair finds
/// what it found before.
pub proof fn lemma_cache_keeps_last_result(
    before: Map<(Position, Position), Option<Seq<Position>>>,
    after: Map<(Position, Position), Option<Seq<Position>>>,
    start: Position,
    goal: Position,
    path: Option<Seq<Position>>,
)
    requires
        after == before.insert((start, goal), path),
    ensures
        after.contains_key((start, goal)),
        after[(start, goal)] == path,
        forall|k: (Position, Position)| k != (start, goal) ==> (#[trigger] after.contains_key(k) <==> before.contains_key(k)),
        forall|k: (Position, Position)| k != (start, goal) && before.contains_key(k) ==> #[trigger] after[k] == before[k],
{
}

/// Whether some entry of `queue` holds `p`.
fn queue_has(queue: &Vec<(Position, i32)>, p: Position) -> (b: bool)
    ensures
        b == queued(queue@, p),
{
    let mut i: usize = 0;
    while i < queue.len()
        invariant
            0 <= i <= queue.len(),
            forall|j: int| 0 <= j < i ==> (#[trigger] queue@[j]).0 != p,
        decreases queue.len() - i,
    {
        if queue[i].0 == p {
            return true;
        }
        i = i + 1;
    }
    false
}


} // verus!
