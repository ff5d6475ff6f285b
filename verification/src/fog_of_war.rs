use vstd::prelude::*;
use crate::civ::{CivId, EntityId};
use crate::position::{Position, abs_int};
use crate::world_map::WorldMap;

verus! {

/// Visibility of a tile for one civilization.
#[derive(Debug, Clone, Copy, PartialEq, Eq, Hash, Structural)]
pub enum VisibilityState {
    /// Never seen.
    Unexplored,
    /// Seen before, not currently watched.
    Explored,
    /// Currently watched by a unit or city.
    Visible,
}

impl Default for VisibilityState {
    fn default() -> (s: VisibilityState)
        ensures
            s == VisibilityState::Unexplored,
    {
        VisibilityState::Unexplored
    }
}

/// Marks an entity (unit or city) as giving sight within `range` tiles.
#[derive(Debug, Clone, Copy, PartialEq, Eq, Structural)]
pub struct ProvidesVision {
    pub range: i32,
}

impl ProvidesVision {
    /// Sight of a military unit: 2 tiles.
    pub fn unit_vision() -> (v: ProvidesVision)
        ensures
            v.range == 2,
    {
        ProvidesVision { range: 2 }
    }

    /// Sight of a city: 3 tiles.
    pub fn city_vision() -> (v: ProvidesVision)
        ensures
            v.range == 3,
    {
        ProvidesVision { range: 3 }
    }
}

/// Chebyshev distance: the larger of the horizontal and vertical distances.
pub open spec fn chebyshev(a: Position, b: Position) -> int {
    let dx = abs_int(a.x - b.x);
    let dy = abs_int(a.y - b.y);
    if dx >= dy { dx } else { dy }
}

/// Whether a state counts as explored (seen now or before).
pub open spec fn explored_state(s: VisibilityState) -> bool {
    s == VisibilityState::Visible || s == VisibilityState::Explored
}

/// The state of a tile after `reset_visibility`: visible tiles become explored.
pub open spec fn after_reset(s: VisibilityState) -> VisibilityState {
    if s == VisibilityState::Visible {
        VisibilityState::Explored
    } else {
        s
    }
}

/// Whether some vision source `(position, range)` of `sources` sees `p`.
pub open spec fn seen_by(sources: Seq<(Position, i32)>, p: Position) -> bool {
    exists|k: int| 0 <= k < sources.len() && chebyshev(p, (#[trigger] sources[k]).0) <= sources[k].1
}

/// One civilization's visibility of every tile, stored as `tiles[x][y]`.
#[derive(Debug, Clone)]
pub struct VisibilityMap {
    pub width: u32,
    pub height: u32,
    pub tiles: Vec<Vec<VisibilityState>>,
}

impl VisibilityMap {
    /// The shape invariant: `width` columns of `height` states, both within `i32`.
    pub open spec fn wf(&self) -> bool {
        &&& self.tiles@.len() == self.width
        &&& forall|i: int| 0 <= i < self.width ==> (#[trigger] self.tiles@[i])@.len() == self.height
        &&& self.width <= i32::MAX
        &&& self.height <= i32::MAX
    }

    /// Whether `(x, y)` lies on the map.
    pub open spec fn on_map(&self, x: int, y: int) -> bool {
        0 <= x < self.width && 0 <= y < self.height
    }

    /// The state of an on-map tile.
    pub open spec fn state(&self, x: int, y: int) -> VisibilityState {
        self.tiles@[x]@[y]
    }

    /// The state at a position, `None` off the map.
    pub open spec fn state_at(&self, p: Position) -> Option<VisibilityState> {
        if self.on_map(p.x as int, p.y as int) {
            Some(self.state(p.x as int, p.y as int))
        } else {
            None
        }
    }

    /// A `width` by `height` map on which nothing has been explored.
    pub fn new(width: u32, height: u32) -> (m: VisibilityMap)
        requires
            width <= i32::MAX,
            height <= i32::MAX,
        ensures
            m.wf(),
            m.width == width,
            m.height == height,
            forall|x: int, y: int| m.on_map(x, y) ==> m.state(x, y) == VisibilityState::Unexplored,
    {
        let mut tiles: Vec<Vec<VisibilityState>> = Vec::new();
        let mut x: u32 = 0;
        while x < width
            invariant
                x <= width,
                tiles@.len() == x,
                forall|i: int| 0 <= i < x ==> (#[trigger] tiles@[i])@.len() == height,
                forall|i: int, j: int| 0 <= i < x && 0 <= j < height
                    ==> #[trigger] tiles@[i]@[j] == VisibilityState::Unexplored,
            decreases width - x,
        {
            let mut column: Vec<VisibilityState> = Vec::new();
            let mut y: u32 = 0;
            while y < height
                invariant
                    y <= height,
                    column@.len() == y,
                    forall|j: int| 0 <= j < y ==> #[trigger] column@[j] == VisibilityState::Unexplored,
                decreases height - y,
            {
                column.push(VisibilityState::Unexplored);
                y = y + 1;
            }
            tiles.push(column);
            x = x + 1;
        }
        VisibilityMap { width, height, tiles }
    }

    /// The visibility state at `pos`, or `None` off the map.
    pub fn get(&self, pos: Position) -> (r: Option<VisibilityState>)
        requires
            self.wf(),
        ensures
            r == self.state_at(pos),
    {
        if pos.x >= 0 && pos.y >= 0 && (pos.x as u32) < self.width && (pos.y as u32) < self.height {
            Some(self.tiles[pos.x as usize][pos.y as usize])
        } else {
            None
        }
    }

    /// Sets the state at `pos`; nothing happens off the map.
    pub fn set(&mut self, pos: Position, state: VisibilityState)
        requires
            old(self).wf(),
        ensures
            final(self).wf(),
            final(self).width == old(self).width,
            final(self).height == old(self).height,
            forall|x: int, y: int| final(self).on_map(x, y) ==> #[trigger] final(self).state(x, y) == (
                if x == pos.x && y == pos.y { state } else { old(self).state(x, y) }),
    {
        if pos.x >= 0 && pos.y >= 0 && (pos.x as u32) < self.width && (pos.y as u32) < self.height {
            self.set_tile(pos.x as usize, pos.y as usize, state);
        }
    }

    /// Writes one on-map tile.
    fn set_tile(&mut self, x: usize, y: usize, state: VisibilityState)
        requires
            old(self).wf(),
            x < old(self).width,
            y < old(self).height,
        ensures
            final(self).wf(),
            final(self).width == old(self).width,
            final(self).height == old(self).height,
            forall|i: int, j: int| final(self).on_map(i, j) ==> #[trigger] final(self).state(i, j) == (
                if i == x && j == y { state } else { old(self).state(i, j) }),
    {
        self.tiles[x][y] = state;
        proof {
            assert forall|i: int| 0 <= i < self.width implies (#[trigger] self.tiles@[i])@.len() == self.height by {
                if i != x {
                    assert(self.tiles@[i] == old(self).tiles@[i]);
                }
            }
        }
    }

    /// Whether `pos` is currently visible.
    pub fn is_visible(&self, pos: Position) -> (b: bool)
        requires
            self.wf(),
        ensures
            b == (self.state_at(pos) == Some(VisibilityState::Visible)),
    {
        match self.get(pos) {
            Some(VisibilityState::Visible) => true,
            _ => false,
        }
    }

    /// Whether `pos` has been explored (is visible now or was seen before).
    pub fn is_explored(&self, pos: Position) -> (b: bool)
        requires
            self.wf(),
        ensures
            b == (self.state_at(pos) == Some(VisibilityState::Visible)
                || self.state_at(pos) == Some(VisibilityState::Explored)),
    {
        match self.get(pos) {
            Some(VisibilityState::Visible) | Some(VisibilityState::Explored) => true,
            _ => false,
        }
    }

    /// Turns every visible tile into an explored one; other tiles keep their state.
    pub fn reset_visibility(&mut self)
        requires
            old(self).wf(),
        ensures
            final(self).wf(),
            final(self).width == old(self).width,
            final(self).height == old(self).height,
            forall|x: int, y: int| final(self).on_map(x, y) ==> #[trigger] final(self).state(x, y) == (
                after_reset(old(self).state(x, y))),
    {
        let ghost start = *self;
        let mut x: u32 = 0;
        while x < self.width
            invariant
                self.wf(),
                self.width == start.width,
                self.height == start.height,
                start.wf(),
                x <= self.width,
                forall|i: int, j: int| self.on_map(i, j) ==> #[trigger] self.state(i, j) == (
                    if i < x && start.state(i, j) == VisibilityState::Visible {
                        VisibilityState::Explored
                    } else {
                        start.state(i, j)
                    }),
            decreases self.width - x,
        {
            let mut y: u32 = 0;
            while y < self.height
                invariant
                    self.wf(),
                    self.width == start.width,
                    self.height == start.height,
                    start.wf(),
                    x < self.width,
                    y <= self.height,
                    forall|i: int, j: int| self.on_map(i, j) ==> #[trigger] self.state(i, j) == (
                        if (i < x || (i == x && j < y)) && start.state(i, j) == VisibilityState::Visible {
                            VisibilityState::Explored
                        } else {
                            start.state(i, j)
                        }),
                decreases self.height - y,
            {
                if self.tiles[x as usize][y as usize] == VisibilityState::Visible {
                    self.set_tile(x as usize, y as usize, VisibilityState::Explored);
                }
                y = y + 1;
            }
            x = x + 1;
        }
    }

    /// Makes every on-map tile within Chebyshev distance `range` of `center` visible;
    /// other tiles keep their state.
    pub fn mark_visible(&mut self, center: Position, range: i32)
        requires
            old(self).wf(),
        ensures
            final(self).wf(),
            final(self).width == old(self).width,
            final(self).height == old(self).height,
            forall|x: int, y: int| final(self).on_map(x, y) ==> #[trigger] final(self).state(x, y) == (
                if chebyshev(Position { x: x as i32, y: y as i32 }, center) <= range {
                    VisibilityState::Visible
                } else {
                    old(self).state(x, y)
                }),
    {
        let ghost start = *self;
        if range < 0 || self.width == 0 || self.height == 0 {
            return;
        }
        let cx: i64 = center.x as i64;
        let cy: i64 = center.y as i64;
        let r: i64 = range as i64;
        let x_lo: i64 = if cx - r > 0 { cx - r } else { 0 };
        let x_hi: i64 = if cx + r < self.width as i64 - 1 { cx + r } else { self.width as i64 - 1 };
        let y_lo: i64 = if cy - r > 0 { cy - r } else { 0 };
        let y_hi: i64 = if cy + r < self.height as i64 - 1 { cy + r } else { self.height as i64 - 1 };
        if x_lo > x_hi || y_lo > y_hi {
            return;
        }
        let mut x: i64 = x_lo;
        while x <= x_hi
            invariant
                self.wf(),
                start.wf(),
                self.width == start.width,
                self.height == start.height,
                x_lo <= x,
                x <= x_hi + 1,
                y_lo <= y_hi,
                0 <= x_lo,
                x_hi < self.width,
                0 <= y_lo,
                y_hi < self.height,
                forall|i: int, j: int| self.on_map(i, j) ==> #[trigger] self.state(i, j) == (
                    if x_lo <= i < x && y_lo <= j <= y_hi {
                        VisibilityState::Visible
                    } else {
                        start.state(i, j)
                    }),
            decreases x_hi + 1 - x,
        {
            let mut y: i64 = y_lo;
            while y <= y_hi
                invariant
                    self.wf(),
                    start.wf(),
                    self.width == start.width,
                    self.height == start.height,
                    x_lo <= x <= x_hi,
                    y_lo <= y,
                    y <= y_hi + 1,
                    0 <= x_lo,
                    x_hi < self.width,
                    0 <= y_lo,
                    y_hi < self.height,
                    forall|i: int, j: int| self.on_map(i, j) ==> #[trigger] self.state(i, j) == (
                        if (x_lo <= i < x && y_lo <= j <= y_hi) || (i == x && y_lo <= j < y) {
                            VisibilityState::Visible
                        } else {
                            start.state(i, j)
                        }),
                decreases y_hi + 1 - y,
            {
                self.set_tile(x as usize, y as usize, VisibilityState::Visible);
                y = y + 1;
            }
            x = x + 1;
        }
        proof {
            assert forall|i: int, j: int| self.on_map(i, j) implies #[trigger] self.state(i, j) == (
                if chebyshev(Position { x: i as i32, y: j as i32 }, center) <= range {
                    VisibilityState::Visible
                } else {
                    start.state(i, j)
                }) by {
                assert((Position { x: i as i32, y: j as i32 }).x == i);
                assert((Position { x: i as i32, y: j as i32 }).y == j);
            }
        }
    }
}

/// The index of the first entry for `civ` at or after `i`.
pub open spec fn first_match_from(maps: Seq<(CivId, VisibilityMap)>, civ: CivId, i: int) -> Option<int>
    decreases maps.len() - i,
{
    if i < 0 || i >= maps.len() {
        None
    } else if maps[i].0 == civ {
        Some(i)
    } else {
        first_match_from(maps, civ, i + 1)
    }
}

/// The index of the first entry for `civ`.
pub open spec fn first_match(maps: Seq<(CivId, VisibilityMap)>, civ: CivId) -> Option<int> {
    first_match_from(maps, civ, 0)
}

/// The visibility map that `maps` holds for `civ`: the first entry for it.
pub open spec fn map_of(maps: Seq<(CivId, VisibilityMap)>, civ: CivId) -> Option<VisibilityMap> {
    match first_match(maps, civ) {
        Some(i) => Some(maps[i].1),
        None => None,
    }
}

/// The first match lies in range, names `civ`, and no earlier entry names it;
/// when there is none, no entry names `civ`.
pub proof fn lemma_first_match_from(maps: Seq<(CivId, VisibilityMap)>, civ: CivId, i: int)
    requires
        0 <= i <= maps.len(),
    ensures
        match first_match_from(maps, civ, i) {
            Some(k) => i <= k < maps.len() && maps[k].0 == civ
                && forall|j: int| i <= j < k ==> maps[j].0 != civ,
            None => forall|j: int| i <= j < maps.len() ==> maps[j].0 != civ,
        },
    decreases maps.len() - i,
{
    if i < maps.len() && maps[i].0 != civ {
        lemma_first_match_from(maps, civ, i + 1);
    }
}

/// Holds for entries that belong to another civilization than `civ`.
pub open spec fn not_civ(civ: CivId) -> spec_fn((CivId, VisibilityMap)) -> bool {
    |e: (CivId, VisibilityMap)| e.0 != civ
}

/// The visibility maps of all civilizations.
#[derive(Debug, Clone)]
pub struct FogOfWarMaps {
    pub maps: Vec<(CivId, VisibilityMap)>,
}

impl FogOfWarMaps {
    /// Every stored map keeps the shape invariant.
    pub open spec fn wf(&self) -> bool {
        forall|i: int| 0 <= i < self.maps@.len() ==> (#[trigger] self.maps@[i]).1.wf()
    }

    pub fn new() -> (f: FogOfWarMaps)
        ensures
            f.maps@ == Seq::<(CivId, VisibilityMap)>::empty(),
    {
        FogOfWarMaps { maps: Vec::new() }
    }

    /// Drops any map of `civ_id` and adds a fresh, unexplored `width` by `height` map for it
    /// at the end.
    pub fn init_for_civ(&mut self, civ_id: CivId, width: u32, height: u32)
        requires
            old(self).wf(),
            width <= i32::MAX,
            height <= i32::MAX,
        ensures
            final(self).wf(),
            final(self).maps@.len() >= 1,
            final(self).maps@.drop_last() == old(self).maps@.filter(not_civ(civ_id)),
            final(self).maps@.last().0 == civ_id,
            final(self).maps@.last().1.width == width,
            final(self).maps@.last().1.height == height,
            forall|x: int, y: int| final(self).maps@.last().1.on_map(x, y)
                ==> #[trigger] final(self).maps@.last().1.state(x, y) == VisibilityState::Unexplored,
    {
        let mut kept: Vec<(CivId, VisibilityMap)> = Vec::new();
        let mut old_maps: Vec<(CivId, VisibilityMap)> = Vec::new();
        std::mem::swap(&mut old_maps, &mut self.maps);
        let ghost orig = old_maps@;
        let mut i: usize = 0;
        let n = old_maps.len();
        while i < n
            invariant
                n == orig.len(),
                old_maps@ == orig.skip(i as int),
                i <= n,
                kept@ == orig.take(i as int).filter(not_civ(civ_id)),
                forall|k: int| 0 <= k < orig.len() ==> (#[trigger] orig[k]).1.wf(),
                forall|k: int| 0 <= k < kept@.len() ==> (#[trigger] kept@[k]).1.wf(),
            decreases n - i,
        {
            proof {
                reveal_with_fuel(Seq::filter, 1);
                assert(orig.take(i + 1).drop_last() =~= orig.take(i as int));
                assert(orig.skip(i as int)[0] == orig[i as int]);
            }
            let entry = old_maps.remove(0);
            proof {
                assert(old_maps@ =~= orig.skip(i + 1));
            }
            proof {
                assert(entry == orig[i as int]);
                assert(orig.take(i + 1).last() == orig[i as int]);
                assert(not_civ(civ_id)(entry) == (entry.0 != civ_id));
            }
            if entry.0 != civ_id {
                kept.push(entry);
            }
            i = i + 1;
        }
        proof {
            assert(orig.take(n as int) =~= orig);
        }
        kept.push((civ_id, VisibilityMap::new(width, height)));
        self.maps = kept;
        proof {
            assert(self.maps@.drop_last() =~= orig.filter(not_civ(civ_id)));
        }
    }

    /// The visibility map of `civ_id`, if it has one.
    pub fn get(&self, civ_id: CivId) -> (r: Option<&VisibilityMap>)
        ensures
            match r {
                Some(m) => map_of(self.maps@, civ_id) == Some(*m),
                None => map_of(self.maps@, civ_id).is_none(),
            },
    {
        let mut i: usize = 0;
        while i < self.maps.len()
            invariant
                i <= self.maps@.len(),
                first_match(self.maps@, civ_id) == first_match_from(self.maps@, civ_id, i as int),
            decreases self.maps@.len() - i,
        {
            if self.maps[i].0 == civ_id {
                return Some(&self.maps[i].1);
            }
            i = i + 1;
        }
        None
    }

    /// The visibility map of `civ_id` for updating, if it has one.
    pub fn get_mut(&mut self, civ_id: CivId) -> (r: Option<&mut VisibilityMap>)
        ensures
            match first_match(old(self).maps@, civ_id) {
                Some(i) => r.is_some() && *r.unwrap() == old(self).maps@[i].1
                    && final(self).maps@ == old(self).maps@.update(i, (civ_id, *final(r.unwrap()))),
                None => r.is_none() && final(self).maps@ == old(self).maps@,
            },
    {
        let mut i: usize = 0;
        while i < self.maps.len()
            invariant
                i <= self.maps@.len(),
                self.maps@ == old(self).maps@,
                first_match(self.maps@, civ_id) == first_match_from(self.maps@, civ_id, i as int),
            decreases self.maps@.len() - i,
        {
            if self.maps[i].0 == civ_id {
                return Some(&mut self.maps[i].1);
            }
            i = i + 1;
        }
        None
    }
}

impl FogOfWarMaps {
    /// Whether `pos` is visible to `civ_id`; `false` when the civilization has no map.
    pub fn is_visible_to(&self, civ_id: CivId, pos: Position) -> (b: bool)
        requires
            self.wf(),
        ensures
            b == match map_of(self.maps@, civ_id) {
                Some(m) => m.state_at(pos) == Some(VisibilityState::Visible),
                None => false,
            },
    {
        proof {
            lemma_first_match_from(self.maps@, civ_id, 0);
        }
        match self.get(civ_id) {
            Some(map) => map.is_visible(pos),
            None => false,
        }
    }

    /// Whether `pos` has been explored by `civ_id`; `false` when the civilization has no map.
    pub fn is_explored_by(&self, civ_id: CivId, pos: Position) -> (b: bool)
        requires
            self.wf(),
        ensures
            b == match map_of(self.maps@, civ_id) {
                Some(m) => m.state_at(pos) == Some(VisibilityState::Visible)
                    || m.state_at(pos) == Some(VisibilityState::Explored),
                None => false,
            },
    {
        proof {
            lemma_first_match_from(self.maps@, civ_id, 0);
        }
        match self.get(civ_id) {
            Some(map) => map.is_explored(pos),
            None => false,
        }
    }
}

impl Default for FogOfWarMaps {
    fn default() -> (f: FogOfWarMaps)
        ensures
            f.maps@ == Seq::<(CivId, VisibilityMap)>::empty(),
    {
        FogOfWarMaps::new()
    }
}

/// Recomputes one civilization's visibility at the start of a turn: visible tiles
/// become explored, then every tile seen by one of `sources` (each a position and a
/// sight range) becomes visible.
pub fn update_civ_visibility(map: &mut VisibilityMap, sources: &Vec<(Position, i32)>)
    requires
        old(map).wf(),
    ensures
        final(map).wf(),
        final(map).width == old(map).width,
        final(map).height == old(map).height,
        forall|x: int, y: int| final(map).on_map(x, y) ==> #[trigger] final(map).state(x, y) == (
            if seen_by(sources@, Position { x: x as i32, y: y as i32 }) {
                VisibilityState::Visible
            } else {
                after_reset(old(map).state(x, y))
            }),
{
    let ghost start = *map;
    map.reset_visibility();
    let ghost reset = *map;
    let mut k: usize = 0;
    while k < sources.len()
        invariant
            map.wf(),
            reset.wf(),
            map.width == start.width,
            map.height == start.height,
            reset.width == start.width,
            reset.height == start.height,
            k <= sources@.len(),
            forall|x: int, y: int| reset.on_map(x, y) ==> #[trigger] reset.state(x, y) == after_reset(start.state(x, y)),
            forall|x: int, y: int| map.on_map(x, y) ==> #[trigger] map.state(x, y) == (
                if seen_by(sources@.take(k as int), Position { x: x as i32, y: y as i32 }) {
                    VisibilityState::Visible
                } else {
                    reset.state(x, y)
                }),
        decreases sources@.len() - k,
    {
        let (center, range) = sources[k];
        let ghost before = *map;
        map.mark_visible(center, range);
        proof {
            assert forall|x: int, y: int| map.on_map(x, y) implies #[trigger] map.state(x, y) == (
                if seen_by(sources@.take(k + 1), Position { x: x as i32, y: y as i32 }) {
                    VisibilityState::Visible
                } else {
                    reset.state(x, y)
                }) by {
                let p = Position { x: x as i32, y: y as i32 };
                assert(before.state(x, y) == map.state(x, y) || chebyshev(p, center) <= range);
                if seen_by(sources@.take(k + 1), p) {
                    let w = choose|w: int| 0 <= w < k + 1 && chebyshev(p, (#[trigger] sources@.take(k + 1)[w]).0) <= sources@.take(k + 1)[w].1;
                    if w < k {
                        assert(sources@.take(k as int)[w] == sources@.take(k + 1)[w]);
                    }
                } else {
                    assert(sources@.take(k + 1)[k as int] == sources@[k as int]);
                    if seen_by(sources@.take(k as int), p) {
                        let w = choose|w: int| 0 <= w < k && chebyshev(p, (#[trigger] sources@.take(k as int)[w]).0) <= sources@.take(k as int)[w].1;
                        assert(sources@.take(k + 1)[w] == sources@.take(k as int)[w]);
                    }
                }
            }
        }
        k = k + 1;
    }
    proof {
        assert(sources@.take(sources@.len() as int) =~= sources@);
    }
}

/// Fog of war never forgets: a tile that was explored (or visible) before a turn's
/// visibility update is still explored or visible afterwards, and a tile that a
/// source sees is visible.
pub proof fn lemma_update_keeps_explored(old_state: VisibilityState, seen: bool)
    ensures
        explored_state(old_state) ==> explored_state(
            if seen { VisibilityState::Visible } else { after_reset(old_state) }),
        seen ==> (if seen { VisibilityState::Visible } else { after_reset(old_state) }) == VisibilityState::Visible,
        !seen ==> (if seen { VisibilityState::Visible } else { after_reset(old_state) }) != VisibilityState::Visible,
{
}

/// Resetting visibility never creates or removes exploration: unexplored stays
/// unexplored and explored stays explored.
pub proof fn lemma_reset_preserves_exploration(s: VisibilityState)
    ensures
        explored_state(after_reset(s)) == explored_state(s),
        after_reset(s) != VisibilityState::Visible,
{
}

/// Row-major order on positions: by `x`, then by `y`.
pub open spec fn lex_lt(a: Position, b: Position) -> bool {
    a.x < b.x || (a.x == b.x && a.y < b.y)
}

/// A sequence of positions in strictly increasing row-major order.
pub open spec fn strictly_sorted(s: Seq<Position>) -> bool {
    forall|i: int, j: int| 0 <= i < j < s.len() ==> lex_lt(#[trigger] s[i], #[trigger] s[j])
}

/// Whether civilization `civ` sees position `p` in `maps`.
pub open spec fn visible_in(maps: Seq<(CivId, VisibilityMap)>, civ: CivId, p: Position) -> bool {
    match map_of(maps, civ) {
        Some(m) => m.state_at(p) == Some(VisibilityState::Visible),
        None => false,
    }
}

/// Whether civilization `civ` has explored position `p` in `maps`.
pub open spec fn explored_in(maps: Seq<(CivId, VisibilityMap)>, civ: CivId, p: Position) -> bool {
    match map_of(maps, civ) {
        Some(m) => explored_state_opt(m.state_at(p)),
        None => false,
    }
}

/// Whether an optional state is explored or visible.
pub open spec fn explored_state_opt(s: Option<VisibilityState>) -> bool {
    match s {
        Some(v) => explored_state(v),
        None => false,
    }
}

/// Whether `p` is visible on `m` (or, with `explored`, explored).
pub open spec fn wanted(m: VisibilityMap, explored: bool, p: Position) -> bool {
    if explored {
        explored_state_opt(m.state_at(p))
    } else {
        m.state_at(p) == Some(VisibilityState::Visible)
    }
}

/// Gives civilization `civ_id` a fresh, unexplored map the size of the world map.
pub fn initialize_fog_of_war_for_civ(civ_id: CivId, fog_of_war: &mut FogOfWarMaps, world_map: &crate::world_map::WorldMap)
    requires
        old(fog_of_war).wf(),
        world_map.wf(),
    ensures
        final(fog_of_war).wf(),
        final(fog_of_war).maps@.len() >= 1,
        final(fog_of_war).maps@.drop_last() == old(fog_of_war).maps@.filter(not_civ(civ_id)),
        final(fog_of_war).maps@.last().0 == civ_id,
        final(fog_of_war).maps@.last().1.width == world_map.width,
        final(fog_of_war).maps@.last().1.height == world_map.height,
        forall|x: int, y: int| final(fog_of_war).maps@.last().1.on_map(x, y)
            ==> #[trigger] final(fog_of_war).maps@.last().1.state(x, y) == VisibilityState::Unexplored,
{
    fog_of_war.init_for_civ(civ_id, world_map.width, world_map.height);
}

/// Whether `pos` is visible to `civ_id`.
pub fn is_position_visible(pos: Position, civ_id: CivId, fog_of_war: &FogOfWarMaps) -> (b: bool)
    requires
        fog_of_war.wf(),
    ensures
        b == visible_in(fog_of_war.maps@, civ_id, pos),
{
    fog_of_war.is_visible_to(civ_id, pos)
}

/// Whether `pos` has been explored by `civ_id`.
pub fn is_position_explored(pos: Position, civ_id: CivId, fog_of_war: &FogOfWarMaps) -> (b: bool)
    requires
        fog_of_war.wf(),
    ensures
        b == explored_in(fog_of_war.maps@, civ_id, pos),
{
    fog_of_war.is_explored_by(civ_id, pos)
}

/// All positions that `civ_id` currently sees, in row-major order (by `x`, then `y`);
/// empty when the civilization has no map.
pub fn get_visible_positions(civ_id: CivId, fog_of_war: &FogOfWarMaps) -> (r: Vec<Position>)
    requires
        fog_of_war.wf(),
    ensures
        strictly_sorted(r@),
        forall|p: Position| r@.contains(p) <==> visible_in(fog_of_war.maps@, civ_id, p),
{
    collect_positions(civ_id, fog_of_war, false)
}

/// All positions that `civ_id` has explored or sees, in row-major order (by `x`, then
/// `y`); empty when the civilization has no map.
pub fn get_explored_positions(civ_id: CivId, fog_of_war: &FogOfWarMaps) -> (r: Vec<Position>)
    requires
        fog_of_war.wf(),
    ensures
        strictly_sorted(r@),
        forall|p: Position| r@.contains(p) <==> explored_in(fog_of_war.maps@, civ_id, p),
{
    collect_positions(civ_id, fog_of_war, true)
}

/// The positions that are visible (or, with `explored`, explored) to `civ_id`, in
/// row-major order.
fn collect_positions(civ_id: CivId, fog_of_war: &FogOfWarMaps, explored: bool) -> (r: Vec<Position>)
    requires
        fog_of_war.wf(),
    ensures
        strictly_sorted(r@),
        forall|p: Position| r@.contains(p) <==> (if explored {
            explored_in(fog_of_war.maps@, civ_id, p)
        } else {
            visible_in(fog_of_war.maps@, civ_id, p)
        }),
{
    proof {
        lemma_first_match_from(fog_of_war.maps@, civ_id, 0);
    }
    let mut out: Vec<Position> = Vec::new();
    let vis_map = match fog_of_war.get(civ_id) {
        Some(m) => m,
        None => {
            return out;
        },
    };
    let mut x: u32 = 0;
    while x < vis_map.width
        invariant
            vis_map.wf(),
            x <= vis_map.width,
            strictly_sorted(out@),
            forall|k: int| 0 <= k < out@.len() ==> (#[trigger] out@[k]).x < x,
            forall|p: Position| out@.contains(p) <==> (p.x < x && wanted(*vis_map, explored, p)),
        decreases vis_map.width - x,
    {
        let mut y: u32 = 0;
        while y < vis_map.height
            invariant
                vis_map.wf(),
                x < vis_map.width,
                y <= vis_map.height,
                strictly_sorted(out@),
                forall|k: int| 0 <= k < out@.len() ==> lex_lt(#[trigger] out@[k], Position { x: x as i32, y: y as i32 }),
                forall|p: Position| out@.contains(p) <==> (lex_lt(p, Position { x: x as i32, y: y as i32 }) && wanted(*vis_map, explored, p)),
            decreases vis_map.height - y,
        {
            let pos = Position::new(x as i32, y as i32);
            let keep = if explored { vis_map.is_explored(pos) } else { vis_map.is_visible(pos) };
            let ghost before = out@;
            assert(keep == wanted(*vis_map, explored, pos));
            if keep {
                out.push(pos);
            }
            proof {
                let next = Position { x: x as i32, y: (y + 1) as i32 };
                assert forall|p: Position| out@.contains(p) <==> (lex_lt(p, next) && wanted(*vis_map, explored, p)) by {
                    if out@.contains(p) && !before.contains(p) {
                        assert(p == pos);
                    }
                    if lex_lt(p, next) && wanted(*vis_map, explored, p) && !lex_lt(p, pos) {
                        assert(p == pos);
                        assert(keep);
                        assert(out@[out@.len() - 1] == pos);
                    }
                    if before.contains(p) {
                        let k = choose|k: int| 0 <= k < before.len() && before[k] == p;
                        assert(out@[k] == p);
                    }
                }
            }
            y = y + 1;
        }
        proof {
            let row_end = Position { x: x as i32, y: vis_map.height as i32 };
            assert forall|p: Position| out@.contains(p) <==> (p.x < x + 1 && wanted(*vis_map, explored, p)) by {
                if p.x == x && wanted(*vis_map, explored, p) {
                    assert(p.y < vis_map.height);
                }
            }
        }
        x = x + 1;
    }
    proof {
        assert forall|p: Position| out@.contains(p) <==> wanted(*vis_map, explored, p) by {
            if wanted(*vis_map, explored, p) {
                assert(p.x < vis_map.width);
            }
        }
    }
    out
}

/// The entities of `items` that stand on positions visible to `civ`, in the order given.
pub open spec fn visible_entities(maps: Seq<(CivId, VisibilityMap)>, civ: CivId, items: Seq<(Position, EntityId)>) -> Seq<EntityId>
    decreases items.len(),
{
    if items.len() == 0 {
        Seq::empty()
    } else {
        let rest = visible_entities(maps, civ, items.drop_last());
        if visible_in(maps, civ, items.last().0) {
            rest.push(items.last().1)
        } else {
            rest
        }
    }
}

/// The units (given by position and entity) that `civ_id` can see, in the order given.
pub fn filter_visible_units(units: &Vec<(Position, EntityId)>, civ_id: CivId, fog_of_war: &FogOfWarMaps) -> (r: Vec<EntityId>)
    requires
        fog_of_war.wf(),
    ensures
        r@ == visible_entities(fog_of_war.maps@, civ_id, units@),
{
    filter_visible(units, civ_id, fog_of_war)
}

/// The cities (given by position and entity) that `civ_id` can see, in the order given.
pub fn filter_visible_cities(cities: &Vec<(Position, EntityId)>, civ_id: CivId, fog_of_war: &FogOfWarMaps) -> (r: Vec<EntityId>)
    requires
        fog_of_war.wf(),
    ensures
        r@ == visible_entities(fog_of_war.maps@, civ_id, cities@),
{
    filter_visible(cities, civ_id, fog_of_war)
}

fn filter_visible(items: &Vec<(Position, EntityId)>, civ_id: CivId, fog_of_war: &FogOfWarMaps) -> (r: Vec<EntityId>)
    requires
        fog_of_war.wf(),
    ensures
        r@ == visible_entities(fog_of_war.maps@, civ_id, items@),
{
    let mut out: Vec<EntityId> = Vec::new();
    let mut i: usize = 0;
    while i < items.len()
        invariant
            fog_of_war.wf(),
            i <= items@.len(),
            out@ == visible_entities(fog_of_war.maps@, civ_id, items@.take(i as int)),
        decreases items@.len() - i,
    {
        proof {
            assert(items@.take(i + 1).drop_last() =~= items@.take(i as int));
        }
        let (pos, entity) = items[i];
        if fog_of_war.is_visible_to(civ_id, pos) {
            out.push(entity);
        }
        i = i + 1;
    }
    proof {
        assert(items@.take(items@.len() as int) =~= items@);
    }
    out
}

/// Looking a civilization up after an entry is added at the end finds the earlier
/// entry when there is one, else the new one when it names the civilization.
proof fn lemma_first_match_push(s: Seq<(CivId, VisibilityMap)>, e: (CivId, VisibilityMap), d: CivId, i: int)
    requires
        0 <= i <= s.len(),
    ensures
        first_match_from(s.push(e), d, i) == (match first_match_from(s, d, i) {
            Some(k) => Some(k),
            None => if e.0 == d { Some(s.len() as int) } else { None },
        }),
    decreases s.len() - i,
{
    let t = s.push(e);
    if i < s.len() {
        assert(t[i] == s[i]);
        if s[i].0 != d {
            lemma_first_match_from_push_step(s, e, d, i);
        }
    } else {
        assert(t[i] == e);
        if e.0 != d {
            assert(first_match_from(t, d, i + 1) == None::<int>);
        }
    }
}

proof fn lemma_first_match_from_push_step(s: Seq<(CivId, VisibilityMap)>, e: (CivId, VisibilityMap), d: CivId, i: int)
    requires
        0 <= i < s.len(),
        s[i].0 != d,
    ensures
        first_match_from(s.push(e), d, i) == (match first_match_from(s, d, i + 1) {
            Some(k) => Some(k),
            None => if e.0 == d { Some(s.len() as int) } else { None },
        }),
    decreases s.len() - i, 0int,
{
    assert(s.push(e)[i] == s[i]);
    lemma_first_match_push(s, e, d, i + 1);
}

/// The maps after adding an entry at the end.
proof fn lemma_map_of_push(s: Seq<(CivId, VisibilityMap)>, e: (CivId, VisibilityMap), d: CivId)
    ensures
        map_of(s.push(e), d) == (match map_of(s, d) {
            Some(m) => Some(m),
            None => if e.0 == d { Some(e.1) } else { None },
        }),
{
    lemma_first_match_push(s, e, d, 0);
    lemma_first_match_from(s, d, 0);
    if let Some(k) = first_match(s, d) {
        assert(s.push(e)[k] == s[k]);
    } else if e.0 == d {
        assert(s.push(e)[s.len() as int] == e);
    }
}

/// Replacing the map of an entry, keeping its civilization, leaves every lookup in place.
proof fn lemma_first_match_update(s: Seq<(CivId, VisibilityMap)>, i: int, e: (CivId, VisibilityMap), d: CivId, j: int)
    requires
        0 <= i < s.len(),
        0 <= j <= s.len(),
        e.0 == s[i].0,
    ensures
        first_match_from(s.update(i, e), d, j) == first_match_from(s, d, j),
    decreases s.len() - j,
{
    if j < s.len() {
        assert(s.update(i, e)[j].0 == s[j].0);
        lemma_first_match_update(s, i, e, d, j + 1);
    }
}

/// The maps after the map at index `i` is replaced.
proof fn lemma_map_of_update(s: Seq<(CivId, VisibilityMap)>, i: int, e: (CivId, VisibilityMap), d: CivId)
    requires
        0 <= i < s.len(),
        e.0 == s[i].0,
    ensures
        map_of(s.update(i, e), d) == (if first_match(s, d) == Some(i) { Some(e.1) } else { map_of(s, d) }),
{
    lemma_first_match_update(s, i, e, d, 0);
    lemma_first_match_from(s, d, 0);
}

/// Dropping the entries of a civilization that has none keeps every entry.
proof fn lemma_filter_keeps_all(s: Seq<(CivId, VisibilityMap)>, c: CivId)
    requires
        forall|j: int| 0 <= j < s.len() ==> (#[trigger] s[j]).0 != c,
    ensures
        s.filter(not_civ(c)) == s,
    decreases s.len(),
{
    reveal_with_fuel(Seq::filter, 1);
    if s.len() > 0 {
        let p = s.drop_last();
        assert forall|j: int| 0 <= j < p.len() implies (#[trigger] p[j]).0 != c by {
            assert(p[j] == s[j]);
        }
        lemma_filter_keeps_all(p, c);
        assert(not_civ(c)(s.last()));
        assert(p.push(s.last()) =~= s);
    }
}

/// Whether a vision source of `civ` among `sources` (position, owner, sight range) sees `p`.
pub open spec fn seen_by_civ(sources: Seq<(Position, CivId, i32)>, civ: CivId, p: Position) -> bool {
    exists|k: int| 0 <= k < sources.len() && (#[trigger] sources[k]).1 == civ && chebyshev(p, sources[k].0) <= sources[k].2
}

/// Whether a unit or a city of `civ` sees `p`.
pub open spec fn civ_sees(units: Seq<(Position, CivId, i32)>, cities: Seq<(Position, CivId, i32)>, civ: CivId, p: Position) -> bool {
    seen_by_civ(units, civ, p) || seen_by_civ(cities, civ, p)
}

/// `m` is `m0` after a turn's visibility update for `civ`: tiles its units and cities
/// see are visible, the others as after a reset.
pub open spec fn refreshed(m0: VisibilityMap, m: VisibilityMap, units: Seq<(Position, CivId, i32)>, cities: Seq<(Position, CivId, i32)>, civ: CivId) -> bool {
    &&& m.wf()
    &&& m.width == m0.width
    &&& m.height == m0.height
    &&& forall|x: int, y: int| m.on_map(x, y) ==> #[trigger] m.state(x, y) == (
        if civ_sees(units, cities, civ, Position { x: x as i32, y: y as i32 }) {
            VisibilityState::Visible
        } else {
            after_reset(m0.state(x, y))
        })
}

/// Recomputing a civilization's visibility a second time from the same units and cities
/// changes nothing more: two updates leave the map as one does.
pub proof fn lemma_refresh_twice_is_once(
    m0: VisibilityMap,
    m1: VisibilityMap,
    m2: VisibilityMap,
    units: Seq<(Position, CivId, i32)>,
    cities: Seq<(Position, CivId, i32)>,
    civ: CivId,
)
    requires
        refreshed(m0, m1, units, cities, civ),
        refreshed(m1, m2, units, cities, civ),
    ensures
        refreshed(m0, m2, units, cities, civ),
{
    assert forall|x: int, y: int| m2.on_map(x, y) implies #[trigger] m2.state(x, y) == (
        if civ_sees(units, cities, civ, Position { x: x as i32, y: y as i32 }) {
            VisibilityState::Visible
        } else {
            after_reset(m0.state(x, y))
        }) by {
        assert(m1.on_map(x, y));
    }
}

/// `m` is a fresh `width` by `height` map on which nothing is explored.
pub open spec fn fresh_map(m: VisibilityMap, width: u32, height: u32) -> bool {
    &&& m.wf()
    &&& m.width == width
    &&& m.height == height
    &&& forall|x: int, y: int| m.on_map(x, y) ==> #[trigger] m.state(x, y) == VisibilityState::Unexplored
}

/// Adds to `out` the position and sight range of each source of `civ` in `sources`.
fn collect_sources(out: &mut Vec<(Position, i32)>, sources: &Vec<(Position, CivId, i32)>, civ: CivId)
    ensures
        forall|p: Position| seen_by(final(out)@, p) <==> (seen_by(old(out)@, p) || seen_by_civ(sources@, civ, p)),
{
    let ghost start = out@;
    let ghost mut origin: Seq<int> = Seq::empty();
    let ghost mut slot: Seq<int> = Seq::empty();
    let mut k: usize = 0;
    while k < sources.len()
        invariant
            0 <= k <= sources.len(),
            out@.len() == start.len() + origin.len(),
            slot.len() == k,
            forall|i: int| 0 <= i < start.len() ==> #[trigger] out@[i] == start[i],
            forall|i: int| 0 <= i < origin.len() ==> 0 <= #[trigger] origin[i] < k && sources@[origin[i]].1 == civ
                && out@[start.len() + i] == (sources@[origin[i]].0, sources@[origin[i]].2),
            forall|j: int| 0 <= j < k && sources@[j].1 == civ ==> start.len() <= #[trigger] slot[j] < out@.len()
                && out@[slot[j]] == (sources@[j].0, sources@[j].2),
        decreases sources.len() - k,
    {
        let (pos, owner, range) = sources[k];
        if owner == civ {
            proof {
                slot = slot.push(out@.len() as int);
                origin = origin.push(k as int);
            }
            out.push((pos, range));
        } else {
            proof {
                slot = slot.push(-1);
            }
        }
        k = k + 1;
    }
    proof {
        assert forall|p: Position| seen_by(out@, p) <==> (seen_by(start, p) || seen_by_civ(sources@, civ, p)) by {
            if seen_by(out@, p) {
                let w = choose|w: int| 0 <= w < out@.len() && chebyshev(p, (#[trigger] out@[w]).0) <= out@[w].1;
                if w < start.len() {
                    assert(start[w] == out@[w]);
                } else {
                    let j = origin[w - start.len()];
                    assert(sources@[j].1 == civ && chebyshev(p, sources@[j].0) <= sources@[j].2);
                }
            }
            if seen_by(start, p) {
                let w = choose|w: int| 0 <= w < start.len() && chebyshev(p, (#[trigger] start[w]).0) <= start[w].1;
                assert(out@[w] == start[w]);
            }
            if seen_by_civ(sources@, civ, p) {
                let j = choose|j: int| 0 <= j < sources@.len() && (#[trigger] sources@[j]).1 == civ && chebyshev(p, sources@[j].0) <= sources@[j].2;
                let i = slot[j];
                assert(chebyshev(p, out@[i].0) <= out@[i].1);
            }
        }
    }
}

/// The sight of `civ`'s units and cities, each as a position and a range.
fn vision_sources_of(civ: CivId, units: &Vec<(Position, CivId, i32)>, cities: &Vec<(Position, CivId, i32)>) -> (r: Vec<(Position, i32)>)
    ensures
        forall|p: Position| seen_by(r@, p) <==> civ_sees(units@, cities@, civ, p),
{
    let mut r: Vec<(Position, i32)> = Vec::new();
    collect_sources(&mut r, units, civ);
    collect_sources(&mut r, cities, civ);
    r
}

/// `m` is a fresh `width` by `height` map after a turn's visibility update for `civ`:
/// tiles its units and cities see are visible, the others unexplored.
pub open spec fn refreshed_fresh(m: VisibilityMap, width: u32, height: u32, units: Seq<(Position, CivId, i32)>, cities: Seq<(Position, CivId, i32)>, civ: CivId) -> bool {
    &&& m.wf()
    &&& m.width == width
    &&& m.height == height
    &&& forall|x: int, y: int| m.on_map(x, y) ==> #[trigger] m.state(x, y) == (
        if civ_sees(units, cities, civ, Position { x: x as i32, y: y as i32 }) {
            VisibilityState::Visible
        } else {
            VisibilityState::Unexplored
        })
}

/// Whether one of the first `k` civilizations of `civs` is `c`.
pub open spec fn listed_before(civs: Seq<CivId>, k: int, c: CivId) -> bool {
    exists|j: int| 0 <= j < k && civs[j] == c
}

/// At the start of a turn: gives each civilization of `civs` that has no visibility map a
/// fresh one the size of the world map; then, when one was new or positions changed
/// (`positions_changed`), recomputes the visibility of each civilization of `civs` from
/// its units and cities (each a position, owner and sight range). Returns whether it
/// recomputed.
pub fn update_fog_of_war(
    fog_of_war: &mut FogOfWarMaps,
    world_map: &WorldMap,
    civs: &Vec<CivId>,
    units: &Vec<(Position, CivId, i32)>,
    cities: &Vec<(Position, CivId, i32)>,
    positions_changed: bool,
) -> (updated: bool)
    requires
        old(fog_of_war).wf(),
        world_map.wf(),
    ensures
        final(fog_of_war).wf(),
        updated == ((exists|i: int| 0 <= i < civs@.len() && (#[trigger] map_of(old(fog_of_war).maps@, civs@[i])).is_none())
            || positions_changed),
        !updated ==> final(fog_of_war).maps@ == old(fog_of_war).maps@,
        forall|c: CivId| !civs@.contains(c) ==> #[trigger] map_of(final(fog_of_war).maps@, c) == map_of(old(fog_of_war).maps@, c),
        forall|c: CivId| civs@.contains(c) && updated ==> match #[trigger] map_of(final(fog_of_war).maps@, c) {
            Some(m) => match map_of(old(fog_of_war).maps@, c) {
                Some(m0) => refreshed(m0, m, units@, cities@, c),
                None => refreshed_fresh(m, world_map.width, world_map.height, units@, cities@, c),
            },
            None => false,
        },
{
    let ghost start = fog_of_war.maps@;
    let mut new_civ = false;
    let mut k: usize = 0;
    while k < civs.len()
        invariant
            fog_of_war.wf(),
            world_map.wf(),
            0 <= k <= civs.len(),
            forall|c: CivId| listed_before(civs@, k as int, c) && map_of(start, c).is_none()
                ==> match #[trigger] map_of(fog_of_war.maps@, c) {
                    Some(m) => fresh_map(m, world_map.width, world_map.height),
                    None => false,
                },
            forall|c: CivId| !(listed_before(civs@, k as int, c) && map_of(start, c).is_none())
                ==> #[trigger] map_of(fog_of_war.maps@, c) == map_of(start, c),
            new_civ == exists|j: int| 0 <= j < k && (#[trigger] map_of(start, civs@[j])).is_none(),
            !new_civ ==> fog_of_war.maps@ == start,
        decreases civs.len() - k,
    {
        let c = civs[k];
        let had = fog_of_war.get(c).is_some();
        let ghost before = fog_of_war.maps@;
        if !had {
            proof {
                lemma_first_match_from(before, c, 0);
                lemma_filter_keeps_all(before, c);
                if listed_before(civs@, k as int, c) && map_of(start, c).is_none() {
                    assert(map_of(before, c).is_some());
                }
            }
            fog_of_war.init_for_civ(c, world_map.width, world_map.height);
            new_civ = true;
            proof {
                let after = fog_of_war.maps@;
                assert(after =~= before.push(after.last()));
                assert forall|d: CivId| #[trigger] map_of(after, d) == (if d == c { Some(after.last().1) } else { map_of(before, d) }) by {
                    lemma_map_of_push(before, after.last(), d);
                }
                assert forall|d: CivId| listed_before(civs@, k + 1, d) && map_of(start, d).is_none()
                    implies match #[trigger] map_of(after, d) {
                        Some(m) => fresh_map(m, world_map.width, world_map.height),
                        None => false,
                    } by {
                    if d != c {
                        let j = choose|j: int| 0 <= j < k + 1 && civs@[j] == d;
                        assert(listed_before(civs@, k as int, d));
                    }
                }
                assert forall|d: CivId| !(listed_before(civs@, k + 1, d) && map_of(start, d).is_none())
                    implies #[trigger] map_of(after, d) == map_of(start, d) by {
                    if d == c {
                        assert(civs@[k as int] == c);
                        assert(listed_before(civs@, k + 1, d));
                    } else if listed_before(civs@, k as int, d) {
                        let j = choose|j: int| 0 <= j < k && civs@[j] == d;
                        assert(listed_before(civs@, k + 1, d));
                    }
                }
                assert(map_of(start, civs@[k as int]).is_none());
            }
        } else {
            proof {
                assert forall|d: CivId| listed_before(civs@, k + 1, d) && map_of(start, d).is_none()
                    implies match #[trigger] map_of(before, d) {
                        Some(m) => fresh_map(m, world_map.width, world_map.height),
                        None => false,
                    } by {
                    if !listed_before(civs@, k as int, d) {
                        let j = choose|j: int| 0 <= j < k + 1 && civs@[j] == d;
                        assert(j == k);
                    }
                }
                assert forall|d: CivId| !(listed_before(civs@, k + 1, d) && map_of(start, d).is_none())
                    implies #[trigger] map_of(before, d) == map_of(start, d) by {
                    if listed_before(civs@, k as int, d) {
                        let j = choose|j: int| 0 <= j < k && civs@[j] == d;
                        assert(listed_before(civs@, k + 1, d));
                    }
                }
                if map_of(start, c).is_none() {
                    assert(listed_before(civs@, k as int, c));
                    let j = choose|j: int| 0 <= j < k && civs@[j] == c;
                    assert(map_of(start, civs@[j]).is_none());
                }
            }
        }
        k = k + 1;
    }
    let updated = new_civ || positions_changed;
    if !updated {
        proof {
            assert forall|c: CivId| !civs@.contains(c) implies #[trigger] map_of(fog_of_war.maps@, c) == map_of(start, c) by {}
        }
        return false;
    }
    let ghost mid = fog_of_war.maps@;
    proof {
        assert forall|c: CivId| civs@.contains(c) implies #[trigger] map_of(mid, c).is_some() by {
            let j = choose|j: int| 0 <= j < civs@.len() && civs@[j] == c;
            assert(listed_before(civs@, civs@.len() as int, c));
        }
    }
    let mut k: usize = 0;
    while k < civs.len()
        invariant
            fog_of_war.wf(),
            0 <= k <= civs.len(),
            forall|c: CivId| civs@.contains(c) ==> #[trigger] map_of(mid, c).is_some(),
            forall|c: CivId| !listed_before(civs@, k as int, c) ==> #[trigger] map_of(fog_of_war.maps@, c) == map_of(mid, c),
            forall|c: CivId| listed_before(civs@, k as int, c) ==> match #[trigger] map_of(fog_of_war.maps@, c) {
                Some(m) => match map_of(mid, c) {
                    Some(m0) => refreshed(m0, m, units@, cities@, c),
                    None => false,
                },
                None => false,
            },
        decreases civs.len() - k,
    {
        let c = civs[k];
        let sources = vision_sources_of(c, units, cities);
        let ghost before = fog_of_war.maps@;
        proof {
            lemma_first_match_from(before, c, 0);
            assert(civs@[k as int] == c);
            assert(civs@.contains(c));
            assert(map_of(mid, c).is_some());
            if listed_before(civs@, k as int, c) {
                assert(map_of(before, c).is_some());
            } else {
                assert(map_of(before, c) == map_of(mid, c));
            }
        }
        let ghost i = first_match(before, c).unwrap();
        match fog_of_war.get_mut(c) {
            Some(m) => {
                update_civ_visibility(m, &sources);
            },
            None => {},
        }
        proof {
            let after = fog_of_war.maps@;
            let m1 = before[i].1;
            let m2 = after[i].1;
            assert(after == before.update(i, (c, m2)));
            assert forall|x: int, y: int| m2.on_map(x, y) implies #[trigger] m2.state(x, y) == (
                if civ_sees(units@, cities@, c, Position { x: x as i32, y: y as i32 }) {
                    VisibilityState::Visible
                } else {
                    after_reset(m1.state(x, y))
                }) by {
                let p = Position { x: x as i32, y: y as i32 };
                assert(seen_by(sources@, p) == civ_sees(units@, cities@, c, p));
            }
            assert forall|d: CivId| #[trigger] map_of(after, d) == (if d == c { Some(m2) } else { map_of(before, d) }) by {
                lemma_map_of_update(before, i, (c, m2), d);
                lemma_first_match_from(before, d, 0);
            }
            assert forall|j: int| 0 <= j < after.len() implies (#[trigger] after[j]).1.wf() by {
                if j != i {
                    assert(after[j] == before[j]);
                }
            }
            assert forall|d: CivId| !listed_before(civs@, k + 1, d) implies #[trigger] map_of(after, d) == map_of(mid, d) by {
                if d == c {
                    assert(listed_before(civs@, k + 1, d));
                }
                if listed_before(civs@, k as int, d) {
                    let j = choose|j: int| 0 <= j < k && civs@[j] == d;
                    assert(listed_before(civs@, k + 1, d));
                }
            }
            assert forall|d: CivId| listed_before(civs@, k + 1, d) implies match #[trigger] map_of(after, d) {
                Some(m) => match map_of(mid, d) {
                    Some(m0) => refreshed(m0, m, units@, cities@, d),
                    None => false,
                },
                None => false,
            } by {
                if d == c {
                    let m0 = map_of(mid, c).unwrap();
                    if listed_before(civs@, k as int, c) {
                        assert(refreshed(m0, m1, units@, cities@, c));
                        assert forall|x: int, y: int| m2.on_map(x, y) implies #[trigger] m2.state(x, y) == (
                            if civ_sees(units@, cities@, c, Position { x: x as i32, y: y as i32 }) {
                                VisibilityState::Visible
                            } else {
                                after_reset(m0.state(x, y))
                            }) by {
                            assert(m1.on_map(x, y));
                        }
                    } else {
                        assert(m1 == m0);
                    }
                } else {
                    let j = choose|j: int| 0 <= j < k + 1 && civs@[j] == d;
                    assert(listed_before(civs@, k as int, d));
                }
            }
        }
        k = k + 1;
    }
    proof {
        assert forall|c: CivId| !civs@.contains(c) implies #[trigger] map_of(fog_of_war.maps@, c) == map_of(start, c) by {
            if listed_before(civs@, civs@.len() as int, c) {
                let j = choose|j: int| 0 <= j < civs@.len() && civs@[j] == c;
                assert(civs@.contains(c));
            }
            if listed_before(civs@, civs@.len() as int, c) && map_of(start, c).is_none() {
                assert(civs@.contains(c));
            }
        }
        assert forall|c: CivId| civs@.contains(c) && updated implies match #[trigger] map_of(fog_of_war.maps@, c) {
            Some(m) => match map_of(start, c) {
                Some(m0) => refreshed(m0, m, units@, cities@, c),
                None => refreshed_fresh(m, world_map.width, world_map.height, units@, cities@, c),
            },
            None => false,
        } by {
            let j = choose|j: int| 0 <= j < civs@.len() && civs@[j] == c;
            assert(listed_before(civs@, civs@.len() as int, c));
            let m = map_of(fog_of_war.maps@, c).unwrap();
            let m0 = map_of(mid, c).unwrap();
            if map_of(start, c).is_none() {
                assert(fresh_map(m0, world_map.width, world_map.height));
                assert forall|x: int, y: int| m.on_map(x, y) implies #[trigger] m.state(x, y) == (
                    if civ_sees(units@, cities@, c, Position { x: x as i32, y: y as i32 }) {
                        VisibilityState::Visible
                    } else {
                        VisibilityState::Unexplored
                    }) by {
                    assert(m0.on_map(x, y));
                }
            } else {
                assert(map_of(mid, c) == map_of(start, c));
            }
        }
    }
    true
}

} // verus!
