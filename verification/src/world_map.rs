use vstd::prelude::*;
use crate::civ::CivId;
use crate::position::{Position, Direction, step, has_room};
use crate::terrain::{TerrainType, Resource};

verus! {

/// Default map width in tiles.
pub const DEFAULT_MAP_WIDTH: u32 = 100;

/// Default map height in tiles.
pub const DEFAULT_MAP_HEIGHT: u32 = 50;

/// One tile of the world map.
#[derive(Debug, Clone)]
pub struct MapTile {
    pub terrain: TerrainType,
    pub owner: Option<CivId>,
    pub city: Option<String>,
    pub resource: Option<Resource>,
}

/// The tile that a fresh map is filled with: unowned plains without city or resource.
pub open spec fn is_default_tile(t: MapTile) -> bool {
    &&& t.terrain == TerrainType::Plains
    &&& t.owner.is_none()
    &&& t.city.is_none()
    &&& t.resource.is_none()
}

impl Default for MapTile {
    fn default() -> (t: MapTile)
        ensures
            is_default_tile(t),
    {
        MapTile { terrain: TerrainType::Plains, owner: None, city: None, resource: None }
    }
}

/// The world map: `tiles[x][y]` for `0 <= x < width`, `0 <= y < height`.
#[derive(Debug, Clone)]
pub struct WorldMap {
    pub width: u32,
    pub height: u32,
    pub tiles: Vec<Vec<MapTile>>,
}

/// Whether `p` lies on a `width` by `height` map.
pub open spec fn in_bounds(width: u32, height: u32, p: Position) -> bool {
    0 <= p.x < width && 0 <= p.y < height
}

/// The neighbours of `p` on a `width` by `height` map: the steps north, south, east
/// and west, in that order, keeping those that lie on the map.
pub open spec fn neighbors_of(width: u32, height: u32, p: Position) -> Seq<Position> {
    let keep = |d: Direction| if in_bounds(width, height, step(p, d)) { seq![step(p, d)] } else { Seq::empty() };
    keep(Direction::North) + keep(Direction::South) + keep(Direction::East) + keep(Direction::West)
}

impl WorldMap {
    /// The shape invariant: `width` columns of `height` tiles, both within `i32`.
    pub open spec fn wf(&self) -> bool {
        &&& self.tiles@.len() == self.width
        &&& forall|i: int| 0 <= i < self.width ==> (#[trigger] self.tiles@[i])@.len() == self.height
        &&& self.width <= i32::MAX
        &&& self.height <= i32::MAX
    }

    /// The tile at an on-map position.
    pub open spec fn tile_at(&self, p: Position) -> MapTile {
        self.tiles@[p.x as int]@[p.y as int]
    }

    /// A `width` by `height` map of default tiles.
    pub fn new(width: u32, height: u32) -> (m: WorldMap)
        requires
            width <= i32::MAX,
            height <= i32::MAX,
        ensures
            m.wf(),
            m.width == width,
            m.height == height,
            forall|p: Position| in_bounds(width, height, p) ==> is_default_tile(#[trigger] m.tile_at(p)),
    {
        let mut tiles: Vec<Vec<MapTile>> = Vec::new();
        let mut x: u32 = 0;
        while x < width
            invariant
                x <= width,
                tiles@.len() == x,
                forall|i: int| 0 <= i < x ==> (#[trigger] tiles@[i])@.len() == height,
                forall|i: int, j: int| 0 <= i < x && 0 <= j < height ==> is_default_tile(#[trigger] tiles@[i]@[j]),
            decreases width - x,
        {
            let mut column: Vec<MapTile> = Vec::new();
            let mut y: u32 = 0;
            while y < height
                invariant
                    y <= height,
                    column@.len() == y,
                    forall|j: int| 0 <= j < y ==> is_default_tile(#[trigger] column@[j]),
                decreases height - y,
            {
                column.push(MapTile::default());
                y = y + 1;
            }
            tiles.push(column);
            x = x + 1;
        }
        WorldMap { width, height, tiles }
    }

    /// The tile at `pos`, or `None` off the map.
    pub fn get_tile(&self, pos: Position) -> (r: Option<&MapTile>)
        requires
            self.wf(),
        ensures
            match r {
                Some(t) => in_bounds(self.width, self.height, pos) && *t == self.tile_at(pos),
                None => !in_bounds(self.width, self.height, pos),
            },
    {
        if pos.x >= 0 && pos.y >= 0 && (pos.x as u32) < self.width && (pos.y as u32) < self.height {
            Some(&self.tiles[pos.x as usize][pos.y as usize])
        } else {
            None
        }
    }

    /// The tile at `pos` for updating, or `None` off the map.
    pub fn get_tile_mut(&mut self, pos: Position) -> (r: Option<&mut MapTile>)
        requires
            old(self).wf(),
        ensures
            final(self).width == old(self).width,
            final(self).height == old(self).height,
            match r {
                Some(t) => in_bounds(old(self).width, old(self).height, pos)
                    && *t == old(self).tile_at(pos)
                    && final(self).tiles@.len() == old(self).tiles@.len()
                    && final(self).tiles@[pos.x as int]@ == old(self).tiles@[pos.x as int]@.update(pos.y as int, *final(t))
                    && forall|i: int| 0 <= i < old(self).width && i != pos.x ==> (#[trigger] final(self).tiles@[i]) == old(self).tiles@[i],
                None => !in_bounds(old(self).width, old(self).height, pos) && final(self).tiles@ == old(self).tiles@,
            },
    {
        if pos.x >= 0 && pos.y >= 0 && (pos.x as u32) < self.width && (pos.y as u32) < self.height {
            Some(&mut self.tiles[pos.x as usize][pos.y as usize])
        } else {
            None
        }
    }

    /// Sets the terrain of the tile at `pos`; nothing happens off the map.
    pub fn set_terrain(&mut self, pos: Position, terrain: TerrainType)
        requires
            old(self).wf(),
        ensures
            final(self).wf(),
            final(self).width == old(self).width,
            final(self).height == old(self).height,
            forall|p: Position| in_bounds(final(self).width, final(self).height, p) ==> (#[trigger] final(self).tile_at(p)) == (
                if p == pos {
                    MapTile { terrain, ..old(self).tile_at(p) }
                } else {
                    old(self).tile_at(p)
                }),
    {
        let ghost before = *self;
        match self.get_tile_mut(pos) {
            Some(tile) => {
                tile.terrain = terrain;
            },
            None => {},
        }
        proof {
            assert forall|i: int| 0 <= i < self.width implies (#[trigger] self.tiles@[i])@.len() == self.height by {
                if i != pos.x {
                    assert(self.tiles@[i] == before.tiles@[i]);
                }
            }
            assert forall|p: Position| in_bounds(self.width, self.height, p) implies (#[trigger] self.tile_at(p)) == (
                if p == pos {
                    MapTile { terrain, ..before.tile_at(p) }
                } else {
                    before.tile_at(p)
                }) by {
                if p.x != pos.x {
                    assert(self.tiles@[p.x as int] == before.tiles@[p.x as int]);
                }
            }
        }
    }

    /// The on-map neighbours of `pos`: north, south, east, west, in that order.
    pub fn neighbors(&self, pos: Position) -> (r: Vec<Position>)
        requires
            self.wf(),
            has_room(pos),
        ensures
            r@ == neighbors_of(self.width, self.height, pos),
    {
        let mut r: Vec<Position> = Vec::new();
        let cands = pos.adjacent_positions();
        let mut k: usize = 0;
        let ghost dirs = seq![Direction::North, Direction::South, Direction::East, Direction::West];
        while k < 4
            invariant
                0 <= k <= 4,
                self.wf(),
                cands@ == seq![step(pos, dirs[0]), step(pos, dirs[1]), step(pos, dirs[2]), step(pos, dirs[3])],
                dirs == seq![Direction::North, Direction::South, Direction::East, Direction::West],
                r@ == neighbors_prefix(self.width, self.height, pos, dirs, k as int),
            decreases 4 - k,
        {
            let c = cands[k];
            if c.x >= 0 && c.y >= 0 && (c.x as u32) < self.width && (c.y as u32) < self.height {
                r.push(c);
            }
            k = k + 1;
        }
        proof {
            reveal_with_fuel(neighbors_prefix, 5);
            assert(neighbors_prefix(self.width, self.height, pos, dirs, 4) =~= neighbors_of(self.width, self.height, pos));
        }
        r
    }
}

/// The kept neighbours among the steps in the first `k` of `dirs`.
pub open spec fn neighbors_prefix(w: u32, h: u32, p: Position, dirs: Seq<Direction>, k: int) -> Seq<Position>
    decreases k,
{
    if k <= 0 {
        Seq::empty()
    } else {
        let d = dirs[k - 1];
        neighbors_prefix(w, h, p, dirs, k - 1)
            + if in_bounds(w, h, step(p, d)) { seq![step(p, d)] } else { Seq::empty() }
    }
}

impl Default for WorldMap {
    fn default() -> (m: WorldMap)
        ensures
            m.wf(),
            m.width == DEFAULT_MAP_WIDTH,
            m.height == DEFAULT_MAP_HEIGHT,
            forall|p: Position| in_bounds(m.width, m.height, p) ==> is_default_tile(#[trigger] m.tile_at(p)),
    {
        WorldMap::new(DEFAULT_MAP_WIDTH, DEFAULT_MAP_HEIGHT)
    }
}

} // verus!
