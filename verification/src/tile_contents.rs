use vstd::prelude::*;
use crate::civ::EntityId;

verus! {

/// The list after adding `e`: unchanged when it already holds `e`, else `e` added last.
pub open spec fn with_entity(s: Seq<EntityId>, e: EntityId) -> Seq<EntityId> {
    if s.contains(e) { s } else { s.push(e) }
}

/// Keeps the entities other than `e`.
pub open spec fn other_than(e: EntityId) -> spec_fn(EntityId) -> bool {
    |x: EntityId| x != e
}

fn contains_entity(s: &Vec<EntityId>, e: EntityId) -> (b: bool)
    ensures
        b == s@.contains(e),
{
    let mut i: usize = 0;
    while i < s.len()
        invariant
            i <= s@.len(),
            forall|j: int| 0 <= j < i ==> s@[j] != e,
        decreases s@.len() - i,
    {
        if s[i] == e {
            return true;
        }
        i = i + 1;
    }
    false
}

fn add_entity(s: &mut Vec<EntityId>, e: EntityId)
    ensures
        final(s)@ == with_entity(old(s)@, e),
{
    if !contains_entity(s, e) {
        s.push(e);
    }
}

fn remove_entity(s: &mut Vec<EntityId>, e: EntityId)
    ensures
        final(s)@ == old(s)@.filter(other_than(e)),
{
    let mut kept: Vec<EntityId> = Vec::new();
    let mut i: usize = 0;
    while i < s.len()
        invariant
            *s == *old(s),
            i <= s@.len(),
            kept@ == s@.take(i as int).filter(other_than(e)),
        decreases s@.len() - i,
    {
        proof {
            reveal(Seq::filter);
            assert(s@.take(i + 1).drop_last() =~= s@.take(i as int));
            assert(s@.take(i + 1).last() == s@[i as int]);
        }
        if s[i] != e {
            kept.push(s[i]);
        }
        i = i + 1;
    }
    proof {
        assert(s@.take(s@.len() as int) =~= s@);
    }
    *s = kept;
}

/// The entities standing on a tile: units, buildings, capitals and cities.
#[derive(Debug, Clone)]
pub struct TileContents {
    pub units: Vec<EntityId>,
    pub buildings: Vec<EntityId>,
    pub capitals: Vec<EntityId>,
    pub cities: Vec<EntityId>,
}

impl Default for TileContents {
    fn default() -> (c: TileContents)
        ensures
            c.units@.len() == 0,
            c.buildings@.len() == 0,
            c.capitals@.len() == 0,
            c.cities@.len() == 0,
    {
        TileContents { units: Vec::new(), buildings: Vec::new(), capitals: Vec::new(), cities: Vec::new() }
    }
}

impl TileContents {
    /// Adds a unit, unless it is already there.
    pub fn add_unit(&mut self, entity: EntityId)
        ensures
            final(self).units@ == with_entity(old(self).units@, entity),
            final(self).buildings@ == old(self).buildings@,
            final(self).capitals@ == old(self).capitals@,
            final(self).cities@ == old(self).cities@,
    {
        add_entity(&mut self.units, entity);
    }

    /// Adds a building, unless it is already there.
    pub fn add_building(&mut self, entity: EntityId)
        ensures
            final(self).buildings@ == with_entity(old(self).buildings@, entity),
            final(self).units@ == old(self).units@,
            final(self).capitals@ == old(self).capitals@,
            final(self).cities@ == old(self).cities@,
    {
        add_entity(&mut self.buildings, entity);
    }

    /// Adds a capital, unless it is already there.
    pub fn add_capital(&mut self, entity: EntityId)
        ensures
            final(self).capitals@ == with_entity(old(self).capitals@, entity),
            final(self).units@ == old(self).units@,
            final(self).buildings@ == old(self).buildings@,
            final(self).cities@ == old(self).cities@,
    {
        add_entity(&mut self.capitals, entity);
    }

    /// Adds a city, unless it is already there.
    pub fn add_city(&mut self, entity: EntityId)
        ensures
            final(self).cities@ == with_entity(old(self).cities@, entity),
            final(self).units@ == old(self).units@,
            final(self).buildings@ == old(self).buildings@,
            final(self).capitals@ == old(self).capitals@,
    {
        add_entity(&mut self.cities, entity);
    }

    /// Removes a unit.
    pub fn remove_unit(&mut self, entity: EntityId)
        ensures
            final(self).units@ == old(self).units@.filter(other_than(entity)),
            final(self).buildings@ == old(self).buildings@,
            final(self).capitals@ == old(self).capitals@,
            final(self).cities@ == old(self).cities@,
    {
        remove_entity(&mut self.units, entity);
    }

    /// Removes a building.
    pub fn remove_building(&mut self, entity: EntityId)
        ensures
            final(self).buildings@ == old(self).buildings@.filter(other_than(entity)),
            final(self).units@ == old(self).units@,
            final(self).capitals@ == old(self).capitals@,
            final(self).cities@ == old(self).cities@,
    {
        remove_entity(&mut self.buildings, entity);
    }

    /// Removes a capital.
    pub fn remove_capital(&mut self, entity: EntityId)
        ensures
            final(self).capitals@ == old(self).capitals@.filter(other_than(entity)),
            final(self).units@ == old(self).units@,
            final(self).buildings@ == old(self).buildings@,
            final(self).cities@ == old(self).cities@,
    {
        remove_entity(&mut self.capitals, entity);
    }

    /// Removes a city.
    pub fn remove_city(&mut self, entity: EntityId)
        ensures
            final(self).cities@ == old(self).cities@.filter(other_than(entity)),
            final(self).units@ == old(self).units@,
            final(self).buildings@ == old(self).buildings@,
            final(self).capitals@ == old(self).capitals@,
    {
        remove_entity(&mut self.cities, entity);
    }

    /// Whether nothing stands on the tile.
    pub fn is_empty(&self) -> (b: bool)
        ensures
            b == (self.units@.len() == 0 && self.buildings@.len() == 0 && self.capitals@.len() == 0
                && self.cities@.len() == 0),
    {
        self.units.len() == 0 && self.buildings.len() == 0 && self.capitals.len() == 0 && self.cities.len() == 0
    }

    /// Whether a capital stands on the tile.
    pub fn has_capital(&self) -> (b: bool)
        ensures
            b == (self.capitals@.len() > 0),
    {
        self.capitals.len() > 0
    }

    /// Whether a city stands on the tile.
    pub fn has_city(&self) -> (b: bool)
        ensures
            b == (self.cities@.len() > 0),
    {
        self.cities.len() > 0
    }

    /// Whether units stand on the tile.
    pub fn has_units(&self) -> (b: bool)
        ensures
            b == (self.units@.len() > 0),
    {
        self.units.len() > 0
    }
}

/// Adding an entity makes it present, and adding it again changes nothing; removing it
/// makes it absent and keeps every other entity.
pub proof fn lemma_add_remove(s: Seq<EntityId>, e: EntityId, other: EntityId)
    requires
        other != e,
    ensures
        with_entity(s, e).contains(e),
        with_entity(with_entity(s, e), e) == with_entity(s, e),
        !s.filter(other_than(e)).contains(e),
        s.contains(other) ==> s.filter(other_than(e)).contains(other),
{
    broadcast use vstd::seq_lib::group_filter_ensures;
    if !s.contains(e) {
        assert(s.push(e)[s.len() as int] == e);
    }
    if s.filter(other_than(e)).contains(e) {
        let i = choose|i: int| 0 <= i < s.filter(other_than(e)).len() && s.filter(other_than(e))[i] == e;
        s.lemma_filter_pred(other_than(e), i);
    }
    if s.contains(other) {
        let i = choose|i: int| 0 <= i < s.len() && s[i] == other;
        s.lemma_filter_contains(other_than(e), i);
    }
}

/// The tiles next to a tile, by direction; `None` past the edge of the map.
#[derive(Debug, Clone, Copy, PartialEq, Eq, Structural)]
pub struct TileNeighbors {
    pub north: Option<EntityId>,
    pub south: Option<EntityId>,
    pub east: Option<EntityId>,
    pub west: Option<EntityId>,
}

/// The neighbour links of the tile at `(x, y)` of a `w` by `h` grid of tile entities
/// `g[x][y]`: north is `y + 1`, south `y - 1`, east `x + 1`, west `x - 1`.
pub open spec fn links_of(g: Seq<Vec<EntityId>>, w: int, h: int, x: int, y: int) -> TileNeighbors {
    TileNeighbors {
        north: if y + 1 < h { Some(g[x]@[y + 1]) } else { None },
        south: if y > 0 { Some(g[x]@[y - 1]) } else { None },
        east: if x + 1 < w { Some(g[x + 1]@[y]) } else { None },
        west: if x > 0 { Some(g[x - 1]@[y]) } else { None },
    }
}

/// Links every tile of the `width` by `height` grid `tile_entities[x][y]` to its
/// neighbours: the result holds, at `[x][y]`, the tile's entity and its links.
pub fn assign_tile_neighbors_pass(tile_entities: &Vec<Vec<EntityId>>, width: u32, height: u32) -> (links: Vec<Vec<(EntityId, TileNeighbors)>>)
    requires
        tile_entities@.len() >= width,
        forall|i: int| 0 <= i < width ==> (#[trigger] tile_entities@[i])@.len() >= height,
    ensures
        links@.len() == width,
        forall|x: int| 0 <= x < width ==> (#[trigger] links@[x])@.len() == height,
        forall|x: int, y: int| 0 <= x < width && 0 <= y < height ==> (#[trigger] links@[x]@[y])
            == (tile_entities@[x]@[y], links_of(tile_entities@, width as int, height as int, x, y)),
{
    let ghost g = tile_entities@;
    let mut links: Vec<Vec<(EntityId, TileNeighbors)>> = Vec::new();
    let mut x: u32 = 0;
    while x < width
        invariant
            g == tile_entities@,
            x <= width,
            tile_entities@.len() >= width,
            forall|i: int| 0 <= i < width ==> (#[trigger] tile_entities@[i])@.len() >= height,
            links@.len() == x,
            forall|i: int| 0 <= i < x ==> (#[trigger] links@[i])@.len() == height,
            forall|i: int, j: int| 0 <= i < x && 0 <= j < height ==> (#[trigger] links@[i]@[j])
                == (g[i]@[j], links_of(g, width as int, height as int, i, j)),
        decreases width - x,
    {
        let mut column: Vec<(EntityId, TileNeighbors)> = Vec::new();
        let mut y: u32 = 0;
        while y < height
            invariant
                g == tile_entities@,
                x < width,
                y <= height,
                tile_entities@.len() >= width,
                forall|i: int| 0 <= i < width ==> (#[trigger] tile_entities@[i])@.len() >= height,
                column@.len() == y,
                forall|j: int| 0 <= j < y ==> (#[trigger] column@[j])
                    == (g[x as int]@[j], links_of(g, width as int, height as int, x as int, j)),
            decreases height - y,
        {
            let xi = x as usize;
            let yi = y as usize;
            let north = if y + 1 < height { Some(tile_entities[xi][yi + 1]) } else { None };
            let south = if y > 0 { Some(tile_entities[xi][yi - 1]) } else { None };
            let east = if x + 1 < width { Some(tile_entities[xi + 1][yi]) } else { None };
            let west = if x > 0 { Some(tile_entities[xi - 1][yi]) } else { None };
            column.push((tile_entities[xi][yi], TileNeighbors { north, south, east, west }));
            y = y + 1;
        }
        links.push(column);
        x = x + 1;
    }
    links
}

} // verus!
