use vstd::prelude::*;
use crate::civ::CivId;
use crate::city::{Building, BuildingType, Capital, CapitalAge, City, STARTING_CITY_POPULATION, age_sprite};
use crate::movement::UnitType;
use crate::position::Position;
use crate::world_map::{MapTile, WorldMap, in_bounds};

verus! {

/// At most this many civilizations are founded when a game starts.
pub const MAX_STARTING_CIVILIZATIONS: usize = 20;

/// What founding one civilization creates besides its map tile: the civilization's id,
/// name and home tile, its capital city and capital, and the id and type of its first unit.
#[derive(Debug, Clone)]
pub struct CivFounding {
    pub civ_id: CivId,
    pub name: String,
    pub position: Position,
    pub capital_city: City,
    pub capital: Capital,
    pub unit_id: u32,
    pub unit_type: UnitType,
}

/// The last of the first `n` starting places that lies on `p`.
pub open spec fn last_claim(starts: Seq<(String, Position)>, n: int, p: Position) -> Option<int>
    decreases n,
{
    if n <= 0 {
        None
    } else if starts[n - 1].1 == p {
        Some(n - 1)
    } else {
        last_claim(starts, n - 1, p)
    }
}

/// The tile `t` once civilization `i`, named `name`, has made it its home.
pub open spec fn claimed_tile(t: MapTile, i: int, name: String) -> MapTile {
    MapTile { owner: Some(CivId(i as u32)), city: Some(name), ..t }
}

/// What founding the `i`-th civilization, named `name` at `pos`, creates.
pub open spec fn founding_of(i: int, name: String, pos: Position, f: CivFounding) -> bool {
    &&& f.civ_id == CivId(i as u32)
    &&& f.name == name
    &&& f.position == pos
    &&& f.capital_city.name@ == name@ + " Capital"@
    &&& f.capital_city.owner == CivId(i as u32)
    &&& f.capital_city.population == STARTING_CITY_POPULATION
    &&& f.capital_city.buildings@ == seq![Building { building_type: BuildingType::Granary, level: 1 }]
    &&& f.capital == (Capital { owner: CivId(i as u32), age: CapitalAge::Neolithic, sprite_index: age_sprite(CapitalAge::Neolithic), established_turn: 0 })
    &&& f.unit_id == i as u32
    &&& f.unit_type == UnitType::Infantry
}

/// Makes the tile at `pos` the home of civilization `civ`, named `name`; off the map,
/// nothing changes.
fn claim_home(world_map: &mut WorldMap, pos: Position, civ: CivId, name: String)
    requires
        old(world_map).wf(),
    ensures
        final(world_map).wf(),
        final(world_map).width == old(world_map).width,
        final(world_map).height == old(world_map).height,
        forall|p: Position| in_bounds(final(world_map).width, final(world_map).height, p) ==> (#[trigger] final(world_map).tile_at(p)) == (
            if p == pos {
                MapTile { owner: Some(civ), city: Some(name), ..old(world_map).tile_at(p) }
            } else {
                old(world_map).tile_at(p)
            }),
{
    let ghost before = *world_map;
    match world_map.get_tile_mut(pos) {
        Some(tile) => {
            tile.owner = Some(civ);
            tile.city = Some(name);
        },
        None => {},
    }
    proof {
        assert forall|i: int| 0 <= i < world_map.width implies (#[trigger] world_map.tiles@[i])@.len() == world_map.height by {
            if i != pos.x {
                assert(world_map.tiles@[i] == before.tiles@[i]);
            }
        }
        assert forall|p: Position| in_bounds(world_map.width, world_map.height, p) implies (#[trigger] world_map.tile_at(p)) == (
            if p == pos {
                MapTile { owner: Some(civ), city: Some(name), ..before.tile_at(p) }
            } else {
                before.tile_at(p)
            }) by {
            if p.x != pos.x {
                assert(world_map.tiles@[p.x as int] == before.tiles@[p.x as int]);
            }
        }
    }
}

/// On the first turn, founds a civilization at each of the first twenty starting
/// places, numbered from 0 in order: each gets a capital city named after it with a
/// granary, a Neolithic capital established on turn 0, its home tile (when on the map)
/// owned by it and bearing its name, and an infantry unit numbered like it. On any other
/// turn nothing happens.
pub fn spawn_civilizations(world_map: &mut WorldMap, current_turn: u32, starts: &Vec<(String, Position)>) -> (r: Vec<CivFounding>)
    requires
        old(world_map).wf(),
    ensures
        final(world_map).wf(),
        final(world_map).width == old(world_map).width,
        final(world_map).height == old(world_map).height,
        current_turn != 1 ==> r@.len() == 0 && *final(world_map) == *old(world_map),
        current_turn == 1 ==> {
            let n = if starts@.len() < MAX_STARTING_CIVILIZATIONS { starts@.len() as int } else { MAX_STARTING_CIVILIZATIONS as int };
            &&& r@.len() == n
            &&& forall|i: int| 0 <= i < n ==> founding_of(i, starts@[i].0, starts@[i].1, #[trigger] r@[i])
            &&& forall|p: Position| in_bounds(final(world_map).width, final(world_map).height, p) ==> (#[trigger] final(world_map).tile_at(p)) == (
                match last_claim(starts@, n, p) {
                    Some(i) => claimed_tile(old(world_map).tile_at(p), i, starts@[i].0),
                    None => old(world_map).tile_at(p),
                })
        },
{
    let mut r: Vec<CivFounding> = Vec::new();
    if current_turn != 1 {
        return r;
    }
    let ghost start_map = *world_map;
    let n: usize = if starts.len() < MAX_STARTING_CIVILIZATIONS { starts.len() } else { MAX_STARTING_CIVILIZATIONS };
    let mut i: usize = 0;
    while i < n
        invariant
            world_map.wf(),
            world_map.width == start_map.width,
            world_map.height == start_map.height,
            0 <= i <= n,
            n <= starts@.len(),
            n <= MAX_STARTING_CIVILIZATIONS,
            r@.len() == i,
            forall|j: int| 0 <= j < i ==> founding_of(j, starts@[j].0, starts@[j].1, #[trigger] r@[j]),
            forall|p: Position| in_bounds(world_map.width, world_map.height, p) ==> (#[trigger] world_map.tile_at(p)) == (
                match last_claim(starts@, i as int, p) {
                    Some(j) => claimed_tile(start_map.tile_at(p), j, starts@[j].0),
                    None => start_map.tile_at(p),
                }),
        decreases n - i,
    {
        let name = starts[i].0.clone();
        let position = starts[i].1;
        let civ_id = CivId(i as u32);
        let mut city_name = name.clone();
        city_name.append(" Capital");
        let capital_city = City {
            name: city_name,
            owner: civ_id,
            population: STARTING_CITY_POPULATION,
            buildings: vec![Building { building_type: BuildingType::Granary, level: 1 }],
        };
        let capital = Capital {
            owner: civ_id,
            age: CapitalAge::Neolithic,
            sprite_index: CapitalAge::Neolithic.sprite_index(),
            established_turn: 0,
        };
        let ghost before = *world_map;
        claim_home(world_map, position, civ_id, name.clone());
        proof {
            assert forall|p: Position| in_bounds(world_map.width, world_map.height, p) implies (#[trigger] world_map.tile_at(p)) == (
                match last_claim(starts@, i + 1, p) {
                    Some(j) => claimed_tile(start_map.tile_at(p), j, starts@[j].0),
                    None => start_map.tile_at(p),
                }) by {
                assert(before.tile_at(p) == (match last_claim(starts@, i as int, p) {
                    Some(j) => claimed_tile(start_map.tile_at(p), j, starts@[j].0),
                    None => start_map.tile_at(p),
                }));
            }
        }
        r.push(CivFounding {
            civ_id,
            name,
            position,
            capital_city,
            capital,
            unit_id: i as u32,
            unit_type: UnitType::Infantry,
        });
        proof {
            assert(r@[i as int].capital_city.buildings@ =~= seq![Building { building_type: BuildingType::Granary, level: 1 }]);
        }
        i = i + 1;
    }
    r
}

} // verus!
