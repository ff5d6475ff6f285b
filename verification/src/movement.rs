use vstd::prelude::*;
use crate::position::{Position, Direction, step, has_room, manhattan};
use crate::terrain::TerrainType;
use crate::world_map::{WorldMap, in_bounds, neighbors_of};
use crate::rng::choose_position;
use rand_pcg::Lcg128Xsl64;
use crate::position::{MovementOrder, advanced};
use crate::civ::CivId;

verus! {

/// Kinds of military unit.
#[derive(Debug, Clone, Copy, PartialEq, Eq, Hash, Structural)]
pub enum UnitType {
    Infantry,
    Cavalry,
    Archer,
    Siege,
    Naval,
}

impl UnitType {
    /// How far the unit strikes, in tiles: melee units 1, archers and ships 2, siege 3.
    pub fn attack_range(&self) -> (r: u32)
        ensures
            r == match *self {
                UnitType::Infantry | UnitType::Cavalry => 1u32,
                UnitType::Archer | UnitType::Naval => 2u32,
                UnitType::Siege => 3u32,
            },
    {
        match self {
            UnitType::Infantry => 1,
            UnitType::Cavalry => 1,
            UnitType::Archer => 2,
            UnitType::Siege => 3,
            UnitType::Naval => 2,
        }
    }

    /// Movement points per turn: infantry and archers 2, cavalry 3, siege 1, ships 4.
    pub fn movement_points(&self) -> (r: u32)
        ensures
            r == match *self {
                UnitType::Infantry | UnitType::Archer => 2u32,
                UnitType::Cavalry => 3u32,
                UnitType::Siege => 1u32,
                UnitType::Naval => 4u32,
            },
    {
        match self {
            UnitType::Infantry => 2,
            UnitType::Cavalry => 3,
            UnitType::Archer => 2,
            UnitType::Siege => 1,
            UnitType::Naval => 4,
        }
    }

    /// The unit type's display name.
    pub fn name(&self) -> (s: &'static str)
        ensures
            s@ == unit_type_name(*self),
    {
        match self {
            UnitType::Infantry => "Infantry",
            UnitType::Cavalry => "Cavalry",
            UnitType::Archer => "Archer",
            UnitType::Siege => "Siege Engine",
            UnitType::Naval => "Naval Unit",
        }
    }
}

/// The display name of a unit type.
pub open spec fn unit_type_name(t: UnitType) -> Seq<char> {
    match t {
        UnitType::Infantry => "Infantry"@,
        UnitType::Cavalry => "Cavalry"@,
        UnitType::Archer => "Archer"@,
        UnitType::Siege => "Siege Engine"@,
        UnitType::Naval => "Naval Unit"@,
    }
}

/// Where a unit stands and how far it may still go this turn.
#[derive(Debug, Clone, Copy, PartialEq, Eq, Structural)]
pub struct UnitMovement {
    pub position: Position,
    pub movement_range: u32,
    pub movement_remaining: u32,
}

impl UnitMovement {
    /// A unit of type `unit_type` at `position` with a full turn of movement.
    pub fn new(unit_type: UnitType, position: Position) -> (m: UnitMovement)
        ensures
            m.position == position,
            m.movement_range == m.movement_remaining,
            m.movement_range == match unit_type {
                UnitType::Infantry | UnitType::Archer => 2u32,
                UnitType::Cavalry => 3u32,
                UnitType::Siege => 1u32,
                UnitType::Naval => 4u32,
            },
    {
        let points = unit_type.movement_points();
        UnitMovement { position, movement_range: points, movement_remaining: points }
    }

    /// Whether the unit may still move this turn.
    pub fn can_move(&self) -> (b: bool)
        ensures
            b == (self.movement_remaining > 0),
    {
        self.movement_remaining > 0
    }

    /// Moves the unit to `new_position` for one movement point, if it has one left;
    /// tells whether it moved. Nothing changes when it has none.
    pub fn move_to(&mut self, new_position: Position) -> (moved: bool)
        ensures
            moved == (old(self).movement_remaining > 0),
            moved ==> *final(self) == (UnitMovement {
                position: new_position,
                movement_remaining: (old(self).movement_remaining - 1) as u32,
                ..*old(self)
            }),
            !moved ==> *final(self) == *old(self),
    {
        if self.can_move() {
            self.position = new_position;
            self.movement_remaining = self.movement_remaining - 1;
            true
        } else {
            false
        }
    }
}

/// Why a unit may not move to a tile.
#[derive(Debug, Clone, Copy, PartialEq, Eq, Structural)]
pub enum MoveError {
    NotAdjacent,
    IntoOcean,
    OffMap,
}

impl MoveError {
    /// The reason, as a message.
    pub fn message(&self) -> (s: &'static str)
        ensures
            s@ == move_error_message(*self),
    {
        match self {
            MoveError::NotAdjacent => "Can only move to adjacent tiles",
            MoveError::IntoOcean => "Cannot move into ocean",
            MoveError::OffMap => "Target position is outside map boundaries",
        }
    }
}

/// The message of a movement error.
pub open spec fn move_error_message(e: MoveError) -> Seq<char> {
    match e {
        MoveError::NotAdjacent => "Can only move to adjacent tiles"@,
        MoveError::IntoOcean => "Cannot move into ocean"@,
        MoveError::OffMap => "Target position is outside map boundaries"@,
    }
}

/// Movement points that a move onto a tile takes when its whole movement cost is
/// `whole_cost`: that cost, or 1 when it is 0.
pub open spec fn step_cost(whole_cost: u32) -> u32 {
    if whole_cost == 0 { 1 } else { whole_cost }
}

/// Whether the coordinates of `from` and `to` differ by amounts that fit in an `i32`
/// (and are not `i32::MIN`), as the distance computation needs.
pub open spec fn distance_fits(from: Position, to: Position) -> bool {
    &&& -i32::MAX <= to.x - from.x <= i32::MAX
    &&& -i32::MAX <= to.y - from.y <= i32::MAX
}

/// Whether the coordinates of `from` and `to` differ by amounts that fit in an `i32`.
pub fn distance_fits_exec(from: Position, to: Position) -> (b: bool)
    ensures
        b == distance_fits(from, to),
{
    let dx = to.x as i64 - from.x as i64;
    let dy = to.y as i64 - from.y as i64;
    -(i32::MAX as i64) <= dx && dx <= i32::MAX as i64 && -(i32::MAX as i64) <= dy && dy <= i32::MAX as i64
}

/// The outcome of checking a move from `from` to `to` whose target tile has whole
/// movement cost `whole_cost`: not one step away, off the map, into the ocean, or the
/// movement points it takes.
pub open spec fn move_check(from: Position, to: Position, map: WorldMap, whole_cost: u32) -> Result<u32, MoveError> {
    if manhattan(from, to) != 1 {
        Err(MoveError::NotAdjacent)
    } else if !in_bounds(map.width, map.height, to) {
        Err(MoveError::OffMap)
    } else if map.tile_at(to).terrain == TerrainType::Ocean {
        Err(MoveError::IntoOcean)
    } else {
        Ok(step_cost(whole_cost))
    }
}

/// Checks a move from `from` to `to`: it must be one step away, on the map and not into
/// the ocean. `target_whole_cost` is the target tile's movement cost rounded down; the
/// move takes that many points, or 1 when it is 0.
pub fn validate_movement_to_adjacent_tile(from: Position, to: Position, world_map: &WorldMap, target_whole_cost: u32) -> (r: Result<u32, MoveError>)
    requires
        world_map.wf(),
        distance_fits(from, to),
    ensures
        r == move_check(from, to, *world_map, target_whole_cost),
{
    let dx: i32 = to.x - from.x;
    let dy: i32 = to.y - from.y;
    let x_distance: u32 = if dx < 0 { (-dx) as u32 } else { dx as u32 };
    let y_distance: u32 = if dy < 0 { (-dy) as u32 } else { dy as u32 };
    let distance: u32 = x_distance + y_distance;
    if distance != 1 {
        return Err(MoveError::NotAdjacent);
    }
    match world_map.get_tile(to) {
        Some(tile) => match tile.terrain {
            TerrainType::Ocean => Err(MoveError::IntoOcean),
            _ => {
                if target_whole_cost == 0 {
                    Ok(1)
                } else {
                    Ok(target_whole_cost)
                }
            },
        },
        None => Err(MoveError::OffMap),
    }
}

/// What became of an ordered move.
#[derive(Debug, Clone, Copy, PartialEq, Eq, Structural)]
pub enum MoveOutcome {
    /// The unit moved, taking `cost` points, and has `remaining` left.
    Moved { cost: u32, remaining: u32 },
    /// The move takes `cost` points, more than the unit has left.
    InsufficientMovement { cost: u32 },
    /// The move is not allowed.
    Invalid(MoveError),
}

/// Carries out an ordered move of a unit to `target` (whose tile has whole movement
/// cost `target_whole_cost`): when the move is allowed and the unit has the points,
/// it moves and pays them; otherwise nothing changes.
pub fn execute_movement_order(unit: &mut UnitMovement, target: Position, world_map: &WorldMap, target_whole_cost: u32) -> (outcome: MoveOutcome)
    requires
        world_map.wf(),
        distance_fits(old(unit).position, target),
    ensures
        match move_check(old(unit).position, target, *world_map, target_whole_cost) {
            Err(e) => outcome == MoveOutcome::Invalid(e) && *final(unit) == *old(unit),
            Ok(cost) => if old(unit).movement_remaining >= cost {
                &&& outcome == (MoveOutcome::Moved { cost, remaining: (old(unit).movement_remaining - cost) as u32 })
                &&& *final(unit) == (UnitMovement {
                        position: target,
                        movement_remaining: (old(unit).movement_remaining - cost) as u32,
                        ..*old(unit)
                    })
            } else {
                outcome == (MoveOutcome::InsufficientMovement { cost }) && *final(unit) == *old(unit)
            },
        },
{
    match validate_movement_to_adjacent_tile(unit.position, target, world_map, target_whole_cost) {
        Ok(cost) => {
            if unit.movement_remaining >= cost {
                unit.position = target;
                unit.movement_remaining = unit.movement_remaining - cost;
                MoveOutcome::Moved { cost, remaining: unit.movement_remaining }
            } else {
                MoveOutcome::InsufficientMovement { cost }
            }
        },
        Err(e) => MoveOutcome::Invalid(e),
    }
}

/// Whether a unit at `from` may step to `to`: on the map, not ocean, one step away.
pub open spec fn valid_move_target(from: Position, to: Position, map: WorldMap) -> bool {
    &&& in_bounds(map.width, map.height, to)
    &&& map.tile_at(to).terrain != TerrainType::Ocean
    &&& manhattan(from, to) == 1
}

/// Whether a unit at `from` may step to `to`: the tile is on the map and not ocean, and
/// it is one step away.
pub fn is_valid_move_target(from: Position, to: Position, world_map: &WorldMap) -> (b: bool)
    requires
        world_map.wf(),
        manhattan(from, to) <= i32::MAX,
    ensures
        b == valid_move_target(from, to, *world_map),
{
    match world_map.get_tile(to) {
        Some(tile) => match tile.terrain {
            TerrainType::Ocean => false,
            _ => from.manhattan_distance_to(&to) == 1,
        },
        None => false,
    }
}

/// The first of the four neighbours of `pos` (north, south, east, west) that a unit
/// there may step to.
pub open spec fn first_valid_step(pos: Position, map: WorldMap) -> Option<Position> {
    if valid_move_target(pos, step(pos, Direction::North), map) {
        Some(step(pos, Direction::North))
    } else if valid_move_target(pos, step(pos, Direction::South), map) {
        Some(step(pos, Direction::South))
    } else if valid_move_target(pos, step(pos, Direction::East), map) {
        Some(step(pos, Direction::East))
    } else if valid_move_target(pos, step(pos, Direction::West), map) {
        Some(step(pos, Direction::West))
    } else {
        None
    }
}

/// The simple AI's move for a unit at `pos`: the first neighbour (north, south, east,
/// west) it may step to, if any.
pub fn move_ai_unit_simple(pos: Position, world_map: &WorldMap) -> (r: Option<Position>)
    requires
        world_map.wf(),
        has_room(pos),
    ensures
        r == first_valid_step(pos, *world_map),
{
    let adjacent = pos.adjacent_positions();
    let mut i: usize = 0;
    while i < 4
        invariant
            world_map.wf(),
            has_room(pos),
            adjacent@ == seq![
                step(pos, Direction::North),
                step(pos, Direction::South),
                step(pos, Direction::East),
                step(pos, Direction::West),
            ],
            i <= 4,
            forall|j: int| 0 <= j < i ==> !valid_move_target(pos, #[trigger] adjacent@[j], *world_map),
        decreases 4 - i,
    {
        let target = adjacent[i];
        if is_valid_move_target(pos, target, world_map) {
            return Some(target);
        }
        i = i + 1;
    }
    None
}

/// Whether `p` is a land tile of `map`: on the map and not ocean.
pub open spec fn on_land(p: Position, map: WorldMap) -> bool {
    in_bounds(map.width, map.height, p) && map.tile_at(p).terrain != TerrainType::Ocean
}

/// The land tiles among the neighbours of `pos`, north, south, east, west.
pub open spec fn land_neighbors(pos: Position, map: WorldMap) -> Seq<Position> {
    neighbors_of(map.width, map.height, pos).filter(|p: Position| map.tile_at(p).terrain != TerrainType::Ocean)
}

/// The land tiles among the neighbours of `pos`, north, south, east, west.
pub fn land_moves(pos: Position, world_map: &WorldMap) -> (r: Vec<Position>)
    requires
        world_map.wf(),
        has_room(pos),
    ensures
        r@ == land_neighbors(pos, *world_map),
{
    let ns = world_map.neighbors(pos);
    let ghost pred = |p: Position| world_map.tile_at(p).terrain != TerrainType::Ocean;
    let mut r: Vec<Position> = Vec::new();
    let mut k: usize = 0;
    while k < ns.len()
        invariant
            world_map.wf(),
            0 <= k <= ns.len(),
            pred == (|p: Position| world_map.tile_at(p).terrain != TerrainType::Ocean),
            ns@ == neighbors_of(world_map.width, world_map.height, pos),
            r@ == ns@.take(k as int).filter(pred),
        decreases ns.len() - k,
    {
        let n = ns[k];
        proof {
            assert(ns@.take(k + 1).drop_last() =~= ns@.take(k as int));
            assert(neighbors_of(world_map.width, world_map.height, pos).contains(n));
            reveal(Seq::filter);
        }
        let on_map = world_map.get_tile(n);
        match on_map {
            Some(tile) => {
                match tile.terrain {
                    TerrainType::Ocean => {},
                    _ => {
                        r.push(n);
                    },
                }
            },
            None => {},
        }
        proof {
            assert(ns@.take(k + 1).last() == n);
        }
        k = k + 1;
    }
    proof {
        assert(ns@.take(ns@.len() as int) =~= ns@);
    }
    r
}

/// Where a unit at `pos` wanders this turn: when it stands on land, one of the land
/// tiles next to it, drawn with `rng`; `None` when it is not on land or no neighbour is.
pub fn random_land_step(pos: Position, world_map: &WorldMap, rng: &mut Lcg128Xsl64) -> (r: Option<Position>)
    requires
        world_map.wf(),
    ensures
        match r {
            None => !on_land(pos, *world_map) || land_neighbors(pos, *world_map).len() == 0,
            Some(p) => on_land(pos, *world_map) && land_neighbors(pos, *world_map).contains(p),
        },
{
    match world_map.get_tile(pos) {
        Some(tile) => {
            match tile.terrain {
                TerrainType::Ocean => None,
                _ => {
                    let moves = land_moves(pos, world_map);
                    choose_position(&moves, rng)
                },
            }
        },
        None => None,
    }
}

/// Where a unit of `civ` standing at `old` may be after wandering: on a land neighbour
/// when it stands on land that has one, else where it was.
pub open spec fn wandered(old: Position, new: Position, map: WorldMap) -> bool {
    if on_land(old, map) && land_neighbors(old, map).len() > 0 {
        land_neighbors(old, map).contains(new)
    } else {
        new == old
    }
}

/// The wandering of the units of `civ`, each given by its owner and position: in order,
/// each unit of `civ` takes a random land step (`random_land_step`); other units stay.
pub fn wander_units_of(units: &mut Vec<(CivId, Position)>, civ: CivId, world_map: &WorldMap, rng: &mut Lcg128Xsl64)
    requires
        world_map.wf(),
    ensures
        final(units)@.len() == old(units)@.len(),
        forall|i: int| 0 <= i < old(units)@.len() ==> (#[trigger] final(units)@[i]).0 == old(units)@[i].0,
        forall|i: int| 0 <= i < old(units)@.len() && old(units)@[i].0 != civ ==> (#[trigger] final(units)@[i]).1 == old(units)@[i].1,
        forall|i: int| 0 <= i < old(units)@.len() && old(units)@[i].0 == civ
            ==> wandered(old(units)@[i].1, (#[trigger] final(units)@[i]).1, *world_map),
{
    let ghost orig = units@;
    let mut i: usize = 0;
    while i < units.len()
        invariant
            world_map.wf(),
            units@.len() == orig.len(),
            i <= units@.len(),
            forall|k: int| 0 <= k < orig.len() ==> (#[trigger] units@[k]).0 == orig[k].0,
            forall|k: int| i <= k < orig.len() ==> #[trigger] units@[k] == orig[k],
            forall|k: int| 0 <= k < i && orig[k].0 != civ ==> (#[trigger] units@[k]).1 == orig[k].1,
            forall|k: int| 0 <= k < i && orig[k].0 == civ ==> wandered(orig[k].1, (#[trigger] units@[k]).1, *world_map),
        decreases units@.len() - i,
    {
        let (owner, pos) = units[i];
        if owner == civ {
            match random_land_step(pos, world_map, rng) {
                Some(p) => {
                    units.set(i, (owner, p));
                },
                None => {},
            }
        }
        i = i + 1;
    }
}

/// One step along a unit's planned path: when a step remains, lies on the map, and its
/// tile is cheap enough to enter (`next_is_cheap`, the tile's movement cost being at most
/// two), the unit moves there and the order advances; otherwise nothing changes.
pub fn process_movement_order(position: &mut Position, order: &mut MovementOrder, world_map: &WorldMap, next_is_cheap: bool)
    requires
        world_map.wf(),
    ensures
        ({
            let o = *old(order);
            if o.path_index < o.path@.len() && in_bounds(world_map.width, world_map.height, o.path@[o.path_index as int])
                && next_is_cheap {
                *final(position) == o.path@[o.path_index as int] && *final(order) == advanced(o)
            } else {
                *final(position) == *old(position) && *final(order) == o
            }
        }),
{
    match order.next_position() {
        Some(next) => {
            if world_map.get_tile(next).is_some() && next_is_cheap {
                *position = next;
                order.advance();
            }
        },
        None => {},
    }
}

} // verus!
