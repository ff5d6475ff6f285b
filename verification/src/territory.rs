use vstd::prelude::*;
use crate::civ::CivId;
use crate::position::{Position, has_room};
use crate::terrain::TerrainType;
use crate::world_map::{WorldMap, MapTile, in_bounds, neighbors_of};
use crate::production::PlayerActionsComplete;

verus! {

/// Whether a civilization may claim the tile: nobody owns it and it is not ocean.
pub open spec fn claimable(t: MapTile) -> bool {
    t.owner.is_none() && t.terrain != TerrainType::Ocean
}

/// The first of `s` (a list of on-map positions) whose tile may be claimed.
pub open spec fn first_claimable(map: WorldMap, s: Seq<Position>) -> Option<int>
    decreases s.len(),
{
    if s.len() == 0 {
        None
    } else {
        match first_claimable(map, s.drop_last()) {
            Some(i) => Some(i),
            None => if claimable(map.tile_at(s.last())) { Some(s.len() - 1) } else { None },
        }
    }
}

proof fn lemma_first_claimable(map: WorldMap, s: Seq<Position>)
    ensures
        match first_claimable(map, s) {
            Some(i) => 0 <= i < s.len() && claimable(map.tile_at(s[i]))
                && forall|j: int| 0 <= j < i ==> !claimable(#[trigger] map.tile_at(s[j])),
            None => forall|j: int| 0 <= j < s.len() ==> !claimable(#[trigger] map.tile_at(s[j])),
        },
    decreases s.len(),
{
    if s.len() > 0 {
        let p = s.drop_last();
        lemma_first_claimable(map, p);
        assert(forall|j: int| 0 <= j < p.len() ==> p[j] == s[j]);
    }
}

/// The first on-map neighbour of `pos` (north, south, east, west) that nobody owns and
/// that is not ocean.
pub fn find_claimable_neighbor(world_map: &WorldMap, pos: Position) -> (r: Option<Position>)
    requires
        world_map.wf(),
        has_room(pos),
    ensures
        r == match first_claimable(*world_map, neighbors_of(world_map.width, world_map.height, pos)) {
            Some(i) => Some(neighbors_of(world_map.width, world_map.height, pos)[i]),
            None => None,
        },
{
    let neighbors = world_map.neighbors(pos);
    let ghost ns = neighbors@;
    proof {
        lemma_first_claimable(*world_map, ns);
    }
    let mut k: usize = 0;
    while k < neighbors.len()
        invariant
            world_map.wf(),
            ns == neighbors@,
            ns == neighbors_of(world_map.width, world_map.height, pos),
            k <= ns.len(),
            forall|j: int| 0 <= j < k ==> !claimable(#[trigger] world_map.tile_at(ns[j])),
            match first_claimable(*world_map, ns) {
                Some(i) => 0 <= i < ns.len() && claimable(world_map.tile_at(ns[i]))
                    && forall|j: int| 0 <= j < i ==> !claimable(#[trigger] world_map.tile_at(ns[j])),
                None => forall|j: int| 0 <= j < ns.len() ==> !claimable(#[trigger] world_map.tile_at(ns[j])),
            },
        decreases ns.len() - k,
    {
        let q = neighbors[k];
        match world_map.get_tile(q) {
            Some(tile) => {
                let free = tile.owner.is_none() && match tile.terrain {
                    TerrainType::Ocean => false,
                    _ => true,
                };
                if free {
                    proof {
                        match first_claimable(*world_map, ns) {
                            Some(i) => {
                                if i < k {
                                    assert(!claimable(world_map.tile_at(ns[i])));
                                }
                                assert(i == k);
                            },
                            None => {
                                assert(!claimable(world_map.tile_at(ns[k as int])));
                            },
                        }
                    }
                    return Some(q);
                }
            },
            None => {
                assert(!in_bounds(world_map.width, world_map.height, ns[k as int]));
                assert(false);
            },
        }
        k = k + 1;
    }
    None
}

/// A civilization centred at `pos` claims one tile: the first of its on-map neighbours
/// (north, south, east, west) that nobody owns and that is not ocean becomes its own, and
/// is returned; `None`, with the map unchanged, when there is none.
pub fn expand_territory(world_map: &mut WorldMap, civ: CivId, pos: Position) -> (claimed: Option<Position>)
    requires
        old(world_map).wf(),
        has_room(pos),
    ensures
        final(world_map).wf(),
        final(world_map).width == old(world_map).width,
        final(world_map).height == old(world_map).height,
        match first_claimable(*old(world_map), neighbors_of(old(world_map).width, old(world_map).height, pos)) {
            None => claimed.is_none() && *final(world_map) == *old(world_map),
            Some(i) => {
                let q = neighbors_of(old(world_map).width, old(world_map).height, pos)[i];
                &&& claimed == Some(q)
                &&& forall|p: Position| in_bounds(old(world_map).width, old(world_map).height, p)
                    ==> (#[trigger] final(world_map).tile_at(p)) == (if p == q {
                        MapTile { owner: Some(civ), ..old(world_map).tile_at(p) }
                    } else {
                        old(world_map).tile_at(p)
                    })
            },
        },
{
    let neighbors = world_map.neighbors(pos);
    let ghost ns = neighbors@;
    proof {
        lemma_first_claimable(*world_map, ns);
        assert forall|j: int| 0 <= j < ns.len() implies in_bounds(world_map.width, world_map.height, #[trigger] ns[j]) by {
            assert(ns == neighbors_of(world_map.width, world_map.height, pos));
        }
    }
    let mut k: usize = 0;
    while k < neighbors.len()
        invariant
            *world_map == *old(world_map),
            world_map.wf(),
            ns == neighbors@,
            ns == neighbors_of(world_map.width, world_map.height, pos),
            forall|j: int| 0 <= j < ns.len() ==> in_bounds(world_map.width, world_map.height, #[trigger] ns[j]),
            k <= ns.len(),
            forall|j: int| 0 <= j < k ==> !claimable(#[trigger] world_map.tile_at(ns[j])),
            match first_claimable(*world_map, ns) {
                Some(i) => 0 <= i < ns.len() && claimable(world_map.tile_at(ns[i]))
                    && forall|j: int| 0 <= j < i ==> !claimable(#[trigger] world_map.tile_at(ns[j])),
                None => forall|j: int| 0 <= j < ns.len() ==> !claimable(#[trigger] world_map.tile_at(ns[j])),
            },
        decreases ns.len() - k,
    {
        let q = neighbors[k];
        let x = q.x as usize;
        let y = q.y as usize;
        let free = world_map.tiles[x][y].owner.is_none() && match world_map.tiles[x][y].terrain {
            TerrainType::Ocean => false,
            _ => true,
        };
        assert(world_map.tiles@[x as int]@[y as int] == world_map.tile_at(q));
        if free {
            proof {
                match first_claimable(*world_map, ns) {
                    Some(i) => {
                        if i < k {
                            assert(!claimable(world_map.tile_at(ns[i])));
                        }
                        assert(i == k);
                    },
                    None => {
                        assert(!claimable(world_map.tile_at(ns[k as int])));
                    },
                }
            }
            let ghost before = *world_map;
            world_map.tiles[x][y].owner = Some(civ);
            proof {
                assert forall|p: Position| in_bounds(before.width, before.height, p)
                    implies (#[trigger] world_map.tile_at(p)) == (if p == q {
                        MapTile { owner: Some(civ), ..before.tile_at(p) }
                    } else {
                        before.tile_at(p)
                    }) by {
                    if p.x != q.x {
                        assert(world_map.tiles@[p.x as int] == before.tiles@[p.x as int]);
                    }
                }
                assert forall|i: int| 0 <= i < world_map.width implies (#[trigger] world_map.tiles@[i])@.len() == world_map.height by {
                    if i != x {
                        assert(world_map.tiles@[i] == before.tiles@[i]);
                    }
                }
            }
            return Some(q);
        }
        k = k + 1;
    }
    None
}

/// Decides whether the player may end the turn. Without a player civilization everything
/// counts as done. Otherwise every unit of the player (given as its owner and its
/// remaining movement points) must be out of movement, and production counts as queued
/// when the player has no capital or has made this turn's production decisions.
pub fn check_player_actions_complete(
    player_actions: &mut PlayerActionsComplete,
    player_civ: Option<CivId>,
    units: &Vec<(CivId, u32)>,
    player_has_capital: bool,
)
    ensures
        final(player_actions).production_decisions_made_this_turn == old(player_actions).production_decisions_made_this_turn,
        final(player_actions).all_units_moved == match player_civ {
            None => true,
            Some(c) => forall|i: int| 0 <= i < units@.len() ==> !((#[trigger] units@[i]).0 == c && units@[i].1 > 0),
        },
        final(player_actions).all_productions_queued == match player_civ {
            None => true,
            Some(c) => !player_has_capital || old(player_actions).production_decisions_made_this_turn,
        },
        final(player_actions).can_end_turn == (final(player_actions).all_units_moved && final(player_actions).all_productions_queued),
{
    match player_civ {
        None => {
            player_actions.all_units_moved = true;
            player_actions.all_productions_queued = true;
            player_actions.update_can_end_turn();
        },
        Some(civ) => {
            let mut all_units_moved = true;
            let mut i: usize = 0;
            while i < units.len()
                invariant_except_break
                    all_units_moved,
                invariant
                    i <= units@.len(),
                    forall|j: int| 0 <= j < i ==> !((#[trigger] units@[j]).0 == civ && units@[j].1 > 0),
                ensures
                    all_units_moved == forall|j: int| 0 <= j < units@.len() ==> !((#[trigger] units@[j]).0 == civ && units@[j].1 > 0),
                decreases units@.len() - i,
            {
                if units[i].0 == civ && units[i].1 > 0 {
                    all_units_moved = false;
                    break;
                }
                i = i + 1;
            }
            player_actions.all_units_moved = all_units_moved;
            player_actions.all_productions_queued = !player_has_capital || player_actions.production_decisions_made_this_turn;
            player_actions.update_can_end_turn();
        },
    }
}

} // verus!
