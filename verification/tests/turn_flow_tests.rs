use core_sim::active_turn::{turn_based_step, ActiveCivTurn, TurnPhase, TurnStep};
use core_sim::city::{BuildingType, CapitalAge, City};
use core_sim::civ::CivId;
use core_sim::diplomacy::{has_alliance, war_barred, Treaty};
use core_sim::tile_sprites::TileSpriteIndices;
use core_sim::tile_contents::{assign_tile_neighbors_pass, TileNeighbors};
use core_sim::civ::EntityId;
use core_sim::fog_of_war::{update_fog_of_war, FogOfWarMaps, VisibilityState};
use core_sim::founding::spawn_civilizations;
use core_sim::movement::{land_moves, process_movement_order, random_land_step, wander_units_of, UnitType};
use core_sim::pathfinding::Pathfinder;
use core_sim::position::{MovementOrder, Position};
use core_sim::production::{spawn_completed_production_item, spawn_military_unit_at_position, ProductionItem, UnitSpawn};
use core_sim::terrain::TerrainType;
use core_sim::world_map::{MapTile, WorldMap};
use rand_pcg::Pcg64;

fn seeded_rng(seed: u128) -> Pcg64 {
    Pcg64::new(seed, 0xa02b_dbf7_bb3c_0a7a_c28f_a16a_64ab_f96b)
}

#[test]
fn nearest_matching_tile_is_found_breadth_first() {
    let mut map = WorldMap::new(6, 6);
    map.set_terrain(Position::new(4, 2), TerrainType::Forest);
    map.set_terrain(Position::new(0, 0), TerrainType::Forest);
    let finder = Pathfinder::new();
    let is_forest = |t: &MapTile| t.terrain == TerrainType::Forest;
    assert_eq!(finder.find_nearest(&map, Position::new(2, 2), is_forest, 5), Some(Position::new(4, 2)));
    assert_eq!(finder.find_nearest(&map, Position::new(2, 2), is_forest, 1), None);
    assert_eq!(finder.find_nearest(&map, Position::new(1, 1), is_forest, 3), Some(Position::new(0, 0)));
}

#[test]
fn nearest_search_skips_the_start_and_stays_within_range() {
    let mut map = WorldMap::new(5, 5);
    map.set_terrain(Position::new(2, 2), TerrainType::Hills);
    let finder = Pathfinder::new();
    let is_hills = |t: &MapTile| t.terrain == TerrainType::Hills;
    assert_eq!(finder.find_nearest(&map, Position::new(2, 2), is_hills, 10), None);
    assert_eq!(finder.find_nearest(&map, Position::new(0, 2), is_hills, 2), Some(Position::new(2, 2)));
    assert_eq!(finder.find_nearest(&map, Position::new(0, 2), is_hills, -1), None);
}

#[test]
fn nearest_search_enters_the_map_only_from_beside_it() {
    let mut map = WorldMap::new(4, 4);
    map.set_terrain(Position::new(0, 1), TerrainType::Desert);
    let finder = Pathfinder::new();
    let is_desert = |t: &MapTile| t.terrain == TerrainType::Desert;
    assert_eq!(finder.find_nearest(&map, Position::new(-1, 3), is_desert, 3), Some(Position::new(0, 1)));
    assert_eq!(finder.find_nearest(&map, Position::new(-1, -1), is_desert, 10), None);
    assert_eq!(finder.find_nearest(&map, Position::new(-5, 1), is_desert, 10), None);
}

#[test]
fn cached_paths_are_remembered_and_replaced() {
    let mut finder = Pathfinder::new();
    let a = Position::new(0, 0);
    let b = Position::new(2, 0);
    assert_eq!(finder.cached_path(a, b), None);
    finder.cache_path(a, b, Some(vec![a, Position::new(1, 0), b]));
    assert_eq!(finder.cached_path(a, b), Some(Some(vec![a, Position::new(1, 0), b])));
    assert_eq!(finder.cached_path(b, a), None);
    finder.cache_path(a, b, None);
    assert_eq!(finder.cached_path(a, b), Some(None));
    finder.clear_cache();
    assert_eq!(finder.cached_path(a, b), None);
}

#[test]
fn wandering_units_stay_on_land() {
    let mut map = WorldMap::new(3, 3);
    map.set_terrain(Position::new(1, 2), TerrainType::Ocean);
    map.set_terrain(Position::new(0, 1), TerrainType::Ocean);
    assert_eq!(land_moves(Position::new(1, 1), &map), vec![Position::new(1, 0), Position::new(2, 1)]);
    let mut rng = seeded_rng(7);
    for _ in 0..20 {
        let step = random_land_step(Position::new(1, 1), &map, &mut rng).unwrap();
        assert!(step == Position::new(1, 0) || step == Position::new(2, 1));
    }
    assert_eq!(random_land_step(Position::new(1, 2), &map, &mut rng), None);
    assert_eq!(random_land_step(Position::new(7, 7), &map, &mut rng), None);
}

#[test]
fn units_follow_their_path_onto_cheap_tiles() {
    let map = WorldMap::new(4, 4);
    let mut position = Position::new(0, 0);
    let mut order = MovementOrder::new(vec![Position::new(1, 0), Position::new(9, 0)], Position::new(9, 0));
    process_movement_order(&mut position, &mut order, &map, false);
    assert_eq!((position, order.path_index), (Position::new(0, 0), 0));
    process_movement_order(&mut position, &mut order, &map, true);
    assert_eq!((position, order.path_index), (Position::new(1, 0), 1));
    process_movement_order(&mut position, &mut order, &map, true);
    assert_eq!((position, order.path_index), (Position::new(1, 0), 1));
}

#[test]
fn finished_production_spawns_units_and_raises_buildings() {
    let mut counter = 5;
    let unit = spawn_military_unit_at_position(UnitType::Archer, CivId(0), Position::new(3, 4), &mut counter);
    assert_eq!(unit, UnitSpawn { id: 5, owner: CivId(0), unit_type: UnitType::Archer, position: Position::new(3, 4), player_controlled: true });
    assert_eq!(counter, 6);
    let mut city = City::new("Ur".to_string(), CivId(2));
    let spawned = spawn_completed_production_item(ProductionItem::Unit(UnitType::Cavalry), CivId(2), Position::new(1, 1), &mut counter, &mut city);
    assert_eq!(spawned.map(|u| (u.id, u.player_controlled)), Some((6, false)));
    assert_eq!(counter, 7);
    let none = spawn_completed_production_item(ProductionItem::Building(BuildingType::Library), CivId(2), Position::new(1, 1), &mut counter, &mut city);
    assert_eq!(none, None);
    assert_eq!(counter, 7);
    assert_eq!(city.buildings.len(), 2);
    assert_eq!(city.buildings[1].building_type, BuildingType::Library);
}

#[test]
fn civilizations_are_founded_on_the_first_turn_only() {
    let mut map = WorldMap::new(10, 10);
    let starts = vec![("Rome".to_string(), Position::new(2, 3)), ("Carthage".to_string(), Position::new(20, 20))];
    assert!(spawn_civilizations(&mut map, 2, &starts).is_empty());
    assert_eq!(map.get_tile(Position::new(2, 3)).unwrap().owner, None);
    let founded = spawn_civilizations(&mut map, 1, &starts);
    assert_eq!(founded.len(), 2);
    assert_eq!(founded[0].civ_id, CivId(0));
    assert_eq!(founded[0].capital_city.name, "Rome Capital");
    assert_eq!(founded[1].capital_city.name, "Carthage Capital");
    assert_eq!(founded[1].unit_id, 1);
    assert_eq!(founded[0].capital.age, CapitalAge::Neolithic);
    assert_eq!(founded[0].capital.sprite_index, 3);
    let home = map.get_tile(Position::new(2, 3)).unwrap();
    assert_eq!(home.owner, Some(CivId(0)));
    assert_eq!(home.city, Some("Rome".to_string()));
}

#[test]
fn at_most_twenty_civilizations_are_founded() {
    let mut map = WorldMap::new(30, 30);
    let starts: Vec<(String, Position)> = (0..25).map(|i| (format!("Civ{}", i), Position::new(i, i))).collect();
    let founded = spawn_civilizations(&mut map, 1, &starts);
    assert_eq!(founded.len(), 20);
    assert_eq!(map.get_tile(Position::new(19, 19)).unwrap().owner, Some(CivId(19)));
    assert_eq!(map.get_tile(Position::new(20, 20)).unwrap().owner, None);
}

#[test]
fn fog_of_war_starts_new_civilizations_and_follows_units() {
    let map = WorldMap::new(8, 8);
    let mut fog = FogOfWarMaps::new();
    let civs = vec![CivId(1)];
    let units = vec![(Position::new(1, 1), CivId(1), 1), (Position::new(6, 6), CivId(2), 1)];
    let cities = vec![];
    assert!(update_fog_of_war(&mut fog, &map, &civs, &units, &cities, false));
    assert!(fog.is_visible_to(CivId(1), Position::new(2, 2)));
    assert!(!fog.is_visible_to(CivId(1), Position::new(6, 6)));
    assert!(!fog.is_visible_to(CivId(2), Position::new(6, 6)));
    assert!(!update_fog_of_war(&mut fog, &map, &civs, &units, &cities, false));
    let moved = vec![(Position::new(5, 5), CivId(1), 1)];
    assert!(update_fog_of_war(&mut fog, &map, &civs, &moved, &cities, true));
    assert!(fog.is_visible_to(CivId(1), Position::new(6, 6)));
    assert!(!fog.is_visible_to(CivId(1), Position::new(1, 1)));
    assert!(fog.is_explored_by(CivId(1), Position::new(1, 1)));
    assert_eq!(fog.get(CivId(1)).unwrap().get(Position::new(7, 0)), Some(VisibilityState::Unexplored));
}

#[test]
fn treaties_that_bar_war_are_recognized() {
    assert!(!war_barred(&vec![]));
    assert!(!war_barred(&vec![Treaty::TradePact { turns_remaining: 3 }]));
    assert!(war_barred(&vec![Treaty::TradePact { turns_remaining: 3 }, Treaty::NonAggression { turns_remaining: 1 }]));
    assert!(war_barred(&vec![Treaty::War { started_turn: 4 }]));
    assert!(!has_alliance(&vec![Treaty::War { started_turn: 4 }]));
    assert!(has_alliance(&vec![Treaty::War { started_turn: 4 }, Treaty::Alliance { turns_remaining: 9 }]));
}

#[test]
fn terrain_sprites_follow_the_sheet_layout() {
    let sprites = TileSpriteIndices::standard();
    assert_eq!(sprites.get_index_for_terrain(&TerrainType::Ocean), 16);
    assert_eq!(sprites.get_index_for_terrain(&TerrainType::ShallowCoast), 17);
    assert_eq!(sprites.get_index_for_terrain(&TerrainType::Coast), 8);
    assert_eq!(sprites.get_index_for_terrain(&TerrainType::Plains), 0);
    assert_eq!(sprites.get_coast_index(), 8);
    assert_eq!(sprites.island_index, 2);
}

#[test]
fn equally_near_tiles_are_taken_in_breadth_first_order() {
    let mut map = WorldMap::new(3, 3);
    for p in [Position::new(1, 2), Position::new(1, 0), Position::new(2, 1), Position::new(0, 1)] {
        map.set_terrain(p, TerrainType::Forest);
    }
    let finder = Pathfinder::new();
    let is_forest = |t: &MapTile| t.terrain == TerrainType::Forest;
    assert_eq!(finder.find_nearest(&map, Position::new(1, 1), is_forest, 4), Some(Position::new(1, 2)));
    map.set_terrain(Position::new(1, 2), TerrainType::Plains);
    map.set_terrain(Position::new(1, 0), TerrainType::Plains);
    assert_eq!(finder.find_nearest(&map, Position::new(1, 1), is_forest, 4), Some(Position::new(2, 1)));
}

#[test]
fn tiles_are_linked_to_their_neighbours() {
    let grid: Vec<Vec<EntityId>> = (0..2u64).map(|x| (0..3u64).map(|y| EntityId(x * 10 + y)).collect()).collect();
    let links = assign_tile_neighbors_pass(&grid, 2, 3);
    assert_eq!(links.len(), 2);
    assert_eq!(links[0].len(), 3);
    assert_eq!(
        links[0][1],
        (EntityId(1), TileNeighbors { north: Some(EntityId(2)), south: Some(EntityId(0)), east: Some(EntityId(11)), west: None })
    );
    assert_eq!(
        links[1][2],
        (EntityId(12), TileNeighbors { north: None, south: Some(EntityId(11)), east: None, west: Some(EntityId(2)) })
    );
}

#[test]
fn the_turn_loop_cycles_through_the_civilizations() {
    let mut active = ActiveCivTurn::default();
    let mut turn: u32 = 4;
    let civs = vec![CivId(3), CivId(8)];
    let mut advance = false;
    assert_eq!(turn_based_step(&mut active, &mut turn, &mut advance, &civs), TurnStep::Idle);
    assert!(active.civs_per_turn.is_empty());
    let mut steps = Vec::new();
    for _ in 0..6 {
        advance = true;
        steps.push(turn_based_step(&mut active, &mut turn, &mut advance, &civs));
        assert!(!advance);
    }
    assert_eq!(steps, vec![
        TurnStep::ActivateCiv(CivId(3)),
        TurnStep::MoveUnitsOf(CivId(3)),
        TurnStep::CivFinished { civ: CivId(3), new_game_turn: false },
        TurnStep::ActivateCiv(CivId(8)),
        TurnStep::MoveUnitsOf(CivId(8)),
        TurnStep::CivFinished { civ: CivId(8), new_game_turn: true },
    ]);
    assert_eq!(turn, 5);
    assert_eq!(active.current_civ_index, 0);
    assert_eq!(active.turn_phase, TurnPhase::Planning);
    assert_eq!(active.civs_per_turn, civs);
}

#[test]
fn a_full_turn_counter_only_matters_when_the_turn_wraps() {
    let mut active = ActiveCivTurn::default();
    let mut turn: u32 = u32::MAX;
    let mut advance = true;
    let civs = vec![CivId(1), CivId(2)];
    assert_eq!(turn_based_step(&mut active, &mut turn, &mut advance, &civs), TurnStep::ActivateCiv(CivId(1)));
    assert_eq!(turn, u32::MAX);
    active.turn_phase = TurnPhase::Complete;
    advance = true;
    assert_eq!(turn_based_step(&mut active, &mut turn, &mut advance, &civs), TurnStep::CivFinished { civ: CivId(1), new_game_turn: false });
    assert_eq!(turn, u32::MAX);
    assert_eq!(active.current_civ_index, 1);
}

#[test]
fn an_unbounded_nearest_search_covers_the_whole_map() {
    let mut map = WorldMap::new(7, 3);
    map.set_terrain(Position::new(6, 2), TerrainType::Forest);
    let finder = Pathfinder::new();
    let is_forest = |t: &MapTile| t.terrain == TerrainType::Forest;
    assert_eq!(finder.find_nearest(&map, Position::new(0, 0), is_forest, i32::MAX), Some(Position::new(6, 2)));
    assert_eq!(finder.find_nearest(&map, Position::new(6, 2), is_forest, i32::MAX), None);
}

#[test]
fn only_the_units_of_the_active_civilization_wander() {
    let mut map = WorldMap::new(3, 3);
    map.set_terrain(Position::new(1, 2), TerrainType::Ocean);
    map.set_terrain(Position::new(0, 1), TerrainType::Ocean);
    let mut rng = seeded_rng(3);
    let mut units = vec![
        (CivId(1), Position::new(1, 1)),
        (CivId(2), Position::new(1, 1)),
        (CivId(1), Position::new(1, 2)),
        (CivId(1), Position::new(8, 8)),
    ];
    wander_units_of(&mut units, CivId(1), &map, &mut rng);
    assert_eq!(units.len(), 4);
    assert!(units[0] == (CivId(1), Position::new(1, 0)) || units[0] == (CivId(1), Position::new(2, 1)));
    assert_eq!(units[1], (CivId(2), Position::new(1, 1)));
    assert_eq!(units[2], (CivId(1), Position::new(1, 2)));
    assert_eq!(units[3], (CivId(1), Position::new(8, 8)));
}

#[test]
fn without_a_request_the_turn_loop_reads_nothing() {
    let mut active = ActiveCivTurn::default();
    active.civs_per_turn = vec![CivId(1)];
    active.current_civ_index = 5;
    let mut turn: u32 = 2;
    let mut advance = false;
    assert_eq!(turn_based_step(&mut active, &mut turn, &mut advance, &vec![CivId(1)]), TurnStep::Idle);
    assert_eq!(active.current_civ_index, 5);
    assert_eq!(turn, 2);
}
