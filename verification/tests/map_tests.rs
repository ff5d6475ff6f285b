use core_sim::civ::{CivId, EntityId};
use core_sim::coast::{determine_coast_sprite_and_flip, detect_ocean_neighbors, update_coast_tiles_pass, update_shallow_coast_tiles_pass};
use core_sim::fog_of_war::{
    filter_visible_units, get_explored_positions, get_visible_positions, initialize_fog_of_war_for_civ, is_position_explored,
    is_position_visible, update_civ_visibility, FogOfWarMaps, VisibilityMap, VisibilityState,
};
use core_sim::position::{Direction, MovementOrder, Position};
use core_sim::terrain::TerrainType;
use core_sim::turns::{calculate_next_turn_number, TurnOrder};
use core_sim::world_map::WorldMap;

#[test]
fn directions_and_distances() {
    let p = Position::new(3, -4);
    assert_eq!(p.manhattan_distance_to(&Position::new(0, 0)), 7);
    assert_eq!(p.in_direction(Direction::North), Position::new(3, -3));
    assert_eq!(p.in_direction(Direction::North).in_direction(Direction::North.opposite()), p);
    assert!(p.is_adjacent_to(&Position::new(4, -4)));
    assert!(!p.is_adjacent_to(&Position::new(4, -3)));
    assert_eq!(p.direction_to(&Position::new(2, -4)), Some(Direction::West));
    assert_eq!(p.direction_to(&Position::new(5, -4)), None);
    assert_eq!(Direction::South.name(), "South");
    assert_eq!(p.adjacent_positions().len(), 4);
}

#[test]
fn movement_orders_walk_their_path() {
    let mut order = MovementOrder::new(vec![Position::new(1, 0), Position::new(2, 0)], Position::new(2, 0));
    assert_eq!(order.next_position(), Some(Position::new(1, 0)));
    order.advance();
    assert_eq!(order.next_position(), Some(Position::new(2, 0)));
    order.advance();
    assert!(order.is_complete());
    assert_eq!(order.next_position(), None);
    order.advance();
    assert!(order.is_complete());
}

#[test]
fn terrain_names_round_trip() {
    for t in [TerrainType::Plains, TerrainType::Hills, TerrainType::Mountains, TerrainType::Forest, TerrainType::Desert,
              TerrainType::Coast, TerrainType::ShallowCoast, TerrainType::Ocean, TerrainType::River] {
        assert_eq!(TerrainType::from_name(&t.name()), Some(t));
    }
    assert_eq!(TerrainType::from_name("Lava"), None);
    assert!(TerrainType::Ocean.is_water());
    assert!(!TerrainType::Mountains.is_buildable());
    assert!(TerrainType::Desert.is_land());
    assert!(!TerrainType::River.is_land());
}

#[test]
fn vision_marks_a_square_and_keeps_exploration() {
    let mut map = VisibilityMap::new(10, 10);
    assert_eq!(map.get(Position::new(2, 2)), Some(VisibilityState::Unexplored));
    map.mark_visible(Position::new(2, 2), 1);
    assert!(map.is_visible(Position::new(3, 3)));
    assert!(!map.is_visible(Position::new(4, 2)));
    map.reset_visibility();
    assert!(!map.is_visible(Position::new(3, 3)));
    assert!(map.is_explored(Position::new(3, 3)));
    update_civ_visibility(&mut map, &vec![(Position::new(9, 9), 2)]);
    assert!(map.is_visible(Position::new(8, 7)));
    assert!(!map.is_visible(Position::new(2, 2)));
    assert!(map.is_explored(Position::new(2, 2)));
    assert_eq!(map.get(Position::new(10, 0)), None);
}

#[test]
fn fog_of_war_per_civilization() {
    let world = WorldMap::new(4, 3);
    let mut fog = FogOfWarMaps::new();
    initialize_fog_of_war_for_civ(CivId(1), &mut fog, &world);
    assert!(!is_position_visible(Position::new(0, 0), CivId(1), &fog));
    fog.get_mut(CivId(1)).unwrap().mark_visible(Position::new(0, 0), 0);
    assert!(is_position_visible(Position::new(0, 0), CivId(1), &fog));
    assert!(is_position_explored(Position::new(0, 0), CivId(1), &fog));
    assert!(!is_position_visible(Position::new(0, 0), CivId(2), &fog));
    assert_eq!(get_visible_positions(CivId(1), &fog), vec![Position::new(0, 0)]);
    assert_eq!(get_explored_positions(CivId(1), &fog), vec![Position::new(0, 0)]);
    let units = vec![(Position::new(0, 0), EntityId(5)), (Position::new(1, 1), EntityId(6))];
    assert_eq!(filter_visible_units(&units, CivId(1), &fog), vec![EntityId(5)]);
}

#[test]
fn coast_pass_turns_shore_land_into_coast() {
    let mut grid = vec![
        vec![TerrainType::Ocean, TerrainType::Ocean, TerrainType::Ocean],
        vec![TerrainType::Ocean, TerrainType::Plains, TerrainType::Plains],
        vec![TerrainType::Ocean, TerrainType::Plains, TerrainType::Plains],
    ];
    let mut world = WorldMap::new(3, 3);
    for x in 0..3 {
        for y in 0..3 {
            world.set_terrain(Position::new(x, y), grid[x as usize][y as usize]);
        }
    }
    let neighbors = detect_ocean_neighbors(1, 1, &grid, 3, 3);
    assert!(neighbors.has_any_ocean());
    assert_eq!(neighbors.count_ocean_sides(), 2);
    let updates = update_coast_tiles_pass(&mut grid, 3, 3, &mut world, 8);
    assert!(updates.len() >= 1);
    assert_eq!(grid[1][1], TerrainType::Coast);
    let (sprite, _) = determine_coast_sprite_and_flip(&neighbors, 8);
    let centre = updates.iter().find(|u| u.x == 1 && u.y == 1).unwrap();
    assert_eq!(sprite, centre.sprite_index);
    assert_eq!(centre.original_terrain, TerrainType::Plains);
    let shallow = update_shallow_coast_tiles_pass(&mut grid, 3, 3, &mut world);
    for hit in shallow.iter() {
        assert_eq!(grid[hit.x as usize][hit.y as usize], TerrainType::ShallowCoast);
    }
}

#[test]
fn turn_order_cycles_through_civilizations() {
    let mut order = TurnOrder::new(vec![CivId(0), CivId(4), CivId(7)]);
    assert_eq!(order.current_civ(), Some(CivId(0)));
    assert_eq!(order.peek_next(), Some(CivId(4)));
    assert!(!order.advance());
    assert!(!order.advance());
    assert_eq!(order.current_civ(), Some(CivId(7)));
    assert!(order.advance());
    assert_eq!(order.current_civ(), Some(CivId(0)));
    assert!(order.is_player_civ(CivId(0)));
    assert!(!order.is_player_civ(CivId(4)));
    assert_eq!(calculate_next_turn_number(41), 42);
}
