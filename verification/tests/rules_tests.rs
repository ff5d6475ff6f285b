use core_sim::city::{evolve_capital, BuildingType, Capital, CapitalAge, City};
use core_sim::civ::{CivId, EntityId};
use core_sim::data_loader::{CivilizationDataLoader, PositionData};
use core_sim::diplomacy::{DiplomaticEventType, DiplomaticSystem, ProposalKind, Treaty};
use core_sim::events::{begin_event_check, should_trigger, ActiveEventModifiers, EventHistory, TriggerCondition};
use core_sim::movement::{
    execute_movement_order, is_valid_move_target, move_ai_unit_simple, validate_movement_to_adjacent_tile, MoveError,
    MoveOutcome, UnitMovement, UnitType,
};
use core_sim::position::Position;
use core_sim::production::{PlayerActionsComplete, ProductionItem, ProductionProgress, ProductionQueue};
use core_sim::serialization::{text_contains, CivRecord, EcsSerializer, GameSerializer, ValidationError};
use core_sim::terrain::TerrainType;
use core_sim::world_map::WorldMap;
use core_sim::coordinator::{cooldown_for_action_count, TurnCooldowns};
use core_sim::territory::{check_player_actions_complete, expand_territory, find_claimable_neighbor};
use core_sim::tile_contents::TileContents;
use rand::SeedableRng;

#[test]
fn capital_evolves_when_every_requirement_is_met() {
    let mut capital = Capital { owner: CivId(1), age: CapitalAge::Neolithic, sprite_index: 3, established_turn: 0 };
    let techs = vec!["Bronze Working".to_string()];
    assert!(!evolve_capital(&mut capital, 2000, 2, &techs, 9));
    assert!(!evolve_capital(&mut capital, 1999, 2, &techs, 10));
    assert!(!evolve_capital(&mut capital, 2000, 1, &techs, 10));
    assert!(!evolve_capital(&mut capital, 2000, 2, &vec![], 10));
    assert!(evolve_capital(&mut capital, 2000, 2, &techs, 10));
    assert_eq!(capital.age, CapitalAge::Bronze);
    assert_eq!(capital.sprite_index, 5);
    assert_eq!(capital.established_turn, 10);
    let mut last = Capital { owner: CivId(1), age: CapitalAge::Future, sprite_index: 13, established_turn: 0 };
    assert!(!evolve_capital(&mut last, 100000, 50, &techs, 1000));
    assert_eq!(CapitalAge::Iron.evolution_requirements().required_technologies, vec!["Currency".to_string(), "Writing".to_string()]);
    assert_eq!(CapitalAge::Future.next_age(), None);
    assert_eq!(CapitalAge::Information.next_age(), Some(CapitalAge::Future));
}

#[test]
fn city_buildings_grow_and_upgrade() {
    let mut city = City::new("Ur".to_string(), CivId(2));
    assert_eq!(city.population, 1000);
    city.add_building(BuildingType::Walls);
    assert!(city.upgrade_building(&BuildingType::Walls));
    assert!(!city.upgrade_building(&BuildingType::Temple));
    assert_eq!(city.buildings[1].level, 2);
    city.grow_population(500);
    assert_eq!(city.population, 1500);
    assert_eq!(BuildingType::Library.name(), "Library");
}

#[test]
fn production_line_is_first_in_first_out() {
    let mut queue = ProductionQueue::new(CivId(1));
    queue.add_to_queue(EntityId(1));
    queue.add_to_queue(EntityId(2));
    queue.add_to_queue(EntityId(3));
    assert_eq!(queue.queue_length(), 3);
    assert_eq!(queue.start_next_production(), Some(EntityId(1)));
    assert_eq!(queue.start_next_production(), None);
    assert!(queue.is_producing());
    assert_eq!(queue.advance_production(ProductionProgress::Continuing), None);
    assert_eq!(queue.advance_production(ProductionProgress::Completed), Some(EntityId(1)));
    assert_eq!(queue.current_production, Some(EntityId(2)));
    assert_eq!(queue.advance_production(ProductionProgress::ItemMissing), None);
    assert_eq!(queue.current_production, Some(EntityId(3)));
    queue.add_to_queue(EntityId(4));
    assert_eq!(queue.remove_from_queue(5), None);
    assert_eq!(queue.cancel_current_production(), Some(EntityId(3)));
    assert_eq!(queue.clear(), vec![EntityId(4)]);
    assert_eq!(queue.queue_length(), 0);
    assert_eq!(ProductionItem::Unit(UnitType::Siege).name(), "Siege Engine");
}

#[test]
fn turn_may_end_once_units_moved_and_production_queued() {
    let mut actions = PlayerActionsComplete::default();
    actions.all_units_moved = true;
    actions.update_can_end_turn();
    assert!(!actions.can_end_turn);
    actions.all_productions_queued = true;
    actions.update_can_end_turn();
    assert!(actions.can_end_turn);
    actions.reset();
    assert!(!actions.can_end_turn && !actions.all_units_moved);
}

#[test]
fn treaties_tick_and_peace_ends_wars() {
    let mut treaties = vec![
        Treaty::NonAggression { turns_remaining: 1 },
        Treaty::War { started_turn: 4 },
        Treaty::Alliance { turns_remaining: 3 },
        Treaty::TradePact { turns_remaining: 0 },
    ];
    DiplomaticSystem::update_treaty_durations(&mut treaties);
    assert_eq!(treaties, vec![Treaty::War { started_turn: 4 }, Treaty::Alliance { turns_remaining: 2 }]);
    let mut trade = false;
    assert_eq!(DiplomaticSystem::accept_proposal(ProposalKind::PeaceTreaty, &mut treaties, &mut trade), 20);
    assert_eq!(treaties, vec![Treaty::Alliance { turns_remaining: 2 }]);
    assert_eq!(DiplomaticSystem::accept_proposal(ProposalKind::NonAggressionPact, &mut treaties, &mut trade), 15);
    assert_eq!(treaties[1], Treaty::NonAggression { turns_remaining: 50 });
    assert_eq!(DiplomaticSystem::accept_proposal(ProposalKind::TradePact, &mut treaties, &mut trade), 10);
    assert!(trade);
    assert_eq!(DiplomaticSystem::accept_proposal(ProposalKind::Other, &mut treaties, &mut trade), 0);
    assert_eq!(DiplomaticSystem::proposal_event_type(ProposalKind::Alliance), DiplomaticEventType::AllianceFormed);
    assert_eq!(DiplomaticSystem::proposal_event_type(ProposalKind::Other), DiplomaticEventType::TradeAgreementSigned);
}

#[test]
fn event_history_records_each_thing_once() {
    let mut history = EventHistory::default();
    assert!(!history.has_created_unit("Infantry"));
    history.record_unit_created("Infantry".to_string());
    history.record_unit_created("Infantry".to_string());
    assert!(history.has_created_unit("Infantry"));
    assert_eq!(history.units_created.len(), 1);
    history.record_civ_met(CivId(3));
    history.record_civ_met(CivId(3));
    assert!(history.has_met_civ(CivId(3)));
    assert_eq!(history.civs_met.len(), 1);
    history.record_tech_researched("Writing".to_string());
    assert!(history.has_researched_tech("Writing"));
    history.record_event_triggered("plague".to_string());
    assert!(history.has_triggered_event("plague"));
    assert!(!history.has_triggered_event("flood"));
}

#[test]
fn triggers_fire_on_history_turn_or_measurement() {
    let mut history = EventHistory::default();
    history.record_tech_researched("Writing".to_string());
    assert!(should_trigger(&TriggerCondition::TechnologyResearched("Writing".to_string()), &history, 1));
    assert!(!should_trigger(&TriggerCondition::FirstUnitCreated("Cavalry".to_string()), &history, 1));
    assert!(should_trigger(&TriggerCondition::SpecificTurn(7), &history, 7));
    assert!(!should_trigger(&TriggerCondition::SpecificTurn(7), &history, 8));
    assert!(should_trigger(&TriggerCondition::Measured(true), &history, 8));
    assert!(!should_trigger(&TriggerCondition::CityFounded, &history, 8));
    assert!(!should_trigger(&TriggerCondition::FirstCivContact, &history, 8));
    let mut last = 0u32;
    assert!(begin_event_check(&mut last, 3));
    assert!(!begin_event_check(&mut last, 3));
    assert_eq!(last, 3);
}

#[test]
fn event_modifiers_run_out() {
    let mut mods: ActiveEventModifiers<f32> = ActiveEventModifiers::default();
    mods.add_production_multiplier(1.5, 2);
    mods.add_production_multiplier(2.0, 1);
    mods.add_trait_modifier("militarism".to_string(), 0.2, 3);
    mods.update_turn();
    assert_eq!(mods.production_multipliers, vec![(1.5, 1)]);
    assert_eq!(mods.trait_modifiers, vec![("militarism".to_string(), 0.2, 2)]);
    mods.update_turn();
    assert!(mods.production_multipliers.is_empty());
    assert_eq!(mods.trait_modifiers.len(), 1);
}

#[test]
fn moves_are_checked_and_paid() {
    let mut map = WorldMap::new(5, 5);
    map.set_terrain(Position::new(2, 3), TerrainType::Ocean);
    let from = Position::new(2, 2);
    assert_eq!(validate_movement_to_adjacent_tile(from, Position::new(2, 4), &map, 1), Err(MoveError::NotAdjacent));
    assert_eq!(validate_movement_to_adjacent_tile(from, Position::new(2, 3), &map, 1), Err(MoveError::IntoOcean));
    assert_eq!(validate_movement_to_adjacent_tile(Position::new(0, 0), Position::new(-1, 0), &map, 1), Err(MoveError::OffMap));
    assert_eq!(validate_movement_to_adjacent_tile(from, Position::new(3, 2), &map, 0), Ok(1));
    assert_eq!(validate_movement_to_adjacent_tile(from, Position::new(3, 2), &map, 3), Ok(3));
    assert_eq!(MoveError::IntoOcean.message(), "Cannot move into ocean");

    let mut unit = UnitMovement::new(UnitType::Infantry, from);
    assert_eq!(execute_movement_order(&mut unit, Position::new(3, 2), &map, 3), MoveOutcome::InsufficientMovement { cost: 3 });
    assert_eq!(unit.position, from);
    assert_eq!(execute_movement_order(&mut unit, Position::new(3, 2), &map, 2), MoveOutcome::Moved { cost: 2, remaining: 0 });
    assert_eq!(unit.position, Position::new(3, 2));
    assert!(!unit.can_move());
    assert!(!unit.move_to(Position::new(4, 2)));

    assert!(!is_valid_move_target(from, Position::new(2, 3), &map));
    assert!(is_valid_move_target(from, Position::new(2, 1), &map));
    // North is ocean, so the simple AI steps south.
    assert_eq!(move_ai_unit_simple(from, &map), Some(Position::new(2, 1)));
    assert_eq!(UnitType::Naval.movement_points(), 4);
    assert_eq!(UnitType::Siege.attack_range(), 3);
}

#[test]
fn saved_games_are_checked() {
    let mut map = WorldMap::new(3, 3);
    map.tiles[0][0].owner = Some(CivId(1));
    map.tiles[2][1].owner = Some(CivId(9));
    let civs = vec![
        CivRecord { key: CivId(1), id: CivId(1), capital: Some(Position::new(0, 0)) },
        CivRecord { key: CivId(2), id: CivId(3), capital: Some(Position::new(1, 1)) },
        CivRecord { key: CivId(4), id: CivId(4), capital: Some(Position::new(7, 7)) },
    ];
    let errors = GameSerializer::validate_game_state(&civs, &map);
    assert_eq!(errors, vec![
        ValidationError::CivIdMismatch(CivId(2)),
        ValidationError::CapitalNotOwnedByOwner(CivId(2)),
        ValidationError::CapitalOutsideMap(CivId(4)),
        ValidationError::OrphanedTerritory(Position::new(2, 1), CivId(9)),
    ]);
}

#[test]
fn checksum_samples_every_tenth_tile() {
    let mut map = WorldMap::new(21, 5);
    map.tiles[10][0].owner = Some(CivId(3));
    let samples = GameSerializer::checksum_samples(&map);
    assert_eq!(samples, vec![
        ("Plains".to_string(), None),
        ("Plains".to_string(), Some(3)),
        ("Plains".to_string(), None),
    ]);
    let before = GameSerializer::calculate_world_checksum(&map);
    assert_eq!(before, GameSerializer::calculate_world_checksum(&map));
    map.set_terrain(Position::new(20, 0), TerrainType::Desert);
    assert_ne!(before, GameSerializer::calculate_world_checksum(&map));
    // A tile that is not sampled does not change the checksum.
    let mut other = map.clone();
    other.set_terrain(Position::new(3, 3), TerrainType::Ocean);
    assert_eq!(GameSerializer::calculate_world_checksum(&map), GameSerializer::calculate_world_checksum(&other));
    let save = GameSerializer::create_compact_save(12, 4, &map, vec!["Turn 3: war".to_string()]);
    assert_eq!(save.turn, 12);
    assert_eq!(save.civ_count, 4);
    assert_eq!(save.world_checksum, GameSerializer::calculate_world_checksum(&map));
}

#[test]
fn cities_are_found_by_part_of_their_name() {
    let mut map = WorldMap::new(4, 4);
    map.tiles[1][2].city = Some("New Babylon".to_string());
    map.tiles[3][0].city = Some("Babylon".to_string());
    assert_eq!(EcsSerializer::find_city_position(&map, "Babylon"), Some(Position::new(1, 2)));
    assert_eq!(EcsSerializer::find_city_position(&map, "Rome"), None);
    assert!(text_contains("Constantinople", "tino"));
    assert!(text_contains("abc", ""));
    assert!(!text_contains("ab", "abc"));
}

#[test]
fn starting_positions_respect_terrain_and_distance() {
    let mut map = WorldMap::new(30, 30);
    for x in 0..30 {
        for y in 0..30 {
            if (x + y) % 3 == 0 {
                map.set_terrain(Position::new(x, y), TerrainType::Mountains);
            }
        }
    }
    let civs = vec![
        ("Rome".to_string(), Position::new(1, 1)),
        ("Greece".to_string(), Position::new(2, 2)),
        ("Egypt".to_string(), Position::new(3, 3)),
    ];
    let mut rng = rand_pcg::Pcg64::seed_from_u64(7);
    let placed = CivilizationDataLoader::generate_random_starting_positions(&civs, &map, &mut rng, 5);
    assert_eq!(placed.len(), 3);
    for (i, (name, pos)) in placed.iter().enumerate() {
        assert_eq!(name, &civs[i].0);
        assert!(CivilizationDataLoader::is_suitable_starting_position(&map, *pos));
        for (_, other) in placed.iter().take(i) {
            assert!(CivilizationDataLoader::calculate_distance(*other, *pos) >= 5);
        }
    }
    assert_eq!(CivilizationDataLoader::calculate_distance(Position::new(0, 0), Position::new(3, 4)), 5);
    assert_eq!(CivilizationDataLoader::calculate_distance(Position::new(0, 0), Position::new(1, 1)), 1);
    assert!(CivilizationDataLoader::is_too_close_to_existing_civs(&vec![Position::new(0, 0)], Position::new(2, 2), 3));
    assert!(!CivilizationDataLoader::is_too_close_to_existing_civs(&vec![Position::new(0, 0)], Position::new(3, 0), 3));
    let p: Position = Position::from(PositionData { x: 4, y: -2 });
    assert_eq!(p, Position::new(4, -2));
}

#[test]
fn cooldowns_follow_the_number_of_actions() {
    assert_eq!(cooldown_for_action_count(0), 0);
    assert_eq!(cooldown_for_action_count(1), 0);
    assert_eq!(cooldown_for_action_count(2), 1);
    assert_eq!(cooldown_for_action_count(3), 1);
    assert_eq!(cooldown_for_action_count(4), 2);
    let mut cooldowns = TurnCooldowns::new();
    cooldowns.record_decisions(CivId(1), 5);
    cooldowns.record_decisions(CivId(2), 2);
    cooldowns.record_decisions(CivId(3), 0);
    let civs = vec![CivId(1), CivId(2), CivId(3)];
    assert_eq!(cooldowns.civilizations_to_plan(&civs), vec![CivId(2), CivId(3)]);
    assert!(cooldowns.is_cooling_down(CivId(1)));
    assert_eq!(cooldowns.civilizations_to_plan(&civs), civs);
    cooldowns.record_decisions(CivId(1), 2);
    assert!(cooldowns.is_cooling_down(CivId(1)));
    assert_eq!(cooldowns.turn_cooldown.len(), 2);
}

#[test]
fn expansion_claims_the_first_free_land_neighbour() {
    let mut map = WorldMap::new(3, 3);
    map.set_terrain(Position::new(1, 2), TerrainType::Ocean);
    map.tiles[1][0].owner = Some(CivId(8));
    // North is ocean and south is owned, so east is claimed.
    assert_eq!(find_claimable_neighbor(&map, Position::new(1, 1)), Some(Position::new(2, 1)));
    assert_eq!(expand_territory(&mut map, CivId(3), Position::new(1, 1)), Some(Position::new(2, 1)));
    assert_eq!(map.tiles[2][1].owner, Some(CivId(3)));
    assert_eq!(expand_territory(&mut map, CivId(3), Position::new(1, 1)), Some(Position::new(0, 1)));
    assert_eq!(expand_territory(&mut map, CivId(3), Position::new(1, 1)), None);

    let mut actions = PlayerActionsComplete::default();
    check_player_actions_complete(&mut actions, None, &vec![], true);
    assert!(actions.can_end_turn);
    let mut actions = PlayerActionsComplete::default();
    check_player_actions_complete(&mut actions, Some(CivId(0)), &vec![(CivId(0), 0), (CivId(2), 3)], true);
    assert!(actions.all_units_moved);
    assert!(!actions.all_productions_queued);
    assert!(!actions.can_end_turn);
    actions.production_decisions_made_this_turn = true;
    check_player_actions_complete(&mut actions, Some(CivId(0)), &vec![(CivId(0), 1)], true);
    assert!(!actions.all_units_moved);
    assert!(actions.all_productions_queued);
}

#[test]
fn tile_contents_hold_each_entity_once() {
    let mut contents = TileContents::default();
    assert!(contents.is_empty());
    contents.add_unit(EntityId(1));
    contents.add_unit(EntityId(1));
    contents.add_unit(EntityId(2));
    assert_eq!(contents.units, vec![EntityId(1), EntityId(2)]);
    contents.add_capital(EntityId(9));
    assert!(contents.has_capital() && contents.has_units() && !contents.has_city());
    contents.remove_unit(EntityId(1));
    assert_eq!(contents.units, vec![EntityId(2)]);
    contents.remove_unit(EntityId(2));
    contents.remove_capital(EntityId(9));
    contents.add_city(EntityId(4));
    contents.remove_city(EntityId(4));
    contents.add_building(EntityId(5));
    contents.remove_building(EntityId(5));
    assert!(contents.is_empty());
}

#[test]
fn a_name_met_again_keeps_one_starting_position() {
    let map = WorldMap::new(12, 12);
    let civs = vec![
        ("Rome".to_string(), Position::new(1, 1)),
        ("Rome".to_string(), Position::new(2, 2)),
        ("Carthage".to_string(), Position::new(3, 3)),
    ];
    let mut rng = rand_pcg::Pcg64::seed_from_u64(11);
    let placed = CivilizationDataLoader::generate_random_starting_positions(&civs, &map, &mut rng, 0);
    assert_eq!(placed.len(), 2);
    assert_eq!(placed[0].0, "Rome");
    assert_eq!(placed[1].0, "Carthage");
    let none: Vec<(String, Position)> = Vec::new();
    assert!(CivilizationDataLoader::generate_random_starting_positions(&none, &WorldMap::new(0, 0), &mut rng, 3).is_empty());
}

#[test]
fn without_suitable_land_civilizations_keep_their_data_positions() {
    let mut map = WorldMap::new(3, 3);
    for x in 0..3 {
        for y in 0..3 {
            map.set_terrain(Position::new(x, y), TerrainType::Ocean);
        }
    }
    let civs = vec![("Rome".to_string(), Position::new(1, 1)), ("Egypt".to_string(), Position::new(-4, 9))];
    let mut rng = rand_pcg::Pcg64::seed_from_u64(5);
    let placed = CivilizationDataLoader::generate_random_starting_positions(&civs, &map, &mut rng, 2);
    assert_eq!(placed, civs);
}

fn float_distance(dx: i64, dy: i64) -> u32 {
    ((dx * dx + dy * dy) as i32 as f32).sqrt() as u32
}

#[test]
fn distances_follow_the_f32_square_root() {
    let origin = Position::new(0, 0);
    for dx in 0..=46340i64 {
        for dy in [0i64, 1, 2, 7] {
            if dx * dx + dy * dy <= i32::MAX as i64 {
                let d = CivilizationDataLoader::calculate_distance(origin, Position::new(dx as i32, dy as i32));
                assert_eq!(d, float_distance(dx, dy), "dx {} dy {}", dx, dy);
            }
        }
    }
    let mut state: u64 = 0x9e37_79b9_7f4a_7c15;
    let mut rounded_up = 0;
    for _ in 0..300_000 {
        state = state.wrapping_mul(6364136223846793005).wrapping_add(1442695040888963407);
        let dx = ((state >> 33) % 32768) as i64;
        let dy = ((state >> 17) % 32768) as i64;
        let sq = dx * dx + dy * dy;
        if sq <= i32::MAX as i64 {
            let d = CivilizationDataLoader::calculate_distance(Position::new(-(dx as i32), 3), Position::new(0, 3 + dy as i32));
            assert_eq!(d, float_distance(dx, dy), "dx {} dy {}", dx, dy);
            let exact = (sq as f64).sqrt().floor() as u32;
            if d > exact {
                rounded_up += 1;
            }
        }
    }
    assert!(rounded_up > 0);
}
