use core_sim::htn::{CivPlanningFacts, HTNPlanner, HTNTask, PrimitiveActionType, TaskCondition, HTNMethod, HTNSubtask};
use core_sim::planner::WorldState;

fn facts(gold: i64, strength: i64, cities: usize, techs: &[&str]) -> Option<CivPlanningFacts> {
    Some(CivPlanningFacts {
        gold,
        military_strength: strength,
        city_count: cities,
        known_technologies: techs.iter().map(|t| t.to_string()).collect(),
    })
}

#[test]
fn world_state_keeps_one_value_per_name() {
    let mut state = WorldState::new();
    assert_eq!(state.get_scaled("gold"), None);
    state.set_scaled("gold", 12_500);
    state.set_scaled("city_count", 300);
    state.set_scaled("gold", 700);
    assert_eq!(state.get_scaled("gold"), Some(700));
    assert_eq!(state.get_scaled("city_count"), Some(300));
    assert_eq!(state.entries().len(), 2);
}

#[test]
fn conquest_with_strength_and_gold_goes_to_war() {
    let planner = HTNPlanner::new();
    let plan = planner.decompose_task(HTNTask::ConquestCampaign, &facts(100, 50, 0, &[]), 3);
    assert_eq!(plan, vec![PrimitiveActionType::BuildArmy, PrimitiveActionType::ResearchTechnology, PrimitiveActionType::DeclareWar]);
}

#[test]
fn conquest_without_means_prepares_and_develops() {
    let planner = HTNPlanner::default();
    let plan = planner.decompose_task(HTNTask::ConquestCampaign, &facts(99, 50, 1, &[]), 3);
    assert_eq!(plan, vec![
        PrimitiveActionType::BuildArmy,
        PrimitiveActionType::BuildInfrastructure,
        PrimitiveActionType::BuildInfrastructure,
        PrimitiveActionType::EstablishTrade,
        PrimitiveActionType::ExpandTerritory,
    ]);
    let none = planner.decompose_task(HTNTask::ConquestCampaign, &facts(10, 10, 0, &[]), 3);
    assert!(none.is_empty());
}

#[test]
fn diplomacy_waits_for_turn_eleven() {
    let planner = HTNPlanner::new();
    assert!(planner.decompose_task(HTNTask::DiplomaticCampaign, &facts(0, 0, 0, &[]), 10).is_empty());
    assert_eq!(
        planner.decompose_task(HTNTask::DiplomaticCampaign, &facts(0, 0, 0, &[]), 11),
        vec![PrimitiveActionType::EstablishTrade, PrimitiveActionType::FormAlliance]
    );
}

#[test]
fn defensive_preparation_never_applies_and_unknown_civ_gets_nothing() {
    let planner = HTNPlanner::new();
    assert!(planner.decompose_task(HTNTask::DefensivePreparation, &facts(1000, 1000, 5, &[]), 50).is_empty());
    for task in [HTNTask::ConquestCampaign, HTNTask::DiplomaticCampaign, HTNTask::EconomicDevelopment,
                 HTNTask::TechnologicalAdvancement, HTNTask::DefensivePreparation] {
        assert!(planner.decompose_task(task, &None, 100).is_empty());
    }
    assert_eq!(
        planner.decompose_task(HTNTask::TechnologicalAdvancement, &facts(50, 0, 0, &[]), 1),
        vec![PrimitiveActionType::ResearchTechnology, PrimitiveActionType::BuildInfrastructure]
    );
}

#[test]
fn conditions_are_evaluated_on_the_facts() {
    let planner = HTNPlanner::new();
    let civ = facts(20, 5, 2, &["Writing"]).unwrap();
    assert!(planner.evaluate_condition(&TaskCondition::HasTechnology("Writing".to_string()), &civ, 1));
    assert!(!planner.evaluate_condition(&TaskCondition::HasTechnology("Currency".to_string()), &civ, 1));
    assert!(planner.evaluate_condition(&TaskCondition::HasCities(2), &civ, 1));
    assert!(!planner.evaluate_condition(&TaskCondition::HasCities(3), &civ, 1));
    assert!(!planner.evaluate_condition(&TaskCondition::HasAllies, &civ, 1));
    assert!(planner.evaluate_condition(&TaskCondition::TurnGreaterThan(4), &civ, 5));
    let method = HTNMethod {
        name: "m".to_string(),
        preconditions: vec![TaskCondition::HasGold(20), TaskCondition::HasMilitaryStrength(6)],
        subtasks: vec![HTNSubtask::PrimitiveAction(PrimitiveActionType::BuildArmy)],
    };
    assert!(!planner.method_applicable(&method, &Some(civ.clone()), 1));
    assert!(!planner.method_applicable(&method, &None, 1));
}
