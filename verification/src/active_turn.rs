use vstd::prelude::*;
use crate::civ::CivId;

verus! {

/// The stage of the active civilization's turn in the step-by-step turn loop.
#[derive(Debug, Clone, Copy, PartialEq, Eq, Structural)]
pub enum TurnPhase {
    /// The AI is choosing what to do.
    Planning,
    /// The chosen actions are carried out.
    Execution,
    /// The civilization is done; the next one follows.
    Complete,
}

/// Tracks which civilization is active in the step-by-step turn loop.
#[derive(Debug, Clone)]
pub struct ActiveCivTurn {
    pub current_civ_index: usize,
    pub civs_per_turn: Vec<CivId>,
    pub turn_phase: TurnPhase,
}

impl Default for ActiveCivTurn {
    fn default() -> (a: ActiveCivTurn)
        ensures
            a.current_civ_index == 0,
            a.civs_per_turn@ == Seq::<CivId>::empty(),
            a.turn_phase == TurnPhase::Planning,
    {
        ActiveCivTurn { current_civ_index: 0, civs_per_turn: Vec::new(), turn_phase: TurnPhase::Planning }
    }
}

/// What one step of the turn loop asks the caller to do.
#[derive(Debug, Clone, Copy, PartialEq, Eq, Structural)]
pub enum TurnStep {
    /// No turn advance was requested, or there are no civilizations.
    Idle,
    /// Mark this civilization (and only it) as active.
    ActivateCiv(CivId),
    /// Move the units of this civilization.
    MoveUnitsOf(CivId),
    /// This civilization's turn ended; `new_game_turn` tells whether the game turn advanced.
    CivFinished { civ: CivId, new_game_turn: bool },
}

/// The civilizations the loop cycles through: those recorded, or, when none are yet,
/// the civilizations of the game.
pub open spec fn roster(active: ActiveCivTurn, all_civs: Seq<CivId>) -> Seq<CivId> {
    if active.civs_per_turn@.len() == 0 { all_civs } else { active.civs_per_turn@ }
}

/// One step of the turn loop, run when a turn advance is requested. The roster is
/// filled from `all_civs` when empty. Planning activates the current civilization and
/// moves to execution; execution moves its units and completes; completion passes to
/// the next civilization (after the last, back to the first and to the next game
/// turn) and returns to planning. The request is then cleared.
pub fn turn_based_step(active: &mut ActiveCivTurn, current_turn: &mut u32, turn_advance: &mut bool, all_civs: &Vec<CivId>) -> (step: TurnStep)
    requires
        *old(turn_advance) && roster(*old(active), all_civs@).len() > 0 ==> old(active).current_civ_index < roster(*old(active), all_civs@).len(),
        *old(turn_advance) && roster(*old(active), all_civs@).len() > 0 && old(active).turn_phase == TurnPhase::Complete
            && old(active).current_civ_index + 1 >= roster(*old(active), all_civs@).len() ==> *old(current_turn) < u32::MAX,
    ensures
        !*old(turn_advance) ==> step == TurnStep::Idle && *final(active) == *old(active)
            && *final(current_turn) == *old(current_turn) && !*final(turn_advance),
        *old(turn_advance) && roster(*old(active), all_civs@).len() == 0 ==> step == TurnStep::Idle
            && final(active).civs_per_turn@ == roster(*old(active), all_civs@)
            && final(active).current_civ_index == old(active).current_civ_index
            && final(active).turn_phase == old(active).turn_phase
            && *final(current_turn) == *old(current_turn) && *final(turn_advance),
        *old(turn_advance) && roster(*old(active), all_civs@).len() > 0 ==> {
            let civs = roster(*old(active), all_civs@);
            let i = old(active).current_civ_index as int;
            let civ = civs[i];
            &&& final(active).civs_per_turn@ == civs
            &&& !*final(turn_advance)
            &&& match old(active).turn_phase {
                TurnPhase::Planning => step == TurnStep::ActivateCiv(civ)
                    && final(active).turn_phase == TurnPhase::Execution
                    && final(active).current_civ_index == i && *final(current_turn) == *old(current_turn),
                TurnPhase::Execution => step == TurnStep::MoveUnitsOf(civ)
                    && final(active).turn_phase == TurnPhase::Complete
                    && final(active).current_civ_index == i && *final(current_turn) == *old(current_turn),
                TurnPhase::Complete => {
                    let wrapped = i + 1 >= civs.len();
                    &&& step == (TurnStep::CivFinished { civ, new_game_turn: wrapped })
                    &&& final(active).turn_phase == TurnPhase::Planning
                    &&& final(active).current_civ_index == (if wrapped { 0 } else { i + 1 })
                    &&& *final(current_turn) == (if wrapped { *old(current_turn) + 1 } else { *old(current_turn) as int })
                },
            }
        },
{
    if !*turn_advance {
        return TurnStep::Idle;
    }
    if active.civs_per_turn.len() == 0 {
        active.civs_per_turn = all_civs.clone();
    }
    if active.civs_per_turn.len() == 0 {
        return TurnStep::Idle;
    }
    let civ = active.civs_per_turn[active.current_civ_index];
    let step = match active.turn_phase {
        TurnPhase::Planning => {
            active.turn_phase = TurnPhase::Execution;
            TurnStep::ActivateCiv(civ)
        },
        TurnPhase::Execution => {
            active.turn_phase = TurnPhase::Complete;
            TurnStep::MoveUnitsOf(civ)
        },
        TurnPhase::Complete => {
            active.current_civ_index = active.current_civ_index + 1;
            let mut new_game_turn = false;
            if active.current_civ_index >= active.civs_per_turn.len() {
                active.current_civ_index = 0;
                *current_turn = *current_turn + 1;
                new_game_turn = true;
            }
            active.turn_phase = TurnPhase::Planning;
            TurnStep::CivFinished { civ, new_game_turn }
        },
    };
    *turn_advance = false;
    step
}

/// The legacy turn counter step: the game turn goes up by one.
pub fn advance_turn(current_turn: &mut u32)
    requires
        *old(current_turn) < u32::MAX,
    ensures
        *final(current_turn) == *old(current_turn) + 1,
{
    *current_turn = *current_turn + 1;
}

} // verus!
