use vstd::prelude::*;
use crate::civ::{CivId, PLAYER_CIVILIZATION_ID};

verus! {

/// Whose turn it is within a game turn.
#[derive(Debug, Clone, Copy, PartialEq, Eq, Structural)]
pub enum TurnPhase {
    /// `current_civ` is taking its turn.
    CivilizationTurn { current_civ: CivId },
    /// The next civilization (an AI) waits for the player to press "Next Turn".
    WaitingForNextTurn { next_civ: CivId },
    /// Every civilization has moved; the game turn is being wrapped up.
    TurnTransition,
}

impl Default for TurnPhase {
    fn default() -> (p: TurnPhase)
        ensures
            p == (TurnPhase::CivilizationTurn { current_civ: CivId(PLAYER_CIVILIZATION_ID) }),
    {
        TurnPhase::CivilizationTurn { current_civ: CivId(PLAYER_CIVILIZATION_ID) }
    }
}

/// The order in which civilizations move, and whose turn it is.
#[derive(Debug, Clone)]
pub struct TurnOrder {
    pub civilizations: Vec<CivId>,
    pub current_index: usize,
}

/// The civilization at `i` of `civs`, if any.
pub open spec fn civ_at(civs: Seq<CivId>, i: int) -> Option<CivId> {
    if 0 <= i < civs.len() { Some(civs[i]) } else { None }
}

/// The index after one `advance` over `n` civilizations, and whether a round completed.
pub open spec fn advance_spec(i: int, n: int) -> (int, bool) {
    if n == 0 {
        (i, false)
    } else if i + 1 >= n {
        (0, true)
    } else {
        (i + 1, false)
    }
}

/// Whether `civ` is the player's civilization.
pub open spec fn is_player(civ: CivId) -> bool {
    civ.0 == PLAYER_CIVILIZATION_ID
}

impl TurnOrder {
    pub fn new(civilizations: Vec<CivId>) -> (t: TurnOrder)
        ensures
            t.civilizations@ == civilizations@,
            t.current_index == 0,
    {
        TurnOrder { civilizations, current_index: 0 }
    }

    /// The civilization whose turn it is, if the index is in range.
    pub fn current_civ(&self) -> (r: Option<CivId>)
        ensures
            r == civ_at(self.civilizations@, self.current_index as int),
    {
        if self.current_index < self.civilizations.len() {
            Some(self.civilizations[self.current_index])
        } else {
            None
        }
    }

    /// Moves to the next civilization, wrapping to the first; returns whether the
    /// round just completed. With no civilizations nothing changes.
    pub fn advance(&mut self) -> (completed: bool)
        requires
            old(self).current_index < usize::MAX,
        ensures
            final(self).civilizations@ == old(self).civilizations@,
            (final(self).current_index as int, completed)
                == advance_spec(old(self).current_index as int, old(self).civilizations@.len() as int),
    {
        if self.civilizations.len() == 0 {
            return false;
        }
        self.current_index = self.current_index + 1;
        if self.current_index >= self.civilizations.len() {
            self.current_index = 0;
            true
        } else {
            false
        }
    }

    /// The civilization that moves after the current one (wrapping), if there are any.
    pub fn peek_next(&self) -> (r: Option<CivId>)
        requires
            self.current_index < usize::MAX,
        ensures
            r == (if self.civilizations@.len() == 0 {
                None
            } else {
                civ_at(self.civilizations@, (self.current_index + 1) % (self.civilizations@.len() as int))
            }),
    {
        if self.civilizations.len() == 0 {
            return None;
        }
        let next_index = (self.current_index + 1) % self.civilizations.len();
        Some(self.civilizations[next_index])
    }

    /// Whether `civ_id` is the player's civilization.
    pub fn is_player_civ(&self, civ_id: CivId) -> (b: bool)
        ensures
            b == is_player(civ_id),
    {
        civ_id.0 == PLAYER_CIVILIZATION_ID
    }
}

impl Default for TurnOrder {
    fn default() -> (t: TurnOrder)
        ensures
            t.civilizations@ == seq![CivId(PLAYER_CIVILIZATION_ID)],
            t.current_index == 0,
    {
        let mut civilizations: Vec<CivId> = Vec::new();
        civilizations.push(CivId(PLAYER_CIVILIZATION_ID));
        TurnOrder { civilizations, current_index: 0 }
    }
}

/// For an index within the order, `advance` keeps it within the order, completes the
/// round exactly when it leaves the last civilization, and moves to the civilization
/// that `peek_next` announced.
pub proof fn lemma_advance_cycles(i: int, n: int)
    requires
        0 <= i < n,
    ensures
        0 <= advance_spec(i, n).0 < n,
        advance_spec(i, n).1 == (i == n - 1),
        advance_spec(i, n).0 == (i + 1) % n,
{
    if i + 1 < n {
        assert((i + 1) % n == i + 1) by (nonlinear_arith) requires 0 <= i + 1 < n;
    } else {
        assert((i + 1) % n == 0) by (nonlinear_arith) requires i + 1 == n, n > 0;
    }
}

/// The index after `k` advances from index `i` over `n` civilizations.
pub open spec fn advance_times(i: int, n: int, k: nat) -> int
    decreases k,
{
    if k == 0 { i } else { advance_spec(advance_times(i, n, (k - 1) as nat), n).0 }
}

/// Over a non-empty order, `k` advances from the first civilization land on
/// civilization `k mod n`: every civilization takes one turn per round, in order.
pub proof fn lemma_rounds_visit_in_order(n: int, k: nat)
    requires
        n > 0,
    ensures
        advance_times(0, n, k) == (k as int) % n,
    decreases k,
{
    if k == 0 {
        assert(0int % n == 0) by (nonlinear_arith) requires n > 0;
    } else {
        lemma_rounds_visit_in_order(n, (k - 1) as nat);
        let prev = ((k - 1) as int) % n;
        assert(0 <= prev < n) by (nonlinear_arith) requires n > 0, prev == ((k - 1) as int) % n;
        lemma_advance_cycles(prev, n);
        assert((prev + 1) % n == (k as int) % n) by (nonlinear_arith)
            requires prev == ((k - 1) as int) % n, n > 0;
    }
}

/// The phase after a civilization ends its turn: the order advances; a completed round
/// leads to the turn transition; otherwise the next civilization plays at once if it is
/// the player, or waits for "Next Turn" if it is an AI.
pub open spec fn phase_after_turn_end(phase: TurnPhase, civs: Seq<CivId>, i: int) -> TurnPhase {
    let (next_index, completed) = advance_spec(i, civs.len() as int);
    if completed {
        TurnPhase::TurnTransition
    } else {
        match civ_at(civs, next_index) {
            Some(next) => if is_player(next) {
                TurnPhase::CivilizationTurn { current_civ: next }
            } else {
                TurnPhase::WaitingForNextTurn { next_civ: next }
            },
            None => phase,
        }
    }
}

/// Ends the current civilization's turn (see `phase_after_turn_end`).
fn end_current_turn(turn_phase: &mut TurnPhase, turn_order: &mut TurnOrder)
    requires
        old(turn_order).current_index < usize::MAX,
    ensures
        final(turn_order).civilizations@ == old(turn_order).civilizations@,
        final(turn_order).current_index as int
            == advance_spec(old(turn_order).current_index as int, old(turn_order).civilizations@.len() as int).0,
        *final(turn_phase) == phase_after_turn_end(*old(turn_phase), old(turn_order).civilizations@, old(turn_order).current_index as int),
{
    let completed_round = turn_order.advance();
    if completed_round {
        *turn_phase = TurnPhase::TurnTransition;
    } else {
        if let Some(next_civ) = turn_order.current_civ() {
            if turn_order.is_player_civ(next_civ) {
                *turn_phase = TurnPhase::CivilizationTurn { current_civ: next_civ };
            } else {
                *turn_phase = TurnPhase::WaitingForNextTurn { next_civ };
            }
        }
    }
}

/// Handles one "Next Turn" request. During a civilization's turn, that turn ends (see
/// `phase_after_turn_end`). While an AI waits, its turn starts, and the civilization
/// whose AI must now play is returned (the player's own turn starts without one).
/// During the turn transition the request is ignored.
pub fn handle_turn_advance_request(turn_phase: &mut TurnPhase, turn_order: &mut TurnOrder) -> (ai_turn: Option<CivId>)
    requires
        old(turn_order).current_index < usize::MAX,
    ensures
        final(turn_order).civilizations@ == old(turn_order).civilizations@,
        match *old(turn_phase) {
            TurnPhase::CivilizationTurn { .. } => {
                &&& final(turn_order).current_index as int == advance_spec(
                    old(turn_order).current_index as int, old(turn_order).civilizations@.len() as int).0
                &&& *final(turn_phase) == phase_after_turn_end(*old(turn_phase), old(turn_order).civilizations@,
                    old(turn_order).current_index as int)
                &&& ai_turn.is_none()
            },
            TurnPhase::WaitingForNextTurn { next_civ } => {
                &&& final(turn_order).current_index == old(turn_order).current_index
                &&& *final(turn_phase) == (TurnPhase::CivilizationTurn { current_civ: next_civ })
                &&& ai_turn == (if is_player(next_civ) { None } else { Some(next_civ) })
            },
            TurnPhase::TurnTransition => {
                &&& final(turn_order).current_index == old(turn_order).current_index
                &&& *final(turn_phase) == TurnPhase::TurnTransition
                &&& ai_turn.is_none()
            },
        },
{
    match *turn_phase {
        TurnPhase::CivilizationTurn { .. } => {
            end_current_turn(turn_phase, turn_order);
            None
        },
        TurnPhase::WaitingForNextTurn { next_civ } => {
            *turn_phase = TurnPhase::CivilizationTurn { current_civ: next_civ };
            if turn_order.is_player_civ(next_civ) {
                None
            } else {
                Some(next_civ)
            }
        },
        TurnPhase::TurnTransition => None,
    }
}

/// Handles an AI's report that its turn is over: the order advances as in
/// `phase_after_turn_end`.
pub fn handle_ai_turn_completion(turn_phase: &mut TurnPhase, turn_order: &mut TurnOrder)
    requires
        old(turn_order).current_index < usize::MAX,
    ensures
        final(turn_order).civilizations@ == old(turn_order).civilizations@,
        final(turn_order).current_index as int
            == advance_spec(old(turn_order).current_index as int, old(turn_order).civilizations@.len() as int).0,
        *final(turn_phase) == phase_after_turn_end(*old(turn_phase), old(turn_order).civilizations@, old(turn_order).current_index as int),
{
    end_current_turn(turn_phase, turn_order);
}

/// The game turn that follows `current_turn`.
pub fn calculate_next_turn_number(current_turn: u32) -> (n: u32)
    requires
        current_turn < u32::MAX,
    ensures
        n == current_turn + 1,
{
    current_turn + 1
}

/// What the turn transition asks the caller to do.
#[derive(Debug, Clone, Copy, PartialEq, Eq, Structural)]
pub struct TurnTransitionOutcome {
    /// The transition ran (the phase was `TurnTransition`).
    pub ran: bool,
    /// The player's turn starts, so the caller announces it.
    pub start_player_turn: bool,
}

/// Finishes a turn transition: when the phase is `TurnTransition`, the game turn number
/// goes up by one, the order returns to its first civilization, and that civilization's
/// turn begins (the player's turn is announced). In any other phase nothing changes.
/// City production and unit movement resets are the caller's part of the transition.
pub fn handle_turn_transition_complete(turn_phase: &mut TurnPhase, current_turn: &mut u32, turn_order: &mut TurnOrder) -> (out: TurnTransitionOutcome)
    requires
        *old(current_turn) < u32::MAX,
    ensures
        final(turn_order).civilizations@ == old(turn_order).civilizations@,
        out.ran == (*old(turn_phase) == TurnPhase::TurnTransition),
        !out.ran ==> *final(turn_phase) == *old(turn_phase) && *final(current_turn) == *old(current_turn)
            && final(turn_order).current_index == old(turn_order).current_index && !out.start_player_turn,
        out.ran ==> {
            &&& *final(current_turn) == *old(current_turn) + 1
            &&& final(turn_order).current_index == 0
            &&& *final(turn_phase) == match civ_at(old(turn_order).civilizations@, 0) {
                Some(first) => TurnPhase::CivilizationTurn { current_civ: first },
                None => TurnPhase::TurnTransition,
            }
            &&& out.start_player_turn == match civ_at(old(turn_order).civilizations@, 0) {
                Some(first) => is_player(first),
                None => false,
            }
        },
{
    if *turn_phase != TurnPhase::TurnTransition {
        return TurnTransitionOutcome { ran: false, start_player_turn: false };
    }
    *current_turn = calculate_next_turn_number(*current_turn);
    turn_order.current_index = 0;
    let mut start_player_turn = false;
    if let Some(first_civ) = turn_order.current_civ() {
        *turn_phase = TurnPhase::CivilizationTurn { current_civ: first_civ };
        if turn_order.is_player_civ(first_civ) {
            start_player_turn = true;
        }
    }
    TurnTransitionOutcome { ran: true, start_player_turn }
}

/// Whether the units of `owner` belong to the player.
pub fn is_player_controlled_civilization(owner: &CivId) -> (b: bool)
    ensures
        b == is_player(*owner),
{
    owner.0 == PLAYER_CIVILIZATION_ID
}

/// A game without player civilizations advances by itself, unless it was set up as a
/// manually stepped AI-only game.
pub fn should_auto_advance_turn_for_ai_only_game(no_player_civs: bool, ai_only: bool) -> (b: bool)
    ensures
        b == (no_player_civs && !ai_only),
{
    no_player_civs && !ai_only
}

/// When the civilization at index `i` of the order ends its turn: if it was the last
/// one, the round completes and the turn transition begins; otherwise the next
/// civilization, `civs[i + 1]`, plays at once when it is the player's, and an AI waits
/// for the next "Next Turn" request (its turn is never started directly).
pub proof fn lemma_turn_end_hands_over(phase: TurnPhase, civs: Seq<CivId>, i: int)
    requires
        0 <= i < civs.len(),
    ensures
        i + 1 == civs.len() ==> phase_after_turn_end(phase, civs, i) == TurnPhase::TurnTransition,
        i + 1 < civs.len() && civs[i + 1].0 == PLAYER_CIVILIZATION_ID
            ==> phase_after_turn_end(phase, civs, i) == (TurnPhase::CivilizationTurn { current_civ: civs[i + 1] }),
        i + 1 < civs.len() && civs[i + 1].0 != PLAYER_CIVILIZATION_ID
            ==> phase_after_turn_end(phase, civs, i) == (TurnPhase::WaitingForNextTurn { next_civ: civs[i + 1] }),
        i + 1 < civs.len() && civs[i + 1].0 != PLAYER_CIVILIZATION_ID
            ==> !(phase_after_turn_end(phase, civs, i) is CivilizationTurn),
{
}

} // verus!
