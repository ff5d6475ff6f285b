use vstd::prelude::*;
use crate::civ::CivId;
use crate::keyed::no_duplicates;

verus! {

/// Whether some entry of `v` reads `s`.
pub open spec fn lists_text(v: Seq<String>, s: Seq<char>) -> bool {
    exists|i: int| 0 <= i < v.len() && (#[trigger] v[i])@ == s
}

/// No text occurs twice in `v`.
pub open spec fn distinct_texts(v: Seq<String>) -> bool {
    forall|i: int, j: int| 0 <= i < j < v.len() ==> (#[trigger] v[i])@ != (#[trigger] v[j])@
}

/// The list after recording `s`: unchanged when it already reads `s`, else `s` added last.
pub open spec fn recorded(v: Seq<String>, s: String) -> Seq<String> {
    if lists_text(v, s@) { v } else { v.push(s) }
}

fn has_text(v: &Vec<String>, s: &str) -> (b: bool)
    ensures
        b == lists_text(v@, s@),
{
    let owned = s.to_owned();
    let mut i: usize = 0;
    while i < v.len()
        invariant
            owned@ == s@,
            i <= v@.len(),
            forall|j: int| 0 <= j < i ==> (#[trigger] v@[j])@ != s@,
        decreases v@.len() - i,
    {
        if v[i] == owned {
            return true;
        }
        i = i + 1;
    }
    false
}

fn record_text(v: &mut Vec<String>, s: String)
    ensures
        final(v)@ == recorded(old(v)@, s),
        distinct_texts(old(v)@) ==> distinct_texts(final(v)@),
{
    if !has_text(v, s.as_str()) {
        let ghost before = v@;
        v.push(s);
        proof {
            if distinct_texts(before) {
                assert forall|i: int, j: int| 0 <= i < j < v@.len() implies (#[trigger] v@[i])@ != (#[trigger] v@[j])@ by {
                    if j == before.len() {
                        assert(v@[i] == before[i]);
                    } else {
                        assert(v@[i] == before[i] && v@[j] == before[j]);
                    }
                }
            }
        }
    }
}

/// What a civilization has lived through, for events that happen only the first time.
#[derive(Debug, Clone)]
pub struct EventHistory {
    pub units_created: Vec<String>,
    pub civs_met: Vec<CivId>,
    pub technologies_researched: Vec<String>,
    pub triggered_events: Vec<String>,
}

impl Default for EventHistory {
    fn default() -> (h: EventHistory)
        ensures
            h.units_created@.len() == 0,
            h.civs_met@.len() == 0,
            h.technologies_researched@.len() == 0,
            h.triggered_events@.len() == 0,
    {
        EventHistory {
            units_created: Vec::new(),
            civs_met: Vec::new(),
            technologies_researched: Vec::new(),
            triggered_events: Vec::new(),
        }
    }
}

impl EventHistory {
    /// No list holds an entry twice.
    pub open spec fn wf(&self) -> bool {
        &&& distinct_texts(self.units_created@)
        &&& no_duplicates(self.civs_met@)
        &&& distinct_texts(self.technologies_researched@)
        &&& distinct_texts(self.triggered_events@)
    }

    /// Whether a unit of type `unit_type` has been created.
    pub fn has_created_unit(&self, unit_type: &str) -> (b: bool)
        ensures
            b == lists_text(self.units_created@, unit_type@),
    {
        has_text(&self.units_created, unit_type)
    }

    /// Records that a unit of type `unit_type` has been created.
    pub fn record_unit_created(&mut self, unit_type: String)
        ensures
            final(self).units_created@ == recorded(old(self).units_created@, unit_type),
            final(self).civs_met@ == old(self).civs_met@,
            final(self).technologies_researched@ == old(self).technologies_researched@,
            final(self).triggered_events@ == old(self).triggered_events@,
            old(self).wf() ==> final(self).wf(),
    {
        record_text(&mut self.units_created, unit_type);
    }

    /// Whether civilization `civ_id` has been met.
    pub fn has_met_civ(&self, civ_id: CivId) -> (b: bool)
        ensures
            b == self.civs_met@.contains(civ_id),
    {
        let mut i: usize = 0;
        while i < self.civs_met.len()
            invariant
                i <= self.civs_met@.len(),
                forall|j: int| 0 <= j < i ==> self.civs_met@[j] != civ_id,
            decreases self.civs_met@.len() - i,
        {
            if self.civs_met[i] == civ_id {
                return true;
            }
            i = i + 1;
        }
        false
    }

    /// Records that civilization `civ_id` has been met.
    pub fn record_civ_met(&mut self, civ_id: CivId)
        ensures
            final(self).civs_met@ == (if old(self).civs_met@.contains(civ_id) {
                old(self).civs_met@
            } else {
                old(self).civs_met@.push(civ_id)
            }),
            final(self).units_created@ == old(self).units_created@,
            final(self).technologies_researched@ == old(self).technologies_researched@,
            final(self).triggered_events@ == old(self).triggered_events@,
            old(self).wf() ==> final(self).wf(),
    {
        if !self.has_met_civ(civ_id) {
            let ghost before = self.civs_met@;
            self.civs_met.push(civ_id);
            proof {
                if no_duplicates(before) {
                    assert forall|i: int, j: int| 0 <= i < j < self.civs_met@.len() implies
                        #[trigger] self.civs_met@[i] != #[trigger] self.civs_met@[j] by {
                        if j == before.len() {
                            assert(self.civs_met@[i] == before[i]);
                        } else {
                            assert(self.civs_met@[i] == before[i] && self.civs_met@[j] == before[j]);
                        }
                    }
                }
            }
        }
    }

    /// Whether technology `tech_name` has been researched.
    pub fn has_researched_tech(&self, tech_name: &str) -> (b: bool)
        ensures
            b == lists_text(self.technologies_researched@, tech_name@),
    {
        has_text(&self.technologies_researched, tech_name)
    }

    /// Records that technology `tech_name` has been researched.
    pub fn record_tech_researched(&mut self, tech_name: String)
        ensures
            final(self).technologies_researched@ == recorded(old(self).technologies_researched@, tech_name),
            final(self).units_created@ == old(self).units_created@,
            final(self).civs_met@ == old(self).civs_met@,
            final(self).triggered_events@ == old(self).triggered_events@,
            old(self).wf() ==> final(self).wf(),
    {
        record_text(&mut self.technologies_researched, tech_name);
    }

    /// Whether event `event_id` has been triggered.
    pub fn has_triggered_event(&self, event_id: &str) -> (b: bool)
        ensures
            b == lists_text(self.triggered_events@, event_id@),
    {
        has_text(&self.triggered_events, event_id)
    }

    /// Records that event `event_id` has been triggered.
    pub fn record_event_triggered(&mut self, event_id: String)
        ensures
            final(self).triggered_events@ == recorded(old(self).triggered_events@, event_id),
            final(self).units_created@ == old(self).units_created@,
            final(self).civs_met@ == old(self).civs_met@,
            final(self).technologies_researched@ == old(self).technologies_researched@,
            old(self).wf() ==> final(self).wf(),
    {
        record_text(&mut self.triggered_events, event_id);
    }
}

/// Once recorded, a text is listed, and recording it again changes nothing.
pub proof fn lemma_record_then_listed(v: Seq<String>, s: String)
    ensures
        lists_text(recorded(v, s), s@),
        recorded(recorded(v, s), s) == recorded(v, s),
        recorded(v, s).len() <= v.len() + 1,
{
    if !lists_text(v, s@) {
        let w = v.push(s);
        assert(w[v.len() as int]@ == s@);
    }
}

/// Recording a text keeps every text already listed.
pub proof fn lemma_record_keeps_listed(v: Seq<String>, s: String, t: Seq<char>)
    requires
        lists_text(v, t),
    ensures
        lists_text(recorded(v, s), t),
{
    if !lists_text(v, s@) {
        let i = choose|i: int| 0 <= i < v.len() && (#[trigger] v[i])@ == t;
        assert(v.push(s)[i] == v[i]);
    }
}

/// What decides whether an event triggers, as far as the event's definition tells it.
/// `Measured` carries the outcome of a check made elsewhere: a chance roll, or a
/// comparison of a resource with a threshold.
#[derive(Debug, Clone)]
pub enum TriggerCondition {
    Measured(bool),
    FirstUnitCreated(String),
    FirstCivContact,
    TechnologyResearched(String),
    CityFounded,
    SpecificTurn(u32),
}

/// Whether an event with trigger `condition` triggers on `turn` for a civilization with
/// `history`. Contacts and city counts are not tracked, so those triggers never fire.
pub open spec fn trigger_fires(condition: TriggerCondition, history: EventHistory, turn: u32) -> bool {
    match condition {
        TriggerCondition::Measured(b) => b,
        TriggerCondition::FirstUnitCreated(unit_type) => lists_text(history.units_created@, unit_type@),
        TriggerCondition::FirstCivContact => false,
        TriggerCondition::TechnologyResearched(tech_name) => lists_text(history.technologies_researched@, tech_name@),
        TriggerCondition::CityFounded => false,
        TriggerCondition::SpecificTurn(t) => turn == t,
    }
}

/// Whether an event with trigger `condition` triggers on `turn` for a civilization with
/// `history`.
pub fn should_trigger(condition: &TriggerCondition, history: &EventHistory, turn: u32) -> (b: bool)
    ensures
        b == trigger_fires(*condition, *history, turn),
{
    match condition {
        TriggerCondition::Measured(b) => *b,
        TriggerCondition::FirstUnitCreated(unit_type) => history.has_created_unit(unit_type.as_str()),
        TriggerCondition::FirstCivContact => false,
        TriggerCondition::TechnologyResearched(tech_name) => history.has_researched_tech(tech_name.as_str()),
        TriggerCondition::CityFounded => false,
        TriggerCondition::SpecificTurn(t) => turn == *t,
    }
}

/// Event triggers are checked once per turn: true, and `turn` remembered, when `turn`
/// differs from the last turn checked; false, with nothing changed, otherwise.
pub fn begin_event_check(last_turn_checked: &mut u32, turn: u32) -> (b: bool)
    ensures
        b == (*old(last_turn_checked) != turn),
        *final(last_turn_checked) == turn,
{
    if *last_turn_checked == turn {
        return false;
    }
    *last_turn_checked = turn;
    true
}

/// Effects of events that last a number of turns: production multipliers, and
/// modifiers of named traits. `M` is the type of the multipliers and modifiers.
#[derive(Debug, Clone)]
pub struct ActiveEventModifiers<M> {
    pub production_multipliers: Vec<(M, u32)>,
    pub trait_modifiers: Vec<(String, M, u32)>,
}

/// The production multipliers one turn later: each with one turn less, those that had a
/// single turn or none left gone, the rest in order.
pub open spec fn tick_multipliers<M>(s: Seq<(M, u32)>) -> Seq<(M, u32)>
    decreases s.len(),
{
    if s.len() == 0 {
        Seq::empty()
    } else {
        let rest = tick_multipliers(s.drop_last());
        if s.last().1 >= 2 { rest.push((s.last().0, (s.last().1 - 1) as u32)) } else { rest }
    }
}

/// The trait modifiers one turn later, as `tick_multipliers` has it.
pub open spec fn tick_traits<M>(s: Seq<(String, M, u32)>) -> Seq<(String, M, u32)>
    decreases s.len(),
{
    if s.len() == 0 {
        Seq::empty()
    } else {
        let rest = tick_traits(s.drop_last());
        if s.last().2 >= 2 { rest.push((s.last().0, s.last().1, (s.last().2 - 1) as u32)) } else { rest }
    }
}

impl<M> Default for ActiveEventModifiers<M> {
    fn default() -> (m: ActiveEventModifiers<M>)
        ensures
            m.production_multipliers@.len() == 0,
            m.trait_modifiers@.len() == 0,
    {
        ActiveEventModifiers { production_multipliers: Vec::new(), trait_modifiers: Vec::new() }
    }
}

impl<M> ActiveEventModifiers<M> {
    /// Adds a production multiplier for `duration` turns.
    pub fn add_production_multiplier(&mut self, multiplier: M, duration: u32)
        ensures
            final(self).production_multipliers@ == old(self).production_multipliers@.push((multiplier, duration)),
            final(self).trait_modifiers@ == old(self).trait_modifiers@,
    {
        self.production_multipliers.push((multiplier, duration));
    }

    /// Adds a modifier of trait `trait_name` for `duration` turns.
    pub fn add_trait_modifier(&mut self, trait_name: String, modifier: M, duration: u32)
        ensures
            final(self).trait_modifiers@ == old(self).trait_modifiers@.push((trait_name, modifier, duration)),
            final(self).production_multipliers@ == old(self).production_multipliers@,
    {
        self.trait_modifiers.push((trait_name, modifier, duration));
    }

    /// Moves every modifier one turn on: its turns left go down by one (not below zero)
    /// and it is dropped when none are left.
    pub fn update_turn(&mut self)
        ensures
            final(self).production_multipliers@ == tick_multipliers(old(self).production_multipliers@),
            final(self).trait_modifiers@ == tick_traits(old(self).trait_modifiers@),
    {
        let mut multipliers = Vec::new();
        std::mem::swap(&mut multipliers, &mut self.production_multipliers);
        let ghost all = multipliers@;
        let mut kept: Vec<(M, u32)> = Vec::new();
        let ghost mut n: int = 0;
        while multipliers.len() > 0
            invariant
                0 <= n <= all.len(),
                multipliers@ == all.skip(n),
                kept@ == tick_multipliers(all.take(n)),
            decreases multipliers@.len(),
        {
            let (m, turns) = multipliers.remove(0);
            proof {
                assert(all.take(n + 1).drop_last() =~= all.take(n));
                assert(all.take(n + 1).last() == all[n]);
            }
            let left = if turns > 0 { turns - 1 } else { 0 };
            if left > 0 {
                kept.push((m, left));
            }
            proof {
                n = n + 1;
                assert(multipliers@ =~= all.skip(n));
            }
        }
        proof {
            assert(all.take(n) =~= all);
        }
        self.production_multipliers = kept;

        let mut traits = Vec::new();
        std::mem::swap(&mut traits, &mut self.trait_modifiers);
        let ghost all_traits = traits@;
        let mut kept_traits: Vec<(String, M, u32)> = Vec::new();
        let ghost mut k: int = 0;
        while traits.len() > 0
            invariant
                0 <= k <= all_traits.len(),
                traits@ == all_traits.skip(k),
                kept_traits@ == tick_traits(all_traits.take(k)),
            decreases traits@.len(),
        {
            let (name, m, turns) = traits.remove(0);
            proof {
                assert(all_traits.take(k + 1).drop_last() =~= all_traits.take(k));
                assert(all_traits.take(k + 1).last() == all_traits[k]);
            }
            let left = if turns > 0 { turns - 1 } else { 0 };
            if left > 0 {
                kept_traits.push((name, m, left));
            }
            proof {
                k = k + 1;
                assert(traits@ =~= all_traits.skip(k));
            }
        }
        proof {
            assert(all_traits.take(k) =~= all_traits);
        }
        self.trait_modifiers = kept_traits;
    }
}

/// A turn never lengthens a modifier: every production multiplier left after it has
/// fewer turns left than some multiplier before it, and there are no more of them.
pub proof fn lemma_tick_shrinks<M>(s: Seq<(M, u32)>)
    ensures
        tick_multipliers(s).len() <= s.len(),
        forall|i: int| 0 <= i < tick_multipliers(s).len() ==> (#[trigger] tick_multipliers(s)[i]).1 >= 1,
    decreases s.len(),
{
    if s.len() > 0 {
        lemma_tick_shrinks(s.drop_last());
    }
}

/// A trigger fires as it reads: `FirstUnitCreated(u)` exactly when the history's created
/// units list `u`, `TechnologyResearched(t)` exactly when its researched technologies list
/// `t`, `SpecificTurn(n)` exactly on turn `n`, and a measured condition when its check
/// came out true.
pub proof fn lemma_triggers_read_the_history(condition: TriggerCondition, history: EventHistory, turn: u32)
    ensures
        condition matches TriggerCondition::FirstUnitCreated(u) ==> (trigger_fires(condition, history, turn)
            <==> exists|i: int| 0 <= i < history.units_created@.len() && #[trigger] history.units_created@[i]@ == u@),
        condition matches TriggerCondition::TechnologyResearched(t) ==> (trigger_fires(condition, history, turn)
            <==> exists|i: int| 0 <= i < history.technologies_researched@.len() && #[trigger] history.technologies_researched@[i]@ == t@),
        condition matches TriggerCondition::SpecificTurn(n) ==> (trigger_fires(condition, history, turn) <==> turn == n),
        condition matches TriggerCondition::Measured(b) ==> (trigger_fires(condition, history, turn) <==> b),
{
}

/// Once a unit type is recorded as created, its `FirstUnitCreated` trigger fires, on
/// any turn.
pub proof fn lemma_created_unit_fires(history: EventHistory, u: String, turn: u32)
    requires
        exists|i: int| 0 <= i < history.units_created@.len() && #[trigger] history.units_created@[i]@ == u@,
    ensures
        trigger_fires(TriggerCondition::FirstUnitCreated(u), history, turn),
{
}

} // verus!
