use vstd::prelude::*;
use crate::civ::{CivId, EntityId};
use crate::city::{BuildingType, Building, City, building_type_name};
use crate::position::Position;
use crate::turns::is_player;
use crate::movement::{UnitType, unit_type_name};

verus! {

/// Something a city can produce.
#[derive(Debug, Clone, Copy, PartialEq, Eq, Structural)]
pub enum ProductionItem {
    Unit(UnitType),
    Building(BuildingType),
}

impl ProductionItem {
    /// The display name of what is produced.
    pub fn name(&self) -> (s: &'static str)
        ensures
            s@ == match *self {
                ProductionItem::Unit(u) => unit_type_name(u),
                ProductionItem::Building(b) => building_type_name(b),
            },
    {
        match self {
            ProductionItem::Unit(unit_type) => unit_type.name(),
            ProductionItem::Building(building_type) => building_type.name(),
        }
    }
}

/// A city's production: the item being produced, if any, and the items waiting after
/// it, each an entity that holds the item.
#[derive(Debug, Clone)]
pub struct ProductionQueue {
    pub owner: CivId,
    pub queue: Vec<EntityId>,
    pub current_production: Option<EntityId>,
}

/// How the production of the current item went this turn, as far as the progress
/// towards its cost decides: finished, not yet, or its item is gone.
#[derive(Debug, Clone, Copy, PartialEq, Eq, Structural)]
pub enum ProductionProgress {
    Completed,
    Continuing,
    ItemMissing,
}

impl ProductionQueue {
    /// The production line: the current item first, if any, then the waiting ones.
    pub open spec fn line(&self) -> Seq<EntityId> {
        match self.current_production {
            Some(e) => seq![e] + self.queue@,
            None => self.queue@,
        }
    }

    /// An empty production queue of `owner`.
    pub fn new(owner: CivId) -> (q: ProductionQueue)
        ensures
            q.owner == owner,
            q.current_production.is_none(),
            q.queue@ == Seq::<EntityId>::empty(),
    {
        ProductionQueue { owner, queue: Vec::new(), current_production: None }
    }

    /// Adds an item at the end of the queue.
    pub fn add_to_queue(&mut self, item_entity: EntityId)
        ensures
            final(self).owner == old(self).owner,
            final(self).current_production == old(self).current_production,
            final(self).queue@ == old(self).queue@.push(item_entity),
            final(self).line() == old(self).line().push(item_entity),
    {
        self.queue.push(item_entity);
        proof {
            assert(self.line() =~= old(self).line().push(item_entity));
        }
    }

    /// When nothing is being produced, starts on the first waiting item and returns it
    /// (its progress starts from nothing); otherwise, or with nothing waiting, `None`.
    /// The production line stays the same either way.
    pub fn start_next_production(&mut self) -> (r: Option<EntityId>)
        ensures
            final(self).owner == old(self).owner,
            final(self).line() == old(self).line(),
            r == (if old(self).current_production.is_none() && old(self).queue@.len() > 0 {
                Some(old(self).queue@[0])
            } else {
                None::<EntityId>
            }),
            r.is_some() ==> final(self).current_production == r && final(self).queue@ == old(self).queue@.drop_first(),
            r.is_none() ==> final(self).current_production == old(self).current_production && final(self).queue@ == old(self).queue@,
    {
        if self.current_production.is_none() && self.queue.len() > 0 {
            let first = self.queue.remove(0);
            self.current_production = Some(first);
            proof {
                assert(self.queue@ =~= old(self).queue@.drop_first());
                assert(self.line() =~= old(self).line());
            }
            Some(first)
        } else {
            None
        }
    }

    /// One turn of production, once the progress of the current item is known: a
    /// completed item is handed back and the next one started; a missing item is dropped
    /// and the next one started; with nothing being produced, the next one is started.
    pub fn advance_production(&mut self, progress: ProductionProgress) -> (completed: Option<EntityId>)
        ensures
            final(self).owner == old(self).owner,
            old(self).current_production.is_some() && progress == ProductionProgress::Completed ==>
                completed == old(self).current_production && final(self).line() == old(self).line().drop_first(),
            old(self).current_production.is_some() && progress == ProductionProgress::ItemMissing ==>
                completed.is_none() && final(self).line() == old(self).line().drop_first(),
            old(self).current_production.is_some() && progress == ProductionProgress::Continuing ==>
                completed.is_none() && *final(self) == *old(self),
            old(self).current_production.is_none() ==> completed.is_none() && final(self).line() == old(self).line(),
            final(self).current_production.is_none() ==> final(self).queue@.len() == 0
                || (old(self).current_production.is_some() && progress == ProductionProgress::Continuing),
    {
        if self.current_production.is_some() {
            match progress {
                ProductionProgress::Completed => {
                    let done = self.current_production;
                    self.current_production = None;
                    proof { assert(self.line() =~= old(self).line().drop_first()); }
                    self.start_next_production();
                    done
                },
                ProductionProgress::Continuing => None,
                ProductionProgress::ItemMissing => {
                    self.current_production = None;
                    proof { assert(self.line() =~= old(self).line().drop_first()); }
                    self.start_next_production();
                    None
                },
            }
        } else {
            self.start_next_production();
            None
        }
    }

    /// Stops producing the current item and returns it, then starts on the next one.
    pub fn cancel_current_production(&mut self) -> (cancelled: Option<EntityId>)
        ensures
            final(self).owner == old(self).owner,
            cancelled == old(self).current_production,
            cancelled.is_some() ==> final(self).line() == old(self).line().drop_first(),
            cancelled.is_none() ==> final(self).line() == old(self).line(),
            final(self).current_production.is_none() ==> final(self).queue@.len() == 0,
    {
        let cancelled = self.current_production;
        self.current_production = None;
        proof {
            if cancelled.is_some() {
                assert(self.line() =~= old(self).line().drop_first());
            }
        }
        self.start_next_production();
        cancelled
    }

    /// Whether an item is being produced.
    pub fn is_producing(&self) -> (b: bool)
        ensures
            b == self.current_production.is_some(),
    {
        self.current_production.is_some()
    }

    /// The number of items in the production line.
    pub fn queue_length(&self) -> (n: usize)
        requires
            self.queue@.len() < usize::MAX,
        ensures
            n == self.line().len(),
    {
        let current_count: usize = if self.current_production.is_some() { 1 } else { 0 };
        current_count + self.queue.len()
    }

    /// Takes the waiting item at `position` out of the queue and returns it; `None`, with
    /// nothing changed, when there is none there.
    pub fn remove_from_queue(&mut self, position: usize) -> (r: Option<EntityId>)
        ensures
            final(self).owner == old(self).owner,
            final(self).current_production == old(self).current_production,
            position < old(self).queue@.len() ==> r == Some(old(self).queue@[position as int])
                && final(self).queue@ == old(self).queue@.remove(position as int),
            position >= old(self).queue@.len() ==> r.is_none() && final(self).queue@ == old(self).queue@,
    {
        if position < self.queue.len() {
            Some(self.queue.remove(position))
        } else {
            None
        }
    }

    /// Empties the production line and returns it: the current item first, then the
    /// waiting ones in order.
    pub fn clear(&mut self) -> (all_items: Vec<EntityId>)
        ensures
            final(self).owner == old(self).owner,
            all_items@ == old(self).line(),
            final(self).current_production.is_none(),
            final(self).queue@.len() == 0,
    {
        let mut all_items: Vec<EntityId> = Vec::new();
        match self.current_production {
            Some(current) => all_items.push(current),
            None => {},
        }
        let ghost first = all_items@;
        let mut i: usize = 0;
        while i < self.queue.len()
            invariant
                *self == *old(self),
                i <= self.queue@.len(),
                all_items@ == first + self.queue@.take(i as int),
            decreases self.queue@.len() - i,
        {
            all_items.push(self.queue[i]);
            i = i + 1;
            proof { assert(all_items@ =~= first + self.queue@.take(i as int)); }
        }
        proof {
            assert(self.queue@.take(i as int) =~= self.queue@);
            assert(all_items@ =~= old(self).line());
        }
        self.queue.clear();
        self.current_production = None;
        all_items
    }
}

/// Items are produced in the order they were queued: adding items and then finishing the
/// current one hands out the front of the line, and the added items wait behind the rest.
pub proof fn lemma_production_is_first_in_first_out(line: Seq<EntityId>, added: Seq<EntityId>)
    requires
        line.len() > 0,
    ensures
        (line + added)[0] == line[0],
        (line + added).drop_first() == line.drop_first() + added,
{
    assert((line + added).drop_first() =~= line.drop_first() + added);
}

/// Something the player still has to do this turn.
#[derive(Debug, Clone, Copy, PartialEq, Eq, Structural)]
pub enum PlayerActionType {
    MoveUnit(EntityId),
    QueueProduction(EntityId),
    EndTurn,
}

/// A task of the player's turn and whether it is done.
#[derive(Debug, Clone, Copy, PartialEq, Eq, Structural)]
pub struct PlayerAction {
    pub action_type: PlayerActionType,
    pub completed: bool,
}

/// Whether the player has done what a turn asks before it may end.
#[derive(Debug, Clone, Copy, PartialEq, Eq, Structural)]
pub struct PlayerActionsComplete {
    pub all_units_moved: bool,
    pub all_productions_queued: bool,
    pub production_decisions_made_this_turn: bool,
    pub can_end_turn: bool,
}

impl Default for PlayerActionsComplete {
    fn default() -> (p: PlayerActionsComplete)
        ensures
            p == (PlayerActionsComplete { all_units_moved: false, all_productions_queued: false,
                production_decisions_made_this_turn: false, can_end_turn: false }),
    {
        PlayerActionsComplete { all_units_moved: false, all_productions_queued: false,
            production_decisions_made_this_turn: false, can_end_turn: false }
    }
}

impl PlayerActionsComplete {
    /// Starts a new turn: nothing is done yet.
    pub fn reset(&mut self)
        ensures
            *final(self) == (PlayerActionsComplete { all_units_moved: false, all_productions_queued: false,
                production_decisions_made_this_turn: false, can_end_turn: false }),
    {
        self.all_units_moved = false;
        self.all_productions_queued = false;
        self.production_decisions_made_this_turn = false;
        self.can_end_turn = false;
    }

    /// The turn may end once every unit has moved and every production is queued.
    pub fn update_can_end_turn(&mut self)
        ensures
            *final(self) == (PlayerActionsComplete {
                can_end_turn: old(self).all_units_moved && old(self).all_productions_queued,
                ..*old(self)
            }),
    {
        self.can_end_turn = self.all_units_moved && self.all_productions_queued;
    }
}

/// A military unit to be placed on the map: its id, owner, type and tile, and whether
/// the player controls it.
#[derive(Debug, Clone, Copy, PartialEq, Eq, Structural)]
pub struct UnitSpawn {
    pub id: u32,
    pub owner: CivId,
    pub unit_type: UnitType,
    pub position: Position,
    pub player_controlled: bool,
}

/// A new unit of `unit_type` for `owner` at `position`, numbered with the counter,
/// which moves on by one; units of the player's civilization are player-controlled.
pub fn spawn_military_unit_at_position(unit_type: UnitType, owner: CivId, position: Position, unit_id_counter: &mut u32) -> (u: UnitSpawn)
    requires
        *old(unit_id_counter) < u32::MAX,
    ensures
        u == (UnitSpawn { id: *old(unit_id_counter), owner, unit_type, position, player_controlled: is_player(owner) }),
        *final(unit_id_counter) == *old(unit_id_counter) + 1,
{
    let id = *unit_id_counter;
    *unit_id_counter = *unit_id_counter + 1;
    let player_controlled = crate::turns::is_player_controlled_civilization(&owner);
    UnitSpawn { id, owner, unit_type, position, player_controlled }
}

/// Delivers a finished production item of the city of `owner` at `position`: a unit is
/// spawned there (and returned), a building is added to the city.
pub fn spawn_completed_production_item(item: ProductionItem, owner: CivId, position: Position, unit_id_counter: &mut u32, city: &mut City) -> (r: Option<UnitSpawn>)
    requires
        *old(unit_id_counter) < u32::MAX,
    ensures
        match item {
            ProductionItem::Unit(t) => {
                &&& r == Some(UnitSpawn { id: *old(unit_id_counter), owner, unit_type: t, position, player_controlled: is_player(owner) })
                &&& *final(unit_id_counter) == *old(unit_id_counter) + 1
                &&& *final(city) == *old(city)
            },
            ProductionItem::Building(b) => {
                &&& r.is_none()
                &&& *final(unit_id_counter) == *old(unit_id_counter)
                &&& final(city).buildings@ == old(city).buildings@.push(Building { building_type: b, level: 1 })
                &&& final(city).name == old(city).name
                &&& final(city).owner == old(city).owner
                &&& final(city).population == old(city).population
            },
        },
{
    match item {
        ProductionItem::Unit(unit_type) => Some(spawn_military_unit_at_position(unit_type, owner, position, unit_id_counter)),
        ProductionItem::Building(building_type) => {
            city.add_building(building_type);
            None
        },
    }
}

} // verus!
