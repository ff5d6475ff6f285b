use vstd::prelude::*;
use crate::civ::CivId;

verus! {

/// Kinds of city building.
#[derive(Debug, Clone, Copy, PartialEq, Eq, Hash, Structural)]
pub enum BuildingType {
    Granary,
    Barracks,
    Workshop,
    Library,
    Walls,
    Market,
    Temple,
}

/// The display name of a building type.
pub open spec fn building_type_name(t: BuildingType) -> Seq<char> {
    match t {
        BuildingType::Granary => "Granary"@,
        BuildingType::Barracks => "Barracks"@,
        BuildingType::Workshop => "Workshop"@,
        BuildingType::Library => "Library"@,
        BuildingType::Walls => "Walls"@,
        BuildingType::Market => "Market"@,
        BuildingType::Temple => "Temple"@,
    }
}

impl BuildingType {
    /// The building type's display name.
    pub fn name(&self) -> (s: &'static str)
        ensures
            s@ == building_type_name(*self),
    {
        match self {
            BuildingType::Granary => "Granary",
            BuildingType::Barracks => "Barracks",
            BuildingType::Workshop => "Workshop",
            BuildingType::Library => "Library",
            BuildingType::Walls => "Walls",
            BuildingType::Market => "Market",
            BuildingType::Temple => "Temple",
        }
    }
}

/// A building of a city, at a level.
#[derive(Debug, Clone, Copy, PartialEq, Eq, Structural)]
pub struct Building {
    pub building_type: BuildingType,
    pub level: u32,
}

/// A city: its name, owner, population and buildings.
#[derive(Debug, Clone)]
pub struct City {
    pub name: String,
    pub owner: CivId,
    pub population: u32,
    pub buildings: Vec<Building>,
}

/// Population of a newly founded city.
pub const STARTING_CITY_POPULATION: u32 = 1000;

/// The index of the first building of type `t`.
pub open spec fn first_building(b: Seq<Building>, t: BuildingType) -> Option<int>
    decreases b.len(),
{
    if b.len() == 0 {
        None
    } else {
        match first_building(b.drop_last(), t) {
            Some(i) => Some(i),
            None => if b.last().building_type == t { Some(b.len() - 1) } else { None },
        }
    }
}

proof fn lemma_first_building(b: Seq<Building>, t: BuildingType)
    ensures
        match first_building(b, t) {
            Some(i) => 0 <= i < b.len() && b[i].building_type == t
                && forall|j: int| 0 <= j < i ==> (#[trigger] b[j]).building_type != t,
            None => forall|j: int| 0 <= j < b.len() ==> (#[trigger] b[j]).building_type != t,
        },
    decreases b.len(),
{
    if b.len() > 0 {
        let p = b.drop_last();
        lemma_first_building(p, t);
        assert(forall|j: int| 0 <= j < p.len() ==> p[j] == b[j]);
    }
}

impl City {
    /// A new city of `owner` named `name`, with 1000 people and a granary at level 1.
    pub fn new(name: String, owner: CivId) -> (c: City)
        ensures
            c.name == name,
            c.owner == owner,
            c.population == STARTING_CITY_POPULATION,
            c.buildings@ == seq![Building { building_type: BuildingType::Granary, level: 1 }],
    {
        let mut buildings: Vec<Building> = Vec::new();
        buildings.push(Building { building_type: BuildingType::Granary, level: 1 });
        City { name, owner, population: STARTING_CITY_POPULATION, buildings }
    }

    /// Adds a building of type `building_type` at level 1.
    pub fn add_building(&mut self, building_type: BuildingType)
        ensures
            final(self).buildings@ == old(self).buildings@.push(Building { building_type, level: 1 }),
            final(self).name == old(self).name,
            final(self).owner == old(self).owner,
            final(self).population == old(self).population,
    {
        self.buildings.push(Building { building_type, level: 1 });
    }

    /// Raises the first building of type `building_type` by one level; false, with
    /// nothing changed, when the city has none.
    pub fn upgrade_building(&mut self, building_type: &BuildingType) -> (upgraded: bool)
        requires
            forall|j: int| 0 <= j < old(self).buildings@.len() ==> (#[trigger] old(self).buildings@[j]).level < u32::MAX,
        ensures
            upgraded == first_building(old(self).buildings@, *building_type).is_some(),
            final(self).buildings@ == match first_building(old(self).buildings@, *building_type) {
                Some(i) => old(self).buildings@.update(i, Building {
                    building_type: *building_type,
                    level: (old(self).buildings@[i].level + 1) as u32,
                }),
                None => old(self).buildings@,
            },
            final(self).name == old(self).name,
            final(self).owner == old(self).owner,
            final(self).population == old(self).population,
    {
        proof { lemma_first_building(self.buildings@, *building_type); }
        let mut i: usize = 0;
        while i < self.buildings.len()
            invariant
                *self == *old(self),
                i <= self.buildings@.len(),
                forall|j: int| 0 <= j < i ==> (#[trigger] self.buildings@[j]).building_type != *building_type,
                forall|j: int| 0 <= j < self.buildings@.len() ==> (#[trigger] self.buildings@[j]).level < u32::MAX,
                match first_building(self.buildings@, *building_type) {
                    Some(k) => 0 <= k < self.buildings@.len() && self.buildings@[k].building_type == *building_type
                        && forall|j: int| 0 <= j < k ==> (#[trigger] self.buildings@[j]).building_type != *building_type,
                    None => forall|j: int| 0 <= j < self.buildings@.len() ==> (#[trigger] self.buildings@[j]).building_type != *building_type,
                },
            decreases self.buildings@.len() - i,
        {
            if self.buildings[i].building_type == *building_type {
                let level = self.buildings[i].level;
                self.buildings.set(i, Building { building_type: *building_type, level: level + 1 });
                return true;
            }
            i = i + 1;
        }
        false
    }

    /// Adds `amount` people.
    pub fn grow_population(&mut self, amount: u32)
        requires
            old(self).population + amount <= u32::MAX,
        ensures
            final(self).population == old(self).population + amount,
            final(self).name == old(self).name,
            final(self).owner == old(self).owner,
            final(self).buildings@ == old(self).buildings@,
    {
        self.population = self.population + amount;
    }
}

/// The ages a capital passes through, in order.
#[derive(Debug, Clone, Copy, PartialEq, Eq, Hash, Structural)]
pub enum CapitalAge {
    Neolithic,
    Bronze,
    Iron,
    Classical,
    Medieval,
    Renaissance,
    Industrial,
    Modern,
    Information,
    Future,
}

/// The place of an age in the order of ages, from 0.
pub open spec fn age_rank(a: CapitalAge) -> nat {
    match a {
        CapitalAge::Neolithic => 0,
        CapitalAge::Bronze => 1,
        CapitalAge::Iron => 2,
        CapitalAge::Classical => 3,
        CapitalAge::Medieval => 4,
        CapitalAge::Renaissance => 5,
        CapitalAge::Industrial => 6,
        CapitalAge::Modern => 7,
        CapitalAge::Information => 8,
        CapitalAge::Future => 9,
    }
}

/// The sprite of a capital of an age: 3 for the first age, then 5, 6, ... 13.
pub open spec fn age_sprite(a: CapitalAge) -> u32 {
    if a == CapitalAge::Neolithic { 3 } else { (age_rank(a) + 4) as u32 }
}

/// The age after `a`, if there is one.
pub open spec fn age_after(a: CapitalAge) -> Option<CapitalAge> {
    match a {
        CapitalAge::Neolithic => Some(CapitalAge::Bronze),
        CapitalAge::Bronze => Some(CapitalAge::Iron),
        CapitalAge::Iron => Some(CapitalAge::Classical),
        CapitalAge::Classical => Some(CapitalAge::Medieval),
        CapitalAge::Medieval => Some(CapitalAge::Renaissance),
        CapitalAge::Renaissance => Some(CapitalAge::Industrial),
        CapitalAge::Industrial => Some(CapitalAge::Modern),
        CapitalAge::Modern => Some(CapitalAge::Information),
        CapitalAge::Information => Some(CapitalAge::Future),
        CapitalAge::Future => None,
    }
}

/// What a capital needs to leave its age.
#[derive(Debug, Clone)]
pub struct CapitalEvolutionRequirements {
    pub min_population: u32,
    pub required_technologies: Vec<String>,
    pub min_buildings: usize,
    pub min_turn: u32,
}

fn text(s: &str) -> (r: String)
    ensures
        r@ == s@,
{
    String::from_str(s)
}

impl CapitalAge {
    /// The sprite that shows a capital of this age.
    pub fn sprite_index(&self) -> (i: u32)
        ensures
            i == age_sprite(*self),
    {
        match self {
            CapitalAge::Neolithic => 3,
            CapitalAge::Bronze => 5,
            CapitalAge::Iron => 6,
            CapitalAge::Classical => 7,
            CapitalAge::Medieval => 8,
            CapitalAge::Renaissance => 9,
            CapitalAge::Industrial => 10,
            CapitalAge::Modern => 11,
            CapitalAge::Information => 12,
            CapitalAge::Future => 13,
        }
    }

    /// The age a capital of this age evolves into; `None` for the last age.
    pub fn next_age(&self) -> (r: Option<CapitalAge>)
        ensures
            r == age_after(*self),
    {
        match self {
            CapitalAge::Neolithic => Some(CapitalAge::Bronze),
            CapitalAge::Bronze => Some(CapitalAge::Iron),
            CapitalAge::Iron => Some(CapitalAge::Classical),
            CapitalAge::Classical => Some(CapitalAge::Medieval),
            CapitalAge::Medieval => Some(CapitalAge::Renaissance),
            CapitalAge::Renaissance => Some(CapitalAge::Industrial),
            CapitalAge::Industrial => Some(CapitalAge::Modern),
            CapitalAge::Modern => Some(CapitalAge::Information),
            CapitalAge::Information => Some(CapitalAge::Future),
            CapitalAge::Future => None,
        }
    }

    /// What a capital of this age needs to evolve: from the neolithic, 2000 people,
    /// bronze working, 2 buildings and 10 turns; from the bronze age, 4000 people, iron
    /// working, 3 buildings and 25 turns; from the iron age, 8000 people, currency and
    /// writing, 4 buildings and 50 turns; from any later age, 10000 people, 5 buildings
    /// and 100 turns.
    pub fn evolution_requirements(&self) -> (r: CapitalEvolutionRequirements)
        ensures
            match *self {
                CapitalAge::Neolithic => r.min_population == 2000 && r.min_buildings == 2 && r.min_turn == 10
                    && r.required_technologies@.len() == 1 && r.required_technologies@[0]@ == "Bronze Working"@,
                CapitalAge::Bronze => r.min_population == 4000 && r.min_buildings == 3 && r.min_turn == 25
                    && r.required_technologies@.len() == 1 && r.required_technologies@[0]@ == "Iron Working"@,
                CapitalAge::Iron => r.min_population == 8000 && r.min_buildings == 4 && r.min_turn == 50
                    && r.required_technologies@.len() == 2 && r.required_technologies@[0]@ == "Currency"@
                    && r.required_technologies@[1]@ == "Writing"@,
                _ => r.min_population == 10000 && r.min_buildings == 5 && r.min_turn == 100
                    && r.required_technologies@.len() == 0,
            },
    {
        let mut techs: Vec<String> = Vec::new();
        match self {
            CapitalAge::Neolithic => {
                techs.push(text("Bronze Working"));
                CapitalEvolutionRequirements { min_population: 2000, required_technologies: techs, min_buildings: 2, min_turn: 10 }
            },
            CapitalAge::Bronze => {
                techs.push(text("Iron Working"));
                CapitalEvolutionRequirements { min_population: 4000, required_technologies: techs, min_buildings: 3, min_turn: 25 }
            },
            CapitalAge::Iron => {
                techs.push(text("Currency"));
                techs.push(text("Writing"));
                CapitalEvolutionRequirements { min_population: 8000, required_technologies: techs, min_buildings: 4, min_turn: 50 }
            },
            _ => CapitalEvolutionRequirements { min_population: 10000, required_technologies: techs, min_buildings: 5, min_turn: 100 },
        }
    }
}

/// A civilization's capital: its age, the sprite that shows it, and the turn its age began.
#[derive(Debug, Clone, Copy, PartialEq, Eq, Structural)]
pub struct Capital {
    pub owner: CivId,
    pub age: CapitalAge,
    pub sprite_index: u32,
    pub established_turn: u32,
}

/// Whether `known` lists `tech`.
pub open spec fn knows(known: Seq<String>, tech: Seq<char>) -> bool {
    exists|i: int| 0 <= i < known.len() && (#[trigger] known[i])@ == tech
}

/// Whether a capital of age `age`, established on turn `established`, evolves on turn
/// `turn` with a city of `population` people and `buildings` buildings, whose owner knows
/// the technologies `known`: there is a next age, and every requirement of its age is met.
pub open spec fn can_evolve(age: CapitalAge, established: u32, turn: u32, population: u32, buildings: nat, known: Seq<String>) -> bool {
    &&& age_after(age).is_some()
    &&& population >= required_population(age)
    &&& turn >= established + required_turns(age)
    &&& buildings >= required_buildings(age)
    &&& forall|k: int| 0 <= k < required_techs(age).len() ==> knows(known, #[trigger] required_techs(age)[k])
}

/// The population a capital of age `a` needs to evolve.
pub open spec fn required_population(a: CapitalAge) -> u32 {
    match a {
        CapitalAge::Neolithic => 2000,
        CapitalAge::Bronze => 4000,
        CapitalAge::Iron => 8000,
        _ => 10000,
    }
}

/// The buildings a capital of age `a` needs to evolve.
pub open spec fn required_buildings(a: CapitalAge) -> nat {
    match a {
        CapitalAge::Neolithic => 2,
        CapitalAge::Bronze => 3,
        CapitalAge::Iron => 4,
        _ => 5,
    }
}

/// The turns a capital of age `a` must spend in it before evolving.
pub open spec fn required_turns(a: CapitalAge) -> u32 {
    match a {
        CapitalAge::Neolithic => 10,
        CapitalAge::Bronze => 25,
        CapitalAge::Iron => 50,
        _ => 100,
    }
}

/// The technologies a capital's owner must know for the capital to leave age `a`.
pub open spec fn required_techs(a: CapitalAge) -> Seq<Seq<char>> {
    match a {
        CapitalAge::Neolithic => seq!["Bronze Working"@],
        CapitalAge::Bronze => seq!["Iron Working"@],
        CapitalAge::Iron => seq!["Currency"@, "Writing"@],
        _ => Seq::empty(),
    }
}

fn knows_exec(known: &Vec<String>, tech: &String) -> (b: bool)
    ensures
        b == knows(known@, tech@),
{
    let mut i: usize = 0;
    while i < known.len()
        invariant
            i <= known@.len(),
            forall|j: int| 0 <= j < i ==> (#[trigger] known@[j])@ != tech@,
        decreases known@.len() - i,
    {
        if known[i] == *tech {
            return true;
        }
        i = i + 1;
    }
    false
}

/// One turn of a capital's evolution: when the capital can evolve it enters the next
/// age, takes that age's sprite and records `current_turn` as the age's start; tells
/// whether it evolved. `population` and `building_count` are its city's, `known` the
/// technologies its owner knows.
pub fn evolve_capital(capital: &mut Capital, population: u32, building_count: usize, known: &Vec<String>, current_turn: u32) -> (evolved: bool)
    requires
        age_after(old(capital).age).is_some() && population >= required_population(old(capital).age)
            ==> old(capital).established_turn + required_turns(old(capital).age) <= u32::MAX,
    ensures
        evolved == can_evolve(old(capital).age, old(capital).established_turn, current_turn, population, building_count as nat, known@),
        evolved ==> *final(capital) == (Capital {
            age: age_after(old(capital).age).unwrap(),
            sprite_index: age_sprite(age_after(old(capital).age).unwrap()),
            established_turn: current_turn,
            ..*old(capital)
        }),
        !evolved ==> *final(capital) == *old(capital),
{
    let requirements = capital.age.evolution_requirements();
    match capital.age.next_age() {
        None => false,
        Some(next_age) => {
            let mut ok = population >= requirements.min_population
                && current_turn >= capital.established_turn + requirements.min_turn
                && building_count >= requirements.min_buildings;
            let mut k: usize = 0;
            let ghost techs: Seq<Seq<char>> = required_techs(capital.age);
            proof {
                assert(requirements.required_technologies@.len() == techs.len());
                assert(forall|j: int| 0 <= j < techs.len() ==> requirements.required_technologies@[j]@ == techs[j]);
            }
            let mut all_known = true;
            while k < requirements.required_technologies.len()
                invariant
                    k <= requirements.required_technologies@.len(),
                    requirements.required_technologies@.len() == techs.len(),
                    forall|j: int| 0 <= j < techs.len() ==> requirements.required_technologies@[j]@ == techs[j],
                    all_known == forall|j: int| 0 <= j < k ==> knows(known@, #[trigger] techs[j]),
                decreases requirements.required_technologies@.len() - k,
            {
                let found = knows_exec(known, &requirements.required_technologies[k]);
                proof {
                    if !found {
                        assert(!knows(known@, techs[k as int]));
                    }
                }
                all_known = all_known && found;
                k = k + 1;
            }
            ok = ok && all_known;
            if ok {
                capital.age = next_age;
                capital.sprite_index = next_age.sprite_index();
                capital.established_turn = current_turn;
            }
            ok
        },
    }
}

/// Every age but the last leads to a later one, whose sprite comes later too.
pub proof fn lemma_ages_advance(a: CapitalAge)
    ensures
        match age_after(a) {
            Some(b) => age_rank(b) == age_rank(a) + 1 && age_sprite(b) > age_sprite(a),
            None => a == CapitalAge::Future,
        },
{
}

} // verus!
