use vstd::prelude::*;

verus! {

/// Terrain types of world map tiles.
#[derive(Debug, Clone, Copy, PartialEq, Eq, Hash, Structural)]
pub enum TerrainType {
    Plains,
    Hills,
    Mountains,
    Forest,
    Desert,
    Coast,
    ShallowCoast,
    Ocean,
    River,
}

/// Terrain on which cities and buildings can be placed.
pub open spec fn buildable(t: TerrainType) -> bool {
    match t {
        TerrainType::Mountains | TerrainType::ShallowCoast | TerrainType::Ocean => false,
        _ => true,
    }
}

/// Terrain that naval units can use.
pub open spec fn water(t: TerrainType) -> bool {
    match t {
        TerrainType::Ocean | TerrainType::Coast | TerrainType::ShallowCoast | TerrainType::River => true,
        _ => false,
    }
}

impl TerrainType {
    /// Whether cities and buildings can be placed on this terrain.
    pub fn is_buildable(&self) -> (b: bool)
        ensures
            b == buildable(*self),
    {
        match self {
            TerrainType::Plains
            | TerrainType::Hills
            | TerrainType::Forest
            | TerrainType::Desert
            | TerrainType::Coast
            | TerrainType::River => true,
            TerrainType::Mountains | TerrainType::ShallowCoast | TerrainType::Ocean => false,
        }
    }

    /// Whether this terrain is water (for naval units).
    pub fn is_water(&self) -> (b: bool)
        ensures
            b == water(*self),
    {
        match self {
            TerrainType::Ocean | TerrainType::Coast | TerrainType::ShallowCoast | TerrainType::River => true,
            _ => false,
        }
    }

    /// Whether this terrain is land (for land units): exactly the terrain that is not water.
    pub fn is_land(&self) -> (b: bool)
        ensures
            b == !water(*self),
    {
        !self.is_water()
    }

    /// The name of the terrain type, as it is written in saved data.
    pub fn name(&self) -> (s: String)
        ensures
            s@ == terrain_name(*self),
    {
        match self {
            TerrainType::Plains => String::from_str("Plains"),
            TerrainType::Hills => String::from_str("Hills"),
            TerrainType::Mountains => String::from_str("Mountains"),
            TerrainType::Forest => String::from_str("Forest"),
            TerrainType::Desert => String::from_str("Desert"),
            TerrainType::Coast => String::from_str("Coast"),
            TerrainType::ShallowCoast => String::from_str("ShallowCoast"),
            TerrainType::Ocean => String::from_str("Ocean"),
            TerrainType::River => String::from_str("River"),
        }
    }

    /// The terrain type that a saved name stands for; `None` for an unknown name.
    pub fn from_name(s: &str) -> (r: Option<TerrainType>)
        ensures
            match r {
                Some(t) => terrain_name(t) == s@,
                None => forall|t: TerrainType| terrain_name(t) != s@,
            },
    {
        proof {
            reveal_strlit("Plains");
            reveal_strlit("Hills");
            reveal_strlit("Mountains");
            reveal_strlit("Forest");
            reveal_strlit("Desert");
            reveal_strlit("Coast");
            reveal_strlit("ShallowCoast");
            reveal_strlit("Ocean");
            reveal_strlit("River");
        }
        let all = [
            TerrainType::Plains,
            TerrainType::Hills,
            TerrainType::Mountains,
            TerrainType::Forest,
            TerrainType::Desert,
            TerrainType::Coast,
            TerrainType::ShallowCoast,
            TerrainType::Ocean,
            TerrainType::River,
        ];
        let mut i: usize = 0;
        while i < 9
            invariant
                0 <= i <= 9,
                all@ == seq![
                    TerrainType::Plains,
                    TerrainType::Hills,
                    TerrainType::Mountains,
                    TerrainType::Forest,
                    TerrainType::Desert,
                    TerrainType::Coast,
                    TerrainType::ShallowCoast,
                    TerrainType::Ocean,
                    TerrainType::River,
                ],
                forall|k: int| 0 <= k < i ==> terrain_name(#[trigger] all@[k]) != s@,
            decreases 9 - i,
        {
            let name = all[i].name();
            if name == s.to_owned() {
                return Some(all[i]);
            }
            i = i + 1;
        }
        proof {
            assert forall|t: TerrainType| terrain_name(t) != s@ by {
                match t {
                    TerrainType::Plains => assert(all@[0] == t),
                    TerrainType::Hills => assert(all@[1] == t),
                    TerrainType::Mountains => assert(all@[2] == t),
                    TerrainType::Forest => assert(all@[3] == t),
                    TerrainType::Desert => assert(all@[4] == t),
                    TerrainType::Coast => assert(all@[5] == t),
                    TerrainType::ShallowCoast => assert(all@[6] == t),
                    TerrainType::Ocean => assert(all@[7] == t),
                    TerrainType::River => assert(all@[8] == t),
                }
            }
        }
        None
    }
}

/// The saved name of each terrain type.
pub open spec fn terrain_name(t: TerrainType) -> Seq<char> {
    match t {
        TerrainType::Plains => "Plains"@,
        TerrainType::Hills => "Hills"@,
        TerrainType::Mountains => "Mountains"@,
        TerrainType::Forest => "Forest"@,
        TerrainType::Desert => "Desert"@,
        TerrainType::Coast => "Coast"@,
        TerrainType::ShallowCoast => "ShallowCoast"@,
        TerrainType::Ocean => "Ocean"@,
        TerrainType::River => "River"@,
    }
}

/// Distinct terrain types have distinct saved names, so reading back the name
/// that was written gives the same terrain type.
pub proof fn lemma_terrain_name_round_trip(t1: TerrainType, t2: TerrainType)
    ensures
        terrain_name(t1) == terrain_name(t2) ==> t1 == t2,
{
    reveal_strlit("Plains");
    reveal_strlit("Hills");
    reveal_strlit("Mountains");
    reveal_strlit("Forest");
    reveal_strlit("Desert");
    reveal_strlit("Coast");
    reveal_strlit("ShallowCoast");
    reveal_strlit("Ocean");
    reveal_strlit("River");
    assert(terrain_name(t1)[0] == initial(t1));
    assert(terrain_name(t2)[0] == initial(t2));
}

/// The first letter of each terrain name; no two terrain types share one.
pub open spec fn initial(t: TerrainType) -> char {
    match t {
        TerrainType::Plains => 'P',
        TerrainType::Hills => 'H',
        TerrainType::Mountains => 'M',
        TerrainType::Forest => 'F',
        TerrainType::Desert => 'D',
        TerrainType::Coast => 'C',
        TerrainType::ShallowCoast => 'S',
        TerrainType::Ocean => 'O',
        TerrainType::River => 'R',
    }
}

/// Strategic and luxury resources found on tiles.
#[derive(Debug, Clone, Copy, PartialEq, Eq, Hash, Structural)]
pub enum Resource {
    Iron,
    Gold,
    Horses,
    Wheat,
    Fish,
    Stone,
    Wood,
    Spices,
}

/// What a tile allows, fixed from its terrain before any coast conversion.
#[derive(Debug, Clone, Copy, PartialEq, Eq, Structural)]
pub struct TileCapabilities {
    pub buildable: bool,
    pub walkable: bool,
    pub naval: bool,
    pub resource_yield: bool,
}

/// The capabilities that `from_terrain` assigns to each terrain.
pub open spec fn capabilities_of(t: TerrainType) -> TileCapabilities {
    match t {
        TerrainType::Plains | TerrainType::Hills | TerrainType::Forest | TerrainType::Desert =>
            TileCapabilities { buildable: true, walkable: true, naval: false, resource_yield: true },
        TerrainType::Mountains =>
            TileCapabilities { buildable: false, walkable: true, naval: false, resource_yield: true },
        TerrainType::Ocean | TerrainType::ShallowCoast | TerrainType::River =>
            TileCapabilities { buildable: false, walkable: false, naval: true, resource_yield: false },
        TerrainType::Coast =>
            TileCapabilities { buildable: true, walkable: true, naval: true, resource_yield: true },
    }
}

impl TileCapabilities {
    /// Land: buildable, walkable, not naval, yields resources.
    pub fn land() -> (c: TileCapabilities)
        ensures
            c == capabilities_of(TerrainType::Plains),
    {
        TileCapabilities { buildable: true, walkable: true, naval: false, resource_yield: true }
    }

    /// Water: only naval.
    pub fn water() -> (c: TileCapabilities)
        ensures
            c == capabilities_of(TerrainType::Ocean),
    {
        TileCapabilities { buildable: false, walkable: false, naval: true, resource_yield: false }
    }

    /// Coast (converted from land): everything.
    pub fn coastal() -> (c: TileCapabilities)
        ensures
            c == capabilities_of(TerrainType::Coast),
    {
        TileCapabilities { buildable: true, walkable: true, naval: true, resource_yield: true }
    }

    /// Mountains: walkable and yields resources, not buildable.
    pub fn mountains() -> (c: TileCapabilities)
        ensures
            c == capabilities_of(TerrainType::Mountains),
    {
        TileCapabilities { buildable: false, walkable: true, naval: false, resource_yield: true }
    }

    /// The capabilities of tiles of `terrain`.
    pub fn from_terrain(terrain: &TerrainType) -> (c: TileCapabilities)
        ensures
            c == capabilities_of(*terrain),
    {
        match terrain {
            TerrainType::Plains | TerrainType::Hills | TerrainType::Forest | TerrainType::Desert =>
                Self::land(),
            TerrainType::Mountains => Self::mountains(),
            TerrainType::Ocean | TerrainType::ShallowCoast => Self::water(),
            TerrainType::Coast => Self::coastal(),
            TerrainType::River => Self::water(),
        }
    }
}

} // verus!
