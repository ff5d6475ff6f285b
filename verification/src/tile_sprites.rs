use vstd::prelude::*;
use crate::terrain::TerrainType;

verus! {

/// Sprite of plains in the tile sheet.
pub const PLAINS_SPRITE: usize = 0;
/// Sprite of hills.
pub const HILLS_SPRITE: usize = 0;
/// Sprite of mountains.
pub const MOUNTAINS_SPRITE: usize = 0;
/// Sprite of forest.
pub const FOREST_SPRITE: usize = 0;
/// Sprite of desert.
pub const DESERT_SPRITE: usize = 0;
/// Sprite of rivers.
pub const RIVER_SPRITE: usize = 0;
/// Sprite of deep ocean.
pub const OCEAN_SPRITE: usize = 16;
/// Sprite of shallow coast water.
pub const SHALLOW_COAST_TILE_SPRITE: usize = 17;
/// Sprite used for coast when no variation applies.
pub const COAST_FALLBACK_SPRITE: usize = 8;
/// Coast with ocean on one side.
pub const COAST_1_SIDE_SPRITE: usize = 8;
/// Coast with ocean on two sides.
pub const COAST_2_SIDE_SPRITE: usize = 9;
/// Coast with ocean on three sides.
pub const COAST_3_SIDE_SPRITE: usize = 1;
/// Land with ocean on all four sides.
pub const ISLAND_SPRITE: usize = 2;
/// Sprite of an ancient capital.
pub const CAPITAL_ANCIENT_SPRITE: usize = 3;
/// Sprite of ancient infantry.
pub const ANCIENT_INFANTRY_SPRITE: usize = 10;

/// Where each kind of tile and entity sits in the sprite sheet.
#[derive(Debug, Clone, Copy, PartialEq, Eq, Structural)]
pub struct TileSpriteIndices {
    pub plains_index: usize,
    pub hills_index: usize,
    pub mountains_index: usize,
    pub forest_index: usize,
    pub desert_index: usize,
    pub coast_index: usize,
    pub shallow_coast_index: usize,
    pub ocean_index: usize,
    pub river_index: usize,
    pub coast_1_side_index: usize,
    pub coast_2_side_index: usize,
    pub coast_3_side_index: usize,
    pub island_index: usize,
    pub capital_ancient_index: usize,
    pub ancient_infantry_index: usize,
}

/// The sprite index that `s` gives tiles of `terrain`.
pub open spec fn terrain_sprite(s: TileSpriteIndices, terrain: TerrainType) -> usize {
    match terrain {
        TerrainType::Plains => s.plains_index,
        TerrainType::Hills => s.hills_index,
        TerrainType::Mountains => s.mountains_index,
        TerrainType::Forest => s.forest_index,
        TerrainType::Desert => s.desert_index,
        TerrainType::Coast => s.coast_index,
        TerrainType::ShallowCoast => s.shallow_coast_index,
        TerrainType::Ocean => s.ocean_index,
        TerrainType::River => s.river_index,
    }
}

impl TileSpriteIndices {
    /// The layout of the game's sprite sheet.
    pub fn standard() -> (s: TileSpriteIndices)
        ensures
            s == (TileSpriteIndices {
                plains_index: PLAINS_SPRITE,
                hills_index: HILLS_SPRITE,
                mountains_index: MOUNTAINS_SPRITE,
                forest_index: FOREST_SPRITE,
                desert_index: DESERT_SPRITE,
                coast_index: COAST_FALLBACK_SPRITE,
                shallow_coast_index: SHALLOW_COAST_TILE_SPRITE,
                ocean_index: OCEAN_SPRITE,
                river_index: RIVER_SPRITE,
                coast_1_side_index: COAST_1_SIDE_SPRITE,
                coast_2_side_index: COAST_2_SIDE_SPRITE,
                coast_3_side_index: COAST_3_SIDE_SPRITE,
                island_index: ISLAND_SPRITE,
                capital_ancient_index: CAPITAL_ANCIENT_SPRITE,
                ancient_infantry_index: ANCIENT_INFANTRY_SPRITE,
            }),
    {
        TileSpriteIndices {
            plains_index: PLAINS_SPRITE,
            hills_index: HILLS_SPRITE,
            mountains_index: MOUNTAINS_SPRITE,
            forest_index: FOREST_SPRITE,
            desert_index: DESERT_SPRITE,
            coast_index: COAST_FALLBACK_SPRITE,
            shallow_coast_index: SHALLOW_COAST_TILE_SPRITE,
            ocean_index: OCEAN_SPRITE,
            river_index: RIVER_SPRITE,
            coast_1_side_index: COAST_1_SIDE_SPRITE,
            coast_2_side_index: COAST_2_SIDE_SPRITE,
            coast_3_side_index: COAST_3_SIDE_SPRITE,
            island_index: ISLAND_SPRITE,
            capital_ancient_index: CAPITAL_ANCIENT_SPRITE,
            ancient_infantry_index: ANCIENT_INFANTRY_SPRITE,
        }
    }

    /// The sprite index of tiles of `terrain`, as a `u32`.
    pub fn get_index_for_terrain(&self, terrain: &TerrainType) -> (i: u32)
        ensures
            i == terrain_sprite(*self, *terrain) as u32,
    {
        let index: usize = match terrain {
            TerrainType::Plains => self.plains_index,
            TerrainType::Hills => self.hills_index,
            TerrainType::Mountains => self.mountains_index,
            TerrainType::Forest => self.forest_index,
            TerrainType::Desert => self.desert_index,
            TerrainType::Coast => self.coast_index,
            TerrainType::ShallowCoast => self.shallow_coast_index,
            TerrainType::Ocean => self.ocean_index,
            TerrainType::River => self.river_index,
        };
        index as u32
    }

    /// The sprite index used for coast, as a `u32`.
    pub fn get_coast_index(&self) -> (i: u32)
        ensures
            i == self.coast_index as u32,
    {
        self.coast_index as u32
    }
}

} // verus!
