use vstd::prelude::*;
use crate::position::Position;
use crate::terrain::TerrainType;
use crate::world_map::{WorldMap, MapTile, in_bounds};

verus! {

/// How a tile sprite is mirrored: along x, along y, and across the diagonal.
#[derive(Debug, Clone, Copy, PartialEq, Eq, Structural)]
pub struct TileFlip {
    pub x: bool,
    pub y: bool,
    pub d: bool,
}


/// The flip with the given mirror flags.
pub open spec fn flip(x: bool, y: bool, d: bool) -> TileFlip {
    TileFlip { x, y, d }
}

/// Builds the flip with the given mirror flags.
pub fn make_flip(x: bool, y: bool, d: bool) -> (f: TileFlip)
    ensures
        f == flip(x, y, d),
{
    TileFlip { x, y, d }
}

/// Sprite index of a coast tile with ocean on one side (also the fallback coast sprite).
pub const COAST_ONE_SIDE_SPRITE: u32 = 8;
/// Sprite index of a coast tile with ocean on two sides.
pub const COAST_TWO_SIDE_SPRITE: u32 = 9;
/// Sprite index of a coast tile with ocean on three sides.
pub const COAST_THREE_SIDE_SPRITE: u32 = 1;
/// Sprite index of a shallow coast tile.
pub const SHALLOW_COAST_SPRITE: u32 = 17;
/// Rows above this index never count as neighbours when scanning for ocean or coast.
pub const NEIGHBOR_SCAN_ROW_LIMIT: u32 = 1000;

/// Which of the four neighbours of a tile are ocean.
#[derive(Debug, Clone, Copy, PartialEq, Eq, Structural)]
pub struct OceanNeighbors {
    pub north: bool,
    pub south: bool,
    pub east: bool,
    pub west: bool,
}

/// Which of the four neighbours of a tile are coast.
#[derive(Debug, Clone, Copy, PartialEq, Eq, Structural)]
pub struct CoastNeighbors {
    pub north: bool,
    pub south: bool,
    pub east: bool,
    pub west: bool,
}

/// How many of four flags are set.
pub open spec fn count4(a: bool, b: bool, c: bool, d: bool) -> int {
    (if a { 1int } else { 0int }) + (if b { 1int } else { 0int }) + (if c { 1int } else { 0int }) + (if d { 1int } else { 0int })
}

/// The names of the set flags, in the order north, south, east, west.
pub open spec fn direction_names4(n: bool, s: bool, e: bool, w: bool) -> Seq<Seq<char>> {
    (if n { seq!["North"@] } else { Seq::empty() }) + (if s { seq!["South"@] } else { Seq::empty() })
        + (if e { seq!["East"@] } else { Seq::empty() }) + (if w { seq!["West"@] } else { Seq::empty() })
}

fn names4(n: bool, s: bool, e: bool, w: bool) -> (r: Vec<&'static str>)
    ensures
        r@.map_values(|v: &str| v@) == direction_names4(n, s, e, w),
{
    let mut r: Vec<&'static str> = Vec::new();
    if n {
        r.push("North");
    }
    let ghost r1 = r@;
    if s {
        r.push("South");
    }
    let ghost r2 = r@;
    if e {
        r.push("East");
    }
    let ghost r3 = r@;
    if w {
        r.push("West");
    }
    proof {
        assert(r1.map_values(|v: &str| v@) =~= (if n { seq!["North"@] } else { Seq::empty() }));
        assert(r2.map_values(|v: &str| v@) =~= r1.map_values(|v: &str| v@) + (if s { seq!["South"@] } else { Seq::empty() }));
        assert(r3.map_values(|v: &str| v@) =~= r2.map_values(|v: &str| v@) + (if e { seq!["East"@] } else { Seq::empty() }));
        assert(r@.map_values(|v: &str| v@) =~= r3.map_values(|v: &str| v@) + (if w { seq!["West"@] } else { Seq::empty() }));
    }
    r
}

fn count_flags(n: bool, s: bool, e: bool, w: bool) -> (c: u32)
    ensures
        c == count4(n, s, e, w),
{
    let mut count: u32 = 0;
    if n {
        count = count + 1;
    }
    if s {
        count = count + 1;
    }
    if e {
        count = count + 1;
    }
    if w {
        count = count + 1;
    }
    count
}

impl OceanNeighbors {
    /// Whether any neighbour is ocean.
    pub fn has_any_ocean(&self) -> (b: bool)
        ensures
            b == (self.north || self.south || self.east || self.west),
    {
        self.north || self.south || self.east || self.west
    }

    /// The directions in which ocean lies, in the order north, south, east, west.
    pub fn get_ocean_direction_names(&self) -> (r: Vec<&'static str>)
        ensures
            r@.map_values(|v: &str| v@) == direction_names4(self.north, self.south, self.east, self.west),
    {
        names4(self.north, self.south, self.east, self.west)
    }

    /// How many neighbours are ocean.
    pub fn count_ocean_sides(&self) -> (c: u32)
        ensures
            c == count4(self.north, self.south, self.east, self.west),
    {
        count_flags(self.north, self.south, self.east, self.west)
    }
}

impl CoastNeighbors {
    /// Whether any neighbour is coast.
    pub fn has_any_coast(&self) -> (b: bool)
        ensures
            b == (self.north || self.south || self.east || self.west),
    {
        self.north || self.south || self.east || self.west
    }

    /// The directions in which coast lies, in the order north, south, east, west.
    pub fn get_coast_direction_names(&self) -> (r: Vec<&'static str>)
        ensures
            r@.map_values(|v: &str| v@) == direction_names4(self.north, self.south, self.east, self.west),
    {
        names4(self.north, self.south, self.east, self.west)
    }

    /// How many neighbours are coast.
    pub fn count_coast_sides(&self) -> (c: u32)
        ensures
            c == count4(self.north, self.south, self.east, self.west),
    {
        count_flags(self.north, self.south, self.east, self.west)
    }
}

/// Land, for the coast passes: every terrain but ocean.
pub open spec fn land_terrain(t: TerrainType) -> bool {
    t != TerrainType::Ocean
}

/// Whether a terrain is land (anything but ocean).
pub fn is_land_tile(terrain: &TerrainType) -> (b: bool)
    ensures
        b == land_terrain(*terrain),
{
    !matches!(terrain, TerrainType::Ocean)
}

/// A terrain grid `g[x][y]` with `w` columns of `h` rows.
pub open spec fn grid_wf(g: Seq<Vec<TerrainType>>, w: u32, h: u32) -> bool {
    &&& g.len() == w
    &&& forall|i: int| 0 <= i < w ==> (#[trigger] g[i])@.len() == h
}

/// The terrain at `(x, y)` of the grid.
pub open spec fn cell(g: Seq<Vec<TerrainType>>, x: int, y: int) -> TerrainType {
    g[x]@[y]
}

/// Whether the cell `(x, y)` holds `t`, counting cells off the grid and rows above
/// `NEIGHBOR_SCAN_ROW_LIMIT` as not holding it.
pub open spec fn cell_is(g: Seq<Vec<TerrainType>>, w: u32, h: u32, x: int, y: int, t: TerrainType) -> bool {
    if x >= w || y >= h || x < 0 || y < 0 {
        false
    } else if y > NEIGHBOR_SCAN_ROW_LIMIT {
        false
    } else {
        cell(g, x, y) == t
    }
}

/// One less than `v`, but not below zero.
pub open spec fn dec_sat(v: int) -> int {
    if v >= 1 { v - 1 } else { 0 }
}

/// The ocean neighbours of `(x, y)`: north is `y + 1`, south is `y - 1` (saturating at 0),
/// east is `x + 1`, west is `x - 1` (saturating at 0).
pub open spec fn ocean_neighbors_spec(g: Seq<Vec<TerrainType>>, w: u32, h: u32, x: int, y: int) -> OceanNeighbors {
    OceanNeighbors {
        north: cell_is(g, w, h, x, y + 1, TerrainType::Ocean),
        south: cell_is(g, w, h, x, dec_sat(y), TerrainType::Ocean),
        east: cell_is(g, w, h, x + 1, y, TerrainType::Ocean),
        west: cell_is(g, w, h, dec_sat(x), y, TerrainType::Ocean),
    }
}

/// The coast neighbours of `(x, y)`, found the same way as the ocean neighbours.
pub open spec fn coast_neighbors_spec(g: Seq<Vec<TerrainType>>, w: u32, h: u32, x: int, y: int) -> CoastNeighbors {
    CoastNeighbors {
        north: cell_is(g, w, h, x, y + 1, TerrainType::Coast),
        south: cell_is(g, w, h, x, dec_sat(y), TerrainType::Coast),
        east: cell_is(g, w, h, x + 1, y, TerrainType::Coast),
        west: cell_is(g, w, h, dec_sat(x), y, TerrainType::Coast),
    }
}

/// Whether the cell holds `t`, as `cell_is` describes.
fn is_terrain_at_position(x: u32, y: u32, terrain_grid: &Vec<Vec<TerrainType>>, w: u32, h: u32, t: TerrainType) -> (b: bool)
    requires
        grid_wf(terrain_grid@, w, h),
    ensures
        b == cell_is(terrain_grid@, w, h, x as int, y as int, t),
{
    if x >= w || y >= h {
        return false;
    }
    if y > NEIGHBOR_SCAN_ROW_LIMIT {
        return false;
    }
    terrain_grid[x as usize][y as usize] == t
}

/// Whether there is ocean at `(x, y)`; off the grid, or above row 1000, there is not.
pub fn is_ocean_at_position(x: u32, y: u32, terrain_grid: &Vec<Vec<TerrainType>>, w: u32, h: u32) -> (b: bool)
    requires
        grid_wf(terrain_grid@, w, h),
    ensures
        b == cell_is(terrain_grid@, w, h, x as int, y as int, TerrainType::Ocean),
{
    is_terrain_at_position(x, y, terrain_grid, w, h, TerrainType::Ocean)
}

/// Whether there is coast at `(x, y)`; off the grid, or above row 1000, there is not.
pub fn is_coast_at_position(x: u32, y: u32, terrain_grid: &Vec<Vec<TerrainType>>, w: u32, h: u32) -> (b: bool)
    requires
        grid_wf(terrain_grid@, w, h),
    ensures
        b == cell_is(terrain_grid@, w, h, x as int, y as int, TerrainType::Coast),
{
    is_terrain_at_position(x, y, terrain_grid, w, h, TerrainType::Coast)
}

/// The ocean neighbours of the tile `(x, y)`.
pub fn detect_ocean_neighbors(x: u32, y: u32, terrain_grid: &Vec<Vec<TerrainType>>, w: u32, h: u32) -> (r: OceanNeighbors)
    requires
        grid_wf(terrain_grid@, w, h),
        x < w,
        y < h,
    ensures
        r == ocean_neighbors_spec(terrain_grid@, w, h, x as int, y as int),
{
    OceanNeighbors {
        north: is_ocean_at_position(x, y + 1, terrain_grid, w, h),
        south: is_ocean_at_position(x, if y >= 1 { y - 1 } else { 0 }, terrain_grid, w, h),
        east: is_ocean_at_position(x + 1, y, terrain_grid, w, h),
        west: is_ocean_at_position(if x >= 1 { x - 1 } else { 0 }, y, terrain_grid, w, h),
    }
}

/// The coast neighbours of the tile `(x, y)`.
pub fn detect_coast_neighbors(x: u32, y: u32, terrain_grid: &Vec<Vec<TerrainType>>, w: u32, h: u32) -> (r: CoastNeighbors)
    requires
        grid_wf(terrain_grid@, w, h),
        x < w,
        y < h,
    ensures
        r == coast_neighbors_spec(terrain_grid@, w, h, x as int, y as int),
{
    CoastNeighbors {
        north: is_coast_at_position(x, y + 1, terrain_grid, w, h),
        south: is_coast_at_position(x, if y >= 1 { y - 1 } else { 0 }, terrain_grid, w, h),
        east: is_coast_at_position(x + 1, y, terrain_grid, w, h),
        west: is_coast_at_position(if x >= 1 { x - 1 } else { 0 }, y, terrain_grid, w, h),
    }
}

/// The sprite and mirroring of a coast tile, chosen by how many neighbours are ocean
/// and which: four sides use `island_sprite`, three sides sprite 1, two sides sprite 9,
/// one side (or none) sprite 8.
pub open spec fn coast_sprite_spec(o: OceanNeighbors, island_sprite: u32) -> (u32, TileFlip) {
    let n = count4(o.north, o.south, o.east, o.west);
    if n == 4 {
        (island_sprite, flip(false, false, false))
    } else if n == 3 {
        (COAST_THREE_SIDE_SPRITE,
            if !o.north { flip(false, false, true) }
            else if !o.east { flip(true, true, false) }
            else if !o.south { flip(true, true, true) }
            else { flip(false, false, false) })
    } else if n == 2 {
        (COAST_TWO_SIDE_SPRITE,
            if o.north && o.east { flip(false, true, false) }
            else if o.east && o.south { flip(false, false, false) }
            else if o.south && o.west { flip(true, false, false) }
            else if o.west && o.north { flip(true, true, false) }
            else if o.north && o.south { flip(false, false, false) }
            else if o.east && o.west { flip(false, false, true) }
            else { flip(false, false, false) })
    } else if n == 1 {
        (COAST_ONE_SIDE_SPRITE,
            if o.north { flip(true, true, false) }
            else if o.east { flip(false, false, true) }
            else if o.south { flip(false, false, false) }
            else if o.west { flip(true, true, true) }
            else { flip(false, false, false) })
    } else {
        (COAST_ONE_SIDE_SPRITE, flip(false, false, false))
    }
}

/// The coast sprite and flip for a tile with the given ocean neighbours; a tile with
/// ocean on all four sides uses `island_sprite` (the plains sprite of the tile set).
pub fn determine_coast_sprite_and_flip(ocean_neighbors: &OceanNeighbors, island_sprite: u32) -> (r: (u32, TileFlip))
    ensures
        r == coast_sprite_spec(*ocean_neighbors, island_sprite),
{
    let o = ocean_neighbors;
    let ocean_count = o.count_ocean_sides();
    if ocean_count == 4 {
        (island_sprite, make_flip(false, false, false))
    } else if ocean_count == 3 {
        let flip = if !o.north {
            make_flip(false, false, true)
        } else if !o.east {
            make_flip(true, true, false)
        } else if !o.south {
            make_flip(true, true, true)
        } else {
            make_flip(false, false, false)
        };
        (COAST_THREE_SIDE_SPRITE, flip)
    } else if ocean_count == 2 {
        let flip = if o.north && o.east {
            make_flip(false, true, false)
        } else if o.east && o.south {
            make_flip(false, false, false)
        } else if o.south && o.west {
            make_flip(true, false, false)
        } else if o.west && o.north {
            make_flip(true, true, false)
        } else if o.north && o.south {
            make_flip(false, false, false)
        } else if o.east && o.west {
            make_flip(false, false, true)
        } else {
            make_flip(false, false, false)
        };
        (COAST_TWO_SIDE_SPRITE, flip)
    } else if ocean_count == 1 {
        let flip = if o.north {
            make_flip(true, true, false)
        } else if o.east {
            make_flip(false, false, true)
        } else if o.south {
            make_flip(false, false, false)
        } else if o.west {
            make_flip(true, true, true)
        } else {
            make_flip(false, false, false)
        };
        (COAST_ONE_SIDE_SPRITE, flip)
    } else {
        (COAST_ONE_SIDE_SPRITE, make_flip(false, false, false))
    }
}

/// The two conversion passes over the terrain grid.
#[derive(Debug, Clone, Copy, PartialEq, Eq, Structural)]
pub enum ConversionPass {
    /// Land that borders ocean becomes coast.
    LandToCoast,
    /// Ocean that borders coast becomes shallow coast.
    OceanToShallowCoast,
}

/// Whether the cell `(x, y)` is converted by `pass`.
pub open spec fn converts(g: Seq<Vec<TerrainType>>, w: u32, h: u32, x: int, y: int, pass: ConversionPass) -> bool {
    match pass {
        ConversionPass::LandToCoast => {
            let o = ocean_neighbors_spec(g, w, h, x, y);
            land_terrain(cell(g, x, y)) && (o.north || o.south || o.east || o.west)
        },
        ConversionPass::OceanToShallowCoast => {
            let c = coast_neighbors_spec(g, w, h, x, y);
            cell(g, x, y) == TerrainType::Ocean && (c.north || c.south || c.east || c.west)
        },
    }
}

/// The terrain that `pass` gives the cells it converts.
pub open spec fn target_of(pass: ConversionPass) -> TerrainType {
    match pass {
        ConversionPass::LandToCoast => TerrainType::Coast,
        ConversionPass::OceanToShallowCoast => TerrainType::ShallowCoast,
    }
}

/// The grid cell after `pass`: converted cells take the pass's terrain, others keep theirs.
pub open spec fn cell_after(g: Seq<Vec<TerrainType>>, w: u32, h: u32, x: int, y: int, pass: ConversionPass) -> TerrainType {
    if converts(g, w, h, x, y, pass) { target_of(pass) } else { cell(g, x, y) }
}

/// A cell found by a pass scan, with what the scan saw there.
#[derive(Debug, Clone, Copy, PartialEq, Eq, Structural)]
pub struct CellHit {
    pub x: u32,
    pub y: u32,
    pub original_terrain: TerrainType,
}

/// Row-major order on scan hits.
pub open spec fn hit_lt(a: CellHit, b: CellHit) -> bool {
    a.x < b.x || (a.x == b.x && a.y < b.y)
}

/// The hits of a completed scan: in strictly increasing row-major order, exactly the
/// converted cells, each with its original terrain.
pub open spec fn scan_result(g: Seq<Vec<TerrainType>>, w: u32, h: u32, pass: ConversionPass, r: Seq<CellHit>) -> bool {
    &&& forall|i: int, j: int| 0 <= i < j < r.len() ==> hit_lt(#[trigger] r[i], #[trigger] r[j])
    &&& forall|k: int| 0 <= k < r.len() ==> {
        let c = #[trigger] r[k];
        &&& c.x < w && c.y < h
        &&& converts(g, w, h, c.x as int, c.y as int, pass)
        &&& c.original_terrain == cell(g, c.x as int, c.y as int)
    }
    &&& forall|x: int, y: int| 0 <= x < w && 0 <= y < h && converts(g, w, h, x, y, pass)
        ==> exists|k: int| 0 <= k < r.len() && (#[trigger] r[k]).x == x && r[k].y == y
}

/// Scans the whole grid, column by column, for the cells that `pass` converts.
fn scan_pass(terrain_grid: &Vec<Vec<TerrainType>>, w: u32, h: u32, pass: ConversionPass) -> (r: Vec<CellHit>)
    requires
        grid_wf(terrain_grid@, w, h),
    ensures
        scan_result(terrain_grid@, w, h, pass, r@),
{
    let ghost g = terrain_grid@;
    let mut hits: Vec<CellHit> = Vec::new();
    let mut x: u32 = 0;
    while x < w
        invariant
            grid_wf(g, w, h),
            g == terrain_grid@,
            x <= w,
            forall|i: int, j: int| 0 <= i < j < hits@.len() ==> hit_lt(#[trigger] hits@[i], #[trigger] hits@[j]),
            forall|k: int| 0 <= k < hits@.len() ==> {
                let c = #[trigger] hits@[k];
                &&& c.x < x && c.y < h
                &&& converts(g, w, h, c.x as int, c.y as int, pass)
                &&& c.original_terrain == cell(g, c.x as int, c.y as int)
            },
            forall|xx: int, yy: int| 0 <= xx < x && 0 <= yy < h && converts(g, w, h, xx, yy, pass)
                ==> exists|k: int| 0 <= k < hits@.len() && (#[trigger] hits@[k]).x == xx && hits@[k].y == yy,
        decreases w - x,
    {
        let mut y: u32 = 0;
        while y < h
            invariant
                grid_wf(g, w, h),
                g == terrain_grid@,
                x < w,
                y <= h,
                forall|i: int, j: int| 0 <= i < j < hits@.len() ==> hit_lt(#[trigger] hits@[i], #[trigger] hits@[j]),
                forall|k: int| 0 <= k < hits@.len() ==> {
                    let c = #[trigger] hits@[k];
                    &&& (c.x < x || (c.x == x && c.y < y)) && c.y < h
                    &&& converts(g, w, h, c.x as int, c.y as int, pass)
                    &&& c.original_terrain == cell(g, c.x as int, c.y as int)
                },
                forall|xx: int, yy: int| 0 <= yy < h && (0 <= xx < x || (xx == x && 0 <= yy < y)) && converts(g, w, h, xx, yy, pass)
                    ==> exists|k: int| 0 <= k < hits@.len() && (#[trigger] hits@[k]).x == xx && hits@[k].y == yy,
            decreases h - y,
        {
            let current = terrain_grid[x as usize][y as usize];
            let hit = match pass {
                ConversionPass::LandToCoast => {
                    is_land_tile(&current) && detect_ocean_neighbors(x, y, terrain_grid, w, h).has_any_ocean()
                },
                ConversionPass::OceanToShallowCoast => {
                    current == TerrainType::Ocean && detect_coast_neighbors(x, y, terrain_grid, w, h).has_any_coast()
                },
            };
            let ghost before = hits@;
            if hit {
                hits.push(CellHit { x, y, original_terrain: current });
            }
            proof {
                assert forall|xx: int, yy: int| 0 <= yy < h && (0 <= xx < x || (xx == x && 0 <= yy < y + 1)) && converts(g, w, h, xx, yy, pass)
                    implies exists|k: int| 0 <= k < hits@.len() && (#[trigger] hits@[k]).x == xx && hits@[k].y == yy by {
                    if xx == x && yy == y {
                        assert(hits@[hits@.len() - 1].x == xx);
                    } else {
                        let k = choose|k: int| 0 <= k < before.len() && (#[trigger] before[k]).x == xx && before[k].y == yy;
                        assert(hits@[k] == before[k]);
                    }
                }
            }
            y = y + 1;
        }
        x = x + 1;
    }
    hits
}

/// Whether one of the first `k` hits is the cell `(x, y)`.
pub open spec fn among_first(r: Seq<CellHit>, k: int, x: int, y: int) -> bool {
    exists|j: int| 0 <= j < k && (#[trigger] r[j]).x == x && r[j].y == y
}

/// A tile that the coast pass turned into coast, with its sprite and mirroring.
#[derive(Debug, Clone, Copy, PartialEq, Eq, Structural)]
pub struct CoastTileUpdate {
    pub x: u32,
    pub y: u32,
    pub original_terrain: TerrainType,
    pub ocean_neighbors: OceanNeighbors,
    pub sprite_index: u32,
    pub flip: TileFlip,
}

/// The update that the coast pass makes for the land cell `(x, y)` of `g`.
pub open spec fn coast_update_spec(g: Seq<Vec<TerrainType>>, w: u32, h: u32, x: int, y: int, island_sprite: u32) -> CoastTileUpdate {
    let o = ocean_neighbors_spec(g, w, h, x, y);
    CoastTileUpdate {
        x: x as u32,
        y: y as u32,
        original_terrain: cell(g, x, y),
        ocean_neighbors: o,
        sprite_index: coast_sprite_spec(o, island_sprite).0,
        flip: coast_sprite_spec(o, island_sprite).1,
    }
}

/// The world map after a pass over grid `g`: each on-map tile whose cell the pass
/// converts takes the pass's terrain; all else is unchanged.
pub open spec fn map_after_pass(before: WorldMap, after: WorldMap, g: Seq<Vec<TerrainType>>, w: u32, h: u32, pass: ConversionPass) -> bool {
    &&& after.wf()
    &&& after.width == before.width
    &&& after.height == before.height
    &&& forall|p: Position| in_bounds(after.width, after.height, p) ==> (#[trigger] after.tile_at(p)) == (
        if p.x < w && p.y < h && converts(g, w, h, p.x as int, p.y as int, pass) {
            MapTile { terrain: target_of(pass), ..before.tile_at(p) }
        } else {
            before.tile_at(p)
        })
}

/// Applies the scanned hits: each hit cell of the grid and of the world map takes
/// the pass's terrain.
fn apply_hits(
    terrain_grid: &mut Vec<Vec<TerrainType>>,
    w: u32,
    h: u32,
    world_map: &mut WorldMap,
    hits: &Vec<CellHit>,
    pass: ConversionPass,
)
    requires
        grid_wf(old(terrain_grid)@, w, h),
        old(world_map).wf(),
        w <= i32::MAX,
        h <= i32::MAX,
        scan_result(old(terrain_grid)@, w, h, pass, hits@),
    ensures
        grid_wf(final(terrain_grid)@, w, h),
        forall|x: int, y: int| 0 <= x < w && 0 <= y < h ==> #[trigger] cell(final(terrain_grid)@, x, y)
            == cell_after(old(terrain_grid)@, w, h, x, y, pass),
        map_after_pass(*old(world_map), *final(world_map), old(terrain_grid)@, w, h, pass),
{
    let ghost g = terrain_grid@;
    let ghost m0 = *world_map;
    let target = match pass {
        ConversionPass::LandToCoast => TerrainType::Coast,
        ConversionPass::OceanToShallowCoast => TerrainType::ShallowCoast,
    };
    let mut k: usize = 0;
    while k < hits.len()
        invariant
            grid_wf(g, w, h),
            grid_wf(terrain_grid@, w, h),
            scan_result(g, w, h, pass, hits@),
            target == target_of(pass),
            k <= hits@.len(),
            w <= i32::MAX,
            h <= i32::MAX,
            m0.wf(),
            world_map.wf(),
            world_map.width == m0.width,
            world_map.height == m0.height,
            forall|x: int, y: int| 0 <= x < w && 0 <= y < h ==> #[trigger] cell(terrain_grid@, x, y) == (
                if among_first(hits@, k as int, x, y) { target_of(pass) } else { cell(g, x, y) }),
            forall|p: Position| in_bounds(m0.width, m0.height, p) ==> (#[trigger] world_map.tile_at(p)) == (
                if p.x < w && p.y < h && among_first(hits@, k as int, p.x as int, p.y as int) {
                    MapTile { terrain: target_of(pass), ..m0.tile_at(p) }
                } else {
                    m0.tile_at(p)
                }),
        decreases hits@.len() - k,
    {
        let hit = hits[k];
        let ghost grid_before = terrain_grid@;
        let ghost map_before = *world_map;
        terrain_grid[hit.x as usize][hit.y as usize] = target;
        world_map.set_terrain(Position::new(hit.x as i32, hit.y as i32), target);
        proof {
            assert forall|i: int| 0 <= i < w implies (#[trigger] terrain_grid@[i])@.len() == h by {
                if i != hit.x {
                    assert(terrain_grid@[i] == grid_before[i]);
                }
            }
            assert forall|x: int, y: int| 0 <= x < w && 0 <= y < h implies #[trigger] cell(terrain_grid@, x, y) == (
                if among_first(hits@, k + 1, x, y) { target_of(pass) } else { cell(g, x, y) }) by {
                assert(terrain_grid@[hit.x as int]@ == grid_before[hit.x as int]@.update(hit.y as int, target));
                if x == hit.x && y == hit.y {
                    assert(hits@[k as int].x == x && hits@[k as int].y == y);
                } else {
                    if x != hit.x {
                        assert(terrain_grid@[x] == grid_before[x]);
                    } else {
                        assert(cell(terrain_grid@, x, y) == cell(grid_before, x, y));
                    }
                    if among_first(hits@, k + 1, x, y) {
                        let j = choose|j: int| 0 <= j < k + 1 && (#[trigger] hits@[j]).x == x && hits@[j].y == y;
                        assert(j != k);
                        assert(among_first(hits@, k as int, x, y));
                    }
                }
            }
            assert forall|p: Position| in_bounds(m0.width, m0.height, p) implies (#[trigger] world_map.tile_at(p)) == (
                if p.x < w && p.y < h && among_first(hits@, k + 1, p.x as int, p.y as int) {
                    MapTile { terrain: target_of(pass), ..m0.tile_at(p) }
                } else {
                    m0.tile_at(p)
                }) by {
                if p.x == hit.x && p.y == hit.y {
                    assert(hits@[k as int].x == p.x && hits@[k as int].y == p.y);
                    assert(p == Position { x: hit.x as i32, y: hit.y as i32 });
                } else {
                    assert(p != Position { x: hit.x as i32, y: hit.y as i32 });
                    if p.x < w && p.y < h && among_first(hits@, k + 1, p.x as int, p.y as int) {
                        let j = choose|j: int| 0 <= j < k + 1 && (#[trigger] hits@[j]).x == p.x && hits@[j].y == p.y;
                        assert(j != k);
                        assert(among_first(hits@, k as int, p.x as int, p.y as int));
                    }
                }
            }
        }
        k = k + 1;
    }
    proof {
        assert forall|x: int, y: int| 0 <= x < w && 0 <= y < h implies #[trigger] cell(terrain_grid@, x, y)
            == cell_after(g, w, h, x, y, pass) by {
            if among_first(hits@, hits@.len() as int, x, y) {
                let j = choose|j: int| 0 <= j < hits@.len() && (#[trigger] hits@[j]).x == x && hits@[j].y == y;
                assert(converts(g, w, h, x, y, pass));
            }
            if converts(g, w, h, x, y, pass) {
                let j = choose|j: int| 0 <= j < hits@.len() && (#[trigger] hits@[j]).x == x && hits@[j].y == y;
                assert(among_first(hits@, hits@.len() as int, x, y));
            }
        }
        assert forall|p: Position| in_bounds(world_map.width, world_map.height, p) implies (#[trigger] world_map.tile_at(p)) == (
            if p.x < w && p.y < h && converts(g, w, h, p.x as int, p.y as int, pass) {
                MapTile { terrain: target_of(pass), ..m0.tile_at(p) }
            } else {
                m0.tile_at(p)
            }) by {
            if p.x < w && p.y < h {
                if among_first(hits@, hits@.len() as int, p.x as int, p.y as int) {
                    let j = choose|j: int| 0 <= j < hits@.len() && (#[trigger] hits@[j]).x == p.x && hits@[j].y == p.y;
                    assert(converts(g, w, h, p.x as int, p.y as int, pass));
                }
                if converts(g, w, h, p.x as int, p.y as int, pass) {
                    let j = choose|j: int| 0 <= j < hits@.len() && (#[trigger] hits@[j]).x == p.x && hits@[j].y == p.y;
                    assert(among_first(hits@, hits@.len() as int, p.x as int, p.y as int));
                }
            }
        }
    }
}

/// The updates of a completed coast pass: in strictly increasing row-major order,
/// exactly the land cells that border ocean, each with the update that its
/// neighbourhood in `g` calls for.
pub open spec fn coast_updates_result(g: Seq<Vec<TerrainType>>, w: u32, h: u32, island_sprite: u32, r: Seq<CoastTileUpdate>) -> bool {
    &&& forall|i: int, j: int| 0 <= i < j < r.len() ==> (#[trigger] r[i]).x < (#[trigger] r[j]).x
        || (r[i].x == r[j].x && r[i].y < r[j].y)
    &&& forall|k: int| 0 <= k < r.len() ==> {
        let u = #[trigger] r[k];
        &&& u.x < w && u.y < h
        &&& converts(g, w, h, u.x as int, u.y as int, ConversionPass::LandToCoast)
        &&& u == coast_update_spec(g, w, h, u.x as int, u.y as int, island_sprite)
    }
    &&& forall|x: int, y: int| 0 <= x < w && 0 <= y < h && converts(g, w, h, x, y, ConversionPass::LandToCoast)
        ==> exists|k: int| 0 <= k < r.len() && (#[trigger] r[k]).x == x && r[k].y == y
}

/// Coast pass: every land tile (any terrain but ocean) that has ocean to the north,
/// south, east or west becomes coast, in the grid and in the world map. Returns, in
/// row-major order, each converted tile with its sprite and mirroring; a tile with
/// ocean on all four sides uses `island_sprite`.
pub fn update_coast_tiles_pass(
    terrain_types: &mut Vec<Vec<TerrainType>>,
    w: u32,
    h: u32,
    world_map: &mut WorldMap,
    island_sprite: u32,
) -> (r: Vec<CoastTileUpdate>)
    requires
        grid_wf(old(terrain_types)@, w, h),
        old(world_map).wf(),
        w <= i32::MAX,
        h <= i32::MAX,
    ensures
        grid_wf(final(terrain_types)@, w, h),
        forall|x: int, y: int| 0 <= x < w && 0 <= y < h ==> #[trigger] cell(final(terrain_types)@, x, y)
            == cell_after(old(terrain_types)@, w, h, x, y, ConversionPass::LandToCoast),
        map_after_pass(*old(world_map), *final(world_map), old(terrain_types)@, w, h, ConversionPass::LandToCoast),
        coast_updates_result(old(terrain_types)@, w, h, island_sprite, r@),
{
    let ghost g = terrain_types@;
    let hits = scan_pass(terrain_types, w, h, ConversionPass::LandToCoast);
    let mut updates: Vec<CoastTileUpdate> = Vec::new();
    let mut k: usize = 0;
    while k < hits.len()
        invariant
            g == terrain_types@,
            grid_wf(g, w, h),
            scan_result(g, w, h, ConversionPass::LandToCoast, hits@),
            k <= hits@.len(),
            updates@.len() == k,
            forall|j: int| 0 <= j < k ==> #[trigger] updates@[j] == coast_update_spec(g, w, h, hits@[j].x as int, hits@[j].y as int, island_sprite),
        decreases hits@.len() - k,
    {
        let hit = hits[k];
        let ocean_neighbors = detect_ocean_neighbors(hit.x, hit.y, terrain_types, w, h);
        let (sprite_index, flip) = determine_coast_sprite_and_flip(&ocean_neighbors, island_sprite);
        updates.push(CoastTileUpdate {
            x: hit.x,
            y: hit.y,
            original_terrain: hit.original_terrain,
            ocean_neighbors,
            sprite_index,
            flip,
        });
        k = k + 1;
    }
    apply_hits(terrain_types, w, h, world_map, &hits, ConversionPass::LandToCoast);
    proof {
        assert forall|x: int, y: int| 0 <= x < w && 0 <= y < h && converts(g, w, h, x, y, ConversionPass::LandToCoast)
            implies exists|k: int| 0 <= k < updates@.len() && (#[trigger] updates@[k]).x == x && updates@[k].y == y by {
            let k = choose|k: int| 0 <= k < hits@.len() && (#[trigger] hits@[k]).x == x && hits@[k].y == y;
            assert(updates@[k].x == x);
        }
        assert forall|i: int, j: int| 0 <= i < j < updates@.len() implies (#[trigger] updates@[i]).x < (#[trigger] updates@[j]).x
            || (updates@[i].x == updates@[j].x && updates@[i].y < updates@[j].y) by {
            assert(hit_lt(hits@[i], hits@[j]));
        }
    }
    updates
}

/// Shallow coast pass: every ocean tile that has coast to the north, south, east or
/// west becomes shallow coast, in the grid and in the world map. Returns the converted
/// tiles in row-major order.
pub fn update_shallow_coast_tiles_pass(
    terrain_types: &mut Vec<Vec<TerrainType>>,
    w: u32,
    h: u32,
    world_map: &mut WorldMap,
) -> (r: Vec<CellHit>)
    requires
        grid_wf(old(terrain_types)@, w, h),
        old(world_map).wf(),
        w <= i32::MAX,
        h <= i32::MAX,
    ensures
        grid_wf(final(terrain_types)@, w, h),
        forall|x: int, y: int| 0 <= x < w && 0 <= y < h ==> #[trigger] cell(final(terrain_types)@, x, y)
            == cell_after(old(terrain_types)@, w, h, x, y, ConversionPass::OceanToShallowCoast),
        map_after_pass(*old(world_map), *final(world_map), old(terrain_types)@, w, h, ConversionPass::OceanToShallowCoast),
        scan_result(old(terrain_types)@, w, h, ConversionPass::OceanToShallowCoast, r@),
{
    let hits = scan_pass(terrain_types, w, h, ConversionPass::OceanToShallowCoast);
    apply_hits(terrain_types, w, h, world_map, &hits, ConversionPass::OceanToShallowCoast);
    hits
}

/// The coast pass neither creates nor removes ocean, so a cell's ocean neighbours are
/// the same before and after it.
pub proof fn lemma_coast_pass_keeps_ocean(g: Seq<Vec<TerrainType>>, g2: Seq<Vec<TerrainType>>, w: u32, h: u32)
    requires
        grid_wf(g, w, h),
        grid_wf(g2, w, h),
        forall|x: int, y: int| 0 <= x < w && 0 <= y < h ==> #[trigger] cell(g2, x, y)
            == cell_after(g, w, h, x, y, ConversionPass::LandToCoast),
    ensures
        forall|x: int, y: int| 0 <= x < w && 0 <= y < h ==>
            (cell(g2, x, y) == TerrainType::Ocean) == (#[trigger] cell(g, x, y) == TerrainType::Ocean),
        forall|x: int, y: int| #[trigger] ocean_neighbors_spec(g2, w, h, x, y) == ocean_neighbors_spec(g, w, h, x, y),
{
    assert forall|x: int, y: int| 0 <= x < w && 0 <= y < h implies
        (cell(g2, x, y) == TerrainType::Ocean) == (#[trigger] cell(g, x, y) == TerrainType::Ocean) by {
        assert(cell(g2, x, y) == cell_after(g, w, h, x, y, ConversionPass::LandToCoast));
    }
    assert forall|x: int, y: int| #[trigger] ocean_neighbors_spec(g2, w, h, x, y) == ocean_neighbors_spec(g, w, h, x, y) by {
        assert forall|a: int, b: int| #[trigger] cell_is(g2, w, h, a, b, TerrainType::Ocean) == cell_is(g, w, h, a, b, TerrainType::Ocean) by {
            if 0 <= a < w && 0 <= b < h {
                assert(cell(g2, a, b) == cell_after(g, w, h, a, b, ConversionPass::LandToCoast));
            }
        }
    }
}

/// After the coast pass every land cell that borders ocean is coast, and running the
/// pass a second time changes nothing.
pub proof fn lemma_coast_pass_settles(g: Seq<Vec<TerrainType>>, g2: Seq<Vec<TerrainType>>, w: u32, h: u32)
    requires
        grid_wf(g, w, h),
        grid_wf(g2, w, h),
        forall|x: int, y: int| 0 <= x < w && 0 <= y < h ==> #[trigger] cell(g2, x, y)
            == cell_after(g, w, h, x, y, ConversionPass::LandToCoast),
    ensures
        forall|x: int, y: int| 0 <= x < w && 0 <= y < h && #[trigger] converts(g2, w, h, x, y, ConversionPass::LandToCoast)
            ==> cell(g2, x, y) == TerrainType::Coast,
        forall|x: int, y: int| 0 <= x < w && 0 <= y < h ==>
            #[trigger] cell_after(g2, w, h, x, y, ConversionPass::LandToCoast) == cell(g2, x, y),
{
    lemma_coast_pass_keeps_ocean(g, g2, w, h);
    assert forall|x: int, y: int| 0 <= x < w && 0 <= y < h && #[trigger] converts(g2, w, h, x, y, ConversionPass::LandToCoast)
        implies cell(g2, x, y) == TerrainType::Coast by {
        assert(ocean_neighbors_spec(g2, w, h, x, y) == ocean_neighbors_spec(g, w, h, x, y));
        assert(cell(g2, x, y) == cell_after(g, w, h, x, y, ConversionPass::LandToCoast));
    }
    assert forall|x: int, y: int| 0 <= x < w && 0 <= y < h implies
        #[trigger] cell_after(g2, w, h, x, y, ConversionPass::LandToCoast) == cell(g2, x, y) by {
        assert(ocean_neighbors_spec(g2, w, h, x, y) == ocean_neighbors_spec(g, w, h, x, y));
        assert(cell(g2, x, y) == cell_after(g, w, h, x, y, ConversionPass::LandToCoast));
    }
}

/// After the shallow coast pass no ocean cell borders coast, and running the pass a
/// second time changes nothing.
pub proof fn lemma_shallow_pass_settles(g: Seq<Vec<TerrainType>>, g2: Seq<Vec<TerrainType>>, w: u32, h: u32)
    requires
        grid_wf(g, w, h),
        grid_wf(g2, w, h),
        forall|x: int, y: int| 0 <= x < w && 0 <= y < h ==> #[trigger] cell(g2, x, y)
            == cell_after(g, w, h, x, y, ConversionPass::OceanToShallowCoast),
    ensures
        forall|x: int, y: int| 0 <= x < w && 0 <= y < h ==>
            !#[trigger] converts(g2, w, h, x, y, ConversionPass::OceanToShallowCoast),
        forall|x: int, y: int| 0 <= x < w && 0 <= y < h ==>
            #[trigger] cell_after(g2, w, h, x, y, ConversionPass::OceanToShallowCoast) == cell(g2, x, y),
{
    assert forall|a: int, b: int| #[trigger] cell_is(g2, w, h, a, b, TerrainType::Coast) == cell_is(g, w, h, a, b, TerrainType::Coast) by {
        if 0 <= a < w && 0 <= b < h {
            assert(cell(g2, a, b) == cell_after(g, w, h, a, b, ConversionPass::OceanToShallowCoast));
        }
    }
    assert forall|x: int, y: int| 0 <= x < w && 0 <= y < h implies
        !#[trigger] converts(g2, w, h, x, y, ConversionPass::OceanToShallowCoast) by {
        assert(coast_neighbors_spec(g2, w, h, x, y) == coast_neighbors_spec(g, w, h, x, y));
        assert(cell(g2, x, y) == cell_after(g, w, h, x, y, ConversionPass::OceanToShallowCoast));
    }
}

/// The coast pass turns a land cell into coast exactly when a cell right beside it on
/// the grid, in a row up to `NEIGHBOR_SCAN_ROW_LIMIT`, is ocean: the cell to the north
/// `(x, y + 1)`, to the south `(x, y - 1)`, to the east `(x + 1, y)` or to the west
/// `(x - 1, y)`; every other cell keeps its terrain. The ocean neighbours it reports are
/// those same cells.
pub proof fn lemma_coast_pass_converts_land_beside_ocean(g: Seq<Vec<TerrainType>>, w: u32, h: u32, x: int, y: int)
    requires
        grid_wf(g, w, h),
        0 <= x < w,
        0 <= y < h,
    ensures
        ocean_neighbors_spec(g, w, h, x, y).north
            == (y + 1 < h && y + 1 <= NEIGHBOR_SCAN_ROW_LIMIT && g[x]@[y + 1] == TerrainType::Ocean),
        ocean_neighbors_spec(g, w, h, x, y).east
            == (x + 1 < w && y <= NEIGHBOR_SCAN_ROW_LIMIT && g[x + 1]@[y] == TerrainType::Ocean),
        y >= 1 ==> ocean_neighbors_spec(g, w, h, x, y).south
            == (y - 1 <= NEIGHBOR_SCAN_ROW_LIMIT && g[x]@[y - 1] == TerrainType::Ocean),
        x >= 1 ==> ocean_neighbors_spec(g, w, h, x, y).west
            == (y <= NEIGHBOR_SCAN_ROW_LIMIT && g[x - 1]@[y] == TerrainType::Ocean),
        cell_after(g, w, h, x, y, ConversionPass::LandToCoast) == (
            if g[x]@[y] != TerrainType::Ocean && (
                (y + 1 < h && y + 1 <= NEIGHBOR_SCAN_ROW_LIMIT && g[x]@[y + 1] == TerrainType::Ocean)
                || (y >= 1 && y - 1 <= NEIGHBOR_SCAN_ROW_LIMIT && g[x]@[y - 1] == TerrainType::Ocean)
                || (x + 1 < w && y <= NEIGHBOR_SCAN_ROW_LIMIT && g[x + 1]@[y] == TerrainType::Ocean)
                || (x >= 1 && y <= NEIGHBOR_SCAN_ROW_LIMIT && g[x - 1]@[y] == TerrainType::Ocean)) {
                TerrainType::Coast
            } else {
                g[x]@[y]
            }),
        g[x]@[y] != TerrainType::Ocean && y + 1 < h && y + 1 <= NEIGHBOR_SCAN_ROW_LIMIT && g[x]@[y + 1] == TerrainType::Ocean
            ==> coast_update_spec(g, w, h, x, y, 0).ocean_neighbors.north,
{
}

/// The shallow coast pass turns an ocean cell into shallow coast exactly when a cell
/// right beside it on the grid (north `(x, y + 1)`, south `(x, y - 1)`, east `(x + 1, y)`,
/// west `(x - 1, y)`), in a row up to `NEIGHBOR_SCAN_ROW_LIMIT`, is coast; every other
/// cell keeps its terrain.
pub proof fn lemma_shallow_pass_converts_ocean_beside_coast(g: Seq<Vec<TerrainType>>, w: u32, h: u32, x: int, y: int)
    requires
        grid_wf(g, w, h),
        0 <= x < w,
        0 <= y < h,
    ensures
        cell_after(g, w, h, x, y, ConversionPass::OceanToShallowCoast) == (
            if g[x]@[y] == TerrainType::Ocean && (
                (y + 1 < h && y + 1 <= NEIGHBOR_SCAN_ROW_LIMIT && g[x]@[y + 1] == TerrainType::Coast)
                || (y >= 1 && y - 1 <= NEIGHBOR_SCAN_ROW_LIMIT && g[x]@[y - 1] == TerrainType::Coast)
                || (x + 1 < w && y <= NEIGHBOR_SCAN_ROW_LIMIT && g[x + 1]@[y] == TerrainType::Coast)
                || (x >= 1 && y <= NEIGHBOR_SCAN_ROW_LIMIT && g[x - 1]@[y] == TerrainType::Coast)) {
                TerrainType::ShallowCoast
            } else {
                g[x]@[y]
            }),
{
}

/// The sprite of a coast tile depends only on how many of its neighbours are ocean:
/// sprite 8 for one side (or none), 9 for two, 1 for three, `island_sprite` for four.
/// Turning the neighbourhood half way round (north and south swapped, east and west
/// swapped) mirrors the tile in both x and y and keeps its sprite, except for a tile with
/// ocean on two opposite sides, which that turn leaves as it is.
pub proof fn lemma_coast_sprite_by_sides(o: OceanNeighbors, island_sprite: u32)
    ensures
        ({
            let n = (if o.north { 1int } else { 0 }) + (if o.south { 1int } else { 0 })
                + (if o.east { 1int } else { 0 }) + (if o.west { 1int } else { 0 });
            coast_sprite_spec(o, island_sprite).0 == (if n == 4 { island_sprite } else if n == 3 { 1 } else if n == 2 { 9 } else { 8 })
        }),
        ({
            let turned = OceanNeighbors { north: o.south, south: o.north, east: o.west, west: o.east };
            let (sprite, f) = coast_sprite_spec(o, island_sprite);
            let (sprite2, f2) = coast_sprite_spec(turned, island_sprite);
            let n = (if o.north { 1int } else { 0 }) + (if o.south { 1int } else { 0 })
                + (if o.east { 1int } else { 0 }) + (if o.west { 1int } else { 0 });
            let opposite = (o.north && o.south && !o.east && !o.west) || (o.east && o.west && !o.north && !o.south);
            &&& sprite2 == sprite
            &&& (1 <= n <= 3 && !opposite ==> f2 == (TileFlip { x: !f.x, y: !f.y, d: f.d }))
            &&& ((n == 0 || n == 4 || opposite) ==> f2 == f)
        }),
{
}

} // verus!
