use vstd::prelude::*;
use std::collections::hash_map::DefaultHasher;
use std::hash::{Hash, Hasher};
use crate::civ::CivId;
use crate::position::Position;
use crate::terrain::terrain_name;
use crate::world_map::{MapTile, WorldMap, in_bounds};
use crate::fog_of_war::lex_lt;
use vstd::string::StrSliceExecFns;

verus! {

/// Spacing, in tiles along each axis, of the tiles that a world checksum samples.
pub const CHECKSUM_SAMPLE_SPACING: u32 = 10;

/// What a world checksum reads of a tile: its terrain's name and its owner's number.
pub open spec fn tile_sample(t: MapTile) -> (Seq<char>, Option<u32>) {
    (terrain_name(t.terrain), match t.owner { Some(c) => Some(c.0), None => None })
}

/// The number of sampled coordinates below `n`: `0, 10, 20, ...`.
pub open spec fn sample_count(n: u32) -> nat {
    ((n as nat + 9) / 10) as nat
}

/// The samples of column `x`, from the top, every tenth row.
pub open spec fn column_samples(map: WorldMap, x: int) -> Seq<(Seq<char>, Option<u32>)> {
    Seq::new(sample_count(map.height), |j: int| tile_sample(map.tiles@[x]@[10 * j]))
}

/// The samples of the first `cols` sampled columns, column after column.
pub open spec fn samples_upto(map: WorldMap, cols: nat) -> Seq<(Seq<char>, Option<u32>)>
    decreases cols,
{
    if cols == 0 {
        Seq::empty()
    } else {
        samples_upto(map, (cols - 1) as nat) + column_samples(map, 10 * (cols - 1))
    }
}

/// The tiles that a world checksum reads: every tenth column, and in each every tenth row.
pub open spec fn world_samples(map: WorldMap) -> Seq<(Seq<char>, Option<u32>)> {
    samples_upto(map, sample_count(map.width))
}

/// The checksum that `std`'s `DefaultHasher`, as created by `DefaultHasher::new`, gives
/// after hashing the width, the height and then each sample (its name, then its owner).
pub uninterp spec fn default_hasher_world_checksum(width: u32, height: u32, samples: Seq<(Seq<char>, Option<u32>)>) -> u64;

/// The samples with each name taken as its characters.
pub open spec fn samples_view(s: Seq<(String, Option<u32>)>) -> Seq<(Seq<char>, Option<u32>)> {
    Seq::new(s.len(), |i: int| (s[i].0@, s[i].1))
}

/// Hashes the width, the height and the samples with a fresh `DefaultHasher`
/// (`DefaultHasher::new`, `Hash::hash` on each dimension, `Hash::hash_slice` on the
/// samples, which hashes each in turn without their count, then `Hasher::finish`).
/// `DefaultHasher::new` gives the same hasher every time, so the result depends on the
/// arguments alone; it is named, not stated.
#[verifier::external_body]
fn hash_world_samples(width: u32, height: u32, samples: &Vec<(String, Option<u32>)>) -> (r: u64)
    ensures
        r == default_hasher_world_checksum(width, height, samples_view(samples@)),
{
    let mut hasher = DefaultHasher::new();
    width.hash(&mut hasher);
    height.hash(&mut hasher);
    <(String, Option<u32>)>::hash_slice(samples.as_slice(), &mut hasher);
    hasher.finish()
}

/// Saving, loading and checking game state.
pub struct GameSerializer;

impl GameSerializer {
    /// The samples that a world checksum hashes, in order: for every tenth column, every
    /// tenth row of it, the tile's terrain name and owner.
    pub fn checksum_samples(world_map: &WorldMap) -> (r: Vec<(String, Option<u32>)>)
        requires
            world_map.wf(),
        ensures
            samples_view(r@) == world_samples(*world_map),
    {
        let mut samples: Vec<(String, Option<u32>)> = Vec::new();
        let width = world_map.width as u64;
        let height = world_map.height as u64;
        let mut x: u64 = 0;
        let ghost mut cols: nat = 0;
        while x < width
            invariant
                world_map.wf(),
                width == world_map.width,
                height == world_map.height,
                x == 10 * cols,
                x <= width + 9,
                samples_view(samples@) == samples_upto(*world_map, cols),
            decreases width + 10 - x,
        {
            let ghost before = samples_view(samples@);
            let mut y: u64 = 0;
            let ghost mut rows: nat = 0;
            while y < height
                invariant
                    world_map.wf(),
                    width == world_map.width,
                    height == world_map.height,
                    x < width,
                    x == 10 * cols,
                    y == 10 * rows,
                    y <= height + 9,
                    samples_view(samples@) == before + column_samples(*world_map, x as int).take(rows as int),
                    rows <= sample_count(world_map.height),
                decreases height + 10 - y,
            {
                assert(rows < sample_count(world_map.height));
                let tile = &world_map.tiles[x as usize][y as usize];
                let owner: Option<u32> = match tile.owner {
                    Some(c) => Some(c.0),
                    None => None,
                };
                let ghost prev = samples@;
                samples.push((tile.terrain.name(), owner));
                proof {
                    assert(column_samples(*world_map, x as int)[rows as int] == tile_sample(*tile));
                    assert(samples_view(samples@) =~= samples_view(prev).push(tile_sample(*tile)));
                    assert(column_samples(*world_map, x as int).take(rows + 1int)
                        =~= column_samples(*world_map, x as int).take(rows as int).push(tile_sample(*tile)));
                    rows = rows + 1;
                }
                y = y + 10;
            }
            proof {
                assert(rows == sample_count(world_map.height));
                assert(column_samples(*world_map, x as int).take(rows as int) =~= column_samples(*world_map, x as int));
                cols = cols + 1;
                assert(samples_upto(*world_map, cols) == samples_upto(*world_map, (cols - 1) as nat)
                    + column_samples(*world_map, 10 * (cols - 1)));
            }
            x = x + 10;
        }
        proof {
            assert(cols == sample_count(world_map.width));
        }
        samples
    }

    /// A checksum of the world map: `DefaultHasher` over the width, the height, and the
    /// terrain name and owner of every tenth tile along each axis.
    pub fn calculate_world_checksum(world_map: &WorldMap) -> (r: u64)
        requires
            world_map.wf(),
        ensures
            r == default_hasher_world_checksum(world_map.width, world_map.height, world_samples(*world_map)),
    {
        let samples = Self::checksum_samples(world_map);
        hash_world_samples(world_map.width, world_map.height, &samples)
    }
}

/// Whether `pat` occurs in `text` as a run of consecutive characters (the empty text
/// occurs everywhere).
pub open spec fn seq_contains(text: Seq<char>, pat: Seq<char>) -> bool {
    exists|i: int| 0 <= i <= text.len() - pat.len() && #[trigger] text.subrange(i, i + pat.len()) == pat
}

/// The characters of `s`.
fn chars_of(s: &str) -> (r: Vec<char>)
    ensures
        r@ == s@,
{
    let n = s.unicode_len();
    let mut r: Vec<char> = Vec::new();
    let mut i: usize = 0;
    while i < n
        invariant
            n == s@.len(),
            i <= n,
            r@ == s@.take(i as int),
        decreases n - i,
    {
        let c = s.get_char(i);
        r.push(c);
        i = i + 1;
        proof {
            assert(r@ =~= s@.take(i as int));
        }
    }
    proof {
        assert(s@.take(n as int) =~= s@);
    }
    r
}

/// Whether `pat` occurs in `text`, as `str::contains` with a string pattern answers.
pub fn text_contains(text: &str, pat: &str) -> (b: bool)
    ensures
        b == seq_contains(text@, pat@),
{
    let t = chars_of(text);
    let p = chars_of(pat);
    if p.len() > t.len() {
        return false;
    }
    let last = t.len() - p.len();
    let mut i: usize = 0;
    while i <= last
        invariant
            t@ == text@,
            p@ == pat@,
            t@.len() <= usize::MAX,
            last == t@.len() - p@.len(),
            i <= last + 1,
            forall|k: int| 0 <= k < i ==> #[trigger] t@.subrange(k, k + p@.len()) != p@,
        decreases last + 1 - i,
    {
        let mut j: usize = 0;
        while j < p.len()
            invariant
                t@ == text@,
                p@ == pat@,
                t@.len() <= usize::MAX,
                last == t@.len() - p@.len(),
                i <= last,
                j <= p@.len(),
                forall|m: int| 0 <= m < j ==> t@[i + m] == p@[m],
            ensures
                j <= p@.len(),
                forall|m: int| 0 <= m < j ==> t@[i + m] == p@[m],
                j < p@.len() ==> t@[i + j] != p@[j as int],
            decreases p@.len() - j,
        {
            if t[i + j] != p[j] {
                break;
            }
            j = j + 1;
        }
        if j == p.len() {
            proof {
                assert(t@.subrange(i as int, i + p@.len()) =~= p@);
            }
            return true;
        }
        proof {
            assert(t@[i + j] != p@[j as int]);
            assert(t@.subrange(i as int, i + p@.len())[j as int] == t@[i + j]);
        }
        i = i + 1;
    }
    proof {
        assert forall|k: int| 0 <= k <= text@.len() - pat@.len() implies #[trigger] text@.subrange(k, k + pat@.len()) != pat@ by {
            assert(t@.subrange(k, k + p@.len()) != p@);
        }
    }
    false
}

/// Whether a tile holds a city whose name contains `name`.
pub open spec fn city_matches(t: MapTile, name: Seq<char>) -> bool {
    match t.city {
        Some(c) => seq_contains(c@, name),
        None => false,
    }
}

/// Building and taking apart the ECS world.
pub struct EcsSerializer;

impl EcsSerializer {
    /// The first position, column after column and top to bottom in each, whose tile
    /// holds a city whose name contains `city_name`.
    pub fn find_city_position(world_map: &WorldMap, city_name: &str) -> (r: Option<Position>)
        requires
            world_map.wf(),
        ensures
            match r {
                Some(p) => in_bounds(world_map.width, world_map.height, p)
                    && city_matches(world_map.tile_at(p), city_name@)
                    && forall|q: Position| in_bounds(world_map.width, world_map.height, q) && lex_lt(q, p)
                        ==> !city_matches(#[trigger] world_map.tile_at(q), city_name@),
                None => forall|q: Position| in_bounds(world_map.width, world_map.height, q)
                    ==> !city_matches(#[trigger] world_map.tile_at(q), city_name@),
            },
    {
        let mut x: u32 = 0;
        while x < world_map.width
            invariant
                world_map.wf(),
                x <= world_map.width,
                forall|q: Position| in_bounds(world_map.width, world_map.height, q) && q.x < x
                    ==> !city_matches(#[trigger] world_map.tile_at(q), city_name@),
            decreases world_map.width - x,
        {
            let mut y: u32 = 0;
            while y < world_map.height
                invariant
                    world_map.wf(),
                    x < world_map.width,
                    y <= world_map.height,
                    forall|q: Position| in_bounds(world_map.width, world_map.height, q) && (q.x < x || (q.x == x && q.y < y))
                        ==> !city_matches(#[trigger] world_map.tile_at(q), city_name@),
                decreases world_map.height - y,
            {
                let pos = Position::new(x as i32, y as i32);
                let tile = &world_map.tiles[x as usize][y as usize];
                assert(*tile == world_map.tile_at(pos));
                let found = match &tile.city {
                    Some(name) => text_contains(name.as_str(), city_name),
                    None => false,
                };
                if found {
                    return Some(pos);
                }
                y = y + 1;
            }
            x = x + 1;
        }
        None
    }
}

/// An inconsistency in a saved game.
#[derive(Debug, Clone, Copy, PartialEq, Eq, Structural)]
pub enum ValidationError {
    /// A civilization is filed under another identifier than its own.
    CivIdMismatch(CivId),
    /// A civilization's capital stands on a tile that it does not own.
    CapitalNotOwnedByOwner(CivId),
    /// A civilization's capital lies off the map.
    CapitalOutsideMap(CivId),
    /// A tile is owned by a civilization that the game does not have.
    OrphanedTerritory(Position, CivId),
}

/// A civilization as the integrity check reads it: the identifier it is filed under,
/// the identifier it carries, and its capital.
#[derive(Debug, Clone, Copy)]
pub struct CivRecord {
    pub key: CivId,
    pub id: CivId,
    pub capital: Option<Position>,
}

/// The inconsistencies of one civilization: a mismatched identifier, then a capital off
/// the map or on a tile that it does not own.
pub open spec fn record_errors(map: WorldMap, r: CivRecord) -> Seq<ValidationError> {
    (if r.id != r.key { seq![ValidationError::CivIdMismatch(r.key)] } else { Seq::empty() })
    + match r.capital {
        None => Seq::empty(),
        Some(p) => if !in_bounds(map.width, map.height, p) {
            seq![ValidationError::CapitalOutsideMap(r.key)]
        } else if map.tile_at(p).owner != Some(r.key) {
            seq![ValidationError::CapitalNotOwnedByOwner(r.key)]
        } else {
            Seq::empty()
        },
    }
}

/// The inconsistencies of the civilizations, one after the other.
pub open spec fn records_errors(map: WorldMap, recs: Seq<CivRecord>) -> Seq<ValidationError>
    decreases recs.len(),
{
    if recs.len() == 0 {
        Seq::empty()
    } else {
        records_errors(map, recs.drop_last()) + record_errors(map, recs.last())
    }
}

/// Whether some civilization is filed under `c`.
pub open spec fn is_filed(recs: Seq<CivRecord>, c: CivId) -> bool {
    exists|i: int| 0 <= i < recs.len() && (#[trigger] recs[i]).key == c
}

/// The orphaned tile at `p`, if it is one.
pub open spec fn orphan_at(map: WorldMap, recs: Seq<CivRecord>, p: Position) -> Seq<ValidationError> {
    match map.tile_at(p).owner {
        Some(o) => if is_filed(recs, o) { Seq::empty() } else { seq![ValidationError::OrphanedTerritory(p, o)] },
        None => Seq::empty(),
    }
}

/// The orphaned tiles among the first `rows` tiles of column `x`.
pub open spec fn column_orphans(map: WorldMap, recs: Seq<CivRecord>, x: int, rows: nat) -> Seq<ValidationError>
    decreases rows,
{
    if rows == 0 {
        Seq::empty()
    } else {
        column_orphans(map, recs, x, (rows - 1) as nat)
            + orphan_at(map, recs, Position { x: x as i32, y: (rows - 1) as i32 })
    }
}

/// The orphaned tiles of the first `cols` columns, column after column.
pub open spec fn orphans_upto(map: WorldMap, recs: Seq<CivRecord>, cols: nat) -> Seq<ValidationError>
    decreases cols,
{
    if cols == 0 {
        Seq::empty()
    } else {
        orphans_upto(map, recs, (cols - 1) as nat) + column_orphans(map, recs, cols - 1, map.height as nat)
    }
}

/// Every inconsistency of a saved game: those of each civilization in turn, then every
/// orphaned tile, column after column.
pub open spec fn validation_errors(map: WorldMap, recs: Seq<CivRecord>) -> Seq<ValidationError> {
    records_errors(map, recs) + orphans_upto(map, recs, map.width as nat)
}

/// Whether the problem `e` concerns the civilization `r`: it carries another identifier
/// than the one it is filed under, or its capital lies off the map, or on a tile of the
/// map that it does not own.
pub open spec fn record_has(map: WorldMap, r: CivRecord, e: ValidationError) -> bool {
    match e {
        ValidationError::CivIdMismatch(k) => r.key == k && r.id != k,
        ValidationError::CapitalOutsideMap(k) => r.key == k && match r.capital {
            Some(p) => !in_bounds(map.width, map.height, p),
            None => false,
        },
        ValidationError::CapitalNotOwnedByOwner(k) => r.key == k && match r.capital {
            Some(p) => in_bounds(map.width, map.height, p) && map.tile_at(p).owner != Some(k),
            None => false,
        },
        ValidationError::OrphanedTerritory(_, _) => false,
    }
}

/// Whether a saved game with the civilizations `recs` on `map` has the problem `e`.
pub open spec fn has_problem(map: WorldMap, recs: Seq<CivRecord>, e: ValidationError) -> bool {
    match e {
        ValidationError::OrphanedTerritory(p, o) => in_bounds(map.width, map.height, p)
            && map.tile_at(p).owner == Some(o) && !is_filed(recs, o),
        _ => exists|i: int| 0 <= i < recs.len() && record_has(map, #[trigger] recs[i], e),
    }
}

/// No two civilizations are filed under one identifier.
pub open spec fn unique_record_keys(recs: Seq<CivRecord>) -> bool {
    forall|i: int, j: int| 0 <= i < j < recs.len() ==> (#[trigger] recs[i]).key != (#[trigger] recs[j]).key
}

/// The civilization that a problem of a civilization concerns.
spec fn problem_key(e: ValidationError) -> CivId {
    match e {
        ValidationError::CivIdMismatch(k) => k,
        ValidationError::CapitalOutsideMap(k) => k,
        ValidationError::CapitalNotOwnedByOwner(k) => k,
        ValidationError::OrphanedTerritory(_, o) => o,
    }
}

proof fn lemma_record_errors(map: WorldMap, r: CivRecord)
    ensures
        forall|e: ValidationError| #[trigger] record_errors(map, r).contains(e) <==> record_has(map, r, e),
        record_errors(map, r).no_duplicates(),
{
    let a: Seq<ValidationError> = if r.id != r.key { seq![ValidationError::CivIdMismatch(r.key)] } else { Seq::empty() };
    let b: Seq<ValidationError> = match r.capital {
        None => Seq::empty(),
        Some(p) => if !in_bounds(map.width, map.height, p) {
            seq![ValidationError::CapitalOutsideMap(r.key)]
        } else if map.tile_at(p).owner != Some(r.key) {
            seq![ValidationError::CapitalNotOwnedByOwner(r.key)]
        } else {
            Seq::empty()
        },
    };
    assert(record_errors(map, r) == a + b);
    assert forall|e: ValidationError| #[trigger] record_errors(map, r).contains(e) <==> record_has(map, r, e) by {
        vstd::seq_lib::lemma_seq_concat_contains_all_elements(a, b, e);
        if a.len() > 0 {
            assert(a[0] == ValidationError::CivIdMismatch(r.key));
            assert(a.contains(e) <==> e == ValidationError::CivIdMismatch(r.key));
        }
        if b.len() > 0 {
            assert(b.contains(e) <==> e == b[0]);
        }
    }
    vstd::seq_lib::lemma_no_dup_in_concat(a, b);
}

proof fn lemma_records_errors(map: WorldMap, recs: Seq<CivRecord>)
    requires
        unique_record_keys(recs),
    ensures
        forall|e: ValidationError| #[trigger] records_errors(map, recs).contains(e)
            <==> exists|i: int| 0 <= i < recs.len() && record_has(map, #[trigger] recs[i], e),
        records_errors(map, recs).no_duplicates(),
    decreases recs.len(),
{
    if recs.len() > 0 {
        let init = recs.drop_last();
        let r = recs.last();
        assert(unique_record_keys(init)) by {
            assert forall|i: int, j: int| 0 <= i < j < init.len() implies (#[trigger] init[i]).key != (#[trigger] init[j]).key by {
                assert(init[i] == recs[i] && init[j] == recs[j]);
            }
        }
        lemma_records_errors(map, init);
        lemma_record_errors(map, r);
        let a = records_errors(map, init);
        let b = record_errors(map, r);
        assert forall|e: ValidationError| #[trigger] records_errors(map, recs).contains(e)
            <==> exists|i: int| 0 <= i < recs.len() && record_has(map, #[trigger] recs[i], e) by {
            vstd::seq_lib::lemma_seq_concat_contains_all_elements(a, b, e);
            if a.contains(e) {
                let i = choose|i: int| 0 <= i < init.len() && record_has(map, #[trigger] init[i], e);
                assert(recs[i] == init[i]);
            }
            if b.contains(e) {
                assert(recs[recs.len() - 1] == r);
            }
            if exists|i: int| 0 <= i < recs.len() && record_has(map, #[trigger] recs[i], e) {
                let i = choose|i: int| 0 <= i < recs.len() && record_has(map, #[trigger] recs[i], e);
                if i < recs.len() - 1 {
                    assert(init[i] == recs[i]);
                } else {
                    assert(recs[i] == r);
                }
            }
        }
        assert forall|i: int, j: int| 0 <= i < a.len() && 0 <= j < b.len() implies a[i] != b[j] by {
            assert(a.contains(a[i]));
            let k = choose|k: int| 0 <= k < init.len() && record_has(map, #[trigger] init[k], a[i]);
            assert(b.contains(b[j]));
            assert(record_has(map, r, b[j]));
            assert(init[k] == recs[k]);
            assert(recs[recs.len() - 1] == r);
            assert(problem_key(a[i]) == recs[k].key);
            assert(problem_key(b[j]) == r.key);
        }
        vstd::seq_lib::lemma_no_dup_in_concat(a, b);
    }
}

/// Whether `e` is an orphaned tile in column `x` among its first `rows` tiles.
spec fn orphan_in(map: WorldMap, recs: Seq<CivRecord>, x: int, rows: int, e: ValidationError) -> bool {
    match e {
        ValidationError::OrphanedTerritory(p, o) => p.x == x && 0 <= p.y < rows
            && map.tile_at(p).owner == Some(o) && !is_filed(recs, o),
        _ => false,
    }
}

proof fn lemma_column_orphans(map: WorldMap, recs: Seq<CivRecord>, x: int, rows: nat)
    requires
        map.wf(),
        0 <= x < map.width,
        rows <= map.height,
    ensures
        forall|e: ValidationError| #[trigger] column_orphans(map, recs, x, rows).contains(e)
            <==> orphan_in(map, recs, x, rows as int, e),
        column_orphans(map, recs, x, rows).no_duplicates(),
    decreases rows,
{
    if rows > 0 {
        lemma_column_orphans(map, recs, x, (rows - 1) as nat);
        let a = column_orphans(map, recs, x, (rows - 1) as nat);
        let pos = Position { x: x as i32, y: (rows - 1) as i32 };
        let b = orphan_at(map, recs, pos);
        assert(pos.x == x && pos.y == rows - 1);
        assert forall|e: ValidationError| #[trigger] column_orphans(map, recs, x, rows).contains(e)
            <==> orphan_in(map, recs, x, rows as int, e) by {
            vstd::seq_lib::lemma_seq_concat_contains_all_elements(a, b, e);
            if b.len() > 0 {
                assert(b.contains(e) <==> e == b[0]);
            }
            match e {
                ValidationError::OrphanedTerritory(p, o) => {
                    if p.x == x && p.y == rows - 1 {
                        assert(p == pos);
                    }
                },
                _ => {},
            }
        }
        assert forall|i: int, j: int| 0 <= i < a.len() && 0 <= j < b.len() implies a[i] != b[j] by {
            assert(a.contains(a[i]));
        }
        vstd::seq_lib::lemma_no_dup_in_concat(a, b);
    }
}

/// Whether `e` is an orphaned tile of the first `cols` columns.
spec fn orphan_upto(map: WorldMap, recs: Seq<CivRecord>, cols: int, e: ValidationError) -> bool {
    match e {
        ValidationError::OrphanedTerritory(p, o) => 0 <= p.x < cols && 0 <= p.y < map.height
            && map.tile_at(p).owner == Some(o) && !is_filed(recs, o),
        _ => false,
    }
}

proof fn lemma_orphans_upto(map: WorldMap, recs: Seq<CivRecord>, cols: nat)
    requires
        map.wf(),
        cols <= map.width,
    ensures
        forall|e: ValidationError| #[trigger] orphans_upto(map, recs, cols).contains(e)
            <==> orphan_upto(map, recs, cols as int, e),
        orphans_upto(map, recs, cols).no_duplicates(),
    decreases cols,
{
    if cols > 0 {
        lemma_orphans_upto(map, recs, (cols - 1) as nat);
        lemma_column_orphans(map, recs, cols - 1, map.height as nat);
        let a = orphans_upto(map, recs, (cols - 1) as nat);
        let b = column_orphans(map, recs, cols - 1, map.height as nat);
        assert forall|e: ValidationError| #[trigger] orphans_upto(map, recs, cols).contains(e)
            <==> orphan_upto(map, recs, cols as int, e) by {
            vstd::seq_lib::lemma_seq_concat_contains_all_elements(a, b, e);
        }
        assert forall|i: int, j: int| 0 <= i < a.len() && 0 <= j < b.len() implies a[i] != b[j] by {
            assert(a.contains(a[i]));
            assert(b.contains(b[j]));
        }
        vstd::seq_lib::lemma_no_dup_in_concat(a, b);
    }
}

/// The check of a saved game reports exactly the problems the game has, each once: a
/// civilization filed under another identifier than its own, a capital off the map, a
/// capital on a tile that its civilization does not own, and a tile owned by a
/// civilization the game does not have. So the report is empty exactly when the game has
/// none of them.
pub proof fn lemma_validation_reports_each_problem_once(map: WorldMap, recs: Seq<CivRecord>)
    requires
        map.wf(),
        unique_record_keys(recs),
    ensures
        forall|e: ValidationError| #[trigger] validation_errors(map, recs).contains(e) <==> has_problem(map, recs, e),
        validation_errors(map, recs).no_duplicates(),
        validation_errors(map, recs).len() == 0 <==> forall|e: ValidationError| !#[trigger] has_problem(map, recs, e),
{
    lemma_records_errors(map, recs);
    lemma_orphans_upto(map, recs, map.width as nat);
    let a = records_errors(map, recs);
    let b = orphans_upto(map, recs, map.width as nat);
    assert forall|e: ValidationError| #[trigger] validation_errors(map, recs).contains(e) <==> has_problem(map, recs, e) by {
        vstd::seq_lib::lemma_seq_concat_contains_all_elements(a, b, e);
    }
    assert forall|i: int, j: int| 0 <= i < a.len() && 0 <= j < b.len() implies a[i] != b[j] by {
        assert(a.contains(a[i]));
        assert(b.contains(b[j]));
    }
    vstd::seq_lib::lemma_no_dup_in_concat(a, b);
    let v = validation_errors(map, recs);
    if v.len() > 0 {
        assert(v.contains(v[0]));
        assert(has_problem(map, recs, v[0]));
    }
    if exists|e: ValidationError| has_problem(map, recs, e) {
        let e = choose|e: ValidationError| has_problem(map, recs, e);
        assert(v.contains(e));
    }
}

/// A quick save: the turn, the number of civilizations, the world checksum and the
/// major events of the game.
#[derive(Debug, Clone)]
pub struct CompactGameState {
    pub turn: u32,
    pub civ_count: u32,
    pub world_checksum: u64,
    pub major_events: Vec<String>,
}

fn filed(civs: &Vec<CivRecord>, c: CivId) -> (b: bool)
    ensures
        b == is_filed(civs@, c),
{
    let mut i: usize = 0;
    while i < civs.len()
        invariant
            i <= civs@.len(),
            forall|j: int| 0 <= j < i ==> (#[trigger] civs@[j]).key != c,
        decreases civs@.len() - i,
    {
        if civs[i].key.0 == c.0 {
            return true;
        }
        i = i + 1;
    }
    false
}

impl GameSerializer {
    /// A quick save of a game at `turn` with `civ_count` civilizations (the count kept
    /// in 32 bits), its world checksum and its major events.
    pub fn create_compact_save(turn: u32, civ_count: usize, world_map: &WorldMap, major_events: Vec<String>) -> (c: CompactGameState)
        requires
            world_map.wf(),
        ensures
            c.turn == turn,
            c.civ_count == civ_count as u32,
            c.world_checksum == default_hasher_world_checksum(world_map.width, world_map.height, world_samples(*world_map)),
            c.major_events@ == major_events@,
    {
        CompactGameState {
            turn,
            civ_count: civ_count as u32,
            world_checksum: Self::calculate_world_checksum(world_map),
            major_events,
        }
    }

    /// Checks a saved game: for each civilization in turn, whether it carries the
    /// identifier it is filed under and whether its capital lies on the map on a tile it
    /// owns; then, column after column, every tile owned by a civilization the game does
    /// not have. Each civilization is filed under its own key.
    pub fn validate_game_state(civs: &Vec<CivRecord>, world_map: &WorldMap) -> (errors: Vec<ValidationError>)
        requires
            world_map.wf(),
            unique_record_keys(civs@),
        ensures
            errors@ == validation_errors(*world_map, civs@),
    {
        let mut errors: Vec<ValidationError> = Vec::new();
        let mut i: usize = 0;
        while i < civs.len()
            invariant
                world_map.wf(),
                i <= civs@.len(),
                errors@ == records_errors(*world_map, civs@.take(i as int)),
            decreases civs@.len() - i,
        {
            let r = civs[i];
            let ghost before = errors@;
            proof {
                assert(civs@.take(i + 1).drop_last() =~= civs@.take(i as int));
                assert(civs@.take(i + 1).last() == r);
            }
            if r.id.0 != r.key.0 {
                errors.push(ValidationError::CivIdMismatch(r.key));
            }
            let ghost mid = errors@;
            match r.capital {
                None => {},
                Some(p) => {
                    match world_map.get_tile(p) {
                        Some(tile) => {
                            let owned = match tile.owner {
                                Some(o) => o.0 == r.key.0,
                                None => false,
                            };
                            if !owned {
                                errors.push(ValidationError::CapitalNotOwnedByOwner(r.key));
                            }
                        },
                        None => {
                            errors.push(ValidationError::CapitalOutsideMap(r.key));
                        },
                    }
                },
            }
            proof {
                assert(errors@ =~= before + record_errors(*world_map, r));
            }
            i = i + 1;
        }
        proof {
            assert(civs@.take(civs@.len() as int) =~= civs@);
        }
        let ghost civ_part = errors@;
        let mut x: u32 = 0;
        while x < world_map.width
            invariant
                world_map.wf(),
                x <= world_map.width,
                errors@ == civ_part + orphans_upto(*world_map, civs@, x as nat),
            decreases world_map.width - x,
        {
            let ghost col_start = errors@;
            let mut y: u32 = 0;
            while y < world_map.height
                invariant
                    world_map.wf(),
                    x < world_map.width,
                    y <= world_map.height,
                    errors@ == col_start + column_orphans(*world_map, civs@, x as int, y as nat),
                decreases world_map.height - y,
            {
                let pos = Position::new(x as i32, y as i32);
                let tile = &world_map.tiles[x as usize][y as usize];
                assert(*tile == world_map.tile_at(pos));
                let ghost prev = errors@;
                match tile.owner {
                    Some(owner) => {
                        if !filed(civs, owner) {
                            errors.push(ValidationError::OrphanedTerritory(pos, owner));
                        }
                    },
                    None => {},
                }
                proof {
                    assert(errors@ =~= prev + orphan_at(*world_map, civs@, pos));
                }
                y = y + 1;
            }
            x = x + 1;
        }
        errors
    }
}

} // verus!
