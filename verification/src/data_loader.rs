use vstd::prelude::*;
use rand_pcg::Lcg128Xsl64;
use crate::rng::gen_range_i32;
use crate::position::Position;
use crate::terrain::TerrainType;
use crate::world_map::{WorldMap, in_bounds};
use crate::keyed::{pairs_map, unique_keys, lemma_pairs_map_keys, lemma_pairs_map_push, lemma_pairs_map_update};

verus! {

/// A position as written in civilization data files.
#[derive(Debug, Clone, Copy, PartialEq, Eq, Structural)]
pub struct PositionData {
    pub x: i32,
    pub y: i32,
}

impl From<PositionData> for Position {
    fn from(pos: PositionData) -> (p: Position) {
        Position { x: pos.x, y: pos.y }
    }
}

impl vstd::std_specs::convert::FromSpecImpl<PositionData> for Position {
    open spec fn obeys_from_spec() -> bool {
        true
    }

    open spec fn from_spec(pos: PositionData) -> Position {
        Position { x: pos.x, y: pos.y }
    }
}

/// A number of starting units of a type, by the type's name.
#[derive(Debug, Clone)]
pub struct UnitCount {
    pub unit_type: String,
    pub count: u32,
}

/// A number of starting buildings of a type, by the type's name.
#[derive(Debug, Clone)]
pub struct BuildingCount {
    pub building_type: String,
    pub count: u32,
}

/// Attempts at a random starting position before a civilization falls back to the one
/// its data gives.
pub const MAX_PLACEMENT_ATTEMPTS: u32 = 1000;

/// The square of the straight-line distance between two positions.
pub open spec fn sq_dist(p: Position, q: Position) -> int {
    (p.x - q.x) * (p.x - q.x) + (p.y - q.y) * (p.y - q.y)
}

/// Terrain on which a civilization may start: plains, coast or forest on the map.
pub open spec fn suitable_start(map: WorldMap, p: Position) -> bool {
    &&& in_bounds(map.width, map.height, p)
    &&& match map.tile_at(p).terrain {
        TerrainType::Plains | TerrainType::Coast | TerrainType::Forest => true,
        _ => false,
    }
}

/// `2` to the power `k`.
pub open spec fn two_pow(k: nat) -> nat
    decreases k,
{
    if k == 0 { 1 } else { 2 * two_pow((k - 1) as nat) }
}

/// The number of binary digits of `n` (none for 0).
pub open spec fn bit_len(n: nat) -> nat
    decreases n,
{
    if n == 0 { 0 } else { 1 + bit_len(n / 2) }
}

/// The `f32` nearest to the whole number `d`: `d` itself when it has at most 24 binary
/// digits, else `d` rounded to a multiple of the step `2^(b - 24)` of the numbers of its
/// `b` digits, a tie going to the even multiple.
pub open spec fn f32_nearest(d: nat) -> nat {
    let b = bit_len(d);
    if b <= 24 {
        d
    } else {
        let unit = two_pow((b - 24) as nat);
        let q = d / unit;
        let r = d % unit;
        if 2 * r > unit || (2 * r == unit && q % 2 == 1) { (q + 1) * unit } else { q * unit }
    }
}

/// Whether `n` is the whole square root of `f`.
pub open spec fn is_whole_root(n: nat, f: nat) -> bool {
    n * n <= f < (n + 1) * (n + 1)
}

/// The whole square root of `f`: the `n` with `n * n <= f < (n + 1) * (n + 1)`.
pub open spec fn floor_sqrt(f: nat) -> nat {
    choose|n: nat| #[trigger] is_whole_root(n, f)
}

/// The whole part of the `f32` nearest to the square root of `f`, whose whole square
/// root is `n`: `n + 1` when the root lies within half a step of `n + 1`, a step of the
/// `f32` numbers between `2^L` and `2^(L + 1)` (where `n` lies) being `2^(L - 23)`; else `n`.
pub open spec fn f32_root_floor(f: nat, n: nat) -> nat {
    if n == 0 {
        0
    } else {
        let p = two_pow((25 - bit_len(n)) as nat);
        if f * p * p >= ((n + 1) * p - 1) * ((n + 1) * p - 1) { n + 1 } else { n }
    }
}

/// The distance between two positions as the game measures it in whole tiles: the square
/// of the straight-line distance taken as an `f32`, its `f32` square root, cut to a whole
/// number.
pub open spec fn tile_distance(p: Position, q: Position) -> nat {
    let f = f32_nearest(sq_dist(p, q) as nat);
    f32_root_floor(f, floor_sqrt(f))
}

/// Whether `c` lies closer than `min` whole tiles to one of `used`.
pub open spec fn too_close(used: Seq<Position>, c: Position, min: u32) -> bool {
    exists|j: int| 0 <= j < used.len() && tile_distance(#[trigger] used[j], c) < min
}

proof fn lemma_two_pow_add(a: nat, c: nat)
    ensures
        two_pow(a + c) == two_pow(a) * two_pow(c),
        two_pow(a) >= 1,
    decreases a,
{
    if a > 0 {
        let a1 = (a - 1) as nat;
        lemma_two_pow_add(a1, c);
        assert(two_pow(a1 + c + 1) == 2 * two_pow(a1 + c));
        assert(a + c == a1 + c + 1);
        assert(two_pow(a) == 2 * two_pow(a1));
        let x = two_pow(a1);
        let y = two_pow(c);
        assert(2 * (x * y) == (2 * x) * y) by (nonlinear_arith);
        assert(two_pow(a + c) == two_pow(a1 + c + 1));
        assert(two_pow(a + c) == 2 * (x * y));
        assert(two_pow(a) * two_pow(c) == (2 * x) * y);
    } else {
        assert(two_pow(a) == 1);
        assert(a + c == c);
        assert(1 * two_pow(c) == two_pow(c));
    }
}

proof fn lemma_bit_len_below(x: nat, m: nat)
    requires
        x < two_pow(m),
    ensures
        bit_len(x) <= m,
    decreases m,
{
    if x > 0 {
        assert(m > 0);
        lemma_bit_len_below(x / 2, (m - 1) as nat);
    }
}

proof fn lemma_bit_len_range(x: nat)
    requires
        x > 0,
    ensures
        bit_len(x) >= 1,
        two_pow((bit_len(x) - 1) as nat) <= x < two_pow(bit_len(x)),
    decreases x,
{
    if x > 1 {
        let h = x / 2;
        lemma_bit_len_range(h);
        let k = bit_len(h);
        assert(bit_len(x) == k + 1);
        assert(two_pow(k + 1) == 2 * two_pow(k));
        assert(two_pow(k) == 2 * two_pow((k - 1) as nat));
    } else {
        assert(bit_len(x) == 1 + bit_len(0));
        assert(two_pow(1) == 2 * two_pow(0));
    }
}

proof fn lemma_floor_sqrt_is(f: nat, n: nat)
    requires
        n * n <= f < (n + 1) * (n + 1),
    ensures
        floor_sqrt(f) == n,
{
    assert(is_whole_root(n, f));
    let m = floor_sqrt(f);
    assert(is_whole_root(m, f));
    if m < n {
        assert((m + 1) * (m + 1) <= n * n) by (nonlinear_arith)
            requires
                m + 1 <= n,
        ;
    } else if m > n {
        assert((n + 1) * (n + 1) <= m * m) by (nonlinear_arith)
            requires
                n + 1 <= m,
        ;
    }
}

/// The number of binary digits of `x`.
fn bit_length(x: u64) -> (b: u64)
    requires
        x < 0x1_0000_0000,
    ensures
        b == bit_len(x as nat),
        b <= 32,
{
    proof {
        reveal_with_fuel(two_pow, 33);
        lemma_bit_len_below(x as nat, 32);
    }
    let mut t: u64 = x;
    let mut b: u64 = 0;
    while t > 0
        invariant
            bit_len(x as nat) == b + bit_len(t as nat),
            bit_len(x as nat) <= 32,
        decreases t,
    {
        t = t / 2;
        b = b + 1;
    }
    b
}

proof fn lemma_two_pow_le(a: nat, b: nat)
    requires
        a <= b,
    ensures
        1 <= two_pow(a) <= two_pow(b),
    decreases b,
{
    if b > a {
        lemma_two_pow_le(a, (b - 1) as nat);
    } else if a > 0 {
        lemma_two_pow_le((a - 1) as nat, (a - 1) as nat);
    }
}

/// `2` to the power `k`.
fn power_of_two(k: u64) -> (p: u64)
    requires
        k <= 24,
    ensures
        p == two_pow(k as nat),
        p <= 0x100_0000,
{
    proof {
        reveal_with_fuel(two_pow, 25);
        assert(two_pow(24) == 0x100_0000);
    }
    let mut p: u64 = 1;
    let mut i: u64 = 0;
    while i < k
        invariant
            i <= k <= 24,
            p == two_pow(i as nat),
            two_pow(24) == 0x100_0000,
        decreases k - i,
    {
        proof {
            lemma_two_pow_le((i + 1) as nat, 24);
            assert(two_pow((i + 1) as nat) == 2 * two_pow(i as nat));
        }
        p = p * 2;
        i = i + 1;
    }
    proof {
        lemma_two_pow_le(k as nat, 24);
    }
    p
}

/// The `f32` nearest to `d`, a whole number below `2^31`.
fn nearest_f32(d: u64) -> (f: u64)
    requires
        d < 0x8000_0000,
    ensures
        f == f32_nearest(d as nat),
        f <= 0x8000_0000,
{
    let b = bit_length(d);
    if b <= 24 {
        return d;
    }
    proof {
        reveal_with_fuel(two_pow, 32);
        lemma_bit_len_below(d as nat, 31);
        lemma_bit_len_range(d as nat);
        lemma_two_pow_add(24, (b - 24) as nat);
        lemma_two_pow_add((b - 24) as nat, (31 - b) as nat);
        lemma_two_pow_add(b as nat, (31 - b) as nat);
    }
    let unit = power_of_two(b - 24);
    let q = d / unit;
    let r = d % unit;
    proof {
        assert(two_pow(24) == 0x100_0000);
        assert(two_pow(31) == 0x8000_0000);
        assert(q < 0x100_0000) by (nonlinear_arith)
            requires
                d < 0x100_0000 * unit,
                q == d / unit,
                unit > 0,
        ;
        assert((q + 1) * unit <= 0x100_0000 * unit) by (nonlinear_arith)
            requires
                q + 1 <= 0x100_0000,
                unit > 0,
        ;
        assert(two_pow(b as nat) <= 0x8000_0000) by (nonlinear_arith)
            requires
                two_pow(31) == two_pow(b as nat) * two_pow((31 - b) as nat),
                two_pow((31 - b) as nat) >= 1,
                two_pow(31) == 0x8000_0000,
        ;
    }
    if 2 * r > unit || (2 * r == unit && q % 2 == 1) {
        (q + 1) * unit
    } else {
        assert(q * unit <= (q + 1) * unit) by (nonlinear_arith);
        q * unit
    }
}

/// The whole square root of `f`, a whole number up to `2^31`.
fn whole_sqrt(f: u64) -> (n: u64)
    requires
        f <= 0x8000_0000,
    ensures
        n * n <= f < (n + 1) * (n + 1),
        n <= 46340,
{
    let mut lo: u64 = 0;
    let mut hi: u64 = 46341;
    while hi - lo > 1
        invariant
            f <= 0x8000_0000,
            lo < hi <= 46341,
            lo * lo <= f < hi * hi,
        decreases hi - lo,
    {
        let mid = lo + (hi - lo) / 2;
        assert(mid * mid <= 46341 * 46341) by (nonlinear_arith)
            requires
                mid <= 46341,
        ;
        if mid * mid <= f {
            lo = mid;
        } else {
            hi = mid;
        }
    }
    lo
}

/// Whether a civilization may take `p` once the positions `used` have been handed out:
/// `p` is suitable and lies at least `min` whole tiles from each of them.
pub open spec fn takes(map: WorldMap, used: Seq<Position>, min: u32, p: Position) -> bool {
    suitable_start(map, p) && !too_close(used, p, min)
}

/// Whether `tries` can be the candidates drawn for one civilization once `used` have been
/// handed out: between one and `MAX_PLACEMENT_ATTEMPTS` positions on the map, each but the
/// last refused, and the last taken unless it was the last attempt allowed.
pub open spec fn possible_tries(map: WorldMap, used: Seq<Position>, min: u32, tries: Seq<Position>) -> bool {
    &&& 0 < tries.len() <= MAX_PLACEMENT_ATTEMPTS
    &&& forall|k: int| 0 <= k < tries.len() ==> in_bounds(map.width, map.height, #[trigger] tries[k])
    &&& forall|k: int| 0 <= k < tries.len() - 1 ==> !takes(map, used, min, #[trigger] tries[k])
    &&& tries.len() < MAX_PLACEMENT_ATTEMPTS ==> takes(map, used, min, tries.last())
}

/// The positions handed out to the distance checks once `civs` have been placed, the
/// `i`-th with the candidates `tries[i]`.
pub open spec fn used_after(civs: Seq<(String, Position)>, map: WorldMap, min: u32, tries: Seq<Seq<Position>>) -> Seq<Position>
    decreases civs.len(),
{
    if civs.len() == 0 {
        Seq::empty()
    } else {
        let used = used_after(civs.drop_last(), map, min, tries.drop_last());
        let t = tries.last().last();
        if takes(map, used, min, t) { used.push(t) } else { used }
    }
}

/// The starting position of each of `civs`, in order, when the `i`-th is placed with the
/// candidates `tries[i]`: its last candidate if that was taken, else the position its
/// data gives.
pub open spec fn placements(civs: Seq<(String, Position)>, map: WorldMap, min: u32, tries: Seq<Seq<Position>>) -> Seq<(String, Position)>
    decreases civs.len(),
{
    if civs.len() == 0 {
        Seq::empty()
    } else {
        let used = used_after(civs.drop_last(), map, min, tries.drop_last());
        let t = tries.last().last();
        let pos = if takes(map, used, min, t) { t } else { civs.last().1 };
        placements(civs.drop_last(), map, min, tries.drop_last()).push((civs.last().0, pos))
    }
}

/// Whether `tries` can be the candidates drawn for `civs`, one run for each in order.
pub open spec fn possible_draws(civs: Seq<(String, Position)>, map: WorldMap, min: u32, tries: Seq<Seq<Position>>) -> bool
    decreases civs.len(),
{
    &&& tries.len() == civs.len()
    &&& if civs.len() == 0 {
        true
    } else {
        &&& possible_draws(civs.drop_last(), map, min, tries.drop_last())
        &&& possible_tries(map, used_after(civs.drop_last(), map, min, tries.drop_last()), min, tries.last())
    }
}

/// A list of named positions with each name as its text.
pub open spec fn by_name(s: Seq<(String, Position)>) -> Seq<(Seq<char>, Position)> {
    s.map_values(|e: (String, Position)| (e.0@, e.1))
}

/// Sets the position of `name` in `v`: replaces it where `v` has the name, else adds it last.
fn insert_by_name(v: &mut Vec<(String, Position)>, name: String, pos: Position)
    requires
        unique_keys(by_name(old(v)@)),
    ensures
        unique_keys(by_name(final(v)@)),
        pairs_map(by_name(final(v)@)) == pairs_map(by_name(old(v)@)).insert(name@, pos),
{
    let ghost before = by_name(v@);
    let mut i: usize = 0;
    while i < v.len()
        invariant
            i <= v@.len(),
            before == by_name(v@),
            v@ == old(v)@,
            unique_keys(before),
            forall|j: int| 0 <= j < i ==> (#[trigger] v@[j]).0@ != name@,
        decreases v@.len() - i,
    {
        if v[i].0 == name {
            proof {
                assert(before[i as int].0 == v@[i as int].0@);
                assert(before[i as int].0 == name@);
                lemma_pairs_map_update(before, i as int, pos);
            }
            v.set(i, (name, pos));
            proof {
                assert(by_name(v@) =~= before.update(i as int, (before[i as int].0, pos)));
                assert(pairs_map(by_name(v@)) == pairs_map(before).insert(before[i as int].0, pos));
            }
            return;
        }
        i = i + 1;
    }
    proof {
        assert forall|j: int| 0 <= j < before.len() implies (#[trigger] before[j]).0 != name@ by {
            assert(before[j].0 == v@[j].0@);
        }
        lemma_pairs_map_keys(before, name@);
        lemma_pairs_map_push(before, name@, pos);
    }
    v.push((name, pos));
    proof {
        assert(by_name(v@) =~= before.push((name@, pos)));
    }
}

/// Loads civilization data and places civilizations on the map.
pub struct CivilizationDataLoader;

impl CivilizationDataLoader {
    /// Whether a civilization may start at `position`: a tile of plains, coast or forest.
    pub fn is_suitable_starting_position(world_map: &WorldMap, position: Position) -> (b: bool)
        requires
            world_map.wf(),
        ensures
            b == suitable_start(*world_map, position),
    {
        match world_map.get_tile(position) {
            Some(tile) => match tile.terrain {
                TerrainType::Plains | TerrainType::Coast | TerrainType::Forest => true,
                _ => false,
            },
            None => false,
        }
    }

    /// The distance between two positions in whole tiles: the square of the straight-line
    /// distance, taken as an `f32`, its `f32` square root, cut to a whole number. The square
    /// of the distance must fit in an `i32`.
    pub fn calculate_distance(pos1: Position, pos2: Position) -> (d: u32)
        requires
            sq_dist(pos1, pos2) <= i32::MAX,
        ensures
            d == tile_distance(pos1, pos2),
    {
        let dx: i64 = pos1.x as i64 - pos2.x as i64;
        let dy: i64 = pos1.y as i64 - pos2.y as i64;
        assert(0 <= dx * dx) by (nonlinear_arith);
        assert(0 <= dy * dy) by (nonlinear_arith);
        let d2: u64 = (dx * dx + dy * dy) as u64;
        let f = nearest_f32(d2);
        let n = whole_sqrt(f);
        proof {
            lemma_floor_sqrt_is(f as nat, n as nat);
        }
        if n == 0 {
            return 0;
        }
        let len = bit_length(n);
        proof {
            reveal_with_fuel(two_pow, 17);
            lemma_bit_len_below(n as nat, 16);
            lemma_bit_len_range(n as nat);
            lemma_two_pow_add((25 - len) as nat, (len - 1) as nat);
            assert(two_pow(24) == 0x100_0000) by {
                reveal_with_fuel(two_pow, 25);
            }
        }
        let p = power_of_two(25 - len);
        proof {
            assert(p <= 0x100_0000) by (nonlinear_arith)
                requires
                    two_pow(24) == p * two_pow((len - 1) as nat),
                    two_pow((len - 1) as nat) >= 1,
                    two_pow(24) == 0x100_0000,
                    p >= 1,
            ;
            assert((f as int) * (p as int) * (p as int) <= 0x8000_0000 * 0x100_0000 * 0x100_0000) by (nonlinear_arith)
                requires
                    f <= 0x8000_0000,
                    p <= 0x100_0000,
            ;
            assert((n as int + 1) * (p as int) <= 46341 * 0x100_0000) by (nonlinear_arith)
                requires
                    n <= 46340,
                    p <= 0x100_0000,
            ;
            assert((n as int + 1) * (p as int) >= 1) by (nonlinear_arith)
                requires
                    p >= 1,
            ;
        }
        assert((f as int) * (p as int) <= 0x8000_0000 * 0x100_0000) by (nonlinear_arith)
            requires
                f <= 0x8000_0000,
                p <= 0x100_0000,
        ;
        let fp: u128 = (f as u128) * (p as u128);
        assert(fp * (p as u128) <= 0x8000_0000 * 0x100_0000 * 0x100_0000) by (nonlinear_arith)
            requires
                fp == f * p,
                f <= 0x8000_0000,
                p <= 0x100_0000,
        ;
        let lhs: u128 = fp * (p as u128);
        let t: u128 = (n as u128 + 1) * (p as u128) - 1;
        assert(t * t <= 46341 * 0x100_0000 * 46341 * 0x100_0000) by (nonlinear_arith)
            requires
                t <= 46341 * 0x100_0000,
        ;
        if lhs >= t * t {
            (n + 1) as u32
        } else {
            n as u32
        }
    }

    /// Whether `candidate` lies closer than `min_distance` whole tiles to a used position.
    pub fn is_too_close_to_existing_civs(used_positions: &Vec<Position>, candidate: Position, min_distance: u32) -> (b: bool)
        requires
            forall|j: int| 0 <= j < used_positions@.len() ==> sq_dist(#[trigger] used_positions@[j], candidate) <= i32::MAX,
        ensures
            b == too_close(used_positions@, candidate, min_distance),
    {
        let mut i: usize = 0;
        while i < used_positions.len()
            invariant
                i <= used_positions@.len(),
                forall|j: int| 0 <= j < used_positions@.len() ==> sq_dist(#[trigger] used_positions@[j], candidate) <= i32::MAX,
                forall|j: int| 0 <= j < i ==> !(tile_distance(#[trigger] used_positions@[j], candidate) < min_distance),
            decreases used_positions@.len() - i,
        {
            let distance = Self::calculate_distance(used_positions[i], candidate);
            if distance < min_distance {
                return true;
            }
            i = i + 1;
        }
        false
    }

    /// Starting positions for `civilizations` (each a name and the position its data
    /// gives), by name: in order, for each civilization up to 1000 random positions on the
    /// map are drawn, and the first on plains, coast or forest that lies at least
    /// `min_distance_between_civs` whole tiles from every position handed out so far is
    /// taken; after 1000 refused draws the civilization gets its data's position, which is
    /// not handed out to the later distance checks. A name met again gets the later
    /// position.
    pub fn generate_random_starting_positions(
        civilizations: &Vec<(String, Position)>,
        world_map: &WorldMap,
        rng: &mut Lcg128Xsl64,
        min_distance_between_civs: u32,
    ) -> (r: Vec<(String, Position)>)
        requires
            world_map.wf(),
            civilizations@.len() > 0 ==> world_map.width > 0 && world_map.height > 0,
            world_map.width <= 32768,
            world_map.height <= 32768,
        ensures
            unique_keys(by_name(r@)),
            exists|tries: Seq<Seq<Position>>|
                #[trigger] possible_draws(civilizations@, *world_map, min_distance_between_civs, tries)
                && pairs_map(by_name(r@)) == pairs_map(by_name(placements(civilizations@, *world_map, min_distance_between_civs, tries))),
    {
        let ghost map = *world_map;
        let ghost min = min_distance_between_civs;
        let mut positions: Vec<(String, Position)> = Vec::new();
        let mut used_positions: Vec<Position> = Vec::new();
        let ghost mut tries: Seq<Seq<Position>> = Seq::empty();
        let mut c: usize = 0;
        proof {
            assert(by_name(positions@) =~= Seq::<(Seq<char>, Position)>::empty());
            assert(civilizations@.take(0) =~= Seq::<(String, Position)>::empty());
        }
        while c < civilizations.len()
            invariant
                map == *world_map,
                min == min_distance_between_civs,
                world_map.wf(),
                civilizations@.len() > 0 ==> world_map.width > 0 && world_map.height > 0,
                world_map.width <= 32768,
                world_map.height <= 32768,
                c <= civilizations@.len(),
                possible_draws(civilizations@.take(c as int), map, min, tries),
                used_positions@ == used_after(civilizations@.take(c as int), map, min, tries),
                unique_keys(by_name(positions@)),
                pairs_map(by_name(positions@)) == pairs_map(by_name(placements(civilizations@.take(c as int), map, min, tries))),
                forall|k: int| 0 <= k < used_positions@.len() ==> suitable_start(map, #[trigger] used_positions@[k]),
            decreases civilizations@.len() - c,
        {
            let mut attempts: u32 = 0;
            let ghost used0 = used_positions@;
            let ghost mut cur: Seq<Position> = Seq::empty();
            let mut chosen: Position = civilizations[c].1;
            loop
                invariant_except_break
                    used_positions@ == used0,
                    chosen == civilizations@[c as int].1,
                    attempts <= MAX_PLACEMENT_ATTEMPTS,
                    cur.len() == attempts,
                    forall|k: int| 0 <= k < cur.len() ==> in_bounds(map.width, map.height, #[trigger] cur[k]),
                    forall|k: int| 0 <= k < cur.len() ==> !takes(map, used0, min, #[trigger] cur[k]),
                invariant
                    map == *world_map,
                    min == min_distance_between_civs,
                    world_map.wf(),
                    world_map.width > 0 && world_map.height > 0,
                    world_map.width <= 32768,
                    world_map.height <= 32768,
                    c < civilizations@.len(),
                    forall|k: int| 0 <= k < used0.len() ==> suitable_start(map, #[trigger] used0[k]),
                ensures
                    possible_tries(map, used0, min, cur),
                    takes(map, used0, min, cur.last()) ==> chosen == cur.last() && used_positions@ == used0.push(chosen),
                    !takes(map, used0, min, cur.last()) ==> chosen == civilizations@[c as int].1 && used_positions@ == used0,
                decreases MAX_PLACEMENT_ATTEMPTS - attempts,
            {
                attempts = attempts + 1;
                if attempts > MAX_PLACEMENT_ATTEMPTS {
                    proof {
                        assert(!takes(map, used0, min, cur[cur.len() - 1]));
                    }
                    break;
                }
                let x = gen_range_i32(rng, 0, world_map.width as i32);
                let y = gen_range_i32(rng, 0, world_map.height as i32);
                let candidate = Position::new(x, y);
                let ghost prev = cur;
                proof {
                    cur = cur.push(candidate);
                    assert(cur[cur.len() - 1] == candidate);
                    assert forall|k: int| 0 <= k < prev.len() implies #[trigger] cur[k] == prev[k] by {}
                }
                if !Self::is_suitable_starting_position(world_map, candidate) {
                    continue;
                }
                proof {
                    assert forall|j: int| 0 <= j < used_positions@.len() implies sq_dist(#[trigger] used_positions@[j], candidate) <= i32::MAX by {
                        let u = used_positions@[j];
                        assert(suitable_start(map, used0[j]));
                        let dx = u.x - candidate.x;
                        let dy = u.y - candidate.y;
                        assert(dx * dx <= 32767 * 32767) by (nonlinear_arith)
                            requires
                                -32767 <= dx <= 32767,
                        ;
                        assert(dy * dy <= 32767 * 32767) by (nonlinear_arith)
                            requires
                                -32767 <= dy <= 32767,
                        ;
                    }
                }
                if Self::is_too_close_to_existing_civs(&used_positions, candidate, min_distance_between_civs) {
                    continue;
                }
                chosen = candidate;
                used_positions.push(candidate);
                break;
            }
            let ghost civs1 = civilizations@.take(c + 1);
            let ghost tries1 = tries.push(cur);
            insert_by_name(&mut positions, civilizations[c].0.clone(), chosen);
            proof {
                assert(civs1.drop_last() =~= civilizations@.take(c as int));
                assert(tries1.drop_last() =~= tries);
                assert(civs1.last() == civilizations@[c as int]);
                assert(tries1.last() == cur);
                let pl = placements(civs1, map, min, tries1);
                assert(pl == placements(civilizations@.take(c as int), map, min, tries).push((civilizations@[c as int].0, chosen)));
                assert(by_name(pl) =~= by_name(placements(civilizations@.take(c as int), map, min, tries)).push((civilizations@[c as int].0@, chosen)));
                assert(pairs_map(by_name(pl).drop_last()) == pairs_map(by_name(placements(civilizations@.take(c as int), map, min, tries)))) by {
                    assert(by_name(pl).drop_last() =~= by_name(placements(civilizations@.take(c as int), map, min, tries)));
                }
                assert forall|k: int| 0 <= k < used_positions@.len() implies suitable_start(map, #[trigger] used_positions@[k]) by {
                    if k < used0.len() {
                        assert(used_positions@[k] == used0[k]);
                    }
                }
                tries = tries1;
            }
            c = c + 1;
        }
        proof {
            assert(civilizations@.take(c as int) =~= civilizations@);
        }
        positions
    }
}

} // verus!
