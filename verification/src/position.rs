use vstd::prelude::*;

verus! {

/// Absolute value of a mathematical integer.
pub open spec fn abs_int(v: int) -> int {
    if v < 0 { -v } else { v }
}

/// A tile coordinate on the world map. `x` grows to the east, `y` to the north.
#[derive(Debug, Clone, Copy, PartialEq, Eq, Hash, Structural)]
pub struct Position {
    pub x: i32,
    pub y: i32,
}

/// The four cardinal directions used for movement.
#[derive(Debug, Clone, Copy, PartialEq, Eq, Hash, Structural)]
pub enum Direction {
    North,
    South,
    East,
    West,
}

/// The (dx, dy) offset of a direction: north is +y, south is -y, east is +x, west is -x.
pub open spec fn offset(d: Direction) -> (int, int) {
    match d {
        Direction::North => (0, 1),
        Direction::South => (0, -1),
        Direction::East => (1, 0),
        Direction::West => (-1, 0),
    }
}

/// Whether `x + dx` and `y + dy` stay inside `i32` for every unit offset.
pub open spec fn has_room(p: Position) -> bool {
    i32::MIN < p.x < i32::MAX && i32::MIN < p.y < i32::MAX
}

/// The position one step away from `p` in direction `d`.
pub open spec fn step(p: Position, d: Direction) -> Position {
    Position { x: (p.x + offset(d).0) as i32, y: (p.y + offset(d).1) as i32 }
}

/// Manhattan distance between two positions.
pub open spec fn manhattan(a: Position, b: Position) -> int {
    abs_int(a.x - b.x) + abs_int(a.y - b.y)
}

/// The direction opposite to `d`.
pub open spec fn opposite_of(d: Direction) -> Direction {
    match d {
        Direction::North => Direction::South,
        Direction::South => Direction::North,
        Direction::East => Direction::West,
        Direction::West => Direction::East,
    }
}

impl Position {
    pub fn new(x: i32, y: i32) -> (p: Position)
        ensures
            p.x == x,
            p.y == y,
    {
        Position { x, y }
    }

    /// Manhattan distance for 4-directional movement.
    pub fn manhattan_distance_to(&self, other: &Position) -> (d: i32)
        requires
            manhattan(*self, *other) <= i32::MAX,
        ensures
            d == manhattan(*self, *other),
    {
        let dx: i64 = self.x as i64 - other.x as i64;
        let dy: i64 = self.y as i64 - other.y as i64;
        let ax: i64 = if dx < 0 { -dx } else { dx };
        let ay: i64 = if dy < 0 { -dy } else { dy };
        (ax + ay) as i32
    }

    /// The four adjacent positions, in the order north, south, east, west.
    pub fn adjacent_positions(&self) -> (r: [Position; 4])
        requires
            has_room(*self),
        ensures
            r@ == seq![
                step(*self, Direction::North),
                step(*self, Direction::South),
                step(*self, Direction::East),
                step(*self, Direction::West),
            ],
    {
        let r = [
            Position::new(self.x, self.y + 1),
            Position::new(self.x, self.y - 1),
            Position::new(self.x + 1, self.y),
            Position::new(self.x - 1, self.y),
        ];
        assert(r@ =~= seq![
            step(*self, Direction::North),
            step(*self, Direction::South),
            step(*self, Direction::East),
            step(*self, Direction::West),
        ]);
        r
    }

    /// The position one step away in `direction`.
    pub fn in_direction(&self, direction: Direction) -> (p: Position)
        requires
            has_room(*self),
        ensures
            p == step(*self, direction),
    {
        match direction {
            Direction::North => Position::new(self.x, self.y + 1),
            Direction::South => Position::new(self.x, self.y - 1),
            Direction::East => Position::new(self.x + 1, self.y),
            Direction::West => Position::new(self.x - 1, self.y),
        }
    }

    /// The position one step away in `direction` (same as `in_direction`).
    pub fn move_in_direction(&self, direction: Direction) -> (p: Position)
        requires
            has_room(*self),
        ensures
            p == step(*self, direction),
    {
        self.in_direction(direction)
    }

    /// Whether `other` is one of the four neighbours of this position.
    pub fn is_adjacent_to(&self, other: &Position) -> (b: bool)
        ensures
            b == (manhattan(*self, *other) == 1),
    {
        let dx: i64 = self.x as i64 - other.x as i64;
        let dy: i64 = self.y as i64 - other.y as i64;
        let ax: i64 = if dx < 0 { -dx } else { dx };
        let ay: i64 = if dy < 0 { -dy } else { dy };
        ax + ay == 1
    }

    /// The direction leading from this position to `other`, when they are adjacent.
    pub fn direction_to(&self, other: &Position) -> (r: Option<Direction>)
        ensures
            match r {
                Some(d) => manhattan(*self, *other) == 1 && *other == step(*self, d),
                None => manhattan(*self, *other) != 1,
            },
    {
        if !self.is_adjacent_to(other) {
            return None;
        }
        let dx: i64 = other.x as i64 - self.x as i64;
        let dy: i64 = other.y as i64 - self.y as i64;
        if dx == 0 && dy == 1 {
            Some(Direction::North)
        } else if dx == 0 && dy == -1 {
            Some(Direction::South)
        } else if dx == 1 && dy == 0 {
            Some(Direction::East)
        } else {
            Some(Direction::West)
        }
    }
}

impl Direction {
    /// All four directions, in the order north, south, east, west.
    pub fn all() -> (r: [Direction; 4])
        ensures
            r@ == seq![Direction::North, Direction::South, Direction::East, Direction::West],
    {
        let r = [Direction::North, Direction::South, Direction::East, Direction::West];
        assert(r@ =~= seq![Direction::North, Direction::South, Direction::East, Direction::West]);
        r
    }

    /// The name of the direction.
    pub fn name(&self) -> (s: &'static str)
        ensures
            s@ == direction_name(*self),
    {
        match self {
            Direction::North => "North",
            Direction::South => "South",
            Direction::East => "East",
            Direction::West => "West",
        }
    }

    /// The opposite direction.
    pub fn opposite(&self) -> (d: Direction)
        ensures
            d == opposite_of(*self),
    {
        match self {
            Direction::North => Direction::South,
            Direction::South => Direction::North,
            Direction::East => Direction::West,
            Direction::West => Direction::East,
        }
    }
}

/// The name of each direction as text.
pub open spec fn direction_name(d: Direction) -> Seq<char> {
    match d {
        Direction::North => "North"@,
        Direction::South => "South"@,
        Direction::East => "East"@,
        Direction::West => "West"@,
    }
}

/// A unit's planned path: the positions to walk through, the index of the next
/// step, and the destination.
#[derive(Debug, Clone)]
pub struct MovementOrder {
    pub path: Vec<Position>,
    pub path_index: usize,
    pub destination: Position,
}

impl MovementOrder {
    pub fn new(path: Vec<Position>, destination: Position) -> (m: MovementOrder)
        ensures
            m.path@ == path@,
            m.path_index == 0,
            m.destination == destination,
    {
        MovementOrder { path, path_index: 0, destination }
    }

    /// Whether every step of the path has been taken.
    pub fn is_complete(&self) -> (b: bool)
        ensures
            b == (self.path_index >= self.path@.len()),
    {
        self.path_index >= self.path.len()
    }

    /// The next position on the path, if any remains.
    pub fn next_position(&self) -> (r: Option<Position>)
        ensures
            r == (if self.path_index < self.path@.len() {
                Some(self.path@[self.path_index as int])
            } else {
                None
            }),
    {
        if self.path_index < self.path.len() {
            Some(self.path[self.path_index])
        } else {
            None
        }
    }

    /// Move on to the next step; does nothing once the path is complete.
    pub fn advance(&mut self)
        ensures
            *final(self) == advanced(*old(self)),
    {
        if self.path_index < self.path.len() {
            self.path_index = self.path_index + 1;
        }
    }
}

/// The order after one `advance`.
pub open spec fn advanced(m: MovementOrder) -> MovementOrder {
    if m.path_index < m.path@.len() {
        MovementOrder { path_index: (m.path_index + 1) as usize, ..m }
    } else {
        m
    }
}

/// Advancing never moves the index past the end of the path, an order that is
/// complete stays as it is, and each advance of an incomplete order moves exactly
/// one step along the path.
pub proof fn lemma_advance_bounded(m: MovementOrder)
    requires
        m.path_index <= m.path@.len(),
        m.path@.len() <= usize::MAX,
    ensures
        advanced(m).path_index <= m.path@.len(),
        m.path_index >= m.path@.len() ==> advanced(m) == m,
        m.path_index < m.path@.len() ==> advanced(m).path_index == m.path_index + 1,
{
}

/// Turning around twice faces the starting direction.
pub proof fn lemma_opposite_involution(d: Direction)
    ensures
        opposite_of(opposite_of(d)) == d,
{
}

/// Stepping in a direction and then in the opposite direction returns to the start.
pub proof fn lemma_step_then_back(p: Position, d: Direction)
    requires
        has_room(p),
    ensures
        step(step(p, d), opposite_of(d)) == p,
{
}

/// A step lands on an adjacent tile, and `direction_to` recovers the direction of the step.
pub proof fn lemma_step_is_adjacent(p: Position, d: Direction)
    requires
        has_room(p),
    ensures
        manhattan(p, step(p, d)) == 1,
        forall|d2: Direction| step(p, d2) == step(p, d) ==> d2 == d,
{
}

/// Manhattan distance is symmetric, and zero exactly between equal positions.
pub proof fn lemma_manhattan_metric(a: Position, b: Position)
    ensures
        manhattan(a, b) == manhattan(b, a),
        manhattan(a, b) >= 0,
        manhattan(a, b) == 0 <==> a == b,
{
}

/// Adjacency is symmetric.
pub proof fn lemma_adjacency_symmetric(a: Position, b: Position)
    ensures
        (manhattan(a, b) == 1) == (manhattan(b, a) == 1),
{
}

} // verus!
