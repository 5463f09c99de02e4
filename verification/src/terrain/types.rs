use vstd::prelude::*;

verus! {

/// Neighborhoods in one labyrinth cell.
pub const NEIGHBORHOODS_PER_CELL: usize = 4;

/// The position of a chunk in chunk units.
#[derive(Debug, Clone, Copy, PartialEq, Eq, Hash, Structural)]
pub struct ChunkCoord {
    pub x: i32,
    pub y: i32,
    pub z: i32,
}

impl ChunkCoord {
/// The chunk at the given position.
    pub fn new(x: i32, y: i32, z: i32) -> (r: Self)
        ensures
            r == (ChunkCoord { x, y, z }),
    {
        Self { x, y, z }
    }
}

/// The position of a labyrinth cell in cell units; `y` grows southward and
/// `z` upward.
#[derive(Debug, Clone, Copy, PartialEq, Eq, Hash, Structural)]
pub struct CellCoord3d {
    pub x: i32,
    pub y: i32,
    pub z: i32,
}

/// The unit step of a direction along x, y and z.
pub open spec fn step_of(direction: Direction3d) -> (int, int, int) {
    match direction {
        Direction3d::North => (0, -1, 0),
        Direction3d::South => (0, 1, 0),
        Direction3d::East => (1, 0, 0),
        Direction3d::West => (-1, 0, 0),
        Direction3d::Up => (0, 0, 1),
        Direction3d::Down => (0, 0, -1),
    }
}

/// Whether one step from a cell stays within the coordinate range.
pub open spec fn can_step(c: CellCoord3d, direction: Direction3d) -> bool {
    let (dx, dy, dz) = step_of(direction);
    &&& i32::MIN <= c.x + dx <= i32::MAX
    &&& i32::MIN <= c.y + dy <= i32::MAX
    &&& i32::MIN <= c.z + dz <= i32::MAX
}

/// The neighbouring cell one step away.
pub open spec fn stepped(c: CellCoord3d, direction: Direction3d) -> CellCoord3d {
    let (dx, dy, dz) = step_of(direction);
    CellCoord3d { x: (c.x + dx) as i32, y: (c.y + dy) as i32, z: (c.z + dz) as i32 }
}

impl CellCoord3d {
/// The cell at the given position.
    pub fn new(x: i32, y: i32, z: i32) -> (r: Self)
        ensures
            r == (CellCoord3d { x, y, z }),
    {
        Self { x, y, z }
    }

    /// The neighbouring cell one step in the given direction.
    pub fn offset(self, direction: Direction3d) -> (r: Self)
        requires
            can_step(self, direction),
        ensures
            r == stepped(self, direction),
    {
        let d = direction.offset();
        Self { x: self.x + d[0], y: self.y + d[1], z: self.z + d[2] }
    }
}

/// The six directions a passage can lead in.
#[derive(Debug, Clone, Copy, PartialEq, Eq, Hash, Structural)]
pub enum Direction3d {
    North,
    South,
    East,
    West,
    Up,
    Down,
}

/// The opposite of a direction.
pub open spec fn opposite_of(direction: Direction3d) -> Direction3d {
    match direction {
        Direction3d::North => Direction3d::South,
        Direction3d::South => Direction3d::North,
        Direction3d::East => Direction3d::West,
        Direction3d::West => Direction3d::East,
        Direction3d::Up => Direction3d::Down,
        Direction3d::Down => Direction3d::Up,
    }
}

impl Direction3d {
    /// All six directions, in the order passages are listed.
    pub fn all() -> (r: [Self; 6])
        ensures
            r@ == seq![
                Direction3d::North,
                Direction3d::South,
                Direction3d::East,
                Direction3d::West,
                Direction3d::Up,
                Direction3d::Down,
            ],
    {
        let r = [Self::North, Self::South, Self::East, Self::West, Self::Up, Self::Down];
        assert(r@ =~= seq![
            Direction3d::North,
            Direction3d::South,
            Direction3d::East,
            Direction3d::West,
            Direction3d::Up,
            Direction3d::Down,
        ]);
        r
    }

    /// The direction leading back.
    pub fn opposite(self) -> (r: Self)
        ensures
            r == opposite_of(self),
    {
        match self {
            Self::North => Self::South,
            Self::South => Self::North,
            Self::East => Self::West,
            Self::West => Self::East,
            Self::Up => Self::Down,
            Self::Down => Self::Up,
        }
    }

    pub(crate) fn offset(self) -> (r: [i32; 3])
        ensures
            (r@[0] as int, r@[1] as int, r@[2] as int) == step_of(self),
            r@.len() == 3,
    {
        match self {
            Self::North => [0, -1, 0],
            Self::South => [0, 1, 0],
            Self::East => [1, 0, 0],
            Self::West => [-1, 0, 0],
            Self::Up => [0, 0, 1],
            Self::Down => [0, 0, -1],
        }
    }
}

/// Turning around twice faces the same way again, and the opposite step undoes
/// a step.
pub proof fn lemma_opposite_involution(direction: Direction3d, c: CellCoord3d)
    ensures
        opposite_of(opposite_of(direction)) == direction,
        opposite_of(direction) != direction,
        can_step(c, direction) ==> can_step(stepped(c, direction), opposite_of(direction))
            && stepped(stepped(c, direction), opposite_of(direction)) == c,
{
}

/// The purpose of a generated room.
#[derive(Debug, Clone, Copy, PartialEq, Eq, Structural)]
pub enum RoomKind {
    Lab,
    Storage,
    Maintenance,
    Security,
    ElevatorCore,
}

/// An open passage from a cell to its neighbour in a direction.
#[derive(Debug, Clone, Copy, PartialEq, Eq, Structural)]
pub struct Passage3d {
    pub from: CellCoord3d,
    pub to: CellCoord3d,
    pub direction: Direction3d,
}

/// The integer part of the terrain configuration: cells per chunk along x, y
/// and z, how many chunks around the player are kept generated, and the seed.
#[derive(Debug, Clone, Copy, PartialEq, Eq, Structural)]
pub struct LayoutConfig {
    pub chunk_width: usize,
    pub chunk_depth: usize,
    pub chunk_levels: usize,
    pub generation_radius: i32,
    pub seed: u64,
}

/// The configuration with at least one cell per chunk along each axis and a
/// generation radius of at least zero.
pub open spec fn validated_config(c: LayoutConfig) -> LayoutConfig {
    LayoutConfig {
        chunk_width: if c.chunk_width == 0 { 1 } else { c.chunk_width },
        chunk_depth: if c.chunk_depth == 0 { 1 } else { c.chunk_depth },
        chunk_levels: if c.chunk_levels == 0 { 1 } else { c.chunk_levels },
        generation_radius: if c.generation_radius < 0 { 0 } else { c.generation_radius },
        seed: c.seed,
    }
}

impl LayoutConfig {
    /// The configuration with at least one cell per chunk along each axis and
    /// a generation radius of at least zero.
    pub fn validated(self) -> (r: Self)
        ensures
            r == validated_config(self),
    {
        LayoutConfig {
            chunk_width: if self.chunk_width == 0 { 1 } else { self.chunk_width },
            chunk_depth: if self.chunk_depth == 0 { 1 } else { self.chunk_depth },
            chunk_levels: if self.chunk_levels == 0 { 1 } else { self.chunk_levels },
            generation_radius: if self.generation_radius < 0 { 0 } else { self.generation_radius },
            seed: self.seed,
        }
    }
}

} // verus!
