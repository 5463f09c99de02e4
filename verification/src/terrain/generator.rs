use vstd::prelude::*;
use crate::terrain::types::{
    can_step, opposite_of, stepped, CellCoord3d, ChunkCoord, Direction3d, LayoutConfig, Passage3d,
};

verus! {

/// Division rounded toward negative infinity.
pub open spec fn floor_div(a: int, b: int) -> int {
    if b > 0 {
        a / b
    } else {
        (-a) / (-b)
    }
}

proof fn lemma_div_neg(a: int, b: int)
    requires
        b < 0,
    ensures
        a / b == -(a / (-b)),
        a % b == a % (-b),
{
    vstd::arithmetic::div_mod::lemma_fundamental_div_mod(a, b);
    assert(0 <= a % b < -b);
    assert((-(a / b)) * (-b) == b * (a / b)) by (nonlinear_arith);
    vstd::arithmetic::div_mod::lemma_fundamental_div_mod_converse(a, -b, -(a / b), a % b);
}

/// The truncating quotient and remainder of `a` by `b`, as Rust computes them.
pub open spec fn trunc_div(a: int, b: int) -> int {
    let ma = if a >= 0 { a } else { -a };
    let mb = if b > 0 { b } else { -b };
    if (a >= 0) == (b > 0) {
        ma / mb
    } else {
        -(ma / mb)
    }
}

/// The remainder that goes with [`trunc_div`].
pub open spec fn trunc_rem(a: int, b: int) -> int {
    let ma = if a >= 0 { a } else { -a };
    let mb = if b > 0 { b } else { -b };
    if a >= 0 {
        ma % mb
    } else {
        -(ma % mb)
    }
}

proof fn lemma_trunc_facts(a: int, b: int)
    requires
        b != 0,
    ensures
        trunc_div(a, b) * b + trunc_rem(a, b) == a,
        a >= 0 ==> 0 <= trunc_rem(a, b),
        a < 0 ==> trunc_rem(a, b) <= 0,
        b > 0 ==> -b < trunc_rem(a, b) < b,
        b < 0 ==> b < trunc_rem(a, b) < -b,
{
    let ma = if a >= 0 { a } else { -a };
    let mb = if b > 0 { b } else { -b };
    vstd::arithmetic::div_mod::lemma_fundamental_div_mod(ma, mb);
    vstd::arithmetic::div_mod::lemma_mod_bound(ma, mb);
    let q = ma / mb;
    let rm = ma % mb;
    assert(ma == mb * q + rm);
    assert(trunc_div(a, b) * b + trunc_rem(a, b) == a) by (nonlinear_arith)
        requires
            ma == mb * q + rm,
            ma == (if a >= 0 { a } else { -a }),
            mb == (if b > 0 { b } else { -b }),
            trunc_div(a, b) == (if (a >= 0) == (b > 0) { q } else { -q }),
            trunc_rem(a, b) == (if a >= 0 { rm } else { -rm }),
    ;
}

/// The quotient rounded toward negative infinity.
pub fn div_floor(value: i32, divisor: i32) -> (r: i32)
    requires
        divisor != 0,
        !(value == i32::MIN && divisor == -1),
    ensures
        r == floor_div(value as int, divisor as int),
{
    // Dividing -value by -divisor rounds the same way, so only a positive
    // divisor remains; the wider type holds -i32::MIN.
    let (a, b): (i64, i64) = if divisor < 0 {
        (-(value as i64), -(divisor as i64))
    } else {
        (value as i64, divisor as i64)
    };
    let quotient = a / b;
    let remainder = a % b;
    proof {
        lemma_trunc_facts(a as int, b as int);
        assert(quotient == trunc_div(a as int, b as int));
        assert(remainder == trunc_rem(a as int, b as int));
    }
    let f = if remainder < 0 {
        quotient - 1
    } else {
        quotient
    };
    proof {
        let ai = a as int;
        let bi = b as int;
        let rr = if remainder < 0 { remainder + bi } else { remainder as int };
        assert(f * bi + rr == ai) by (nonlinear_arith)
            requires
                quotient * bi + remainder == ai,
                remainder < 0 ==> f == quotient - 1 && rr == remainder + bi,
                !(remainder < 0) ==> f == quotient && rr == remainder,
        ;
        vstd::arithmetic::div_mod::lemma_fundamental_div_mod_converse(ai, bi, f as int, rr);
        assert(floor_div(value as int, divisor as int) == ai / bi);
        if ai >= 0 {
            vstd::arithmetic::div_mod::lemma_div_pos_is_pos(ai, bi);
            vstd::arithmetic::div_mod::lemma_div_is_ordered_by_denominator(ai, 1, bi);
            if bi >= 2 {
                vstd::arithmetic::div_mod::lemma_div_is_ordered_by_denominator(ai, 2, bi);
            }
        } else {
            assert(f * bi <= ai) ;
            assert(f < 0) by (nonlinear_arith)
                requires f * bi + rr == ai, 0 <= rr < bi, ai < 0, bi > 0;
            assert(f >= ai) by (nonlinear_arith)
                requires f * bi + rr == ai, 0 <= rr < bi, bi >= 1, f < 0;
        }
    }
    f as i32
}

/// The non-negative remainder of `value` divided by a positive modulus.
fn rem_euclid(value: i32, modulus: i32) -> (r: i32)
    requires
        modulus > 0,
    ensures
        r == (value as int) % (modulus as int),
{
    let remainder = value % modulus;
    proof {
        lemma_trunc_facts(value as int, modulus as int);
        assert(remainder == trunc_rem(value as int, modulus as int));
    }
    let r = if remainder < 0 {
        remainder + modulus
    } else {
        remainder
    };
    proof {
        let a = value as int;
        let m = modulus as int;
        let q = trunc_div(a, m);
        let eq = if remainder < 0 {
            q - 1
        } else {
            q
        };
        assert(eq * m + r == a) by (nonlinear_arith)
            requires
                q * m + remainder == a,
                remainder < 0 ==> eq == q - 1 && r == remainder + m,
                !(remainder < 0) ==> eq == q && r == remainder,
        ;
        vstd::arithmetic::div_mod::lemma_fundamental_div_mod_converse(a, m, eq, r as int);
    }
    r
}

/// One round of the value hash: mix in a part, multiply, fold the high half.
pub open spec fn mix(value: u64, part: i64) -> u64 {
    let v1 = value ^ (part as u64);
    let v2 = v1.wrapping_mul(0xe703_7ed1_a0b4_28db);
    v2 ^ (v2 >> 32u64)
}

/// The hash of a seed and four values.
pub open spec fn hash_values_spec(seed: u64, x: i64, y: i64, z: i64, extra: i64) -> u64 {
    mix(mix(mix(mix(seed ^ 0xa076_1d64_78bd_642f, x), y), z), extra)
}

fn mix_step(value: u64, part: i64) -> (r: u64)
    ensures
        r == mix(value, part),
{
    let mut v = value ^ (part as u64);
    v = v.wrapping_mul(0xe703_7ed1_a0b4_28db);
    v ^ (v >> 32)
}

/// Hashes a seed with four values.
pub fn hash_values(seed: u64, x: i64, y: i64, z: i64, extra: i64) -> (r: u64)
    ensures
        r == hash_values_spec(seed, x, y, z, extra),
{
    let mut value = seed ^ 0xa076_1d64_78bd_642f;
    value = mix_step(value, x);
    value = mix_step(value, y);
    value = mix_step(value, z);
    value = mix_step(value, extra);
    value
}

/// Whether the canonical form of an edge can be computed: the steps West,
/// North and Down move to the neighbouring cell.
pub open spec fn canonical_ok(from: CellCoord3d, direction: Direction3d) -> bool {
    match direction {
        Direction3d::West | Direction3d::North | Direction3d::Down => can_step(from, direction),
        _ => true,
    }
}

/// Every edge between two cells named once: by its west, north or lower
/// cell and the direction East, South or Up.
pub open spec fn canonical_edge_spec(from: CellCoord3d, direction: Direction3d) -> (
    CellCoord3d,
    Direction3d,
) {
    match direction {
        Direction3d::East => (from, Direction3d::East),
        Direction3d::West => (stepped(from, Direction3d::West), Direction3d::East),
        Direction3d::South => (from, Direction3d::South),
        Direction3d::North => (stepped(from, Direction3d::North), Direction3d::South),
        Direction3d::Up => (from, Direction3d::Up),
        Direction3d::Down => (stepped(from, Direction3d::Down), Direction3d::Up),
    }
}

/// The canonical name of the edge leaving `from` in `direction`.
pub fn canonical_edge(from: CellCoord3d, direction: Direction3d) -> (r: (CellCoord3d, Direction3d))
    requires
        canonical_ok(from, direction),
    ensures
        r == canonical_edge_spec(from, direction),
{
    match direction {
        Direction3d::East => (from, Direction3d::East),
        Direction3d::West => (from.offset(Direction3d::West), Direction3d::East),
        Direction3d::South => (from, Direction3d::South),
        Direction3d::North => (from.offset(Direction3d::North), Direction3d::South),
        Direction3d::Up => (from, Direction3d::Up),
        Direction3d::Down => (from.offset(Direction3d::Down), Direction3d::Up),
    }
}

/// The number a canonical direction contributes to an edge's hash.
pub open spec fn direction_value(direction: Direction3d) -> i64 {
    match direction {
        Direction3d::East => 11,
        Direction3d::South => 17,
        Direction3d::Up => 23,
        _ => 0,
    }
}

/// The hash of an edge given by its canonical cell and direction.
pub open spec fn hash_edge_spec(seed: u64, cell: CellCoord3d, direction: Direction3d) -> u64 {
    hash_values_spec(seed, cell.x as i64, cell.y as i64, cell.z as i64, direction_value(direction))
}

fn hash_edge(seed: u64, cell: CellCoord3d, direction: Direction3d) -> (r: u64)
    ensures
        r == hash_edge_spec(seed, cell, direction),
{
    let value: i64 = match direction {
        Direction3d::East => 11,
        Direction3d::South => 17,
        Direction3d::Up => 23,
        _ => 0,
    };
    hash_values(seed, cell.x as i64, cell.y as i64, cell.z as i64, value)
}

/// The seed of the room of one neighborhood of a cell.
pub open spec fn hash_neighborhood_spec(seed: u64, coord: CellCoord3d, neighborhood: usize) -> u64 {
    hash_values_spec(
        seed ^ 0x9e37_79b9_7f4a_7c15,
        coord.x as i64,
        coord.y as i64,
        coord.z as i64,
        neighborhood as i64,
    )
}

/// The seed of the room of one neighborhood of a cell.
pub fn hash_neighborhood(seed: u64, coord: CellCoord3d, neighborhood: usize) -> (r: u64)
    ensures
        r == hash_neighborhood_spec(seed, coord, neighborhood),
{
    hash_values(
        seed ^ 0x9e37_79b9_7f4a_7c15,
        coord.x as i64,
        coord.y as i64,
        coord.z as i64,
        #[verifier::truncate]
        (neighborhood as i64),
    )
}

/// Whether the passage leaving `from` in `direction` is open: east-west
/// edges on every fourth row, north-south edges on every third column and
/// vertical edges on every fourth column and row are always open; any other
/// edge is open when its hash modulo 100 falls under 32, 28 or 14.
pub open spec fn edge_open_spec(seed: u64, from: CellCoord3d, direction: Direction3d) -> bool {
    let (cell, canonical) = canonical_edge_spec(from, direction);
    let h = hash_edge_spec(seed, cell, canonical) % 100;
    match canonical {
        Direction3d::East => (cell.y as int) % 4 == 0 || h < 32,
        Direction3d::South => (cell.x as int) % 3 == 0 || h < 28,
        Direction3d::Up => ((cell.x as int) % 4 == 0 && (cell.y as int) % 4 == 0) || h < 14,
        _ => false,
    }
}

/// Whether the passage leaving `from` in `direction` is open.
pub fn edge_is_open(seed: u64, from: CellCoord3d, direction: Direction3d) -> (r: bool)
    requires
        canonical_ok(from, direction),
    ensures
        r == edge_open_spec(seed, from, direction),
{
    let (cell, canonical_direction) = canonical_edge(from, direction);
    match canonical_direction {
        Direction3d::East => {
            rem_euclid(cell.y, 4) == 0 || hash_edge(seed, cell, canonical_direction) % 100 < 32
        },
        Direction3d::South => {
            rem_euclid(cell.x, 3) == 0 || hash_edge(seed, cell, canonical_direction) % 100 < 28
        },
        Direction3d::Up => {
            (rem_euclid(cell.x, 4) == 0 && rem_euclid(cell.y, 4) == 0) || hash_edge(
                seed,
                cell,
                canonical_direction,
            ) % 100 < 14
        },
        Direction3d::West | Direction3d::North | Direction3d::Down => {
            proof {
                assert(false);
            }
            false
        },
    }
}

/// Passages are two-way: the passage from a cell in a direction is open
/// exactly when the passage back from the neighbour in the opposite direction
/// is open.
pub proof fn lemma_passages_symmetric(seed: u64, from: CellCoord3d, direction: Direction3d)
    requires
        can_step(from, direction),
    ensures
        edge_open_spec(seed, from, direction) == edge_open_spec(
            seed,
            stepped(from, direction),
            opposite_of(direction),
        ),
        canonical_edge_spec(from, direction) == canonical_edge_spec(
            stepped(from, direction),
            opposite_of(direction),
        ),
{
}

/// The passages of a cell can be listed: every step used to name an edge or
/// to reach an open neighbour stays in range.
pub open spec fn passages_ok(seed: u64, coord: CellCoord3d) -> bool {
    &&& can_step(coord, Direction3d::West)
    &&& can_step(coord, Direction3d::North)
    &&& can_step(coord, Direction3d::Down)
    &&& forall|d: Direction3d| #[trigger] edge_open_spec(seed, coord, d) ==> can_step(coord, d)
}

/// The directions in the order passages are listed.
pub open spec fn direction_order() -> Seq<Direction3d> {
    seq![
        Direction3d::North,
        Direction3d::South,
        Direction3d::East,
        Direction3d::West,
        Direction3d::Up,
        Direction3d::Down,
    ]
}

/// The open passages among the first `k` directions.
pub open spec fn passages_upto(seed: u64, coord: CellCoord3d, k: int) -> Seq<Passage3d>
    decreases k,
{
    if k <= 0 {
        Seq::empty()
    } else {
        let d = direction_order()[k - 1];
        let before = passages_upto(seed, coord, k - 1);
        if edge_open_spec(seed, coord, d) {
            before.push(Passage3d { from: coord, to: stepped(coord, d), direction: d })
        } else {
            before
        }
    }
}

/// The open passages of a cell, one per open direction, in direction order.
pub fn cell_passages(seed: u64, coord: CellCoord3d) -> (r: Vec<Passage3d>)
    requires
        passages_ok(seed, coord),
    ensures
        r@ == passages_upto(seed, coord, 6),
{
    let dirs = Direction3d::all();
    let mut r: Vec<Passage3d> = Vec::new();
    let mut k: usize = 0;
    while k < 6
        invariant
            k <= 6,
            dirs@ == direction_order(),
            passages_ok(seed, coord),
            r@ == passages_upto(seed, coord, k as int),
        decreases 6 - k,
    {
        let d = dirs[k];
        if edge_is_open(seed, coord, d) {
            r.push(Passage3d { from: coord, to: coord.offset(d), direction: d });
        }
        k += 1;
    }
    r
}

/// The chunk that owns a cell: each coordinate divided by the chunk's size
/// along that axis, rounded down.
pub open spec fn chunk_of(config: LayoutConfig, coord: CellCoord3d) -> ChunkCoord {
    ChunkCoord {
        x: floor_div(coord.x as int, config.chunk_width as int) as i32,
        y: floor_div(coord.y as int, config.chunk_depth as int) as i32,
        z: floor_div(coord.z as int, config.chunk_levels as int) as i32,
    }
}

/// Chunk sizes are positive and fit in a coordinate.
pub open spec fn sizes_ok(config: LayoutConfig) -> bool {
    &&& 1 <= config.chunk_width <= i32::MAX
    &&& 1 <= config.chunk_depth <= i32::MAX
    &&& 1 <= config.chunk_levels <= i32::MAX
}

/// The chunk that owns a cell.
pub fn chunk_for_cell(config: LayoutConfig, coord: CellCoord3d) -> (r: ChunkCoord)
    requires
        sizes_ok(config),
    ensures
        r == chunk_of(config, coord),
{
    ChunkCoord::new(
        div_floor(coord.x, config.chunk_width as i32),
        div_floor(coord.y, config.chunk_depth as i32),
        div_floor(coord.z, config.chunk_levels as i32),
    )
}

/// The cell with the given local position in a chunk.
pub open spec fn global_cell(config: LayoutConfig, chunk: ChunkCoord, x: int, y: int, z: int) -> CellCoord3d {
    CellCoord3d {
        x: (chunk.x * config.chunk_width + x) as i32,
        y: (chunk.y * config.chunk_depth + y) as i32,
        z: (chunk.z * config.chunk_levels + z) as i32,
    }
}

/// All cells of a chunk fit in coordinates.
pub open spec fn chunk_fits(config: LayoutConfig, chunk: ChunkCoord) -> bool {
    &&& i32::MIN <= chunk.x * config.chunk_width
    &&& (chunk.x + 1) * config.chunk_width - 1 <= i32::MAX
    &&& i32::MIN <= chunk.y * config.chunk_depth
    &&& (chunk.y + 1) * config.chunk_depth - 1 <= i32::MAX
    &&& i32::MIN <= chunk.z * config.chunk_levels
    &&& (chunk.z + 1) * config.chunk_levels - 1 <= i32::MAX
}

/// Every cell a chunk lists belongs to that chunk.
pub proof fn lemma_chunk_owns_its_cells(
    config: LayoutConfig,
    chunk: ChunkCoord,
    x: int,
    y: int,
    z: int,
)
    requires
        sizes_ok(config),
        chunk_fits(config, chunk),
        0 <= x < config.chunk_width,
        0 <= y < config.chunk_depth,
        0 <= z < config.chunk_levels,
    ensures
        chunk_of(config, global_cell(config, chunk, x, y, z)) == chunk,
{
    let w = config.chunk_width as int;
    let d = config.chunk_depth as int;
    let l = config.chunk_levels as int;
    assert(chunk.x * w <= chunk.x * w + x <= (chunk.x + 1) * w - 1) by (nonlinear_arith)
        requires 0 <= x < w;
    assert(chunk.y * d <= chunk.y * d + y <= (chunk.y + 1) * d - 1) by (nonlinear_arith)
        requires 0 <= y < d;
    assert(chunk.z * l <= chunk.z * l + z <= (chunk.z + 1) * l - 1) by (nonlinear_arith)
        requires 0 <= z < l;
    vstd::arithmetic::div_mod::lemma_fundamental_div_mod_converse(chunk.x * w + x, w, chunk.x as int, x);
    vstd::arithmetic::div_mod::lemma_fundamental_div_mod_converse(chunk.y * d + y, d, chunk.y as int, y);
    vstd::arithmetic::div_mod::lemma_fundamental_div_mod_converse(chunk.z * l + z, l, chunk.z as int, z);
}

/// A position that comes earlier in level-row-column order has a smaller
/// flat index.
proof fn lemma_grid_before(xx: int, yy: int, zz: int, x: int, y: int, z: int, w: int, d: int)
    requires
        0 <= xx < w,
        0 <= yy < d,
        0 <= zz,
        0 <= x,
        0 <= y,
        zz < z || (zz == z && yy < y) || (zz == z && yy == y && xx < x),
    ensures
        0 <= (zz * d + yy) * w + xx < (z * d + y) * w + x,
{
    let a = zz * d + yy;
    let b = z * d + y;
    assert(0 <= a) by (nonlinear_arith)
        requires 0 <= zz, 0 <= yy, d > 0, a == zz * d + yy;
    if zz < z {
        assert(a < b) by (nonlinear_arith)
            requires zz < z, 0 <= yy < d, 0 <= y, a == zz * d + yy, b == z * d + y;
    }
    if a < b {
        assert(a * w + xx < b * w + x) by (nonlinear_arith)
            requires a < b, 0 <= xx < w, 0 <= x;
    }
    assert(0 <= a * w + xx) by (nonlinear_arith)
        requires 0 <= a, 0 <= xx, w > 0;
}

/// The cells of a chunk with their local positions, level by level, row by
/// row: entry `(z * depth + y) * width + x` is local position `[x, y, z]`.
pub fn chunk_cells(config: LayoutConfig, chunk: ChunkCoord) -> (r: Vec<([usize; 3], CellCoord3d)>)
    requires
        sizes_ok(config),
        chunk_fits(config, chunk),
        config.chunk_width * config.chunk_depth * config.chunk_levels <= usize::MAX,
    ensures
        r@.len() == config.chunk_width * config.chunk_depth * config.chunk_levels,
        forall|x: int, y: int, z: int|
            0 <= x < config.chunk_width && 0 <= y < config.chunk_depth && 0 <= z
                < config.chunk_levels ==> {
                let e = #[trigger] r@[(z * config.chunk_depth + y) * config.chunk_width + x];
                &&& e.0@ == seq![x as usize, y as usize, z as usize]
                &&& e.1 == global_cell(config, chunk, x, y, z)
            },
{
    let w = config.chunk_width;
    let d = config.chunk_depth;
    let l = config.chunk_levels;
    let mut r: Vec<([usize; 3], CellCoord3d)> = Vec::new();
    let mut z: usize = 0;
    assert(z * d * w == 0) by (nonlinear_arith)
        requires z == 0;
    while z < l
        invariant
            sizes_ok(config),
            chunk_fits(config, chunk),
            w == config.chunk_width,
            d == config.chunk_depth,
            l == config.chunk_levels,
            z <= l,
            r@.len() == z * d * w,
            forall|xx: int, yy: int, zz: int|
                0 <= xx < w && 0 <= yy < d && 0 <= zz < z ==> {
                    let e = #[trigger] r@[(zz * d + yy) * w + xx];
                    &&& e.0@ == seq![xx as usize, yy as usize, zz as usize]
                    &&& e.1 == global_cell(config, chunk, xx, yy, zz)
                },
        decreases l - z,
    {
        let mut y: usize = 0;
        while y < d
            invariant
                sizes_ok(config),
                chunk_fits(config, chunk),
                w == config.chunk_width,
                d == config.chunk_depth,
                l == config.chunk_levels,
                z < l,
                y <= d,
                r@.len() == (z * d + y) * w,
                forall|xx: int, yy: int, zz: int|
                    0 <= xx < w && 0 <= yy < d && 0 <= zz < z ==> {
                        let e = #[trigger] r@[(zz * d + yy) * w + xx];
                        &&& e.0@ == seq![xx as usize, yy as usize, zz as usize]
                        &&& e.1 == global_cell(config, chunk, xx, yy, zz)
                    },
                forall|xx: int, yy: int|
                    0 <= xx < w && 0 <= yy < y ==> {
                        let e = #[trigger] r@[(z * d + yy) * w + xx];
                        &&& e.0@ == seq![xx as usize, yy as usize, z as usize]
                        &&& e.1 == global_cell(config, chunk, xx, yy, z as int)
                    },
            decreases d - y,
        {
            let mut x: usize = 0;
            while x < w
                invariant
                    sizes_ok(config),
                    chunk_fits(config, chunk),
                    w == config.chunk_width,
                    d == config.chunk_depth,
                    l == config.chunk_levels,
                    z < l,
                    y < d,
                    x <= w,
                    r@.len() == (z * d + y) * w + x,
                    forall|xx: int, yy: int, zz: int|
                        0 <= xx < w && 0 <= yy < d && 0 <= zz < z ==> {
                            let e = #[trigger] r@[(zz * d + yy) * w + xx];
                            &&& e.0@ == seq![xx as usize, yy as usize, zz as usize]
                            &&& e.1 == global_cell(config, chunk, xx, yy, zz)
                        },
                    forall|xx: int, yy: int|
                        0 <= xx < w && 0 <= yy < y ==> {
                            let e = #[trigger] r@[(z * d + yy) * w + xx];
                            &&& e.0@ == seq![xx as usize, yy as usize, z as usize]
                            &&& e.1 == global_cell(config, chunk, xx, yy, z as int)
                        },
                    forall|xx: int|
                        0 <= xx < x ==> {
                            let e = #[trigger] r@[(z * d + y) * w + xx];
                            &&& e.0@ == seq![xx as usize, y as usize, z as usize]
                            &&& e.1 == global_cell(config, chunk, xx, y as int, z as int)
                        },
                decreases w - x,
            {
                proof {
                    assert(chunk.x * w <= chunk.x * w + x <= (chunk.x + 1) * w - 1) by (nonlinear_arith)
                        requires 0 <= x < w;
                    assert(chunk.y * d <= chunk.y * d + y <= (chunk.y + 1) * d - 1) by (nonlinear_arith)
                        requires 0 <= y < d;
                    assert(chunk.z * l <= chunk.z * l + z <= (chunk.z + 1) * l - 1) by (nonlinear_arith)
                        requires 0 <= z < l;
                    assert((z * d + y) * w + x < w * d * l) by (nonlinear_arith)
                        requires 0 <= x < w, 0 <= y < d, 0 <= z < l;
                }
                let gx = chunk.x * (w as i32) + (x as i32);
                let gy = chunk.y * (d as i32) + (y as i32);
                let gz = chunk.z * (l as i32) + (z as i32);
                let ghost prev = r@;
                r.push(([x, y, z], CellCoord3d::new(gx, gy, gz)));
                proof {
                    let e = r@[(z * d + y) * w + x];
                    assert(e.0@ =~= seq![x as usize, y as usize, z as usize]);
                    assert forall|xx: int, yy: int, zz: int|
                        0 <= xx < w && 0 <= yy < d && 0 <= zz < z implies #[trigger] r@[(zz * d + yy) * w + xx]
                        == prev[(zz * d + yy) * w + xx] by {
                        lemma_grid_before(xx, yy, zz, x as int, y as int, z as int, w as int, d as int);
                    }
                    assert forall|xx: int, yy: int|
                        0 <= xx < w && 0 <= yy < y implies #[trigger] r@[(z * d + yy) * w + xx]
                        == prev[(z * d + yy) * w + xx] by {
                        lemma_grid_before(xx, yy, z as int, x as int, y as int, z as int, w as int, d as int);
                    }
                }
                x += 1;
            }
            proof {
                assert forall|xx: int, yy: int|
                    0 <= xx < w && 0 <= yy < y + 1 implies {
                        let e = #[trigger] r@[(z * d + yy) * w + xx];
                        &&& e.0@ == seq![xx as usize, yy as usize, z as usize]
                        &&& e.1 == global_cell(config, chunk, xx, yy, z as int)
                    } by {}
                assert((z * d + y) * w + w == (z * d + (y + 1)) * w) by (nonlinear_arith);
            }
            y += 1;
        }
        proof {
            assert((z * d + d) * w == (z + 1) * d * w) by (nonlinear_arith);
            assert(z * d * w == (z * d + 0) * w) by (nonlinear_arith);
        }
        z += 1;
    }
    proof {
        assert(l * d * w == w * d * l) by (nonlinear_arith);
    }
    r
}

/// The chunks whose coordinates lie within `radius` of the center along each
/// axis, level by level, row by row: entry `(k * side + j) * side + i` is the
/// chunk `center + (i, j, k) - radius` where `side = 2 * radius + 1`.
pub fn chunks_around(center: ChunkCoord, radius: i32) -> (r: Vec<ChunkCoord>)
    requires
        0 <= radius,
        (2 * radius + 1) * (2 * radius + 1) * (2 * radius + 1) <= usize::MAX,
        i32::MIN <= center.x - radius,
        center.x + radius <= i32::MAX,
        i32::MIN <= center.y - radius,
        center.y + radius <= i32::MAX,
        i32::MIN <= center.z - radius,
        center.z + radius <= i32::MAX,
    ensures
        r@.len() == (2 * radius + 1) * (2 * radius + 1) * (2 * radius + 1),
        forall|i: int, j: int, k: int|
            0 <= i < 2 * radius + 1 && 0 <= j < 2 * radius + 1 && 0 <= k < 2 * radius + 1
                ==> #[trigger] r@[(k * (2 * radius + 1) + j) * (2 * radius + 1) + i] == (ChunkCoord {
                x: (center.x - radius + i) as i32,
                y: (center.y - radius + j) as i32,
                z: (center.z - radius + k) as i32,
            }),
{
    proof {
        let s = 2 * radius + 1;
        assert(s <= 0x100_0000) by (nonlinear_arith)
            requires
                s >= 1,
                s * s * s <= usize::MAX,
                usize::MAX <= 0xffff_ffff_ffff_ffff,
        ;
    }
    let side: usize = (2 * radius + 1) as usize;
    let mut r: Vec<ChunkCoord> = Vec::new();
    let mut k: usize = 0;
    while k < side
        invariant
            0 <= radius,
            side <= 0x100_0000,
            side * side * side <= usize::MAX,
            side == 2 * radius + 1,
            i32::MIN <= center.x - radius,
            center.x + radius <= i32::MAX,
            i32::MIN <= center.y - radius,
            center.y + radius <= i32::MAX,
            i32::MIN <= center.z - radius,
            center.z + radius <= i32::MAX,
            k <= side,
            r@.len() == k * side * side,
            forall|i: int, j: int, kk: int|
                0 <= i < side && 0 <= j < side && 0 <= kk < k ==> #[trigger] r@[(kk * side + j) * side
                    + i] == (ChunkCoord {
                    x: (center.x - radius + i) as i32,
                    y: (center.y - radius + j) as i32,
                    z: (center.z - radius + kk) as i32,
                }),
        decreases side - k,
    {
        let mut j: usize = 0;
        while j < side
            invariant
                0 <= radius,
            side <= 0x100_0000,
            side * side * side <= usize::MAX,
                side == 2 * radius + 1,
                i32::MIN <= center.x - radius,
                center.x + radius <= i32::MAX,
                i32::MIN <= center.y - radius,
                center.y + radius <= i32::MAX,
                i32::MIN <= center.z - radius,
                center.z + radius <= i32::MAX,
                k < side,
                j <= side,
                r@.len() == (k * side + j) * side,
                forall|i: int, jj: int, kk: int|
                    0 <= i < side && 0 <= jj < side && 0 <= kk < k ==> #[trigger] r@[(kk * side + jj)
                        * side + i] == (ChunkCoord {
                        x: (center.x - radius + i) as i32,
                        y: (center.y - radius + jj) as i32,
                        z: (center.z - radius + kk) as i32,
                    }),
                forall|i: int, jj: int|
                    0 <= i < side && 0 <= jj < j ==> #[trigger] r@[(k * side + jj) * side + i] == (
                    ChunkCoord {
                        x: (center.x - radius + i) as i32,
                        y: (center.y - radius + jj) as i32,
                        z: (center.z - radius + k) as i32,
                    }),
            decreases side - j,
        {
            let mut i: usize = 0;
            while i < side
                invariant
                    0 <= radius,
            side <= 0x100_0000,
            side * side * side <= usize::MAX,
                    side == 2 * radius + 1,
                    i32::MIN <= center.x - radius,
                    center.x + radius <= i32::MAX,
                    i32::MIN <= center.y - radius,
                    center.y + radius <= i32::MAX,
                    i32::MIN <= center.z - radius,
                    center.z + radius <= i32::MAX,
                    k < side,
                    j < side,
                    i <= side,
                    r@.len() == (k * side + j) * side + i,
                    forall|ii: int, jj: int, kk: int|
                        0 <= ii < side && 0 <= jj < side && 0 <= kk < k ==> #[trigger] r@[(kk * side
                            + jj) * side + ii] == (ChunkCoord {
                            x: (center.x - radius + ii) as i32,
                            y: (center.y - radius + jj) as i32,
                            z: (center.z - radius + kk) as i32,
                        }),
                    forall|ii: int, jj: int|
                        0 <= ii < side && 0 <= jj < j ==> #[trigger] r@[(k * side + jj) * side + ii]
                            == (ChunkCoord {
                            x: (center.x - radius + ii) as i32,
                            y: (center.y - radius + jj) as i32,
                            z: (center.z - radius + k) as i32,
                        }),
                    forall|ii: int|
                        0 <= ii < i ==> #[trigger] r@[(k * side + j) * side + ii] == (ChunkCoord {
                            x: (center.x - radius + ii) as i32,
                            y: (center.y - radius + j) as i32,
                            z: (center.z - radius + k) as i32,
                        }),
                decreases side - i,
            {
                proof {
                    assert((k * side + j) * side + i < side * side * side) by (nonlinear_arith)
                        requires 0 <= i < side, 0 <= j < side, 0 <= k < side;
                }
                let ghost prev = r@;
                r.push(
                    ChunkCoord::new(
                        center.x - radius + (i as i32),
                        center.y - radius + (j as i32),
                        center.z - radius + (k as i32),
                    ),
                );
                proof {
                    assert forall|ii: int, jj: int, kk: int|
                        0 <= ii < side && 0 <= jj < side && 0 <= kk < k implies #[trigger] r@[(kk * side + jj)
                        * side + ii] == prev[(kk * side + jj) * side + ii] by {
                        lemma_grid_before(ii, jj, kk, i as int, j as int, k as int, side as int, side as int);
                    }
                    assert forall|ii: int, jj: int|
                        0 <= ii < side && 0 <= jj < j implies #[trigger] r@[(k * side + jj) * side + ii]
                        == prev[(k * side + jj) * side + ii] by {
                        lemma_grid_before(ii, jj, k as int, i as int, j as int, k as int, side as int, side as int);
                    }
                }
                i += 1;
            }
            proof {
                assert((k * side + j) * side + side == (k * side + (j + 1)) * side) by (nonlinear_arith);
            }
            j += 1;
        }
        proof {
            assert((k * side + side) * side == (k + 1) * side * side) by (nonlinear_arith);
            assert(k * side * side == (k * side + 0) * side) by (nonlinear_arith);
        }
        k += 1;
    }
    r
}


/// The guaranteed corridors, whatever the seed: the east-west passage of
/// every cell on a row y ≡ 0 (mod 4) is open, seen from either side; so is
/// the north-south passage of every cell on a column x ≡ 0 (mod 3); and the
/// vertical shaft of every cell with x ≡ y ≡ 0 (mod 4).
pub proof fn lemma_guaranteed_corridors(seed: u64, cell: CellCoord3d)
    ensures
        (cell.y as int) % 4 == 0 ==> edge_open_spec(seed, cell, Direction3d::East),
        (cell.y as int) % 4 == 0 && can_step(cell, Direction3d::East) ==> edge_open_spec(
            seed,
            stepped(cell, Direction3d::East),
            Direction3d::West,
        ),
        (cell.x as int) % 3 == 0 ==> edge_open_spec(seed, cell, Direction3d::South),
        (cell.x as int) % 3 == 0 && can_step(cell, Direction3d::South) ==> edge_open_spec(
            seed,
            stepped(cell, Direction3d::South),
            Direction3d::North,
        ),
        (cell.x as int) % 4 == 0 && (cell.y as int) % 4 == 0 ==> edge_open_spec(seed, cell, Direction3d::Up),
        (cell.x as int) % 4 == 0 && (cell.y as int) % 4 == 0 && can_step(cell, Direction3d::Up)
            ==> edge_open_spec(seed, stepped(cell, Direction3d::Up), Direction3d::Down),
{
    let e = stepped(cell, Direction3d::East);
    if can_step(cell, Direction3d::East) {
        assert(stepped(e, Direction3d::West) == cell);
    }
    if can_step(cell, Direction3d::South) {
        assert(stepped(stepped(cell, Direction3d::South), Direction3d::North) == cell);
    }
    if can_step(cell, Direction3d::Up) {
        assert(stepped(stepped(cell, Direction3d::Up), Direction3d::Down) == cell);
    }
}

} // verus!
