//! The integer rules of a running world: the terrain seed derived from a
//! save's name, and which neighbouring cell the player may walk into.
use vstd::prelude::*;
use crate::terrain::generator::{
    direction_order, edge_open_spec, lemma_passages_symmetric, passages_ok, passages_upto,
};
use crate::terrain::types::{can_step, opposite_of, stepped, CellCoord3d, Direction3d, Passage3d};

verus! {

/// The 64-bit FNV-1a offset basis.
pub const FNV_OFFSET: u64 = 0xcbf2_9ce4_8422_2325u64;

/// The 64-bit FNV-1a prime.
pub const FNV_PRIME: u64 = 0x0000_0100_0000_01b3u64;

/// The 64-bit FNV-1a hash of a byte sequence: start from the offset basis,
/// and for each byte xor it in, then multiply by the prime modulo 2^64.
pub open spec fn fnv1a(bytes: Seq<u8>) -> u64
    decreases bytes.len(),
{
    if bytes.len() == 0 {
        FNV_OFFSET
    } else {
        (fnv1a(bytes.drop_last()) ^ (bytes.last() as u64)).wrapping_mul(FNV_PRIME)
    }
}

/// The terrain seed used for a save that stores none: the FNV-1a hash of
/// the UTF-8 bytes of its name.
pub fn stable_seed(value: &str) -> (r: u64)
    ensures
        r == fnv1a(vstd::utf8::encode_utf8(value@)),
{
    let bytes = value.as_bytes();
    let mut hash: u64 = FNV_OFFSET;
    let mut i: usize = 0;
    while i < bytes.len()
        invariant
            bytes@ == vstd::utf8::encode_utf8(value@),
            i <= bytes@.len(),
            hash == fnv1a(bytes@.take(i as int)),
        decreases bytes.len() - i,
    {
        hash = hash ^ (bytes[i] as u64);
        hash = hash.wrapping_mul(FNV_PRIME);
        proof {
            assert(bytes@.take(i + 1).drop_last() =~= bytes@.take(i as int));
        }
        i += 1;
    }
    assert(bytes@.take(bytes@.len() as int) =~= bytes@);
    hash
}

/// Whether one of the passages leads in the direction.
pub open spec fn has_passage(passages: Seq<Passage3d>, direction: Direction3d) -> bool {
    exists|i: int| 0 <= i < passages.len() && (#[trigger] passages[i]).direction == direction
}

/// Whether one of a cell's passages leads in the direction.
pub fn passage_leads(passages: &Vec<Passage3d>, direction: Direction3d) -> (r: bool)
    ensures
        r == has_passage(passages@, direction),
{
    let mut i: usize = 0;
    while i < passages.len()
        invariant
            i <= passages@.len(),
            forall|j: int| 0 <= j < i ==> (#[trigger] passages@[j]).direction != direction,
        decreases passages.len() - i,
    {
        if passages[i].direction == direction {
            return true;
        }
        i += 1;
    }
    false
}

/// The level direction of a step by `(dx, dy)` cells, for the four unit
/// steps; `y` grows southward.
pub open spec fn step_direction(dx: int, dy: int) -> Option<Direction3d> {
    if dx == 1 && dy == 0 {
        Some(Direction3d::East)
    } else if dx == -1 && dy == 0 {
        Some(Direction3d::West)
    } else if dx == 0 && dy == 1 {
        Some(Direction3d::South)
    } else if dx == 0 && dy == -1 {
        Some(Direction3d::North)
    } else {
        None
    }
}

/// Whether the player, standing in `current`, may be in `target`: the same
/// cell always, a cell one step away along x or y when a passage of the
/// current cell leads that way, and no other cell. Levels are not compared
/// beyond the first test: the target is on the current level.
pub open spec fn may_enter(current: CellCoord3d, target: CellCoord3d, passages: Seq<Passage3d>) -> bool {
    if target == current {
        true
    } else {
        match step_direction(target.x - current.x, target.y - current.y) {
            Some(d) => has_passage(passages, d),
            None => false,
        }
    }
}

/// Whether the player, standing in `current` whose passages are given, may
/// move into `target`.
pub fn can_enter(current: CellCoord3d, target: CellCoord3d, passages: &Vec<Passage3d>) -> (r: bool)
    requires
        i32::MIN < target.x - current.x <= i32::MAX,
        i32::MIN < target.y - current.y <= i32::MAX,
        vstd::math::abs(target.x - current.x) + vstd::math::abs(target.y - current.y) <= i32::MAX,
    ensures
        r == may_enter(current, target, passages@),
{
    if target == current {
        return true;
    }
    let dx = target.x - current.x;
    let dy = target.y - current.y;
    let adx = if dx < 0 { -dx } else { dx };
    let ady = if dy < 0 { -dy } else { dy };
    if adx + ady != 1 {
        return false;
    }
    let direction = if dx == 1 && dy == 0 {
        Direction3d::East
    } else if dx == -1 && dy == 0 {
        Direction3d::West
    } else if dx == 0 && dy == 1 {
        Direction3d::South
    } else {
        Direction3d::North
    };
    passage_leads(passages, direction)
}

/// A listed passage leads in a direction exactly when one of the directions
/// considered so far is that direction and its passage is open.
proof fn lemma_listed_passage(seed: u64, coord: CellCoord3d, k: int, d: Direction3d)
    requires
        0 <= k <= 6,
    ensures
        has_passage(passages_upto(seed, coord, k), d) <==> exists|j: int|
            0 <= j < k && direction_order()[j] == d && edge_open_spec(seed, coord, d),
    decreases k,
{
    if k > 0 {
        lemma_listed_passage(seed, coord, k - 1, d);
        let before = passages_upto(seed, coord, k - 1);
        let e = direction_order()[k - 1];
        if edge_open_spec(seed, coord, e) {
            let after = before.push(Passage3d { from: coord, to: stepped(coord, e), direction: e });
            assert(after == passages_upto(seed, coord, k));
            if has_passage(after, d) {
                let i = choose|i: int| 0 <= i < after.len() && (#[trigger] after[i]).direction == d;
                if i < before.len() {
                    assert(after[i] == before[i]);
                    assert(has_passage(before, d));
                } else {
                    assert(direction_order()[k - 1] == d);
                }
            }
            if exists|j: int| 0 <= j < k && direction_order()[j] == d && edge_open_spec(seed, coord, d) {
                let j = choose|j: int| 0 <= j < k && direction_order()[j] == d && edge_open_spec(seed, coord, d);
                if j < k - 1 {
                    assert(has_passage(before, d));
                    let i = choose|i: int| 0 <= i < before.len() && (#[trigger] before[i]).direction == d;
                    assert(after[i] == before[i]);
                } else {
                    assert(after[before.len() as int].direction == d);
                }
            }
        } else {
            assert(before == passages_upto(seed, coord, k));
            if exists|j: int| 0 <= j < k && direction_order()[j] == d && edge_open_spec(seed, coord, d) {
                let j = choose|j: int| 0 <= j < k && direction_order()[j] == d && edge_open_spec(seed, coord, d);
                assert(j < k - 1);
            }
        }
    } else {
        assert(passages_upto(seed, coord, 0).len() == 0);
    }
}

/// A cell's listed passages lead in a direction exactly when its passage
/// that way is open.
proof fn lemma_passage_listed_iff_open(seed: u64, coord: CellCoord3d, d: Direction3d)
    ensures
        has_passage(passages_upto(seed, coord, 6), d) <==> edge_open_spec(seed, coord, d),
{
    lemma_listed_passage(seed, coord, 6, d);
    if edge_open_spec(seed, coord, d) {
        let j: int = match d {
            Direction3d::North => 0,
            Direction3d::South => 1,
            Direction3d::East => 2,
            Direction3d::West => 3,
            Direction3d::Up => 4,
            Direction3d::Down => 5,
        };
        assert(direction_order()[j] == d);
    }
}

/// Moves are reversible: when the player may move from a cell into a
/// neighbouring one through the generated passages, the player may move
/// back.
pub proof fn lemma_moves_are_reversible(seed: u64, current: CellCoord3d, target: CellCoord3d)
    requires
        passages_ok(seed, current),
        passages_ok(seed, target),
        target.z == current.z,
        may_enter(current, target, passages_upto(seed, current, 6)),
    ensures
        may_enter(target, current, passages_upto(seed, target, 6)),
{
    if target != current {
        let dx = target.x - current.x;
        let dy = target.y - current.y;
        let d = step_direction(dx, dy)->0;
        lemma_passage_listed_iff_open(seed, current, d);
        assert(edge_open_spec(seed, current, d));
        assert(can_step(current, d));
        assert(stepped(current, d) == target);
        lemma_passages_symmetric(seed, current, d);
        lemma_passage_listed_iff_open(seed, target, opposite_of(d));
        assert(step_direction(current.x - target.x, current.y - target.y) == Some(opposite_of(d)));
    }
}

} // verus!
