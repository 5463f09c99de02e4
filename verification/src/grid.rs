//! The kinds of rooms on a dungeon floor, and how far apart restrooms are
//! placed.
use vstd::prelude::*;
use crate::random::{roll_between, thread_rng};

verus! {

/// The kind of a room on a floor.
#[derive(Debug, Clone, Copy, PartialEq, Eq, Hash, Structural)]
pub enum RoomType {
    Normal,
    Bathroom,
    SafeRoom,
    Stairwell,
}

/// A random spacing between restrooms, from 300 to 500 metres.
pub fn restroom_distance() -> (r: u16)
    ensures
        300 <= r <= 500,
{
    let mut rng = thread_rng();
    roll_between(&mut rng, 300, 500) as u16
}

} // verus!
