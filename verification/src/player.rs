//! The player's base statistics.
use vstd::prelude::*;

verus! {

/// The five base statistics of a player.
#[derive(Debug, Clone, Copy, PartialEq, Eq, Structural)]
pub struct PlayerStats {
    pub strength: i16,
    pub intelligence: i16,
    pub dexterity: i16,
    pub charisma: i16,
    pub constitution: i16,
}

} // verus!
