use vstd::prelude::*;

verus! {

/// The identifier of a civilization. Civilization 0 is the player's.
#[derive(Debug, Clone, Copy, PartialEq, Eq, Hash, Structural)]
pub struct CivId(pub u32);

/// The identifier reserved for the player-controlled civilization.
pub const PLAYER_CIVILIZATION_ID: u32 = 0;

impl From<u32> for CivId {
    fn from(id: u32) -> (c: CivId) {
        CivId(id)
    }
}

impl vstd::std_specs::convert::FromSpecImpl<u32> for CivId {
    open spec fn obeys_from_spec() -> bool {
        true
    }

    open spec fn from_spec(id: u32) -> CivId {
        CivId(id)
    }
}

/// An entity of the simulation world, by the stable number that identifies it.
#[derive(Debug, Clone, Copy, PartialEq, Eq, Hash, Structural)]
pub struct EntityId(pub u64);

} // verus!
