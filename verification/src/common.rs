use vstd::prelude::*;
use vstd::std_specs::convert::FromSpecImpl;

verus! {

/// The lady, and everything a hit on her costs: sprite flag 0, as the bit it is in a flag set.
pub const LADY: u8 = 1;

/// An enemy aircraft, whichever one it is: sprite flag 1.
pub const AIRCRAFT: u8 = 2;

/// A shot of ours, going up the screen: sprite flag 2.
pub const FRIENDLY_SHOT: u8 = 4;

/// And one of theirs, coming down it: sprite flag 3.
pub const ENEMY_SHOT: u8 = 8;

// The four flags above are written on the sprites each side of the fight is drawn from, and they
// are the whole of the game's collision: the world reads them off the cell each entity wears,
// writes what it met into that entity's own contacts, and each of them settles for itself what
// the flags it met cost it. A flag set is a byte, one bit a flag, exactly as the console keeps it.

/// Whether a step that met the flags in `touched` met anything carrying one of `flags`: any flag
/// in common is a yes, and an empty `flags` matches nothing.
pub open spec fn meets(touched: u8, flags: u8) -> bool {
    touched & flags != 0
}

/// [`meets`], computed.
pub fn touches(touched: u8, flags: u8) -> (r: bool)
    ensures
        r == meets(touched, flags),
{
    touched & flags != 0
}

/// A pixel position on (or off) the screen.
#[derive(Debug, Clone, Copy, PartialEq, Eq, Structural)]
pub struct Position {
    pub x: i16,
    pub y: i16,
}

impl From<(i16, i16)> for Position {
    fn from(value: (i16, i16)) -> (p: Self) {
        Self { x: value.0, y: value.1 }
    }
}

impl FromSpecImpl<(i16, i16)> for Position {
    open spec fn obeys_from_spec() -> bool {
        true
    }

    open spec fn from_spec(v: (i16, i16)) -> Self {
        Position { x: v.0, y: v.1 }
    }
}

} // verus!
