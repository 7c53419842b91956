use vstd::prelude::*;

verus! {

/// Identifies one game object during a future in-memory simulation;
/// unused by any current component.
#[derive(Debug, Clone, Copy, PartialEq, Eq, Hash, Structural)]
pub struct ObjectId(pub u32);

/// Identifies a game zone (library, hand, battlefield, ...); reserved for
/// the same future simulation work.
#[derive(Debug, Clone, Copy, PartialEq, Eq, Hash, Structural)]
pub struct ZoneId(pub u8);

} // verus!
