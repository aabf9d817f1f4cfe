//! Error kinds returned by the world-state mutations.
//!
//! A reducer validates first and mutates second: on any of these errors the
//! state it was handed is unchanged, except where a function's contract says
//! otherwise (partial stacking on a full inventory keeps the stacks already
//! committed, as the transactional host rolls back or reports as it sees fit).

use vstd::prelude::*;

verus! {

/// The reason a world-state mutation was refused.
#[derive(Clone, Copy, Debug, PartialEq, Eq, Structural)]
pub enum ErrorCode {
    /// A referenced row (item instance, structure, resource) does not exist.
    NotFound,
    /// The sender identity fails an ownership check.
    NotOwned,
    /// A slot index is outside the container's bounds, or of the wrong kind.
    InvalidSlot,
    /// The target slot is filled, cannot merge, and a swap is disallowed.
    Occupied,
    /// The item's definition is not stackable where stacking is required.
    NotStackable,
    /// A merge or split is impossible (type mismatch, bad quantity).
    CannotMerge,
    /// A repair or craft cost cannot be paid.
    InsufficientResources,
    /// No destination slot is free for a gathered or unequipped item.
    InventoryFull,
    /// The actor is too far from the target of the interaction.
    TooFar,
    /// The resource node is already harvested and awaiting respawn.
    AlreadyHarvested,
    /// The structure is destroyed and cannot be interacted with.
    Destroyed,
    /// A cooldown window has not elapsed yet.
    Cooldown,
    /// An internal inconsistency, such as a missing connection id.
    Internal,
}

impl ErrorCode {
    /// A short stable label for the error, for the host to send to
    /// clients verbatim: the variant's own name.
    pub fn label(&self) -> (r: String)
        ensures
            r@.len() > 0,
            self is NotFound ==> r@ == "NotFound"@,
            self is NotOwned ==> r@ == "NotOwned"@,
            self is InvalidSlot ==> r@ == "InvalidSlot"@,
            self is Occupied ==> r@ == "Occupied"@,
            self is NotStackable ==> r@ == "NotStackable"@,
            self is CannotMerge ==> r@ == "CannotMerge"@,
            self is InsufficientResources ==> r@ == "InsufficientResources"@,
            self is InventoryFull ==> r@ == "InventoryFull"@,
            self is TooFar ==> r@ == "TooFar"@,
            self is AlreadyHarvested ==> r@ == "AlreadyHarvested"@,
            self is Destroyed ==> r@ == "Destroyed"@,
            self is Cooldown ==> r@ == "Cooldown"@,
            self is Internal ==> r@ == "Internal"@,
    {
        let s: &str = match self {
            ErrorCode::NotFound => "NotFound",
            ErrorCode::NotOwned => "NotOwned",
            ErrorCode::InvalidSlot => "InvalidSlot",
            ErrorCode::Occupied => "Occupied",
            ErrorCode::NotStackable => "NotStackable",
            ErrorCode::CannotMerge => "CannotMerge",
            ErrorCode::InsufficientResources => "InsufficientResources",
            ErrorCode::InventoryFull => "InventoryFull",
            ErrorCode::TooFar => "TooFar",
            ErrorCode::AlreadyHarvested => "AlreadyHarvested",
            ErrorCode::Destroyed => "Destroyed",
            ErrorCode::Cooldown => "Cooldown",
            ErrorCode::Internal => "Internal",
        };
        proof {
            reveal_strlit("NotFound");
            reveal_strlit("NotOwned");
            reveal_strlit("InvalidSlot");
            reveal_strlit("Occupied");
            reveal_strlit("NotStackable");
            reveal_strlit("CannotMerge");
            reveal_strlit("InsufficientResources");
            reveal_strlit("InventoryFull");
            reveal_strlit("TooFar");
            reveal_strlit("AlreadyHarvested");
            reveal_strlit("Destroyed");
            reveal_strlit("Cooldown");
            reveal_strlit("Internal");
        }
        s.to_owned()
    }
}

} // verus!
