use vstd::prelude::*;

verus! {

/// The part of the pawn a render node hangs from.
#[derive(Debug, Clone, Copy, PartialEq, Eq, Structural)]
pub enum AnchorKind {
    Body,
    Head,
}

} // verus!
