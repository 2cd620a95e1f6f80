use vstd::prelude::*;

verus! {

/// A player intent for one turn.
#[derive(Clone, Copy, Debug, PartialEq, Eq, Structural)]
pub enum Action {
    /// Step by `(dx, dy)`.
    Move(i32, i32),
    Quit,
    /// No intent this time.
    Idle,
}

} // verus!
