use vstd::prelude::*;

verus! {

/// The state of a key or a mouse button.
#[derive(Clone, Copy, Debug, PartialEq, Eq, Hash, Structural)]
pub enum State {
    Up,
    Down,
    Repeating,
}

} // verus!
