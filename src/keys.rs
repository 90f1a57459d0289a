use vstd::prelude::*;

verus! {

/// The keys that steer the camera.
#[derive(Clone, Copy, Debug, PartialEq, Eq, Structural)]
pub enum Key {
    ArrowUp,
    ArrowDown,
    ArrowLeft,
    ArrowRight,
}

} // verus!
