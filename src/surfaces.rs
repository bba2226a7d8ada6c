//! The predefined surface patterns a track can be built from.
use vstd::prelude::*;

verus! {

/// The pattern on the outside of the track, the tread that meets the ground.
#[derive(Debug, Clone, Copy, PartialEq, Eq, Structural)]
pub enum TrackOuterSurfaceDescription {
    Simple,
    Chunky,
}

/// The pattern on the inside of the track, which engages the wheels.
#[derive(Debug, Clone, Copy, PartialEq, Eq, Structural)]
pub enum TrackInnerSurfaceDescription {
    Simple,
}

} // verus!
