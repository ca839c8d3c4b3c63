//! A nested spatial scene as a source.

use vstd::prelude::*;

use crate::ToSignal;

verus! {

/// A source that is itself a whole spatial scene, mixed as one signal.
pub struct SpatialScene;

/// The live signal of a [`SpatialScene`] source: a freshly created scene
/// with no emitters yet.
pub struct SpatialSceneSignal {
    /// How many emitters the scene holds.
    pub emitters: usize,
}

impl ToSignal for SpatialScene {
    type Settings = ();

    type Signal = SpatialSceneSignal;

    open spec fn produces(&self, settings: (), signal: SpatialSceneSignal) -> bool {
        signal.emitters == 0
    }

    fn to_signal(&self, settings: ()) -> (signal: SpatialSceneSignal) {
        SpatialSceneSignal { emitters: 0 }
    }
}

} // verus!
