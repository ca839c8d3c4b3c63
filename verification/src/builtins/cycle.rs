//! A source cycling over a buffer of frames.

use vstd::prelude::*;

use crate::ToSignal;
use core::marker::PhantomData;

verus! {

/// A source that repeats a buffer of frames endlessly.
pub struct Cycle<T> {
    _phantom: PhantomData<T>,
}

impl<T> Cycle<T> {
    /// Generate a new `Cycle` source.
    #[must_use]
    pub fn new() -> (source: Self) {
        Cycle { _phantom: PhantomData }
    }
}

/// Settings for initialization of a [`Cycle`] audio source.
pub struct Settings<T> {
    /// The frames to cycle over.
    pub frames: Vec<T>,
}

impl<T> Settings<T> {
    /// Generate settings for [`Cycle`].
    #[must_use]
    pub fn new(frames: Vec<T>) -> (settings: Self)
        ensures
            settings.frames == frames,
    {
        Settings { frames }
    }
}

/// The live signal of a [`Cycle`] source: the buffer and a cursor that
/// wraps at its end.
pub struct CycleSignal<T> {
    /// The frames being cycled.
    pub frames: Vec<T>,
    /// The next frame to play.
    pub cursor: usize,
}

impl<T> ToSignal for Cycle<T> {
    type Settings = Settings<T>;

    type Signal = CycleSignal<T>;

    open spec fn produces(&self, settings: Settings<T>, signal: CycleSignal<T>) -> bool {
        &&& signal.frames == settings.frames
        &&& signal.cursor == 0
    }

    fn to_signal(&self, settings: Settings<T>) -> (signal: CycleSignal<T>) {
        CycleSignal { frames: settings.frames, cursor: 0 }
    }
}

} // verus!
