//! A source producing one constant frame forever.

use vstd::prelude::*;

use crate::ToSignal;
use core::marker::PhantomData;

verus! {

/// A source that plays one frame, unchanged, forever.
pub struct Constant<T> {
    _phantom: PhantomData<T>,
}

impl<T> Constant<T> {
    /// Generate a new `Constant` source.
    #[must_use]
    pub fn new() -> (source: Self) {
        Constant { _phantom: PhantomData }
    }
}

/// Settings for initialization of a [`Constant`] audio source.
pub struct Settings<T> {
    /// The frame to play.
    pub frame: T,
}

impl<T> Settings<T> {
    /// Generate settings for [`Constant`].
    pub fn new(frame: T) -> (settings: Self)
        ensures
            settings.frame == frame,
    {
        Settings { frame }
    }
}

/// The live signal of a [`Constant`] source.
pub struct ConstantSignal<T> {
    /// The frame produced on every sample instant.
    pub frame: T,
}

impl<T> ToSignal for Constant<T> {
    type Settings = Settings<T>;

    type Signal = ConstantSignal<T>;

    open spec fn produces(&self, settings: Settings<T>, signal: ConstantSignal<T>) -> bool {
        signal.frame == settings.frame
    }

    fn to_signal(&self, settings: Settings<T>) -> (signal: ConstantSignal<T>) {
        ConstantSignal { frame: settings.frame }
    }
}

} // verus!
