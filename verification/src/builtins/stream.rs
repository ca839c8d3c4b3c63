//! A source fed sample-by-sample by the application.

use vstd::prelude::*;

use crate::ToSignal;
use core::marker::PhantomData;

verus! {

/// A source whose frames arrive from the application at run time.
pub struct Stream<T> {
    _phantom: PhantomData<T>,
}

impl<T> Stream<T> {
    /// Generate a new `Stream` source.
    #[must_use]
    pub fn new() -> (source: Self) {
        Stream { _phantom: PhantomData }
    }
}

/// Settings for initialization of a [`Stream`] audio source.
pub struct Settings {
    /// Sample rate of the stream, in frames per second.
    pub rate: u32,
    /// Capacity of the stream's ring buffer, in frames.
    pub size: usize,
}

impl Settings {
    /// Generate settings for [`Stream`].
    #[must_use]
    pub fn new(rate: u32, size: usize) -> (settings: Self)
        ensures
            settings.rate == rate,
            settings.size == size,
    {
        Settings { rate, size }
    }
}

/// The live signal of a [`Stream`] source: an initially empty ring buffer
/// of the configured capacity.
pub struct StreamSignal<T> {
    /// Sample rate, in frames per second.
    pub rate: u32,
    /// Capacity of the ring buffer, in frames.
    pub capacity: usize,
    /// The frames currently buffered.
    pub buffer: Vec<T>,
}

impl<T> ToSignal for Stream<T> {
    type Settings = Settings;

    type Signal = StreamSignal<T>;

    open spec fn produces(&self, settings: Settings, signal: StreamSignal<T>) -> bool {
        &&& signal.rate == settings.rate
        &&& signal.capacity == settings.size
        &&& signal.buffer@ == Seq::<T>::empty()
    }

    fn to_signal(&self, settings: Settings) -> (signal: StreamSignal<T>) {
        let signal = StreamSignal { rate: settings.rate, capacity: settings.size, buffer: Vec::new() };
        proof {
            assert(signal.buffer@ =~= Seq::<T>::empty());
        }
        signal
    }
}

} // verus!
