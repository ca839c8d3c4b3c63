//! A sine-wave oscillator source.

use vstd::prelude::*;

use crate::ToSignal;

verus! {

/// A sine-wave oscillator source.
pub struct Sine;

/// Settings for initialization of a [`Sine`] audio source, in fixed point:
/// thousandths of a radian and thousandths of a hertz.
pub struct Settings {
    /// The initial phase of the sine wave, in milli-radians.
    pub phase: i64,
    /// The frequency of the sine wave, in milli-hertz.
    pub frequency_hz: i64,
}

impl Settings {
    /// Generate settings for [`Sine`].
    #[must_use]
    pub fn new(phase: i64, frequency_hz: i64) -> (settings: Self)
        ensures
            settings.phase == phase,
            settings.frequency_hz == frequency_hz,
    {
        Settings { phase, frequency_hz }
    }
}

/// The live signal of a [`Sine`] source.
pub struct SineSignal {
    /// Current phase of the oscillator, in milli-radians.
    pub phase: i64,
    /// Frequency of the oscillator, in milli-hertz.
    pub frequency_hz: i64,
}

impl ToSignal for Sine {
    type Settings = Settings;

    type Signal = SineSignal;

    open spec fn produces(&self, settings: Settings, signal: SineSignal) -> bool {
        &&& signal.phase == settings.phase
        &&& signal.frequency_hz == settings.frequency_hz
    }

    fn to_signal(&self, settings: Settings) -> (signal: SineSignal) {
        SineSignal { phase: settings.phase, frequency_hz: settings.frequency_hz }
    }
}

} // verus!
