//! Built-in source types that can be played directly: a constant frame, a
//! cycled buffer, a sine oscillator, a sample stream, and a nested spatial
//! scene.

/// A source producing one constant frame forever.
pub mod constant;
/// A source cycling over a buffer of frames.
pub mod cycle;
/// A sine-wave oscillator source.
pub mod sine;
/// A nested spatial scene as a source.
pub mod spatial_scene;
/// A source fed sample-by-sample by the application.
pub mod stream;
