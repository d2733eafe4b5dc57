//! Gameplay recording.
//!
//! Rendered frames are handed to an encoder on a constant frame rate, a sidecar
//! lists the audio position of every frame, and a finger trace lists the virtual
//! fingers that a perfect player would hold on every frame. The modules here
//! decide what is sent, named and written; opening files, starting the encoder
//! and reading the framebuffer is left to the caller.

pub mod channel;
pub mod encoder;
pub mod framebuffer;
pub mod names;
pub mod recording;
pub mod spans;
pub mod text;
pub mod timestamp;
pub mod trace;
pub mod worker;
