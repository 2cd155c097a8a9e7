//! Visage: a verified core for a Linux face-authentication service.
//!
//! The library holds the pixel transforms, detector post-processing,
//! gallery matching, template store, and decision logic of the service.
//! Hardware access, neural-network inference and IPC live outside it and
//! hand the library plain values.

use vstd::prelude::*;

pub mod alignment;
pub mod camera;
pub mod clahe;
pub mod config;
pub mod detector;
pub mod engine;
pub mod frame;
pub mod ir_emitter;
pub mod pam;
pub mod quirks;
pub mod recognizer;
pub mod store;
pub mod types;

pub use detector::discover_output_indices;
pub use frame::yuyv_to_grayscale;
pub use frame::Frame;
pub use frame::FrameError;

verus! {

} // verus!
