//! Recognizer-side decisions.
//!
//! The recognition network itself runs outside the library; here live its
//! error taxonomy and the rule that embedding extraction demands landmarks.

use vstd::prelude::*;
use crate::detector::Detection;

verus! {

/// Version tag of the recognition model whose embeddings the library
/// handles.
pub const ARCFACE_MODEL_VERSION: &'static str = "w600k_r50";

/// Side length of the aligned face crop the recognizer consumes.
pub const ARCFACE_INPUT_SIZE: usize = 112;

/// Recognizer failure surfaced to callers. A missing model file is fatal at
/// startup; the others fail the single call.
#[derive(Debug)]
pub enum RecognizerError {
    ModelNotFound(String),
    InferenceFailed(String),
    /// The detector returned a face without landmarks; alignment is
    /// impossible, so the call must fail rather than embed an unaligned face.
    NoLandmarks,
}

/// Embedding extraction requires the detector's five landmarks: succeed with
/// them exactly when they are present, else fail with `NoLandmarks`.
pub fn require_landmarks(face: &Detection) -> (r: Result<[(i64, i64); 5], RecognizerError>)
    ensures
        match r {
            Ok(l) => face.landmarks == Some(l),
            Err(e) => face.landmarks is None && e is NoLandmarks,
        },
{
    match face.landmarks {
        Some(l) => Ok(l),
        None => Err(RecognizerError::NoLandmarks),
    }
}

} // verus!
