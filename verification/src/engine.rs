//! Engine decisions: which detected face wins an enrollment, and which
//! frame's match wins a verification.
//!
//! The engine actor owns the camera and the two network sessions on one
//! dedicated thread; the host program runs that loop and hands the per-frame
//! results to the functions here.

use vstd::prelude::*;
use crate::camera::CameraError;
use crate::detector::Detection;
use crate::detector::DetectorError;
use crate::recognizer::RecognizerError;
use crate::types::Embedding;
use crate::types::MatchResult;

verus! {

/// Engine failure surfaced to callers.
#[derive(Debug)]
pub enum EngineError {
    Camera(CameraError),
    Detector(DetectorError),
    Recognizer(RecognizerError),
    /// No face was detected in any captured frame: a normal outcome.
    NoFaceDetected,
    /// The engine thread exited; the daemon should be restarted.
    ChannelClosed,
}

/// Result of an enrollment operation.
pub struct EnrollResult {
    pub embedding: Embedding,
    /// Detector confidence of the winning face, in parts per million.
    pub quality_ppm: i64,
}

/// Result of a verification operation.
pub struct VerifyResult {
    pub result: MatchResult,
    /// Detector confidence of the winning frame's face, in parts per million.
    pub best_quality_ppm: i64,
}

/// One frame's contribution to a verification: the gallery comparison of its
/// top detection, and that detection's confidence.
pub struct FrameMatch {
    pub result: MatchResult,
    pub confidence_ppm: i64,
}

/// The winning enrollment candidate among the top detections of the first
/// `n` frames: the detection of strictly greatest positive confidence,
/// earliest frame first on ties.
pub open spec fn enroll_best(per_frame: Seq<Option<Detection>>, n: int) -> Option<(int, Detection)>
    decreases n,
{
    if n <= 0 {
        None
    } else {
        let prev = enroll_best(per_frame, n - 1);
        match per_frame[n - 1] {
            Some(d) => match prev {
                None => if d.confidence_ppm > 0 {
                    Some((n - 1, d))
                } else {
                    None
                },
                Some(b) => if d.confidence_ppm > b.1.confidence_ppm {
                    Some((n - 1, d))
                } else {
                    prev
                },
            },
            None => prev,
        }
    }
}

/// Pick the winning face for enrollment: the detection with the highest
/// confidence across all frames (strictly higher to win, so earlier frames
/// win ties; confidence must be positive). `None` means no face was found.
pub fn select_best_detection(per_frame: &Vec<Option<Detection>>) -> (r: Option<(usize, Detection)>)
    ensures
        match r {
            Some((i, d)) => enroll_best(per_frame@, per_frame@.len() as int) == Some((i as int, d)),
            None => enroll_best(per_frame@, per_frame@.len() as int) is None,
        },
{
    let mut best: Option<(usize, Detection)> = None;
    let mut i: usize = 0;
    while i < per_frame.len()
        invariant
            i <= per_frame@.len(),
            match best {
                Some((bi, bd)) => enroll_best(per_frame@, i as int) == Some((bi as int, bd)),
                None => enroll_best(per_frame@, i as int) is None,
            },
        decreases per_frame@.len() - i,
    {
        match per_frame[i] {
            Some(d) => {
                let replace: bool = match best {
                    None => d.confidence_ppm > 0,
                    Some((_, bd)) => d.confidence_ppm > bd.confidence_ppm,
                };
                if replace {
                    best = Some((i, d));
                }
            },
            None => {},
        }
        i = i + 1;
    }
    best
}

/// The index of the winning frame among the first `n` verification frames:
/// the frame whose comparison scored the strictly greatest similarity,
/// earliest frame first on ties; `None` when no frame had a face.
pub open spec fn verify_best(frames: Seq<Option<FrameMatch>>, n: int) -> Option<int>
    decreases n,
{
    if n <= 0 {
        None
    } else {
        let prev = verify_best(frames, n - 1);
        match frames[n - 1] {
            Some(fm) => match prev {
                None => Some(n - 1),
                Some(b) => if fm.result.similarity_ppm
                    > frames[b]->Some_0.result.similarity_ppm {
                    Some(n - 1)
                } else {
                    prev
                },
            },
            None => prev,
        }
    }
}

impl Clone for MatchResult {
    /// Clones keep the exact result.
    fn clone(&self) -> (r: Self)
        ensures
            r == *self,
    {
        MatchResult {
            matched: self.matched,
            similarity_ppm: self.similarity_ppm,
            model_id: self.model_id.clone(),
            model_label: self.model_label.clone(),
        }
    }
}

/// Aggregate the per-frame comparisons of a verification: the best match
/// across all frames wins (strictly better similarity to win, so earlier
/// frames win ties). With no face in any frame, the call fails with
/// `NoFaceDetected`.
pub fn aggregate_verify(frames: &Vec<Option<FrameMatch>>) -> (r: Result<VerifyResult, EngineError>)
    ensures
        match verify_best(frames@, frames@.len() as int) {
            Some(b) => match r {
                Ok(vr) => vr.result == frames@[b]->Some_0.result && vr.best_quality_ppm == frames@[
                    b
                ]->Some_0.confidence_ppm,
                Err(_) => false,
            },
            None => r matches Err(EngineError::NoFaceDetected),
        },
{
    let ghost n = frames@.len() as int;
    let mut best: Option<usize> = None;
    let mut i: usize = 0;
    while i < frames.len()
        invariant
            i <= frames@.len(),
            match best {
                Some(b) => verify_best(frames@, i as int) == Some(b as int) && b < i && frames@[
                    b as int
                ] is Some,
                None => verify_best(frames@, i as int) is None,
            },
        decreases frames@.len() - i,
    {
        match &frames[i] {
            Some(fm) => {
                let replace: bool = match best {
                    None => true,
                    Some(b) => match &frames[b] {
                        Some(prev) => fm.result.similarity_ppm > prev.result.similarity_ppm,
                        None => true,
                    },
                };
                if replace {
                    best = Some(i);
                }
            },
            None => {},
        }
        i = i + 1;
    }
    match best {
        Some(b) => match &frames[b] {
            Some(fm) => Ok(
                VerifyResult { result: fm.result.clone(), best_quality_ppm: fm.confidence_ppm },
            ),
            None => Err(EngineError::NoFaceDetected),
        },
        None => Err(EngineError::NoFaceDetected),
    }
}

} // verus!
