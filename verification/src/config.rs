//! Daemon configuration.
//!
//! The host program fills a `Config` from its environment; the library
//! provides the documented defaults. Fractions (the similarity threshold)
//! are held in parts per million.

use vstd::prelude::*;
use vstd::string::StringExecFns;

verus! {

/// Default cosine-similarity threshold for a positive match (0.40).
pub const DEFAULT_SIMILARITY_THRESHOLD_PPM: i64 = 400000;

/// Daemon configuration.
pub struct Config {
    /// V4L2 device path.
    pub camera_device: String,
    /// Directory containing the ONNX model files.
    pub model_dir: String,
    /// Path of the template database file.
    pub db_path: String,
    /// Cosine-similarity threshold for a positive match, in parts per million.
    pub similarity_threshold_ppm: i64,
    /// Timeout in seconds for a verify operation.
    pub verify_timeout_secs: u64,
    /// Warmup frames discarded at startup for gain-control stabilisation.
    pub warmup_frames: usize,
    /// Frames captured per verify attempt.
    pub frames_per_verify: usize,
    /// Frames captured per enroll attempt.
    pub frames_per_enroll: usize,
    /// Whether the IR emitter is driven around each capture sequence.
    pub emitter_enabled: bool,
}

impl Config {
    /// The documented defaults. The model directory and database path default
    /// to locations under the user data directory, which only the host
    /// program can resolve; here they start empty.
    pub fn defaults() -> (c: Config)
        ensures
            c.camera_device@ == "/dev/video2"@,
            c.model_dir@ == ""@,
            c.db_path@ == ""@,
            c.similarity_threshold_ppm == DEFAULT_SIMILARITY_THRESHOLD_PPM,
            c.verify_timeout_secs == 10,
            c.warmup_frames == 4,
            c.frames_per_verify == 3,
            c.frames_per_enroll == 5,
            c.emitter_enabled,
    {
        Config {
            camera_device: "/dev/video2".to_owned(),
            model_dir: "".to_owned(),
            db_path: "".to_owned(),
            similarity_threshold_ppm: DEFAULT_SIMILARITY_THRESHOLD_PPM,
            verify_timeout_secs: 10,
            warmup_frames: 4,
            frames_per_verify: 3,
            frames_per_enroll: 5,
            emitter_enabled: true,
        }
    }

    /// Path of the SCRFD detection model under the model directory.
    pub fn scrfd_model_path(&self) -> (r: String)
        ensures
            r@ == self.model_dir@ + "/det_10g.onnx"@,
    {
        let base: String = self.model_dir.clone();
        base.concat("/det_10g.onnx")
    }

    /// Path of the ArcFace recognition model under the model directory.
    pub fn arcface_model_path(&self) -> (r: String)
        ensures
            r@ == self.model_dir@ + "/w600k_r50.onnx"@,
    {
        let base: String = self.model_dir.clone();
        base.concat("/w600k_r50.onnx")
    }
}

} // verus!
