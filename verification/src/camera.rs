//! Camera session logic: pixel-format negotiation, raw-buffer conversion,
//! and the capture plan that filters dark frames.
//!
//! The V4L2 device itself is driven by the host program; the functions here
//! decide which negotiated formats are accepted, turn raw buffers into
//! grayscale frames, and account for the capture budget.

use vstd::prelude::*;
use crate::frame;
use crate::frame::FrameError;
use crate::clahe;

verus! {

/// Camera failure surfaced to callers.
#[derive(Clone, Debug)]
pub enum CameraError {
    DeviceNotFound(String),
    CaptureFailed(String),
    DeviceBusy,
    FormatNegotiationFailed(String),
    StreamingNotSupported,
}

/// Info about a discovered video capture device.
#[derive(Clone, Debug)]
pub struct DeviceInfo {
    pub path: String,
    pub name: String,
    pub driver: String,
    pub bus: String,
}

/// Negotiated pixel format for the camera.
#[derive(Clone, Copy, Debug, PartialEq, Eq, Structural)]
pub enum PixelFormat {
    /// YUYV 4:2:2 packed (2 bytes/pixel, extract the Y channel).
    Yuyv,
    /// 8-bit grayscale (1 byte/pixel, native IR camera output).
    Grey,
    /// 16-bit little-endian grayscale (2 bytes/pixel, common IR format).
    Y16,
}

/// The pixel format a negotiated FourCC code maps to, if it is one of the
/// accepted formats. Both trailing-space conventions of the 16-bit format
/// ("Y16 " and "Y16\0") are accepted.
pub open spec fn format_of_fourcc(f: Seq<u8>) -> Option<PixelFormat> {
    if f.len() != 4 {
        None
    } else if f[0] == 89u8 && f[1] == 85u8 && f[2] == 89u8 && f[3] == 86u8 {
        Some(PixelFormat::Yuyv)
    } else if f[0] == 71u8 && f[1] == 82u8 && f[2] == 69u8 && f[3] == 89u8 {
        Some(PixelFormat::Grey)
    } else if f[0] == 89u8 && f[1] == 49u8 && f[2] == 54u8 && (f[3] == 32u8 || f[3] == 0u8) {
        Some(PixelFormat::Y16)
    } else {
        None
    }
}

/// Map a negotiated FourCC code to its pixel format; any other code must
/// fail format negotiation.
pub fn pixel_format_of_fourcc(fourcc: &[u8; 4]) -> (r: Option<PixelFormat>)
    ensures
        r == format_of_fourcc(fourcc@),
{
    let b0 = fourcc[0];
    let b1 = fourcc[1];
    let b2 = fourcc[2];
    let b3 = fourcc[3];
    if b0 == 89 && b1 == 85 && b2 == 89 && b3 == 86 {
        Some(PixelFormat::Yuyv)
    } else if b0 == 71 && b1 == 82 && b2 == 69 && b3 == 89 {
        Some(PixelFormat::Grey)
    } else if b0 == 89 && b1 == 49 && b2 == 54 && (b3 == 32 || b3 == 0) {
        Some(PixelFormat::Y16)
    } else {
        None
    }
}

/// Flag bit of the capability word meaning the device supports video
/// capture.
pub const VIDEO_CAPTURE_FLAG: u32 = 0x1;

/// A device is usable only when its capability word carries the video
/// capture flag; otherwise streaming is unsupported.
pub fn check_capture_capability(capabilities: u32) -> (r: Result<(), CameraError>)
    ensures
        r is Ok <==> capabilities & VIDEO_CAPTURE_FLAG != 0,
        r is Err ==> r->Err_0 is StreamingNotSupported,
{
    if capabilities & VIDEO_CAPTURE_FLAG != 0 {
        Ok(())
    } else {
        Err(CameraError::StreamingNotSupported)
    }
}

/// The grayscale image a raw buffer converts to under a pixel format:
/// the Y plane of YUYV, the leading `w * h` bytes of GREY, or the high
/// bytes of little-endian Y16.
pub open spec fn converted_spec(format: PixelFormat, buf: Seq<u8>, w: int, h: int) -> Seq<u8> {
    match format {
        PixelFormat::Yuyv => Seq::new((w * h) as nat, |i: int| buf[2 * i]),
        PixelFormat::Grey => buf.subrange(0, w * h),
        PixelFormat::Y16 => Seq::new((w * h) as nat, |i: int| buf[2 * i + 1]),
    }
}

/// Bytes a raw buffer must hold for one image under a pixel format.
pub open spec fn required_len(format: PixelFormat, w: int, h: int) -> int {
    match format {
        PixelFormat::Yuyv => 2 * w * h,
        PixelFormat::Grey => w * h,
        PixelFormat::Y16 => 2 * w * h,
    }
}

/// Convert a raw capture buffer to grayscale according to the negotiated
/// pixel format. A buffer shorter than the format requires fails the
/// capture.
pub fn buf_to_grayscale(format: PixelFormat, buf: &[u8], width: u32, height: u32) -> (r: Result<
    Vec<u8>,
    CameraError,
>)
    requires
        2 * (width as int) * (height as int) <= usize::MAX,
    ensures
        match r {
            Ok(gray) => {
                &&& buf@.len() >= required_len(format, width as int, height as int)
                &&& gray@ == converted_spec(format, buf@, width as int, height as int)
            },
            Err(e) => {
                &&& buf@.len() < required_len(format, width as int, height as int)
                &&& e is CaptureFailed
            },
        },
{
    proof {
        assert(0 <= (width as int) * (height as int) && 2 * ((width as int) * (height as int)) == 2
            * (width as int) * (height as int)) by (nonlinear_arith);
    }
    match format {
        PixelFormat::Grey => {
            match frame::grey_to_grayscale(buf, width, height) {
                Ok(gray) => Ok(gray),
                Err(FrameError::InvalidLength { .. }) => Err(
                    CameraError::CaptureFailed("buffer too short for GREY image".to_owned()),
                ),
            }
        },
        PixelFormat::Y16 => {
            match frame::y16_to_grayscale(buf, width, height) {
                Ok(gray) => {
                    proof {
                        assert(gray@ =~= converted_spec(format, buf@, width as int, height as int));
                    }
                    Ok(gray)
                },
                Err(FrameError::InvalidLength { .. }) => Err(
                    CameraError::CaptureFailed("buffer too short for Y16 image".to_owned()),
                ),
            }
        },
        PixelFormat::Yuyv => {
            match frame::yuyv_to_grayscale(buf, width, height) {
                Ok(gray) => {
                    proof {
                        assert(gray@ =~= converted_spec(format, buf@, width as int, height as int));
                    }
                    Ok(gray)
                },
                Err(FrameError::InvalidLength { .. }) => Err(
                    CameraError::CaptureFailed("YUYV conversion failed".to_owned()),
                ),
            }
        },
    }
}

/// Process one dequeued raw buffer of a multi-frame capture: convert it to
/// grayscale, drop it when dark, and contrast-enhance it when kept.
///
/// Returns `Ok(None)` for a dark frame, `Ok(Some(pixels))` for a kept and
/// enhanced frame, and an error when the buffer does not fit the format.
pub fn process_captured_buffer(
    format: PixelFormat,
    buf: &[u8],
    width: u32,
    height: u32,
    dark_threshold_pct: u32,
    tiles: u32,
    clip_ppm: u32,
) -> (r: Result<Option<Vec<u8>>, CameraError>)
    requires
        2 * (width as int) * (height as int) <= clahe::MAX_PIXELS,
        1 <= tiles <= 256,
        clip_ppm <= 1000000,
    ensures
        ({
            let conv = converted_spec(format, buf@, width as int, height as int);
            match r {
                Ok(kept) => {
                    &&& buf@.len() >= required_len(format, width as int, height as int)
                    &&& match kept {
                        None => frame::is_dark_spec(conv, dark_threshold_pct),
                        Some(gray) => !frame::is_dark_spec(conv, dark_threshold_pct) && gray@
                            == clahe::clahe_spec(
                            conv,
                            width as int,
                            height as int,
                            tiles as int,
                            clip_ppm as int,
                        ),
                    }
                },
                Err(e) => {
                    &&& buf@.len() < required_len(format, width as int, height as int)
                    &&& e is CaptureFailed
                },
            }
        }),
{
    proof {
        assert(0 <= (width as int) * (height as int) && 2 * ((width as int) * (height as int)) == 2
            * (width as int) * (height as int)) by (nonlinear_arith);
    }
    let mut gray = match buf_to_grayscale(format, buf, width, height) {
        Ok(g) => g,
        Err(e) => {
            return Err(e);
        },
    };
    if frame::is_dark_frame(gray.as_slice(), dark_threshold_pct) {
        return Ok(None);
    }
    clahe::clahe_enhance(&mut gray, width, height, tiles, clip_ppm);
    Ok(Some(gray))
}

/// Budget and tally of one multi-frame capture: up to three dequeues are
/// attempted for every requested frame, and capture stops as soon as the
/// requested number of non-dark frames has been kept.
pub struct CapturePlan {
    /// Number of non-dark frames requested.
    pub target: usize,
    /// Dequeues performed so far.
    pub attempts: usize,
    /// Non-dark frames kept so far.
    pub kept: usize,
    /// Dark frames skipped so far.
    pub dark_skipped: usize,
}

impl CapturePlan {
    /// The tallies stay within the capture budget.
    pub open spec fn wf(&self) -> bool {
        &&& 3 * (self.target as int) <= usize::MAX
        &&& self.kept + self.dark_skipped == self.attempts
        &&& self.kept <= self.target
        &&& self.attempts <= 3 * self.target
    }

    /// A fresh plan for `count` requested frames.
    pub fn new(count: usize) -> (p: CapturePlan)
        requires
            3 * count <= usize::MAX,
        ensures
            p.wf(),
            p.target == count,
            p.attempts == 0,
            p.kept == 0,
            p.dark_skipped == 0,
    {
        CapturePlan { target: count, attempts: 0, kept: 0, dark_skipped: 0 }
    }

    /// Whether another dequeue should be attempted: the kept count is short
    /// of the target and the attempt budget of three dequeues per requested
    /// frame is not exhausted.
    pub fn wants_more(&self) -> (r: bool)
        requires
            self.wf(),
        ensures
            r == (self.kept < self.target && self.attempts < 3 * self.target),
    {
        self.kept < self.target && self.attempts < 3 * self.target
    }

    /// Record a dequeued frame that was kept.
    pub fn record_kept(&mut self)
        requires
            old(self).wf(),
            old(self).kept < old(self).target,
            old(self).attempts < 3 * old(self).target,
        ensures
            final(self).wf(),
            final(self).target == old(self).target,
            final(self).attempts == old(self).attempts + 1,
            final(self).kept == old(self).kept + 1,
            final(self).dark_skipped == old(self).dark_skipped,
    {
        self.attempts = self.attempts + 1;
        self.kept = self.kept + 1;
    }

    /// Record a dequeued frame that was dark and skipped.
    pub fn record_dark(&mut self)
        requires
            old(self).wf(),
            old(self).attempts < 3 * old(self).target,
        ensures
            final(self).wf(),
            final(self).target == old(self).target,
            final(self).attempts == old(self).attempts + 1,
            final(self).kept == old(self).kept,
            final(self).dark_skipped == old(self).dark_skipped + 1,
    {
        self.attempts = self.attempts + 1;
        self.dark_skipped = self.dark_skipped + 1;
    }
}

} // verus!
