//! IR emitter control payloads.
//!
//! Activating a Windows Hello-class camera's infrared LED means writing a
//! vendor-specific payload to a UVC extension unit through a kernel ioctl.
//! The host program performs the ioctl; the payloads and constants are
//! decided here. Emitter failures are warnings: illumination is an
//! enhancement, never a precondition for capture.

use vstd::prelude::*;
use crate::quirks::CameraQuirk;

verus! {

/// The `UVCIOC_CTRL_QUERY` ioctl request value
/// (`_IOWR('u', 0x21, struct uvc_xu_control_query)`, a 16-byte struct).
pub const UVCIOC_CTRL_QUERY: u64 = 0xC010_7521;

/// UVC_SET_CUR: set the current value of a control.
pub const UVC_SET_CUR: u8 = 0x01;

/// Size in bytes of `struct uvc_xu_control_query` in the kernel ABI.
pub const UVC_XU_CONTROL_QUERY_SIZE: usize = 16;

/// Emitter failure; logged as a warning and never propagated into a capture
/// failure.
#[derive(Debug)]
pub enum EmitterError {
    /// The device has no entry in the quirk database.
    NoQuirk(String),
    /// Opening the device node failed.
    Open(String),
    /// The UVC ioctl failed.
    Ioctl(String),
}

/// The payload that activates the emitter: the quirk's control bytes.
pub fn activation_payload(quirk: &CameraQuirk) -> (r: Vec<u8>)
    ensures
        r@ == quirk.emitter.control_bytes@,
{
    quirk.emitter.control_bytes.clone()
}

/// The payload that deactivates the emitter: zeros of the same length as
/// the control bytes.
pub fn deactivation_payload(quirk: &CameraQuirk) -> (r: Vec<u8>)
    ensures
        r@.len() == quirk.emitter.control_bytes@.len(),
        forall|i: int| 0 <= i < r@.len() ==> #[trigger] r@[i] == 0,
{
    let n = quirk.emitter.control_bytes.len();
    let mut zeros: Vec<u8> = Vec::new();
    let mut i: usize = 0;
    while i < n
        invariant
            i <= n,
            zeros@.len() == i,
            forall|j: int| 0 <= j < i ==> #[trigger] zeros@[j] == 0,
        decreases n - i,
    {
        zeros.push(0);
        i = i + 1;
    }
    zeros
}

} // verus!
