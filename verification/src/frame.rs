//! Frame type and pixel transforms: YUYV/GREY/Y16 conversion to grayscale
//! and dark-frame detection.

use vstd::prelude::*;

verus! {

/// A captured grayscale camera frame.
///
/// Well-formed frames hold exactly `width * height` pixel bytes.
pub struct Frame {
    /// Grayscale pixel data (width * height bytes).
    pub data: Vec<u8>,
    pub width: u32,
    pub height: u32,
    /// Capture time in milliseconds, as reported by the capture layer.
    pub timestamp_ms: u64,
    /// Monotonic capture sequence number from the driver.
    pub sequence: u32,
    pub is_dark: bool,
}

/// Sum of the first `n` pixel bytes.
pub open spec fn sum_bytes(s: Seq<u8>, n: int) -> int
    decreases n,
{
    if n <= 0 {
        0
    } else {
        sum_bytes(s, n - 1) + s[n - 1]
    }
}

proof fn lemma_sum_bytes_bound(s: Seq<u8>, n: int)
    ensures
        0 <= sum_bytes(s, n) <= if n <= 0 {
            0int
        } else {
            n * 255
        },
    decreases n,
{
    if n > 0 {
        lemma_sum_bytes_bound(s, n - 1);
    }
}

impl Frame {
    /// A frame is well-formed when its buffer length matches its dimensions.
    pub open spec fn wf(&self) -> bool {
        self.data@.len() == (self.width as nat) * (self.height as nat)
    }

    /// Average pixel brightness in thousandths of a level (0 to 255000);
    /// 0 for an empty frame.
    pub fn avg_brightness(&self) -> (r: u32)
        ensures
            self.data@.len() == 0 ==> r == 0,
            self.data@.len() > 0 ==> r == 1000 * sum_bytes(self.data@, self.data@.len() as int)
                / (self.data@.len() as int),
    {
        if self.data.len() == 0 {
            return 0;
        }
        let mut sum: u128 = 0;
        let mut i: usize = 0;
        while i < self.data.len()
            invariant
                i <= self.data@.len(),
                sum == sum_bytes(self.data@, i as int),
                sum <= (i as int) * 255,
            decreases self.data@.len() - i,
        {
            proof {
                lemma_sum_bytes_bound(self.data@, i + 1);
            }
            sum = sum + (self.data[i] as u128);
            i = i + 1;
        }
        let avg: u128 = 1000 * sum / (self.data.len() as u128);
        proof {
            let n = self.data@.len() as int;
            vstd::arithmetic::div_mod::lemma_div_pos_is_pos(1000 * sum_bytes(self.data@, n), n);
            assert(1000 * sum_bytes(self.data@, n) <= 255000 * n) by (nonlinear_arith)
                requires
                    sum_bytes(self.data@, n) <= n * 255,
            ;
            vstd::arithmetic::div_mod::lemma_div_is_ordered(
                1000 * sum_bytes(self.data@, n),
                255000 * n,
                n,
            );
            vstd::arithmetic::div_mod::lemma_div_by_multiple(255000, n);
        }
        avg as u32
    }
}

/// Error for a pixel-format conversion handed a buffer of the wrong size.
#[derive(Clone, Copy, Debug, PartialEq, Eq, Structural)]
pub enum FrameError {
    InvalidLength { expected: usize, actual: usize },
}

/// Convert packed YUYV (4:2:2) to grayscale by extracting the Y channel.
///
/// YUYV packs two pixels per 4 bytes: [Y0, U, Y1, V]; the Y plane is
/// every even-indexed byte. The input must hold at least `2 * width * height`
/// bytes; otherwise the conversion fails with `InvalidLength`.
pub fn yuyv_to_grayscale(yuyv: &[u8], width: u32, height: u32) -> (r: Result<
    Vec<u8>,
    FrameError,
>)
    requires
        2 * (width as int) * (height as int) <= usize::MAX,
    ensures
        match r {
            Ok(gray) => {
                &&& yuyv@.len() >= 2 * (width as int) * (height as int)
                &&& gray@.len() == (width as int) * (height as int)
                &&& forall|i: int| 0 <= i < gray@.len() ==> gray@[i] == yuyv@[2 * i]
            },
            Err(e) => {
                &&& yuyv@.len() < 2 * (width as int) * (height as int)
                &&& e == (FrameError::InvalidLength {
                    expected: (2 * (width as int) * (height as int)) as usize,
                    actual: yuyv@.len() as usize,
                })
            },
        },
{
    proof {
        assert(0 <= (width as int) * (height as int) && 2 * ((width as int) * (height as int)) == 2
            * (width as int) * (height as int)) by (nonlinear_arith);
    }
    let pixels: usize = (width as usize) * (height as usize);
    let expected: usize = 2 * pixels;
    if yuyv.len() < expected {
        return Err(FrameError::InvalidLength { expected, actual: yuyv.len() });
    }
    let mut gray: Vec<u8> = Vec::new();
    let mut i: usize = 0;
    while i < pixels
        invariant
            i <= pixels,
            2 * pixels <= yuyv@.len(),
            2 * pixels <= usize::MAX,
            gray@.len() == i,
            forall|j: int| 0 <= j < i ==> gray@[j] == yuyv@[2 * j],
        decreases pixels - i,
    {
        gray.push(yuyv[2 * i]);
        i = i + 1;
    }
    Ok(gray)
}

/// Convert native 8-bit grayscale: the identity, length-validated to
/// `width * height` bytes (extra bytes are dropped).
pub fn grey_to_grayscale(buf: &[u8], width: u32, height: u32) -> (r: Result<Vec<u8>, FrameError>)
    requires
        (width as int) * (height as int) <= usize::MAX,
    ensures
        match r {
            Ok(gray) => {
                &&& buf@.len() >= (width as int) * (height as int)
                &&& gray@ == buf@.subrange(0, (width as int) * (height as int))
            },
            Err(e) => {
                &&& buf@.len() < (width as int) * (height as int)
                &&& e == (FrameError::InvalidLength {
                    expected: ((width as int) * (height as int)) as usize,
                    actual: buf@.len() as usize,
                })
            },
        },
{
    proof {
        assert(0 <= (width as int) * (height as int)) by (nonlinear_arith);
    }
    let pixels: usize = (width as usize) * (height as usize);
    if buf.len() < pixels {
        return Err(FrameError::InvalidLength { expected: pixels, actual: buf.len() });
    }
    let mut gray: Vec<u8> = Vec::new();
    let mut i: usize = 0;
    while i < pixels
        invariant
            i <= pixels,
            pixels <= buf@.len(),
            gray@.len() == i,
            forall|j: int| 0 <= j < i ==> gray@[j] == buf@[j],
        decreases pixels - i,
    {
        gray.push(buf[i]);
        i = i + 1;
    }
    proof {
        assert(gray@ =~= buf@.subrange(0, pixels as int));
    }
    Ok(gray)
}

/// Convert 16-bit little-endian grayscale to 8-bit by selecting the high
/// byte of each pixel (equivalent to `value >> 8`). Length-validated to
/// `2 * width * height` bytes.
pub fn y16_to_grayscale(buf: &[u8], width: u32, height: u32) -> (r: Result<Vec<u8>, FrameError>)
    requires
        2 * (width as int) * (height as int) <= usize::MAX,
    ensures
        match r {
            Ok(gray) => {
                &&& buf@.len() >= 2 * (width as int) * (height as int)
                &&& gray@.len() == (width as int) * (height as int)
                &&& forall|i: int| 0 <= i < gray@.len() ==> gray@[i] == buf@[2 * i + 1]
            },
            Err(e) => {
                &&& buf@.len() < 2 * (width as int) * (height as int)
                &&& e == (FrameError::InvalidLength {
                    expected: (2 * (width as int) * (height as int)) as usize,
                    actual: buf@.len() as usize,
                })
            },
        },
{
    proof {
        assert(0 <= (width as int) * (height as int) && 2 * ((width as int) * (height as int)) == 2
            * (width as int) * (height as int)) by (nonlinear_arith);
    }
    let pixels: usize = (width as usize) * (height as usize);
    let expected: usize = 2 * pixels;
    if buf.len() < expected {
        return Err(FrameError::InvalidLength { expected, actual: buf.len() });
    }
    let mut gray: Vec<u8> = Vec::new();
    let mut i: usize = 0;
    while i < pixels
        invariant
            i <= pixels,
            2 * pixels <= buf@.len(),
            2 * pixels <= usize::MAX,
            gray@.len() == i,
            forall|j: int| 0 <= j < i ==> gray@[j] == buf@[2 * j + 1],
        decreases pixels - i,
    {
        gray.push(buf[2 * i + 1]);
        i = i + 1;
    }
    Ok(gray)
}

/// Number of pixels in `s` that fall in the darkest histogram bucket (< 32).
pub open spec fn dark_pixel_count(s: Seq<u8>) -> nat
    decreases s.len(),
{
    if s.len() == 0 {
        0
    } else {
        dark_pixel_count(s.drop_last()) + if s.last() < 32 {
            1nat
        } else {
            0nat
        }
    }
}

/// What it means for a grayscale buffer to be dark: empty, or more than
/// `threshold_pct` percent of its pixels below 32.
pub open spec fn is_dark_spec(s: Seq<u8>, threshold_pct: u32) -> bool {
    s.len() == 0 || 100 * dark_pixel_count(s) > (threshold_pct as nat) * s.len()
}

/// Check whether a frame is dark: the fraction of pixels in the darkest
/// 8-bucket-histogram bucket (value < 32) strictly exceeds
/// `threshold_pct / 100`. Empty frames count as dark.
pub fn is_dark_frame(gray: &[u8], threshold_pct: u32) -> (r: bool)
    ensures
        r == is_dark_spec(gray@, threshold_pct),
{
    if gray.len() == 0 {
        return true;
    }
    let mut dark: usize = 0;
    let mut i: usize = 0;
    while i < gray.len()
        invariant
            i <= gray@.len(),
            dark == dark_pixel_count(gray@.take(i as int)),
            dark <= i,
        decreases gray@.len() - i,
    {
        proof {
            assert(gray@.take(i + 1).drop_last() =~= gray@.take(i as int));
        }
        if gray[i] < 32 {
            dark = dark + 1;
        }
        i = i + 1;
    }
    proof {
        assert(gray@.take(gray@.len() as int) =~= gray@);
        assert((threshold_pct as int) * (gray@.len() as int) <= u128::MAX) by (nonlinear_arith)
            requires
                0 <= threshold_pct <= u32::MAX,
                0 <= gray@.len() <= u64::MAX,
        ;
    }
    (dark as u128) * 100 > (threshold_pct as u128) * (gray.len() as u128)
}

} // verus!
