//! Blur cleanup: the algorithms on offer and the blur decision made from the
//! Laplacian sums.

use vstd::prelude::*;
use crate::filters::LaplacianSums;

verus! {

/// The sharpening algorithm; the learned models fall back to the unsharp
/// mask where no model runner is present.
#[derive(Debug, Clone, Copy, PartialEq, Eq, Structural)]
pub enum DeblurAlgorithm {
    UnsharpMask,
    NafNet,
    DeblurGanV2,
}

impl Default for DeblurAlgorithm {
    fn default() -> (r: DeblurAlgorithm)
        ensures
            r == DeblurAlgorithm::UnsharpMask,
    {
        DeblurAlgorithm::UnsharpMask
    }
}

/// The learned model to run, by name and optional path.
#[derive(Debug, Clone)]
pub struct AiDeblurModel {
    pub name: String,
    pub model_path: Option<String>,
}

impl Default for AiDeblurModel {
    fn default() -> (r: AiDeblurModel)
        ensures
            r.name@ == "nafnet"@,
            r.model_path is None,
    {
        AiDeblurModel { name: String::from_str("nafnet"), model_path: None }
    }
}

/// The failures of the cleanup stages.
#[derive(Debug, Clone, PartialEq, Eq)]
pub enum CleanupError {
    ImageNotFound(String),
    InvalidImage(String),
    ProcessingFailed(String),
    IoError(String),
}

/// Default blur threshold on the Laplacian variance.
pub const DEFAULT_BLUR_THRESHOLD: u32 = 100;

/// Largest pixel count for which the blur decision is exact in 128 bits.
pub const MAX_BLUR_PIXELS: u64 = 0x100_0000_0000;

/// `count² · variance`, that is `|count · Σ L² − (Σ L)²|`.
pub open spec fn scaled_variance(s: LaplacianSums) -> int {
    let v = s.count * s.sum_sq - s.sum * s.sum;
    if v >= 0 { v } else { -v }
}

/// Decides blur from the Laplacian sums.
pub struct BlurDetector;

impl BlurDetector {
    /// The image is blurry when its Laplacian variance is below the
    /// threshold; an image without interior pixels has variance 0.
    pub fn is_blurry(sums: &LaplacianSums, threshold: u32) -> (r: bool)
        requires
            sums.count <= MAX_BLUR_PIXELS,
            sums.sum_sq <= 1040400 * sums.count,
            -1020 * sums.count <= sums.sum <= 1020 * sums.count,
        ensures
            sums.count == 0 ==> r == (threshold > 0),
            sums.count > 0 ==> r == (scaled_variance(*sums) < threshold * sums.count * sums.count),
    {
        if sums.count == 0 {
            return threshold > 0;
        }
        let n = sums.count as i128;
        let q = sums.sum_sq as i128;
        let s = sums.sum;
        assert(n * q <= 0x10000_0000_0000_0000_0000_0000_0000 && s * s <= 0x10000_0000_0000_0000_0000_0000_0000) by (nonlinear_arith)
            requires 0 < n <= 0x100_0000_0000, 0 <= q <= 1040400 * n, -1020 * n <= s <= 1020 * n;
        assert(0 <= s * s) by (nonlinear_arith);
        assert(0 <= n * q) by (nonlinear_arith)
            requires 0 < n, 0 <= q;
        let v = n * q - s * s;
        let av = if v >= 0 { v } else { -v };
        assert((threshold as i128) * n * n <= 0xffff_ffff * 0x100_0000_0000 * 0x100_0000_0000) by (nonlinear_arith)
            requires 0 < n <= 0x100_0000_0000, threshold <= 0xffff_ffffu32;
        assert(0 <= (threshold as i128) * n * n) by (nonlinear_arith)
            requires 0 < n, 0 <= threshold;
        assert((threshold as i128) * n <= 0xffff_ffff * 0x100_0000_0000) by (nonlinear_arith)
            requires 0 < n <= 0x100_0000_0000, threshold <= 0xffff_ffffu32;
        let tn = (threshold as i128) * n;
        av < tn * n
    }

    /// The sharpening stage runs unless detection is on and the image is
    /// sharp.
    pub fn should_sharpen(auto_detect: bool, blurry: bool) -> (r: bool)
        ensures
            r == (!auto_detect || blurry),
    {
        !auto_detect || blurry
    }
}

} // verus!
