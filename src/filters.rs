//! Integer image filters: the Laplacian sums behind the blur score and the
//! Sobel edge magnitude.

use vstd::prelude::*;
use crate::content::{GrayImage, lemma_index_in_bounds};

verus! {

/// Pixel `(x, y)` of a well-formed image.
pub open spec fn px(img: GrayImage, x: int, y: int) -> int {
    img.pixels@[y * img.width + x] as int
}

/// The 4-neighbour Laplacian at an interior pixel.
pub open spec fn laplacian_at(img: GrayImage, x: int, y: int) -> int {
    px(img, x, y - 1) + px(img, x, y + 1) + px(img, x - 1, y) + px(img, x + 1, y) - 4 * px(img, x, y)
}

/// Sum of the Laplacian (`power` 1) or of its square (`power` 2) over
/// columns `1..=k` of row `y`.
pub open spec fn row_sum(img: GrayImage, y: int, k: int, power: int) -> int
    decreases k,
{
    if k <= 0 {
        0
    } else {
        row_sum(img, y, k - 1, power) + if power == 1 {
            laplacian_at(img, k, y)
        } else {
            laplacian_at(img, k, y) * laplacian_at(img, k, y)
        }
    }
}

/// The same over rows `1..=k`, each over its interior columns.
pub open spec fn area_sum(img: GrayImage, k: int, power: int) -> int
    decreases k,
{
    if k <= 0 {
        0
    } else {
        area_sum(img, k - 1, power) + row_sum(img, k, img.width - 2, power)
    }
}

/// The sums from which the Laplacian variance `|E[L²] − E[L]²|` follows:
/// over the interior pixels, the sum of `L`, the sum of `L²` and their
/// number.
#[derive(Debug, Clone, Copy, PartialEq, Eq)]
pub struct LaplacianSums {
    pub sum: i128,
    pub sum_sq: u128,
    pub count: u64,
}

/// All pixels of the image hold the same value.
pub open spec fn uniform(img: GrayImage) -> bool {
    forall|i: int, j: int| 0 <= i < img.pixels@.len() && 0 <= j < img.pixels@.len() ==> img.pixels@[i]
        == img.pixels@[j]
}

fn laplacian_exec(img: &GrayImage, x: u32, y: u32) -> (r: i64)
    requires
        img.wf(),
        1 <= x && x + 1 < img.width,
        1 <= y && y + 1 < img.height,
    ensures
        r == laplacian_at(*img, x as int, y as int),
        -1020 <= r <= 1020,
{
    let c = img.get(x, y) as i64;
    let t = img.get(x, y - 1) as i64;
    let b = img.get(x, y + 1) as i64;
    let l = img.get(x - 1, y) as i64;
    let rr = img.get(x + 1, y) as i64;
    t + b + l + rr - 4 * c
}

/// The Laplacian sums of the interior; all zero for images narrower or
/// shorter than three pixels.
pub fn laplacian_sums(img: &GrayImage) -> (r: LaplacianSums)
    requires
        img.wf(),
    ensures
        img.width < 3 || img.height < 3 ==> r == (LaplacianSums { sum: 0, sum_sq: 0, count: 0 }),
        img.width >= 3 && img.height >= 3 ==> {
            &&& r.sum == area_sum(*img, img.height - 2, 1)
            &&& r.sum_sq == area_sum(*img, img.height - 2, 2)
            &&& r.count == (img.width - 2) * (img.height - 2)
        },
        -1020 * r.count <= r.sum <= 1020 * r.count,
        r.sum_sq <= 1040400 * r.count,
{
    let w = img.width;
    let h = img.height;
    if w < 3 || h < 3 {
        return LaplacianSums { sum: 0, sum_sq: 0, count: 0 };
    }
    let mut sum: i128 = 0;
    let mut sum_sq: u128 = 0;
    let mut count: u64 = 0;
    let mut y: u32 = 1;
    while y + 1 < h
        invariant
            img.wf(),
            w == img.width,
            h == img.height,
            w >= 3,
            h >= 3,
            1 <= y <= h - 1,
            sum == area_sum(*img, y - 1, 1),
            sum_sq == area_sum(*img, y - 1, 2),
            count == (w - 2) * (y - 1),
            -1020 * count <= sum <= 1020 * count,
            0 <= sum_sq <= 1040400 * count,
        decreases h - y,
    {
        let mut x: u32 = 1;
        let ghost s0 = sum;
        let ghost q0 = sum_sq;
        let ghost c0 = count;
        while x + 1 < w
            invariant
                img.wf(),
                w == img.width,
                h == img.height,
                w >= 3,
                1 <= y && y + 1 < h,
                1 <= x <= w - 1,
                sum == s0 + row_sum(*img, y as int, x - 1, 1),
                sum_sq == q0 + row_sum(*img, y as int, x - 1, 2),
                count == c0 + (x - 1),
                c0 == (w - 2) * (y - 1),
                -1020 * count <= sum <= 1020 * count,
                0 <= sum_sq <= 1040400 * count,
            decreases w - x,
        {
            let l = laplacian_exec(img, x, y);
            assert(0 <= l * l <= 1020 * 1020) by (nonlinear_arith)
                requires -1020 <= l <= 1020;
            proof {
                assert(count + 1 <= (w - 2) * (h - 2)) by (nonlinear_arith)
                    requires count == (w - 2) * (y - 1) + (x - 1), x + 1 < w, y + 1 < h, y >= 1, x >= 1;
                assert((w - 2) * (h - 2) <= 0xffff_ffff_ffff_ffff) by (nonlinear_arith)
                    requires w <= 0xffff_ffff, h <= 0xffff_ffff, w >= 3, h >= 3;
            }
            sum = sum + l as i128;
            sum_sq = sum_sq + (l * l) as u128;
            count = count + 1;
            x = x + 1;
        }
        assert(count == (w - 2) * y) by (nonlinear_arith)
            requires count == c0 + (w - 2), c0 == (w - 2) * (y - 1);
        y = y + 1;
    }
    LaplacianSums { sum, sum_sq, count }
}

proof fn lemma_uniform_laplacian(img: GrayImage, x: int, y: int)
    requires
        img.wf(),
        uniform(img),
        1 <= x && x + 1 < img.width,
        1 <= y && y + 1 < img.height,
    ensures
        laplacian_at(img, x, y) == 0,
{
    lemma_index_in_bounds(x, y, img.width as int, img.height as int);
    lemma_index_in_bounds(x, y - 1, img.width as int, img.height as int);
    lemma_index_in_bounds(x, y + 1, img.width as int, img.height as int);
    lemma_index_in_bounds(x - 1, y, img.width as int, img.height as int);
    lemma_index_in_bounds(x + 1, y, img.width as int, img.height as int);
}

proof fn lemma_uniform_row(img: GrayImage, y: int, k: int, power: int)
    requires
        img.wf(),
        uniform(img),
        1 <= y && y + 1 < img.height,
        k <= img.width - 2,
    ensures
        row_sum(img, y, k, power) == 0,
    decreases k,
{
    if k > 0 {
        lemma_uniform_row(img, y, k - 1, power);
        lemma_uniform_laplacian(img, k, y);
    }
}

proof fn lemma_uniform_area(img: GrayImage, k: int, power: int)
    requires
        img.wf(),
        uniform(img),
        k <= img.height - 2,
    ensures
        area_sum(img, k, power) == 0,
    decreases k,
{
    if k > 0 {
        lemma_uniform_area(img, k - 1, power);
        lemma_uniform_row(img, k, img.width - 2, power);
    }
}

/// On an image of one value the Laplacian vanishes: both sums are zero, so
/// the variance is zero.
pub proof fn lemma_uniform_laplacian_zero(img: GrayImage)
    requires
        img.wf(),
        uniform(img),
        img.width >= 3 && img.height >= 3,
    ensures
        area_sum(img, img.height - 2, 1) == 0,
        area_sum(img, img.height - 2, 2) == 0,
{
    lemma_uniform_area(img, img.height - 2, 1);
    lemma_uniform_area(img, img.height - 2, 2);
}

/// Horizontal Sobel response at an interior pixel.
pub open spec fn sobel_gx(img: GrayImage, x: int, y: int) -> int {
    px(img, x + 1, y - 1) + 2 * px(img, x + 1, y) + px(img, x + 1, y + 1) - px(img, x - 1, y - 1) - 2 * px(
        img,
        x - 1,
        y,
    ) - px(img, x - 1, y + 1)
}

/// Vertical Sobel response at an interior pixel.
pub open spec fn sobel_gy(img: GrayImage, x: int, y: int) -> int {
    px(img, x - 1, y + 1) + 2 * px(img, x, y + 1) + px(img, x + 1, y + 1) - px(img, x - 1, y - 1) - 2 * px(
        img,
        x,
        y - 1,
    ) - px(img, x + 1, y - 1)
}

/// `r` is the integer square root of `n`, capped at 255.
pub open spec fn is_capped_sqrt(r: int, n: int) -> bool {
    0 <= r <= 255 && r * r <= n && (r == 255 || n < (r + 1) * (r + 1))
}

/// The Sobel magnitude at pixel index `i` of a `w` by `h` image: zero on
/// the border, else the capped integer square root of `gx² + gy²`.
pub open spec fn sobel_value_ok(img: GrayImage, out: Seq<u8>, x: int, y: int) -> bool {
    let v = out[y * img.width + x] as int;
    if x == 0 || y == 0 || x + 1 == img.width || y + 1 == img.height {
        v == 0
    } else {
        is_capped_sqrt(v, sobel_gx(img, x, y) * sobel_gx(img, x, y) + sobel_gy(img, x, y) * sobel_gy(img, x, y))
    }
}

fn capped_sqrt(n: u64) -> (r: u8)
    ensures
        is_capped_sqrt(r as int, n as int),
{
    let mut k: u64 = 0;
    loop
        invariant
            k <= 255,
            k * k <= n,
        ensures
            k <= 255,
            k * k <= n,
            k == 255 || n < (k + 1) * (k + 1),
        decreases 255 - k,
    {
        if k == 255 {
            break;
        }
        let k1 = k + 1;
        assert(k1 * k1 <= 65025) by (nonlinear_arith)
            requires k1 <= 255;
        if k1 * k1 <= n {
            k = k1;
        } else {
            break;
        }
    }
    k as u8
}

/// The Sobel edge magnitude of every pixel.
pub fn sobel_magnitude(img: &GrayImage) -> (r: GrayImage)
    requires
        img.wf(),
    ensures
        r.wf(),
        r.width == img.width && r.height == img.height,
        forall|x: int, y: int| 0 <= x < img.width && 0 <= y < img.height ==> #[trigger] sobel_value_ok(*img, r.pixels@, x, y),
{
    let w = img.width;
    let h = img.height;
    let n = img.pixels.len();
    let mut out: Vec<u8> = Vec::new();
    let mut y: u32 = 0;
    while y < h
        invariant
            img.wf(),
            w == img.width,
            h == img.height,
            n == img.pixels@.len(),
            y <= h,
            out@.len() == y * w,
            forall|xx: int, yy: int| 0 <= xx < w && 0 <= yy < y ==> #[trigger] sobel_value_ok(*img, out@, xx, yy),
        decreases h - y,
    {
        let mut x: u32 = 0;
        while x < w
            invariant
                img.wf(),
                w == img.width,
                h == img.height,
                n == img.pixels@.len(),
                y < h,
                x <= w,
                out@.len() == y * w + x,
                forall|xx: int, yy: int| 0 <= xx < w && 0 <= yy < y ==> #[trigger] sobel_value_ok(*img, out@, xx, yy),
                forall|xx: int| 0 <= xx < x ==> #[trigger] sobel_value_ok(*img, out@, xx, y as int),
            decreases w - x,
        {
            let v: u8 = if x == 0 || y == 0 || x + 1 == w || y + 1 == h {
                0
            } else {
                let a = img.get(x + 1, y - 1) as i64;
                let b = img.get(x + 1, y) as i64;
                let c = img.get(x + 1, y + 1) as i64;
                let d = img.get(x - 1, y - 1) as i64;
                let e = img.get(x - 1, y) as i64;
                let f = img.get(x - 1, y + 1) as i64;
                let g = img.get(x, y + 1) as i64;
                let k = img.get(x, y - 1) as i64;
                let gx = c + 2 * b + a - d - 2 * e - f;
                let gy = f + 2 * g + c - d - 2 * k - a;
                assert(gx * gx <= 1020 * 1020 && gy * gy <= 1020 * 1020 && gx * gx >= 0 && gy * gy >= 0) by (nonlinear_arith)
                    requires -1020 <= gx <= 1020, -1020 <= gy <= 1020;
                capped_sqrt((gx * gx + gy * gy) as u64)
            };
            let ghost prev = out@;
            out.push(v);
            proof {
                assert forall|xx: int, yy: int| 0 <= xx < w && 0 <= yy < y implies #[trigger] sobel_value_ok(*img, out@, xx, yy) by {
                    lemma_index_in_bounds(xx, yy, w as int, y as int);
                    assert(w * y == y * w) by (nonlinear_arith);
                    assert(sobel_value_ok(*img, prev, xx, yy));
                    assert(out@[yy * w + xx] == prev[yy * w + xx]);
                }
                assert forall|xx: int| 0 <= xx < x + 1 implies #[trigger] sobel_value_ok(*img, out@, xx, y as int) by {
                    if xx < x {
                        assert(sobel_value_ok(*img, prev, xx, y as int));
                        assert(out@[y * w + xx] == prev[y * w + xx]);
                    }
                }
            }
            x = x + 1;
        }
        assert((y + 1) * w == y * w + w) by (nonlinear_arith);
        y = y + 1;
    }
    assert(out@.len() == w * h) by (nonlinear_arith)
        requires out@.len() == y * w, y == h;
    GrayImage { width: w, height: h, pixels: out }
}

/// On an image of one value every Sobel magnitude is zero.
pub proof fn lemma_uniform_sobel_zero(img: GrayImage, r: GrayImage)
    requires
        img.wf(),
        uniform(img),
        r.width == img.width && r.height == img.height,
        forall|x: int, y: int| 0 <= x < img.width && 0 <= y < img.height ==> #[trigger] sobel_value_ok(img, r.pixels@, x, y),
    ensures
        forall|x: int, y: int| 0 <= x < img.width && 0 <= y < img.height ==> #[trigger] r.pixels@[y * img.width + x] == 0,
{
    assert forall|x: int, y: int| 0 <= x < img.width && 0 <= y < img.height implies #[trigger] r.pixels@[y * img.width + x] == 0 by {
        assert(sobel_value_ok(img, r.pixels@, x, y));
        if !(x == 0 || y == 0 || x + 1 == img.width || y + 1 == img.height) {
            lemma_index_in_bounds(x, y, img.width as int, img.height as int);
            lemma_index_in_bounds(x - 1, y - 1, img.width as int, img.height as int);
            lemma_index_in_bounds(x, y - 1, img.width as int, img.height as int);
            lemma_index_in_bounds(x + 1, y - 1, img.width as int, img.height as int);
            lemma_index_in_bounds(x - 1, y, img.width as int, img.height as int);
            lemma_index_in_bounds(x + 1, y, img.width as int, img.height as int);
            lemma_index_in_bounds(x - 1, y + 1, img.width as int, img.height as int);
            lemma_index_in_bounds(x, y + 1, img.width as int, img.height as int);
            lemma_index_in_bounds(x + 1, y + 1, img.width as int, img.height as int);
            assert(sobel_gx(img, x, y) == 0);
            assert(sobel_gy(img, x, y) == 0);
            let v = r.pixels@[y * img.width + x] as int;
            let gx = sobel_gx(img, x, y);
            let gy = sobel_gy(img, x, y);
            assert(gx * gx + gy * gy == 0) by (nonlinear_arith)
                requires gx == 0, gy == 0;
            assert(is_capped_sqrt(v, gx * gx + gy * gy));
            assert(v * v <= 0);
            assert(v == 0) by (nonlinear_arith)
                requires v * v <= 0, v >= 0;
        }
    }
}

} // verus!
