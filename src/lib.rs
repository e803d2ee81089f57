//! Channel-plane convolution for raster images: reflective boundary
//! addressing, correlation with small fixed kernels, channel split and merge,
//! and the composed blur, sharpen and downscale operations.
use vstd::prelude::*;
use vstd::arithmetic::div_mod::lemma_fundamental_div_mod_converse;
use crate::image::{ImageChannel, PlaneView};
use crate::kernels::{Kernel, KernelView};

pub mod image;
pub mod image_ops;
pub mod kernels;
pub mod laws;

verus! {

/// Mirror reflection of a coordinate into the extent `[low, high)`.
pub open spec fn reflect(value: int, low: int, high: int) -> int {
    if value < low {
        -value
    } else if value >= high {
        2 * high - value - 1
    } else {
        value
    }
}

/// `a - b` on bytes, stopping at 0.
pub open spec fn sat_sub(a: u8, b: u8) -> u8 {
    if a >= b { (a - b) as u8 } else { 0 }
}

/// `a + b` on bytes, stopping at 255.
pub open spec fn sat_add(a: u8, b: u8) -> u8 {
    if a as int + b as int <= 255 { (a + b) as u8 } else { 255 }
}

/// Maps a coordinate that lies outside `[low, high)` back inside by
/// reflection about the boundary it crossed.
pub fn clamp_reflect(value: i64, low: i64, high: i64) -> (r: i64)
    requires
        0 <= high,
        value < low ==> value > i64::MIN,
    ensures
        r == reflect(value as int, low as int, high as int),
{
    if value < low {
        -value
    } else if value >= high {
        high - (value - high) - 1
    } else {
        value
    }
}

/// Byte-wise saturating subtraction `image1 - image2`, over the length of
/// the shorter buffer.
pub fn subtract_images(image1: &[u8], image2: &[u8]) -> (r: Vec<u8>)
    ensures
        r@.len() == if image1@.len() <= image2@.len() { image1@.len() } else { image2@.len() },
        forall|i: int| 0 <= i < r@.len() ==> #[trigger] r@[i] == sat_sub(image1@[i], image2@[i]),
{
    let n: usize = if image1.len() <= image2.len() { image1.len() } else { image2.len() };
    let mut out: Vec<u8> = Vec::new();
    let mut i: usize = 0;
    while i < n
        invariant
            n <= image1@.len(),
            n <= image2@.len(),
            i <= n,
            out@.len() == i,
            forall|k: int| 0 <= k < i ==> #[trigger] out@[k] == sat_sub(image1@[k], image2@[k]),
        decreases n - i,
    {
        out.push(image1[i].saturating_sub(image2[i]));
        i += 1;
    }
    out
}

/// Byte-wise saturating addition `image1 + image2`, over the length of the
/// shorter buffer.
pub fn add_images(image1: &[u8], image2: &[u8]) -> (r: Vec<u8>)
    ensures
        r@.len() == if image1@.len() <= image2@.len() { image1@.len() } else { image2@.len() },
        forall|i: int| 0 <= i < r@.len() ==> #[trigger] r@[i] == sat_add(image1@[i], image2@[i]),
{
    let n: usize = if image1.len() <= image2.len() { image1.len() } else { image2.len() };
    let mut out: Vec<u8> = Vec::new();
    let mut i: usize = 0;
    while i < n
        invariant
            n <= image1@.len(),
            n <= image2@.len(),
            i <= n,
            out@.len() == i,
            forall|k: int| 0 <= k < i ==> #[trigger] out@[k] == sat_add(image1@[k], image2@[k]),
        decreases n - i,
    {
        out.push(image1[i].saturating_add(image2[i]));
        i += 1;
    }
    out
}

/// The byte read for a possibly out-of-range coordinate: both coordinates
/// are reflected into the plane first.
pub open spec fn source_pixel(p: PlaneView, x: int, y: int) -> u8 {
    p.at(reflect(x, 0, p.width as int), reflect(y, 0, p.height as int))
}

/// Sum over the first `n` columns of kernel row `v` for the output pixel
/// `(x, y)`, each weight multiplied with the source pixel under it.
pub open spec fn row_sum(p: PlaneView, k: KernelView, x: int, y: int, v: int, n: int) -> int
    decreases n,
{
    if n <= 0 {
        0
    } else {
        row_sum(p, k, x, y, v, n - 1) + k.weights[v * k.width + (n - 1)] * source_pixel(
            p,
            x - k.width / 2 + (n - 1),
            y - k.height() / 2 + v,
        )
    }
}

/// Sum over the first `m` kernel rows for the output pixel `(x, y)`.
pub open spec fn window_sum(p: PlaneView, k: KernelView, x: int, y: int, m: int) -> int
    decreases m,
{
    if m <= 0 {
        0
    } else {
        window_sum(p, k, x, y, m - 1) + row_sum(p, k, x, y, m - 1, k.width as int)
    }
}

/// `s / scale` narrowed to a byte: truncated toward zero, then held to
/// `0..=255`.
pub open spec fn narrow(s: int, scale: int) -> u8 {
    if s <= 0 {
        0
    } else if s / scale > 255 {
        255
    } else {
        (s / scale) as u8
    }
}

/// Output pixel `(x, y)` of correlating `p` with `k`.
pub open spec fn filtered_pixel(p: PlaneView, k: KernelView, x: int, y: int) -> u8 {
    narrow(window_sum(p, k, x, y, k.height() as int), k.scale)
}

/// The plane that correlating `p` with `k` produces: same extents, each
/// pixel the narrowed weighted sum of its reflected neighbourhood.
pub open spec fn filter_plane(p: PlaneView, k: KernelView) -> PlaneView {
    PlaneView {
        width: p.width,
        height: p.height,
        bytes: Seq::new(
            p.width * p.height,
            |t: int| filtered_pixel(p, k, t % (p.width as int), t / (p.width as int)),
        ),
    }
}

/// The kernel's radius is below the plane's extents, so one reflection
/// brings every read back inside (an empty plane reads nothing).
pub open spec fn kernel_fits(width: nat, height: nat, k: KernelView) -> bool {
    width == 0 || height == 0 || (k.width / 2 < width && k.height() / 2 < height)
}

/// The byte of a row-major buffer `width` bytes wide at `(x, y)`, both
/// coordinates reflected into the buffer's extents.
pub fn get_image_pixel(image: &[u8], width: usize, x: i64, y: i64) -> (r: u8)
    requires
        width > 0,
        width <= i64::MAX,
        image@.len() as int / width as int <= i64::MAX,
        -(width as int) < x < 2 * width,
        -(image@.len() as int / width as int) < y < 2 * (image@.len() as int / width as int),
    ensures
        r == image@[reflect(y as int, 0, image@.len() as int / width as int) * width + reflect(
            x as int,
            0,
            width as int,
        )],
{
    let h: i64 = (image.len() / width) as i64;
    let x = clamp_reflect(x, 0, width as i64);
    let y = clamp_reflect(y, 0, h);
    let x: usize = x as usize;
    let y: usize = y as usize;
    proof {
        let hh = image@.len() as int / width as int;
        assert(y * width + x < image@.len()) by (nonlinear_arith)
            requires
                y < hh,
                x < width,
                hh == image@.len() as int / width as int,
                width > 0,
        {
            assert(hh * width <= image@.len());
            assert(y * width + x < (y + 1) * width);
            assert((y + 1) * width <= hh * width);
        }
    }
    image[y * width + x]
}

/// Correlates a plane with a kernel (the kernel is not flipped). Every
/// output pixel is the weighted sum of the reflected neighbourhood of its
/// source pixel, divided by the kernel's scale and narrowed to a byte; the
/// result has the plane's extents.
pub fn apply_filter(image_channel: &ImageChannel, kernel: &Kernel) -> (r: ImageChannel)
    requires
        image_channel@.wf(),
        kernel@.wf(),
        kernel_fits(image_channel@.width, image_channel@.height, kernel@),
    ensures
        r@ == filter_plane(image_channel@, kernel@),
        r.width == image_channel.width,
        r.height == image_channel.height,
{
    let ghost p = image_channel@;
    let ghost k = kernel@;
    let kern_w: u32 = kernel.width;
    let kern_h: u32 = (kernel.weights.len() / kern_w as usize) as u32;
    let kern_offx: i64 = (kern_w / 2) as i64;
    let kern_offy: i64 = (kern_h / 2) as i64;
    let width: u32 = image_channel.width;
    let height: u32 = image_channel.height;
    proof {
        assert(p.bytes.len() == height * width) by (nonlinear_arith)
            requires
                p.bytes.len() == p.width * p.height,
                width == p.width,
                height == p.height,
        {}
        if width > 0 {
            lemma_fundamental_div_mod_converse(p.bytes.len() as int, width as int, height as int, 0);
        }
        assert(kern_w * kern_h == k.weights.len()) by (nonlinear_arith)
            requires
                kern_h == k.weights.len() as int / kern_w as int,
                k.weights.len() as int % kern_w as int == 0,
                kern_w > 0,
        {}
    }
    let mut out_bytes: Vec<u8> = Vec::new();
    let mut i: u32 = 0;
    while i < height
        invariant
            p == image_channel@,
            k == kernel@,
            p.wf(),
            k.wf(),
            kernel_fits(p.width, p.height, k),
            width == p.width,
            height == p.height,
            kern_w == k.width,
            kern_h == k.height(),
            kern_w * kern_h == k.weights.len(),
            kern_offx == k.width / 2,
            kern_offy == k.height() / 2,
            width > 0 ==> p.bytes.len() as int / width as int == height,
            i <= height,
            out_bytes@.len() == i * width,
            forall|t: int|
                0 <= t < out_bytes@.len() ==> #[trigger] out_bytes@[t] == filtered_pixel(
                    p,
                    k,
                    t % (width as int),
                    t / (width as int),
                ),
        decreases height - i,
    {
        let mut j: u32 = 0;
        while j < width
            invariant
                p == image_channel@,
                k == kernel@,
                p.wf(),
                k.wf(),
                kernel_fits(p.width, p.height, k),
                width == p.width,
                height == p.height,
                kern_w == k.width,
                kern_h == k.height(),
                kern_w * kern_h == k.weights.len(),
                kern_offx == k.width / 2,
                kern_offy == k.height() / 2,
                width > 0 ==> p.bytes.len() as int / width as int == height,
                i < height,
                j <= width,
                out_bytes@.len() == i * width + j,
                forall|t: int|
                    0 <= t < out_bytes@.len() ==> #[trigger] out_bytes@[t] == filtered_pixel(
                        p,
                        k,
                        t % (width as int),
                        t / (width as int),
                    ),
            decreases width - j,
        {
            let mut sum: i64 = 0;
            let mut v: u32 = 0;
            while v < kern_h
                invariant
                    p == image_channel@,
                    k == kernel@,
                    p.wf(),
                    k.wf(),
                    kernel_fits(p.width, p.height, k),
                    width == p.width,
                    height == p.height,
                    kern_w == k.width,
                    kern_h == k.height(),
                    kern_w * kern_h == k.weights.len(),
                    kern_offx == k.width / 2,
                    kern_offy == k.height() / 2,
                    p.bytes.len() as int / width as int == height,
                    i < height,
                    j < width,
                    v <= kern_h,
                    sum == window_sum(p, k, j as int, i as int, v as int),
                    -(v as int) * 0x40_0000_0000_0000 <= sum <= v * 0x40_0000_0000_0000,
                decreases kern_h - v,
            {
                let mut row: i64 = 0;
                let mut u: u32 = 0;
                while u < kern_w
                    invariant
                        p == image_channel@,
                        k == kernel@,
                        p.wf(),
                        k.wf(),
                        kernel_fits(p.width, p.height, k),
                        width == p.width,
                        height == p.height,
                        kern_w == k.width,
                        kern_h == k.height(),
                        kern_w * kern_h == k.weights.len(),
                        kern_offx == k.width / 2,
                        kern_offy == k.height() / 2,
                        p.bytes.len() as int / width as int == height,
                        i < height,
                        j < width,
                        v < kern_h,
                        u <= kern_w,
                        row == row_sum(p, k, j as int, i as int, v as int, u as int),
                        -(u as int) * 0x1_0000_0000_0000 <= row <= u * 0x1_0000_0000_0000,
                    decreases kern_w - u,
                {
                    let px = get_image_pixel(
                        image_channel.bytes.as_slice(),
                        width as usize,
                        j as i64 - kern_offx + u as i64,
                        i as i64 - kern_offy + v as i64,
                    );
                    proof {
                        assert(v * kern_w + u < kern_w * kern_h) by (nonlinear_arith)
                            requires
                                v < kern_h,
                                u < kern_w,
                        {}
                        assert(v * kern_w + u <= 63 * 63) by (nonlinear_arith)
                            requires
                                v < kern_h,
                                u < kern_w,
                                kern_h <= 63,
                                kern_w <= 63,
                        {}
                    }
                    let wt: i64 = kernel.weights[(v * kern_w + u) as usize];
                    proof {
                        let idx = (v * kern_w + u) as int;
                        assert(-0x100_0000_0000 <= k.weights[idx] <= 0x100_0000_0000);
                        assert(-0x1_0000_0000_0000 <= wt * (px as int) <= 0x1_0000_0000_0000)
                            by (nonlinear_arith)
                            requires
                                -0x100_0000_0000 <= wt <= 0x100_0000_0000,
                                0 <= px <= 255,
                        {}
                    }
                    row = row + wt * (px as i64);
                    u += 1;
                }
                sum = sum + row;
                v += 1;
            }
            let b: u8 = if sum <= 0 {
                0
            } else if sum as u64 / kernel.scale as u64 > 255 {
                255
            } else {
                (sum as u64 / kernel.scale as u64) as u8
            };
            proof {
                lemma_fundamental_div_mod_converse(
                    (i * width + j) as int,
                    width as int,
                    i as int,
                    j as int,
                );
            }
            out_bytes.push(b);
            j += 1;
        }
        assert((i + 1) * width == i * width + width) by (nonlinear_arith);
        i += 1;
    }
    proof {
        assert(height * width == p.width * p.height) by (nonlinear_arith)
            requires
                width == p.width,
                height == p.height,
        {}
        assert(out_bytes@ =~= filter_plane(p, k).bytes);
    }
    ImageChannel::new(width, height, out_bytes)
}

} // verus!


