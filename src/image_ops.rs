//! Whole-image operations composed from per-channel plane transforms.
use vstd::prelude::*;
use crate::image::{
    channel_bytes,
    channel_count,
    channel_of,
    interleave,
    lemma_stride_index,
    lemma_stride_len,
    Image,
    ImageChannel,
    PlaneView,
};
use crate::kernels::{
    gaussian_simple,
    gaussian_simple_spec,
    gaussian_x,
    gaussian_x_spec,
    gaussian_y,
    gaussian_y_spec,
    identity1,
    identity1_spec,
    laplacian,
    laplacian_spec,
    Kernel,
    KernelView,
};
use crate::laws::lemma_identity_filter;
use crate::{apply_filter, filter_plane, kernel_fits, sat_sub, subtract_images};

verus! {

/// The plane that keeps the pixels at even columns of even rows:
/// `floor(width / 2)` by `floor(height / 2)`, pixel `(x, y)` taken from
/// `(2x, 2y)`.
pub open spec fn resample_plane(p: PlaneView) -> PlaneView {
    let w = p.width / 2;
    PlaneView {
        width: w,
        height: p.height / 2,
        bytes: Seq::new(
            w * (p.height / 2),
            |t: int| p.at(2 * (t % (w as int)), 2 * (t / (w as int))),
        ),
    }
}

/// `dst` is `src` with every channel plane correlated with `k`.
pub open spec fn filters_channels(src: Image, dst: Image, k: KernelView) -> bool {
    &&& dst.width == src.width
    &&& dst.height == src.height
    &&& dst.color_type == src.color_type
    &&& dst.channels.len() == src.channels.len()
    &&& forall|c: int|
        0 <= c < src.channels.len() ==> (#[trigger] dst.channels[c])@ == filter_plane(
            src.channels[c]@,
            k,
        )
}

/// The kernel's radius is below the image's extents (or the image is empty).
pub open spec fn image_fits(image: Image, k: KernelView) -> bool {
    kernel_fits(image.width as nat, image.height as nat, k)
}

/// A plane minus its laplacian, byte by byte, stopping at 0.
pub open spec fn sharpened_plane(p: PlaneView) -> PlaneView {
    PlaneView {
        width: p.width,
        height: p.height,
        bytes: Seq::new(
            p.bytes.len(),
            |i: int| sat_sub(p.bytes[i], filter_plane(p, laplacian_spec()).bytes[i]),
        ),
    }
}

/// Correlates every channel of a well-formed image with one kernel.
fn filter_channels(image: &Image, kernel: &Kernel) -> (r: Image)
    requires
        image.wf(),
        kernel@.wf(),
        image_fits(*image, kernel@),
    ensures
        filters_channels(*image, r, kernel@),
        r.wf(),
{
    let filter = |chan: &ImageChannel| -> (o: ImageChannel)
        requires
            chan@.wf(),
            kernel_fits(chan@.width, chan@.height, kernel@),
        ensures
            o@ == filter_plane(chan@, kernel@),
            o.width == chan.width,
            o.height == chan.height,
    {
        apply_filter(chan, kernel)
    };
    let r = image.apply_to_channels(filter);
    r
}

/// Downscales an image by keeping every other column and row of each
/// channel.
pub fn downscale_image(image: Image) -> (r: Image)
    requires
        image.wf(),
    ensures
        r.wf(),
        r.width == image.width / 2,
        r.height == image.height / 2,
        r.color_type == image.color_type,
        r.channels.len() == image.channels.len(),
        forall|c: int|
            0 <= c < image.channels.len() ==> (#[trigger] r.channels[c])@ == resample_plane(
                image.channels[c]@,
            ),
{
    let resample = |chan: &ImageChannel| -> (o: ImageChannel)
        requires
            chan@.wf(),
        ensures
            o@ == resample_plane(chan@),
            o.width == chan.width / 2,
            o.height == chan.height / 2,
    {
        resample_down(chan)
    };
    let r = image.apply_to_channels(resample);
    r
}

/// Correlates each channel with the 1x1 identity kernel, leaving the image
/// as it was.
pub fn identity_image(image: Image) -> (r: Image)
    requires
        image.wf(),
    ensures
        r.wf(),
        filters_channels(image, r, identity1_spec()),
        forall|c: int| 0 <= c < image.channels.len() ==> (#[trigger] r.channels[c])@ == image.channels[c]@,
{
    let k = identity1();
    let r = filter_channels(&image, &k);
    proof {
        assert forall|c: int| 0 <= c < image.channels.len() implies (#[trigger] r.channels[c])@
            == image.channels[c]@ by {
            lemma_identity_filter(image.channels[c]@);
        }
    }
    r
}

/// Blurs each channel with the 3x3 gaussian in one pass.
pub fn simple_gaussian_blur(image: Image) -> (r: Image)
    requires
        image.wf(),
        image_fits(image, gaussian_simple_spec()),
    ensures
        r.wf(),
        filters_channels(image, r, gaussian_simple_spec()),
{
    let k = gaussian_simple();
    filter_channels(&image, &k)
}

/// Blurs each channel with the 7-tap gaussian along rows, then blurs that
/// result with the same taps along columns.
pub fn complex_gaussian_blur(image: Image) -> (r: Image)
    requires
        image.wf(),
        image_fits(image, gaussian_x_spec()),
        image_fits(image, gaussian_y_spec()),
    ensures
        r.wf(),
        r.width == image.width,
        r.height == image.height,
        r.color_type == image.color_type,
        r.channels.len() == image.channels.len(),
        forall|c: int|
            0 <= c < image.channels.len() ==> (#[trigger] r.channels[c])@ == filter_plane(
                filter_plane(image.channels[c]@, gaussian_x_spec()),
                gaussian_y_spec(),
            ),
{
    let kx = gaussian_x();
    let img = filter_channels(&image, &kx);
    let ky = gaussian_y();
    let r = filter_channels(&img, &ky);
    assert forall|c: int| 0 <= c < image.channels.len() implies (#[trigger] r.channels[c])@
        == filter_plane(filter_plane(image.channels[c]@, gaussian_x_spec()), gaussian_y_spec()) by {
        assert(img.channels[c]@ == filter_plane(image.channels[c]@, gaussian_x_spec()));
    }
    r
}

/// Sharpens an image by subtracting its laplacian from it, byte by byte,
/// stopping at 0.
pub fn sharpen_image(image: Image) -> (r: Image)
    requires
        image.wf(),
        image_fits(image, laplacian_spec()),
    ensures
        r.wf(),
        r.width == image.width,
        r.height == image.height,
        r.color_type == image.color_type,
        r.channels.len() == image.channels.len(),
        forall|c: int|
            0 <= c < image.channels.len() ==> (#[trigger] r.channels[c])@ == sharpened_plane(
                image.channels[c]@,
            ),
{
    let k = laplacian();
    let lap = filter_channels(&image, &k);
    let img_lap: Vec<u8> = lap.to_bytes();
    let image_bytes: Vec<u8> = image.to_bytes();
    let diff = subtract_images(image_bytes.as_slice(), img_lap.as_slice());
    let r = Image::new(image.width, image.height, image.color_type, diff.as_slice());
    proof {
        let n = image.channels.len() as int;
        let len = (image.width * image.height) as int;
        let a = channel_bytes(image.channels@);
        let b = channel_bytes(lap.channels@);
        assert(a[0].len() == len);
        assert(b[0].len() == len);
        assert(diff@.len() == len * n);
        assert(len * n == image.width * image.height * channel_count(image.color_type));
        assert forall|c: int| 0 <= c < n implies (#[trigger] r.channels[c])@ == sharpened_plane(
            image.channels[c]@,
        ) by {
            lemma_stride_len(len as nat, n as nat, c as nat);
            let s = sharpened_plane(image.channels[c]@);
            assert forall|j: int| 0 <= j < len implies #[trigger] r.channels[c].bytes@[j]
                == s.bytes[j] by {
                lemma_stride_index(j, n, c);
                assert(j * n + c < len * n) by (nonlinear_arith)
                    requires
                        0 <= j < len,
                        0 <= c < n,
                ;
                assert(a[c] == image.channels[c].bytes@);
                assert(b[c] == lap.channels[c].bytes@);
            }
            assert(r.channels[c].bytes@ =~= s.bytes);
        }
    }
    r
}

/// Keeps the pixels at even columns of even rows of a plane.
pub fn resample_down(channel: &ImageChannel) -> (r: ImageChannel)
    requires
        channel@.wf(),
    ensures
        r@ == resample_plane(channel@),
        r.width == channel.width / 2,
        r.height == channel.height / 2,
{
    let ghost p = channel@;
    let width: usize = channel.width as usize;
    let out_w: usize = width / 2;
    let out_h: usize = channel.height as usize / 2;
    let mut rsb: Vec<u8> = Vec::new();
    let mut y: usize = 0;
    while y < out_h
        invariant
            p == channel@,
            p.wf(),
            width == p.width,
            out_w == p.width / 2,
            out_h == p.height / 2,
            y <= out_h,
            rsb.len() == y * out_w,
            forall|t: int|
                0 <= t < rsb.len() ==> #[trigger] rsb@[t] == p.at(
                    2 * (t % (out_w as int)),
                    2 * (t / (out_w as int)),
                ),
        decreases out_h - y,
    {
        let mut x: usize = 0;
        while x < out_w
            invariant
                p == channel@,
                p.wf(),
                width == p.width,
                out_w == p.width / 2,
                out_h == p.height / 2,
                y < out_h,
                x <= out_w,
                rsb.len() == y * out_w + x,
                forall|t: int|
                    0 <= t < rsb.len() ==> #[trigger] rsb@[t] == p.at(
                        2 * (t % (out_w as int)),
                        2 * (t / (out_w as int)),
                    ),
            decreases out_w - x,
        {
            proof {
                assert(2 * y * width + 2 * x < p.bytes.len()) by (nonlinear_arith)
                    requires
                        2 * y + 1 < p.height,
                        2 * x < width,
                        width == p.width,
                        p.bytes.len() == p.width * p.height,
                {
                    assert(2 * y * width + 2 * x < (2 * y + 1) * width);
                    assert((2 * y + 1) * width <= p.height * width);
                }
                lemma_stride_index(y as int, out_w as int, x as int);
                assert(channel.bytes@.len() == channel.bytes.len());
                assert((2 * y) * width + 2 * x < channel.bytes@.len());
            }
            let row_start: usize = 2 * y * width;
            rsb.push(channel.bytes[row_start + 2 * x]);
            x += 1;
        }
        assert((y + 1) * out_w == y * out_w + out_w) by (nonlinear_arith);
        y += 1;
    }
    proof {
        assert(out_h * out_w == out_w * out_h) by (nonlinear_arith);
        assert(rsb@ =~= resample_plane(p).bytes);
    }
    ImageChannel::new(channel.width / 2, channel.height / 2, rsb)
}

} // verus!
