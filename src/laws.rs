//! Laws that relate the library's operations to one another.
use vstd::prelude::*;
use vstd::arithmetic::div_mod::lemma_fundamental_div_mod;
use crate::image::{interleave, lemma_stride_index, lemma_stride_len, split_all, PlaneView};
use crate::image_ops::{resample_plane, sharpened_plane};
use crate::kernels::{gaussian_simple_spec, identity1_spec, laplacian_spec, KernelView};
use crate::{filter_plane, filtered_pixel, kernel_fits, reflect, row_sum, sat_sub, source_pixel, window_sum};

verus! {

/// Position `t` of a `width`-wide row-major grid of `height` rows lies at
/// column `t % width` of row `t / width`, inside the grid.
proof fn lemma_grid_position(t: int, width: int, height: int)
    requires
        width >= 0,
        0 <= t < width * height,
    ensures
        width > 0,
        0 <= t % width < width,
        0 <= t / width < height,
        (t / width) * width + t % width == t,
{
    assert(width > 0) by (nonlinear_arith)
        requires
            width >= 0,
            0 <= t < width * height,
    ;
    lemma_fundamental_div_mod(t, width);
    let q = t / width;
    let r = t % width;
    assert(q * width == width * q) by (nonlinear_arith);
    assert(q < height) by (nonlinear_arith)
        requires
            t == q * width + r,
            0 <= r,
            t < width * height,
            width > 0,
    ;
    assert(q >= 0) by (nonlinear_arith)
        requires
            t == q * width + r,
            r < width,
            t >= 0,
            width > 0,
    ;
}

/// Correlating any well-formed plane with the 1x1 identity kernel gives
/// back the same plane, byte for byte.
pub proof fn lemma_identity_filter(p: PlaneView)
    requires
        p.wf(),
    ensures
        filter_plane(p, identity1_spec()) == p,
{
    let f = filter_plane(p, identity1_spec());
    assert forall|t: int| 0 <= t < p.bytes.len() implies #[trigger] f.bytes[t] == p.bytes[t] by {
        lemma_grid_position(t, p.width as int, p.height as int);
        let k = identity1_spec();
        let x = t % (p.width as int);
        let y = t / (p.width as int);
        assert(k.height() == 1);
        assert(k.weights[0] == 1);
        assert(row_sum(p, k, x, y, 0, 0) == 0);
        assert(x - k.width / 2 + (1 - 1) == x);
        assert(y - k.height() / 2 + 0 == y);
        assert(k.weights[0 * k.width + (1 - 1)] == 1);
        assert(row_sum(p, k, x, y, 0, 1) == row_sum(p, k, x, y, 0, 0) + k.weights[0 * k.width + (1
            - 1)] * source_pixel(p, x - k.width / 2 + (1 - 1), y - k.height() / 2 + 0));
        assert(row_sum(p, k, x, y, 0, 1) == source_pixel(p, x, y));
        assert(window_sum(p, k, x, y, 0) == 0);
        assert(window_sum(p, k, x, y, 1) == source_pixel(p, x, y));
        assert(source_pixel(p, x, y) == p.bytes[t]);
    }
    assert(f.bytes =~= p.bytes);
}

/// Downscaling halves both extents (rounding down), and pixel `(x, y)` of
/// the result is pixel `(2x, 2y)` of the source.
pub proof fn lemma_resample_pixel(p: PlaneView, x: int, y: int)
    requires
        p.wf(),
        0 <= x < p.width / 2,
        0 <= y < p.height / 2,
    ensures
        resample_plane(p).width == p.width / 2,
        resample_plane(p).height == p.height / 2,
        resample_plane(p).at(x, y) == p.at(2 * x, 2 * y),
{
    let w = (p.width / 2) as int;
    let h = (p.height / 2) as int;
    lemma_stride_index(y, w, x);
    assert(y * w + x < w * h) by (nonlinear_arith)
        requires
            0 <= x < w,
            0 <= y < h,
    ;
}

/// Splitting a buffer of whole pixels into its `n` channels and
/// interleaving them again gives back the buffer.
pub proof fn lemma_split_merge(data: Seq<u8>, n: nat)
    requires
        n >= 1,
        data.len() % n == 0,
    ensures
        interleave(split_all(data, n)) == data,
{
    let count = data.len() / n;
    let planes = split_all(data, n);
    lemma_fundamental_div_mod(data.len() as int, n as int);
    assert(count * n == data.len()) by (nonlinear_arith)
        requires
            data.len() == n * count,
    ;
    assert forall|c: int| 0 <= c < n implies (#[trigger] planes[c]).len() == count by {
        lemma_stride_len(count, n, c as nat);
    }
    let m = interleave(planes);
    assert forall|t: int| 0 <= t < data.len() implies #[trigger] m[t] == data[t] by {
        lemma_grid_position(t, n as int, count as int);
        lemma_stride_len(count, n, (t % n as int) as nat);
    }
    assert(m =~= data);
}

/// Every byte of the plane equals `g`.
pub open spec fn is_uniform(p: PlaneView, g: u8) -> bool {
    forall|i: int| 0 <= i < p.bytes.len() ==> #[trigger] p.bytes[i] == g
}

/// On a uniform plane every read within one reflection of the plane
/// yields the plane's value.
proof fn lemma_uniform_read(p: PlaneView, g: u8, x: int, y: int)
    requires
        p.wf(),
        is_uniform(p, g),
        -(p.width as int) < x < 2 * p.width,
        -(p.height as int) < y < 2 * p.height,
    ensures
        source_pixel(p, x, y) == g,
{
    let rx = reflect(x, 0, p.width as int);
    let ry = reflect(y, 0, p.height as int);
    assert(0 <= ry * p.width + rx < p.width * p.height) by (nonlinear_arith)
        requires
            0 <= rx < p.width,
            0 <= ry < p.height,
    {
        assert(ry * p.width + rx < (ry + 1) * p.width);
        assert((ry + 1) * p.width <= p.height * p.width);
    }
}

/// The correlation sum at `(x, y)` of a uniform plane with a 3x3 kernel is
/// the plane's value times the sum of the kernel's weights.
proof fn lemma_uniform_window_3x3(p: PlaneView, g: u8, k: KernelView, x: int, y: int)
    requires
        p.wf(),
        is_uniform(p, g),
        k.width == 3,
        k.weights.len() == 9,
        kernel_fits(p.width, p.height, k),
        0 <= x < p.width,
        0 <= y < p.height,
    ensures
        window_sum(p, k, x, y, 3) == g * (k.weights[0] + k.weights[1] + k.weights[2]
            + k.weights[3] + k.weights[4] + k.weights[5] + k.weights[6] + k.weights[7]
            + k.weights[8]),
{
    assert(k.height() == 3);
    assert forall|u: int, v: int| 0 <= u < 3 && 0 <= v < 3 implies #[trigger] source_pixel(
        p,
        x - 1 + u,
        y - 1 + v,
    ) == g by {
        lemma_uniform_read(p, g, x - 1 + u, y - 1 + v);
    }
    let w = k.weights;
    assert forall|v: int| 0 <= v < 3 implies #[trigger] row_sum(p, k, x, y, v, 3) == g * (w[v
        * 3] + w[v * 3 + 1] + w[v * 3 + 2]) by {
        assert(row_sum(p, k, x, y, v, 0) == 0);
        assert(source_pixel(p, x - 1 + 0, y - 1 + v) == g);
        assert(source_pixel(p, x - 1 + 1, y - 1 + v) == g);
        assert(source_pixel(p, x - 1 + 2, y - 1 + v) == g);
        assert(row_sum(p, k, x, y, v, 1) == w[v * 3] * g);
        assert(row_sum(p, k, x, y, v, 2) == w[v * 3] * g + w[v * 3 + 1] * g);
        assert(row_sum(p, k, x, y, v, 3) == w[v * 3] * g + w[v * 3 + 1] * g + w[v * 3 + 2] * g);
        assert(g * (w[v * 3] + w[v * 3 + 1] + w[v * 3 + 2]) == w[v * 3] * g + w[v * 3 + 1] * g
            + w[v * 3 + 2] * g) by (nonlinear_arith);
    }
    assert(window_sum(p, k, x, y, 0) == 0);
    assert(window_sum(p, k, x, y, 1) == row_sum(p, k, x, y, 0, 3));
    assert(window_sum(p, k, x, y, 2) == row_sum(p, k, x, y, 0, 3) + row_sum(p, k, x, y, 1, 3));
    assert(window_sum(p, k, x, y, 3) == row_sum(p, k, x, y, 0, 3) + row_sum(p, k, x, y, 1, 3)
        + row_sum(p, k, x, y, 2, 3));
    assert(w[0int * 3] == w[0] && w[1int * 3] == w[3] && w[2int * 3] == w[6]);
    assert(g * (w[0] + w[1] + w[2]) + g * (w[3] + w[4] + w[5]) + g * (w[6] + w[7] + w[8]) == g
        * (w[0] + w[1] + w[2] + w[3] + w[4] + w[5] + w[6] + w[7] + w[8])) by (nonlinear_arith);
}

/// One output pixel of a uniform plane: the 3x3 gaussian keeps it and the
/// laplacian makes it zero.
proof fn lemma_uniform_pixel(p: PlaneView, g: u8, t: int)
    requires
        p.wf(),
        is_uniform(p, g),
        kernel_fits(p.width, p.height, gaussian_simple_spec()),
        0 <= t < p.bytes.len(),
    ensures
        filter_plane(p, gaussian_simple_spec()).bytes[t] == g,
        filter_plane(p, laplacian_spec()).bytes[t] == 0,
{
    let gs = gaussian_simple_spec();
    let lp = laplacian_spec();
    lemma_grid_position(t, p.width as int, p.height as int);
    let x = t % (p.width as int);
    let y = t / (p.width as int);
    let ws = gs.weights;
    let wl = lp.weights;
    assert(ws.len() == 9 && wl.len() == 9);
    assert(gs.height() == 3);
    assert(lp.height() == 3);
    assert(kernel_fits(p.width, p.height, lp));
    lemma_uniform_window_3x3(p, g, gs, x, y);
    lemma_uniform_window_3x3(p, g, lp, x, y);
    assert(ws[0] + ws[1] + ws[2] + ws[3] + ws[4] + ws[5] + ws[6] + ws[7] + ws[8] == 32);
    assert(wl[0] + wl[1] + wl[2] + wl[3] + wl[4] + wl[5] + wl[6] + wl[7] + wl[8] == 0);
    assert(g * (wl[0] + wl[1] + wl[2] + wl[3] + wl[4] + wl[5] + wl[6] + wl[7] + wl[8]) == 0)
        by (nonlinear_arith)
        requires
            wl[0] + wl[1] + wl[2] + wl[3] + wl[4] + wl[5] + wl[6] + wl[7] + wl[8] == 0,
    ;
    assert(window_sum(p, gs, x, y, 3) == g * 32);
    assert(window_sum(p, lp, x, y, 3) == 0);
    assert((g * 32) / 32 == g as int);
    assert(filter_plane(p, gs).bytes[t] == filtered_pixel(p, gs, x, y));
    assert(filter_plane(p, lp).bytes[t] == filtered_pixel(p, lp, x, y));
}

/// A uniform plane is left as it is by the 3x3 gaussian (its weights sum
/// to one) and by sharpening (its laplacian is zero).
pub proof fn lemma_uniform_fixed(p: PlaneView, g: u8)
    requires
        p.wf(),
        is_uniform(p, g),
        kernel_fits(p.width, p.height, gaussian_simple_spec()),
    ensures
        filter_plane(p, gaussian_simple_spec()) == p,
        sharpened_plane(p) == p,
{
    let f = filter_plane(p, gaussian_simple_spec());
    let l = filter_plane(p, laplacian_spec());
    let s = sharpened_plane(p);
    assert forall|t: int| 0 <= t < p.bytes.len() implies #[trigger] f.bytes[t] == p.bytes[t]
        && s.bytes[t] == p.bytes[t] by {
        lemma_uniform_pixel(p, g, t);
        assert(sat_sub(p.bytes[t], 0) == p.bytes[t]);
    }
    assert(f.bytes =~= p.bytes);
    assert(s.bytes =~= p.bytes);
}

} // verus!

