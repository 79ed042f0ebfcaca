//! Two-dimensional discrete convolution of grayscale images with square,
//! odd-sized kernels.
//!
//! The crate verifies the integer core of the filter: kernel shape
//! validation, the selection rules behind the rescaling bounds, boundary
//! projection of out-of-range coordinates, neighborhood gathering, and the
//! per-pixel driver loop. The floating-point weighted sum itself is supplied
//! by the caller as a closure, since the accumulation is plain `f64`
//! arithmetic with no integer content.

use vstd::prelude::*;

pub mod convolution;

pub use convolution::ConvolutionError;

verus! {

/// Boundary policy: where a sample is read from when the kernel window
/// reaches past the border of the image.
pub enum EdgeMode {
    /// Clamp to the nearest border sample.
    Extend,
    /// Toroidal wraparound to the opposite border.
    Wrap,
    /// Reflect across the border without repeating the border sample.
    Mirror,
}

/// Where a single axis coordinate `p` lands after boundary projection
/// against an axis of length `dim`. In-bounds coordinates are unchanged;
/// out-of-bounds ones are clamped, wrapped once, or reflected once,
/// according to the mode.
pub open spec fn project_axis(p: int, dim: int, mode: EdgeMode) -> int {
    if 0 <= p && p < dim {
        p
    } else {
        match mode {
            EdgeMode::Extend => if p < 0 { 0 } else { dim - 1 },
            EdgeMode::Wrap => if p < 0 { p + dim } else { p - dim },
            EdgeMode::Mirror => if p < 0 { -p - 1 } else { -p + 2 * dim - 1 },
        }
    }
}

/// The coordinates for which one clamp, wrap, or reflection is enough to
/// land back in `[0, dim)`. `Extend` handles any coordinate; `Wrap` and
/// `Mirror` are exact only for a single overshoot of at most `dim`.
pub open spec fn axis_admissible(p: int, dim: int, mode: EdgeMode) -> bool {
    match mode {
        EdgeMode::Extend => true,
        EdgeMode::Wrap => -dim <= p && p <= 2 * dim - 1,
        EdgeMode::Mirror => -dim <= p && p <= 2 * dim - 1,
    }
}

/// On its admissible domain, projection always lands in bounds.
pub proof fn lemma_project_axis_in_bounds(p: int, dim: int, mode: EdgeMode)
    requires
        1 <= dim,
        axis_admissible(p, dim, mode),
    ensures
        0 <= project_axis(p, dim, mode) < dim,
{
}

/// Projects the coordinate pair `(x, y)` into the bounds of a
/// `width` x `height` image under the chosen edge mode, axis by axis.
pub fn edge_project(x: i64, y: i64, width: u32, height: u32, edge_mode: &EdgeMode) -> (r: (
    u32,
    u32,
))
    requires
        1 <= width,
        1 <= height,
        axis_admissible(x as int, width as int, *edge_mode),
        axis_admissible(y as int, height as int, *edge_mode),
    ensures
        r.0 == project_axis(x as int, width as int, *edge_mode),
        r.1 == project_axis(y as int, height as int, *edge_mode),
        r.0 < width,
        r.1 < height,
{
    let width = width as i64;
    let height = height as i64;

    if x >= 0 && x <= width - 1 && y >= 0 && y <= height - 1 {
        return (x as u32, y as u32);
    }

    match edge_mode {
        EdgeMode::Extend => {
            let ret_x = if x < 0 {
                0
            } else if x > width - 1 {
                width - 1
            } else {
                x
            };

            let ret_y = if y < 0 {
                0
            } else if y > height - 1 {
                height - 1
            } else {
                y
            };

            (ret_x as u32, ret_y as u32)
        },
        EdgeMode::Wrap => {
            let ret_x = if x < 0 {
                x + width
            } else if x > width - 1 {
                x - width
            } else {
                x
            };

            let ret_y = if y < 0 {
                y + height
            } else if y > height - 1 {
                y - height
            } else {
                y
            };

            (ret_x as u32, ret_y as u32)
        },
        EdgeMode::Mirror => {
            let ret_x = if x < 0 {
                -x - 1
            } else if x > width - 1 {
                -x + (2 * width) - 1
            } else {
                x
            };

            let ret_y = if y < 0 {
                -y - 1
            } else if y > height - 1 {
                -y + (2 * height) - 1
            } else {
                y
            };

            (ret_x as u32, ret_y as u32)
        },
    }
}

/// A single-channel 8-bit image: `width * height` luminance samples in
/// row-major order, origin at the top left.
pub struct GrayBuffer {
    pub width: u32,
    pub height: u32,
    pub data: Vec<u8>,
}

impl GrayBuffer {
    /// The sample count matches the dimensions.
    pub open spec fn wf(self) -> bool {
        self.data@.len() == self.width as int * self.height as int
    }

    /// The sample at in-bounds coordinates `(px, py)`.
    pub open spec fn sample(self, px: int, py: int) -> u8 {
        self.data@[py * self.width as int + px]
    }

    /// Builds a buffer from raw samples, checking that their count matches
    /// the dimensions.
    pub fn new(width: u32, height: u32, data: Vec<u8>) -> (r: Option<GrayBuffer>)
        ensures
            match r {
                Some(b) => b.wf() && b.width == width && b.height == height && b.data@ == data@,
                None => data@.len() != width as int * height as int,
            },
    {
        proof {
            assert((width as int) * (height as int) <= 0xffff_ffffi64 * 0xffff_ffff)
                by (nonlinear_arith)
                requires
                    width <= 0xffff_ffffu32,
                    height <= 0xffff_ffffu32,
            ;
        }
        if data.len() as u64 == (width as u64) * (height as u64) {
            Some(GrayBuffer { width, height, data })
        } else {
            None
        }
    }
}

/// Whether a kernel of dimension `size` stays within the single-overshoot
/// domain of the projection formulas on an axis of length `dim`. `Extend`
/// clamps, so any overshoot is safe; `Wrap` and `Mirror` are exact only
/// while the kernel radius does not exceed the axis length.
pub open spec fn kernel_fits(size: int, dim: int, mode: EdgeMode) -> bool {
    match mode {
        EdgeMode::Extend => true,
        EdgeMode::Wrap => size / 2 <= dim,
        EdgeMode::Mirror => size / 2 <= dim,
    }
}

/// Every coordinate a fitting kernel window reaches is admissible.
proof fn lemma_window_admissible(p: int, d: int, dim: int, size: int, mode: EdgeMode)
    requires
        0 <= p < dim,
        1 <= size,
        -(size / 2) <= d <= size / 2,
        kernel_fits(size, dim, mode),
    ensures
        axis_admissible(p + d, dim, mode),
{
}

/// Reads the input sample for a possibly out-of-bounds coordinate pair,
/// projecting it through the edge policy first.
pub fn get_pixel(buf: &GrayBuffer, x: i64, y: i64, edge_mode: &EdgeMode) -> (r: u8)
    requires
        buf.wf(),
        1 <= buf.width,
        1 <= buf.height,
        axis_admissible(x as int, buf.width as int, *edge_mode),
        axis_admissible(y as int, buf.height as int, *edge_mode),
    ensures
        r == buf.sample(
            project_axis(x as int, buf.width as int, *edge_mode),
            project_axis(y as int, buf.height as int, *edge_mode),
        ),
{
    let (proj_x, proj_y) = edge_project(x, y, buf.width, buf.height, edge_mode);
    let n = buf.data.len();
    proof {
        assert((proj_y as int) * (buf.width as int) + (proj_x as int) < (buf.width as int) * (
        buf.height as int)) by (nonlinear_arith)
            requires
                (proj_y as int) < (buf.height as int),
                (proj_x as int) < (buf.width as int),
                1 <= (buf.width as int),
        ;
        assert((proj_y as int) * (buf.width as int) + (proj_x as int) < n as int);
    }
    let idx = (proj_y as usize) * (buf.width as usize) + (proj_x as usize);
    buf.data[idx]
}

/// The kernel window of input samples around `(x, y)`: for window index
/// `k`, row `k / size` and column `k % size` of the window, offset by the
/// kernel radius and projected through the edge policy.
pub open spec fn neighborhood_spec(
    buf: GrayBuffer,
    x: int,
    y: int,
    size: int,
    mode: EdgeMode,
) -> Seq<u8> {
    Seq::new(
        (size * size) as nat,
        |k: int|
            buf.sample(
                project_axis(x + (k % size) - size / 2, buf.width as int, mode),
                project_axis(y + (k / size) - size / 2, buf.height as int, mode),
            ),
    )
}

/// Gathers the kernel window of input samples around `(x, y)` in row-major
/// window order, sourcing out-of-bounds coordinates through the edge policy.
pub fn neighborhood(buf: &GrayBuffer, x: u32, y: u32, size: usize, edge_mode: &EdgeMode) -> (r: Vec<
    u8,
>)
    requires
        buf.wf(),
        x < buf.width,
        y < buf.height,
        1 <= size,
        size % 2 == 1,
        size * size <= usize::MAX,
        kernel_fits(size as int, buf.width as int, *edge_mode),
        kernel_fits(size as int, buf.height as int, *edge_mode),
    ensures
        r@ == neighborhood_spec(*buf, x as int, y as int, size as int, *edge_mode),
{
    let ghost nspec = neighborhood_spec(*buf, x as int, y as int, size as int, *edge_mode);
    proof {
        assert(size as int <= 0xffff_ffff_i64) by (nonlinear_arith)
            requires
                (size as int) * (size as int) <= 0xffff_ffff_ffff_ffffi128,
                0 <= size as int,
        ;
    }
    let offset = (size / 2) as i64;
    let mut out: Vec<u8> = Vec::new();
    let mut ky: usize = 0;
    while ky < size
        invariant
            buf.wf(),
            x < buf.width,
            y < buf.height,
            1 <= size,
            size % 2 == 1,
            size * size <= usize::MAX,
            kernel_fits(size as int, buf.width as int, *edge_mode),
            kernel_fits(size as int, buf.height as int, *edge_mode),
            offset == size as int / 2,
            size as int <= 0xffff_ffff,
            nspec == neighborhood_spec(*buf, x as int, y as int, size as int, *edge_mode),
            ky <= size,
            out@.len() == ky * size,
            forall|k: int| 0 <= k < ky * size ==> out@[k] == nspec[k],
        decreases size - ky,
    {
        let mut kx: usize = 0;
        while kx < size
            invariant
                buf.wf(),
                x < buf.width,
                y < buf.height,
                1 <= size,
                size % 2 == 1,
                size * size <= usize::MAX,
                kernel_fits(size as int, buf.width as int, *edge_mode),
                kernel_fits(size as int, buf.height as int, *edge_mode),
                offset == size as int / 2,
                size as int <= 0xffff_ffff,
                nspec == neighborhood_spec(*buf, x as int, y as int, size as int, *edge_mode),
                ky < size,
                kx <= size,
                out@.len() == ky * size + kx,
                forall|k: int| 0 <= k < ky * size + kx ==> out@[k] == nspec[k],
            decreases size - kx,
        {
            proof {
                assert(ky * size + kx < size * size && ky * size + kx <= 0xffff_ffff_ffff_ffffi128)
                    by (nonlinear_arith)
                    requires
                        0 <= kx < size,
                        0 <= ky < size,
                        size * size <= 0xffff_ffff_ffff_ffffi128,
                ;
                lemma_window_admissible(
                    x as int,
                    kx as int - offset as int,
                    buf.width as int,
                    size as int,
                    *edge_mode,
                );
                lemma_window_admissible(
                    y as int,
                    ky as int - offset as int,
                    buf.height as int,
                    size as int,
                    *edge_mode,
                );
            }
            let px = x as i64 + kx as i64 - offset;
            let py = y as i64 + ky as i64 - offset;
            let p = get_pixel(buf, px, py, edge_mode);
            proof {
                vstd::arithmetic::div_mod::lemma_fundamental_div_mod_converse(
                    ky as int * size as int + kx as int,
                    size as int,
                    ky as int,
                    kx as int,
                );
            }
            out.push(p);
            kx += 1;
        }
        proof {
            assert(ky * size + size == (ky + 1) * size) by (nonlinear_arith);
        }
        ky += 1;
    }
    proof {
        assert(out@ =~= nspec);
    }
    out
}

/// A flat sample index splits into in-bounds coordinates.
proof fn lemma_flat_index(buf: GrayBuffer, q: int)
    requires
        buf.wf(),
        0 <= q < buf.data@.len(),
    ensures
        1 <= buf.width as int,
        0 <= q % (buf.width as int) < buf.width as int,
        0 <= q / (buf.width as int) < buf.height as int,
        (q / (buf.width as int)) * (buf.width as int) + q % (buf.width as int) == q,
{
    let w = buf.width as int;
    let h = buf.height as int;
    assert(w >= 1) by (nonlinear_arith)
        requires
            0 <= q < w * h,
            0 <= h,
    ;
    vstd::arithmetic::div_mod::lemma_fundamental_div_mod(q, w);
    assert(0 <= q % w < w);
    assert(0 <= q / w) by (nonlinear_arith)
        requires
            q >= 0,
            w >= 1,
    ;
    assert(q / w < h) by (nonlinear_arith)
        requires
            q == w * (q / w) + q % w,
            0 <= q % w < w,
            0 <= q / w,
            q < w * h,
    ;
}

/// The output sample `val` at `(x, y)` is a value the kernel application
/// could return for exactly the neighborhood gathered around `(x, y)`.
pub open spec fn pixel_convolved<F: Fn(Vec<u8>) -> u8>(
    buf: GrayBuffer,
    size: int,
    mode: EdgeMode,
    apply: F,
    x: int,
    y: int,
    val: u8,
) -> bool {
    exists|v: Vec<u8>|
        v@ == neighborhood_spec(buf, x, y, size, mode) && call_ensures(apply, (v,), val)
}

/// `out` is a convolution of `buf`: the dimensions are preserved, and every
/// output sample comes from applying the kernel to the neighborhood of its
/// own coordinates.
pub open spec fn convolved<F: Fn(Vec<u8>) -> u8>(
    buf: GrayBuffer,
    size: int,
    mode: EdgeMode,
    apply: F,
    out: GrayBuffer,
) -> bool {
    &&& out.width == buf.width
    &&& out.height == buf.height
    &&& out.data@.len() == buf.data@.len()
    &&& forall|x: int, y: int|
        0 <= x < buf.width as int && 0 <= y < buf.height as int ==> pixel_convolved(
            buf,
            size,
            mode,
            apply,
            x,
            y,
            #[trigger] out.sample(x, y),
        )
}

/// Convolves the whole image: for every output coordinate, gathers the
/// neighborhood under the edge policy and maps it through `apply`, the
/// caller's weighted-sum-and-rescale step, in row-major order. The output
/// has the dimensions of the input.
pub fn convolve_with<F: Fn(Vec<u8>) -> u8>(
    buf: &GrayBuffer,
    size: usize,
    edge_mode: &EdgeMode,
    apply: F,
) -> (out: GrayBuffer)
    requires
        buf.wf(),
        1 <= size,
        size % 2 == 1,
        size * size <= usize::MAX,
        kernel_fits(size as int, buf.width as int, *edge_mode),
        kernel_fits(size as int, buf.height as int, *edge_mode),
        forall|v: Vec<u8>| v@.len() == size * size ==> call_requires(apply, (v,)),
    ensures
        out.wf(),
        convolved(*buf, size as int, *edge_mode, apply, out),
{
    let width_us = buf.width as usize;
    let total = buf.data.len();
    let mut data: Vec<u8> = Vec::new();
    let mut p: usize = 0;
    while p < total
        invariant
            buf.wf(),
            1 <= size,
            size % 2 == 1,
            size * size <= usize::MAX,
            kernel_fits(size as int, buf.width as int, *edge_mode),
            kernel_fits(size as int, buf.height as int, *edge_mode),
            forall|v: Vec<u8>| v@.len() == size * size ==> call_requires(apply, (v,)),
            width_us == buf.width as int,
            total == buf.data@.len(),
            p <= total,
            data@.len() == p,
            forall|q: int|
                0 <= q < p ==> pixel_convolved(
                    *buf,
                    size as int,
                    *edge_mode,
                    apply,
                    q % buf.width as int,
                    q / buf.width as int,
                    #[trigger] data@[q],
                ),
        decreases total - p,
    {
        proof {
            assert(width_us >= 1) by (nonlinear_arith)
                requires
                    (p as int) < (buf.width as int) * (buf.height as int),
                    0 <= (p as int),
                    (width_us as int) == (buf.width as int),
            ;
        }
        let x_us = p % width_us;
        let y_us = p / width_us;
        proof {
            vstd::arithmetic::div_mod::lemma_fundamental_div_mod(p as int, width_us as int);
            assert((y_us as int) < (buf.height as int)) by (nonlinear_arith)
                requires
                    (p as int) == (width_us as int) * (y_us as int) + (x_us as int),
                    0 <= (x_us as int) < (width_us as int),
                    0 <= (y_us as int),
                    (p as int) < (buf.width as int) * (buf.height as int),
                    (width_us as int) == (buf.width as int),
            ;
        }
        let x = x_us as u32;
        let y = y_us as u32;
        let samples = neighborhood(buf, x, y, size, edge_mode);
        let ghost gs = samples;
        assert(call_requires(apply, (samples,)));
        let val = apply(samples);
        proof {
            assert(gs@ == neighborhood_spec(
                *buf,
                x_us as int,
                y_us as int,
                size as int,
                *edge_mode,
            ));
            assert(pixel_convolved(
                *buf,
                size as int,
                *edge_mode,
                apply,
                p as int % buf.width as int,
                p as int / buf.width as int,
                val,
            ));
        }
        data.push(val);
        p += 1;
    }
    let out = GrayBuffer { width: buf.width, height: buf.height, data };
    proof {
        assert forall|x: int, y: int|
            0 <= x < buf.width as int && 0 <= y
                < buf.height as int implies pixel_convolved(
            *buf,
            size as int,
            *edge_mode,
            apply,
            x,
            y,
            #[trigger] out.sample(x, y),
        ) by {
            let w = buf.width as int;
            let q = y * w + x;
            assert(0 <= q < (buf.width as int) * (buf.height as int)) by (nonlinear_arith)
                requires
                    0 <= x < buf.width as int,
                    0 <= y < buf.height as int,
                    w == buf.width as int,
                    q == y * w + x,
            ;
            vstd::arithmetic::div_mod::lemma_fundamental_div_mod_converse(q, w, y, x);
            assert(pixel_convolved(
                *buf,
                size as int,
                *edge_mode,
                apply,
                q % w,
                q / w,
                out.data@[q],
            ));
        }
    }
    out
}

/// The neighborhood of an in-bounds coordinate under a 1x1 kernel is that
/// single sample, unchanged, whatever the edge mode.
pub proof fn lemma_identity_neighborhood(buf: GrayBuffer, x: int, y: int, mode: EdgeMode)
    requires
        buf.wf(),
        0 <= x < buf.width as int,
        0 <= y < buf.height as int,
    ensures
        neighborhood_spec(buf, x, y, 1, mode) == seq![buf.sample(x, y)],
{
    assert(neighborhood_spec(buf, x, y, 1, mode)[0] == buf.sample(x, y));
    assert(neighborhood_spec(buf, x, y, 1, mode) =~= seq![buf.sample(x, y)]);
}

/// Identity law: convolving with a 1x1 kernel application that hands its
/// single gathered sample back reproduces the input image sample for
/// sample, under any edge mode.
pub proof fn lemma_identity_convolution<F: Fn(Vec<u8>) -> u8>(
    buf: GrayBuffer,
    mode: EdgeMode,
    apply: F,
    out: GrayBuffer,
)
    requires
        buf.wf(),
        convolved(buf, 1, mode, apply, out),
        forall|v: Vec<u8>, r: u8| call_ensures(apply, (v,), r) && v@.len() == 1 ==> r == v@[0],
    ensures
        out.data@ == buf.data@,
{
    assert forall|q: int| 0 <= q < buf.data@.len() implies out.data@[q] == buf.data@[q] by {
        lemma_flat_index(buf, q);
        let w = buf.width as int;
        let x = q % w;
        let y = q / w;
        lemma_identity_neighborhood(buf, x, y, mode);
        assert(pixel_convolved(buf, 1, mode, apply, x, y, out.sample(x, y)));
        let v = choose|v: Vec<u8>|
            v@ == neighborhood_spec(buf, x, y, 1, mode) && call_ensures(
                apply,
                (v,),
                out.sample(x, y),
            );
        assert(out.sample(x, y) == v@[0]);
    }
    assert(out.data@ =~= buf.data@);
}

/// Determinism law: two convolutions of the same image, kernel dimension
/// and edge mode agree sample for sample whenever the kernel application
/// is a function of the gathered samples alone.
pub proof fn lemma_convolution_deterministic<F: Fn(Vec<u8>) -> u8>(
    buf: GrayBuffer,
    size: int,
    mode: EdgeMode,
    apply: F,
    out1: GrayBuffer,
    out2: GrayBuffer,
)
    requires
        buf.wf(),
        convolved(buf, size, mode, apply, out1),
        convolved(buf, size, mode, apply, out2),
        forall|v1: Vec<u8>, r1: u8, v2: Vec<u8>, r2: u8|
            #[trigger] call_ensures(apply, (v1,), r1) && #[trigger] call_ensures(apply, (v2,), r2)
                && v1@ == v2@ ==> r1 == r2,
    ensures
        out1.data@ == out2.data@,
{
    assert forall|q: int| 0 <= q < buf.data@.len() implies out1.data@[q] == out2.data@[q] by {
        lemma_flat_index(buf, q);
        let w = buf.width as int;
        let x = q % w;
        let y = q / w;
        assert(pixel_convolved(buf, size, mode, apply, x, y, out1.sample(x, y)));
        assert(pixel_convolved(buf, size, mode, apply, x, y, out2.sample(x, y)));
        let v1 = choose|v: Vec<u8>|
            v@ == neighborhood_spec(buf, x, y, size, mode) && call_ensures(
                apply,
                (v,),
                out1.sample(x, y),
            );
        let v2 = choose|v: Vec<u8>|
            v@ == neighborhood_spec(buf, x, y, size, mode) && call_ensures(
                apply,
                (v,),
                out2.sample(x, y),
            );
        assert(v1@ == v2@);
        assert(out1.sample(x, y) == out2.sample(x, y));
    }
    assert(out1.data@ =~= out2.data@);
}

/// On a uniform image every sample a kernel window can reach is the same,
/// so the gathered neighborhood is uniform as well.
pub proof fn lemma_uniform_neighborhood(
    buf: GrayBuffer,
    v: u8,
    x: int,
    y: int,
    size: int,
    mode: EdgeMode,
)
    requires
        buf.wf(),
        1 <= size,
        size % 2 == 1,
        kernel_fits(size, buf.width as int, mode),
        kernel_fits(size, buf.height as int, mode),
        0 <= x < buf.width as int,
        0 <= y < buf.height as int,
        forall|i: int| 0 <= i < buf.data@.len() ==> buf.data@[i] == v,
    ensures
        neighborhood_spec(buf, x, y, size, mode) == Seq::new((size * size) as nat, |k: int| v),
{
    let n = neighborhood_spec(buf, x, y, size, mode);
    assert forall|k: int| 0 <= k < size * size implies n[k] == v by {
        let w = buf.width as int;
        let h = buf.height as int;
        vstd::arithmetic::div_mod::lemma_fundamental_div_mod(k, size);
        assert(0 <= k % size < size);
        assert(0 <= k / size < size) by (nonlinear_arith)
            requires
                k == size * (k / size) + k % size,
                0 <= k % size < size,
                0 <= k < size * size,
                1 <= size,
        ;
        lemma_window_admissible(x, (k % size) - size / 2, w, size, mode);
        lemma_window_admissible(y, (k / size) - size / 2, h, size, mode);
        let px = project_axis(x + (k % size) - size / 2, w, mode);
        let py = project_axis(y + (k / size) - size / 2, h, mode);
        lemma_project_axis_in_bounds(x + (k % size) - size / 2, w, mode);
        lemma_project_axis_in_bounds(y + (k / size) - size / 2, h, mode);
        assert(0 <= py * w + px < w * h) by (nonlinear_arith)
            requires
                0 <= px < w,
                0 <= py < h,
        ;
        assert(buf.data@[py * w + px] == v);
    }
    assert(n =~= Seq::new((size * size) as nat, |k: int| v));
}

/// Uniformity law: when the input image is uniform and the kernel
/// application is a function of the gathered samples alone, every output
/// sample is the same.
pub proof fn lemma_uniform_convolution<F: Fn(Vec<u8>) -> u8>(
    buf: GrayBuffer,
    v: u8,
    size: int,
    mode: EdgeMode,
    apply: F,
    out: GrayBuffer,
)
    requires
        buf.wf(),
        1 <= size,
        size % 2 == 1,
        kernel_fits(size, buf.width as int, mode),
        kernel_fits(size, buf.height as int, mode),
        forall|i: int| 0 <= i < buf.data@.len() ==> buf.data@[i] == v,
        convolved(buf, size, mode, apply, out),
        forall|v1: Vec<u8>, r1: u8, v2: Vec<u8>, r2: u8|
            #[trigger] call_ensures(apply, (v1,), r1) && #[trigger] call_ensures(apply, (v2,), r2)
                && v1@ == v2@ ==> r1 == r2,
    ensures
        forall|i: int, j: int|
            0 <= i < out.data@.len() && 0 <= j < out.data@.len() ==> out.data@[i] == out.data@[j],
{
    assert forall|i: int, j: int|
        0 <= i < out.data@.len() && 0 <= j < out.data@.len() implies out.data@[i]
        == out.data@[j] by {
        let w = buf.width as int;
        lemma_flat_index(buf, i);
        lemma_flat_index(buf, j);
        let xi = i % w;
        let yi = i / w;
        let xj = j % w;
        let yj = j / w;
        lemma_uniform_neighborhood(buf, v, xi, yi, size, mode);
        lemma_uniform_neighborhood(buf, v, xj, yj, size, mode);
        assert(pixel_convolved(buf, size, mode, apply, xi, yi, out.sample(xi, yi)));
        assert(pixel_convolved(buf, size, mode, apply, xj, yj, out.sample(xj, yj)));
        let vi = choose|vv: Vec<u8>|
            vv@ == neighborhood_spec(buf, xi, yi, size, mode) && call_ensures(
                apply,
                (vv,),
                out.sample(xi, yi),
            );
        let vj = choose|vv: Vec<u8>|
            vv@ == neighborhood_spec(buf, xj, yj, size, mode) && call_ensures(
                apply,
                (vv,),
                out.sample(xj, yj),
            );
        assert(vi@ == vj@);
        assert(out.sample(xi, yi) == out.sample(xj, yj));
    }
}

} // verus!
