//! The multisample rasterizer: every pixel of the image, once for each
//! offset of a fixed sub-pixel pattern, as an exact screen coordinate.
use vstd::prelude::*;
use vstd::arithmetic::div_mod::lemma_fundamental_div_mod_converse;
use crate::cli::{valid_sample_count, ConfigError, Options};

verus! {

/// Sub-pixel offsets are given in sixteenths of a pixel.
pub const SUBPIXEL: i64 = 16;

/// The sub-pixel offsets for `n` samples, in sixteenths of a pixel; empty
/// where `n` has no pattern.
pub open spec fn pattern(n: int) -> Seq<(i32, i32)> {
    if n == 1 {
        seq![(0i32, 0i32)]
    } else if n == 2 {
        seq![(-4i32, -4i32), (4i32, 4i32)]
    } else if n == 4 {
        seq![(-2i32, -6i32), (6i32, -2i32), (-6i32, 2i32), (2i32, 6i32)]
    } else if n == 8 {
        seq![
            (-7i32, 1i32),
            (-5i32, -5i32),
            (-3i32, 5i32),
            (-1i32, -3i32),
            (1i32, 3i32),
            (3i32, -7i32),
            (5i32, -1i32),
            (7i32, 7i32),
        ]
    } else {
        seq![]
    }
}

/// The sub-pixel offsets for a supported count.
fn pattern_vec(count: i32) -> (r: Vec<(i32, i32)>)
    requires
        valid_sample_count(count as int),
    ensures
        r@ == pattern(count as int),
{
    let v = if count == 1 {
        vec![(0i32, 0i32)]
    } else if count == 2 {
        vec![(-4i32, -4i32), (4i32, 4i32)]
    } else if count == 4 {
        vec![(-2i32, -6i32), (6i32, -2i32), (-6i32, 2i32), (2i32, 6i32)]
    } else {
        vec![
            (-7i32, 1i32),
            (-5i32, -5i32),
            (-3i32, 5i32),
            (-1i32, -3i32),
            (1i32, 3i32),
            (3i32, -7i32),
            (5i32, -1i32),
            (7i32, 7i32),
        ]
    };
    assert(v@ =~= pattern(count as int));
    v
}

/// The sub-pixel offsets for `count` samples per pixel; a count without a
/// pattern is refused.
pub fn sample_pattern(count: i32) -> (r: Result<Vec<(i32, i32)>, ConfigError>)
    ensures
        valid_sample_count(count as int) <==> r is Ok,
        r matches Ok(v) ==> v@ == pattern(count as int),
        !valid_sample_count(count as int) ==> r == Err::<Vec<(i32, i32)>, ConfigError>(ConfigError::UnsupportedSamples),
{
    if count == 1 || count == 2 || count == 4 || count == 8 {
        Ok(pattern_vec(count))
    } else {
        Err(ConfigError::UnsupportedSamples)
    }
}

/// Each supported count has a pattern of exactly that many distinct
/// offsets, and a single sample sits at the pixel centre.
pub proof fn lemma_pattern_distinct(n: int)
    requires
        valid_sample_count(n),
    ensures
        pattern(n).len() == n,
        n == 1 ==> pattern(n) == seq![(0i32, 0i32)],
        forall|i: int, j: int| 0 <= i < j < n ==> pattern(n)[i] != pattern(n)[j],
{
}

/// A point on the screen as exact fractions: `x_num / x_den` across, from -1
/// at the left edge, and `y_num / y_den` up, from -1 at the bottom edge.
#[derive(Debug, Clone, Copy, PartialEq, Eq, Structural)]
pub struct ShaderInput {
    pub x_num: i64,
    pub x_den: i64,
    pub y_num: i64,
    pub y_den: i64,
}

/// One sample to shade: where on the screen, and the pixel it adds to.
#[derive(Debug, Clone, Copy, PartialEq, Eq, Structural)]
pub struct RasterizerOutput {
    pub shader_input: ShaderInput,
    pub pixel_x: usize,
    pub pixel_y: usize,
}

/// Screen point of pixel `(x, y)` of a `w` by `h` image moved by `off`
/// sixteenths of a pixel: the pixel index is centred on the image, then
/// divided by half the side, and the vertical axis turned to point up.
pub open spec fn screen_point(w: int, h: int, x: int, y: int, off: (i32, i32)) -> ShaderInput {
    ShaderInput {
        x_num: (16 * (x - w / 2) + off.0) as i64,
        x_den: (8 * w) as i64,
        y_num: (-(16 * (y - h / 2) + off.1)) as i64,
        y_den: (8 * h) as i64,
    }
}

/// The work item at place `i` of the list for a `w` by `h` image with `n`
/// samples: columns outermost, then rows, then the samples of a pixel.
pub open spec fn fragment_at(w: int, h: int, n: int, i: int) -> RasterizerOutput {
    let k = i % n;
    let y = (i / n) % h;
    let x = i / n / h;
    RasterizerOutput {
        shader_input: screen_point(w, h, x, y, pattern(n)[k]),
        pixel_x: x as usize,
        pixel_y: y as usize,
    }
}

proof fn lemma_place(w: int, h: int, n: int, x: int, y: int, k: int)
    requires
        0 <= x < w,
        0 <= y < h,
        0 <= k < n,
    ensures
        ((x * h + y) * n + k) % n == k,
        ((x * h + y) * n + k) / n % h == y,
        ((x * h + y) * n + k) / n / h == x,
{
    lemma_fundamental_div_mod_converse((x * h + y) * n + k, n, x * h + y, k);
    assert(x * h + y == y + h * x) by (nonlinear_arith);
    lemma_fundamental_div_mod_converse(x * h + y, h, x, y);
}

/// The work list holds, for each pixel `(x, y)` and each offset `k` of the
/// pattern, one item at the place `(x * h + y) * n + k`: that pixel, moved by
/// that offset.
pub proof fn lemma_each_pixel_sample(w: int, h: int, n: int, x: int, y: int, k: int)
    requires
        0 <= x < w,
        0 <= y < h,
        0 <= k < n,
    ensures
        0 <= (x * h + y) * n + k < w * h * n,
        fragment_at(w, h, n, (x * h + y) * n + k) == (RasterizerOutput {
            shader_input: screen_point(w, h, x, y, pattern(n)[k]),
            pixel_x: x as usize,
            pixel_y: y as usize,
        }),
{
    lemma_place(w, h, n, x, y, k);
    assert(0 <= (x * h + y) * n + k < w * h * n) by (nonlinear_arith)
        requires 0 <= x < w, 0 <= y < h, 0 <= k < n;
}

/// With one sample, the item of each pixel sits at the pixel's centre.
pub proof fn lemma_single_sample_centred(w: int, h: int, x: int, y: int)
    requires
        0 <= x < w <= i32::MAX,
        0 <= y < h <= i32::MAX,
    ensures
        0 <= x * h + y < w * h,
        fragment_at(w, h, 1, x * h + y) == (RasterizerOutput {
            shader_input: ShaderInput {
                x_num: (16 * (x - w / 2)) as i64,
                x_den: (8 * w) as i64,
                y_num: (-(16 * (y - h / 2))) as i64,
                y_den: (8 * h) as i64,
            },
            pixel_x: x as usize,
            pixel_y: y as usize,
        }),
{
    lemma_each_pixel_sample(w, h, 1, x, y, 0);
    assert((x * h + y) * 1 + 0 == x * h + y);
    assert(w * h * 1 == w * h);
}

/// The items of one pixel lie at distinct points of the screen, one for each
/// offset of the pattern.
pub proof fn lemma_pixel_samples_distinct(w: int, h: int, n: int, x: int, y: int, k1: int, k2: int)
    requires
        valid_sample_count(n),
        0 <= x < w <= i32::MAX,
        0 <= y < h <= i32::MAX,
        0 <= k1 < k2 < n,
    ensures
        fragment_at(w, h, n, (x * h + y) * n + k1).shader_input != fragment_at(
            w,
            h,
            n,
            (x * h + y) * n + k2,
        ).shader_input,
{
    lemma_pattern_distinct(n);
    lemma_each_pixel_sample(w, h, n, x, y, k1);
    lemma_each_pixel_sample(w, h, n, x, y, k2);
    let o1 = pattern(n)[k1];
    let o2 = pattern(n)[k2];
    assert(-8 <= o1.0 <= 8 && -8 <= o1.1 <= 8 && -8 <= o2.0 <= 8 && -8 <= o2.1 <= 8);
    assert(o1 != o2);
}

/// The work list for a render: one item for each pixel and each offset of the
/// sample pattern.
pub fn rasterize(options: &Options) -> (r: Vec<RasterizerOutput>)
    requires
        options.spec_width() <= i32::MAX,
        options.spec_height() <= i32::MAX,
        options.spec_width() * options.spec_height() * options.spec_samples() <= usize::MAX,
    ensures
        r@.len() == options.spec_width() * options.spec_height() * options.spec_samples(),
        forall|i: int|
            0 <= i < r@.len() ==> #[trigger] r@[i] == fragment_at(
                options.spec_width() as int,
                options.spec_height() as int,
                options.spec_samples() as int,
                i,
            ),
{
    let width = options.width();
    let height = options.height();
    let count = options.samples();
    let samples = pattern_vec(count);
    let n = samples.len();
    let ghost (w, h, ni) = (width as int, height as int, n as int);
    let mut out: Vec<RasterizerOutput> = Vec::new();
    let mut x: usize = 0;
    assert(0 * h * ni == 0) by (nonlinear_arith);
    while x < width
        invariant
            samples@ == pattern(count as int),
            n == samples@.len(),
            ni == n,
            w == width,
            h == height,
            valid_sample_count(count as int),
            width <= i32::MAX,
            height <= i32::MAX,
            w * h * ni <= usize::MAX,
            x <= width,
            out@.len() == x * h * ni,
            forall|i: int| 0 <= i < out@.len() ==> #[trigger] out@[i] == fragment_at(w, h, ni, i),
        decreases width - x,
    {
        let mut y: usize = 0;
        while y < height
            invariant
                samples@ == pattern(count as int),
                n == samples@.len(),
                ni == n,
                w == width,
                h == height,
                valid_sample_count(count as int),
                width <= i32::MAX,
                height <= i32::MAX,
                w * h * ni <= usize::MAX,
                x < width,
                y <= height,
                out@.len() == (x * h + y) * ni,
                forall|i: int| 0 <= i < out@.len() ==> #[trigger] out@[i] == fragment_at(w, h, ni, i),
            decreases height - y,
        {
            let mut k: usize = 0;
            while k < n
                invariant
                    samples@ == pattern(count as int),
                    n == samples@.len(),
                    ni == n,
                    w == width,
                    h == height,
                    valid_sample_count(count as int),
                    width <= i32::MAX,
                    height <= i32::MAX,
                    w * h * ni <= usize::MAX,
                    x < width,
                    y < height,
                    k <= n,
                    out@.len() == (x * h + y) * ni + k,
                    forall|i: int| 0 <= i < out@.len() ==> #[trigger] out@[i] == fragment_at(w, h, ni, i),
                decreases n - k,
            {
                let off = samples[k];
                assert(-8 <= off.0 <= 8 && -8 <= off.1 <= 8);
                let xf: i64 = SUBPIXEL * (x as i64 - (width / 2) as i64) + off.0 as i64;
                let yf: i64 = SUBPIXEL * (y as i64 - (height / 2) as i64) + off.1 as i64;
                let item = RasterizerOutput {
                    shader_input: ShaderInput {
                        x_num: xf,
                        x_den: 8 * width as i64,
                        y_num: -yf,
                        y_den: 8 * height as i64,
                    },
                    pixel_x: x,
                    pixel_y: y,
                };
                proof {
                    lemma_place(w, h, ni, x as int, y as int, k as int);
                    assert((x * h + y) * ni + k < w * h * ni) by (nonlinear_arith)
                        requires x < w, y < h, k < ni, 0 <= x, 0 <= y, 0 <= k;
                }
                out.push(item);
                k = k + 1;
            }
            assert((x * h + y) * ni + ni == (x * h + (y + 1)) * ni) by (nonlinear_arith);
            y = y + 1;
        }
        assert((x * h + h) * ni == (x + 1) * h * ni) by (nonlinear_arith);
        x = x + 1;
    }
    out
}

} // verus!
