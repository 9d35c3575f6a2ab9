//! The image workload: decode a JPEG and shrink it to a thumbnail.
//!
//! Decoding is an outside library's work, trusted only for the structure of
//! what it returns: the decoded bytes themselves may differ between machines
//! (the decoder selects vectorized code paths by runtime feature detection),
//! so no contract here names them.  The shrink that follows is the library's
//! own logic, verified exactly over whatever pixels the decoder produced: the
//! output picks source pixels by nearest-neighbor on a fixed grid.

use vstd::prelude::*;

verus! {

broadcast use vstd::arithmetic::mul::group_mul_basics;

/// Relies on zune_jpeg's JpegDecoder (new, decode, dimensions,
/// output_colorspace).  Stated of every outcome: an accepted image has its
/// dimensions between 1 and 65535 (the header fields are 16-bit and zero is
/// rejected) and, in the default RGB output, exactly width times height
/// times three pixel bytes.  The default decoder options cap both dimensions
/// well below their 16-bit range, which also keeps that buffer size within a
/// 32-bit machine word.
#[verifier::external_body]
fn decode_rgb(data: &Vec<u8>) -> (r: Option<(Vec<u8>, usize, usize)>)
    ensures
        match r {
            Some(t) => {
                &&& t.0@.len() == t.1 * t.2 * 3
                &&& 1 <= t.1 <= 65535
                &&& 1 <= t.2 <= 65535
            },
            None => true,
        },
{
    let cursor = zune_jpeg::zune_core::bytestream::ZCursor::new(data.as_slice());
    let mut decoder = zune_jpeg::JpegDecoder::new(cursor);
    let pixels = match decoder.decode() {
        Ok(p) => p,
        Err(_) => return None,
    };
    let (w, h) = match decoder.dimensions() {
        Some(d) => d,
        None => return None,
    };
    match decoder.output_colorspace() {
        Some(zune_jpeg::zune_core::colorspace::ColorSpace::RGB) => Some((pixels, w, h)),
        _ => None,
    }
}

/// The flat position of channel `k` of the pixel at column `x` of row `y`,
/// in an image whose rows are `stride` pixels of `bpp` bytes.
pub open spec fn flat_index(y: int, x: int, stride: int, bpp: int, k: int) -> int {
    (y * stride + x) * bpp + k
}

proof fn lemma_scaled_coord(v: int, out_n: int, n: int)
    requires
        0 <= v < out_n,
        1 <= out_n,
        1 <= n,
    ensures
        0 <= v * (n / out_n) < n,
{
    let s = n / out_n;
    vstd::arithmetic::div_mod::lemma_fundamental_div_mod(n, out_n);
    vstd::arithmetic::div_mod::lemma_mod_bound(n, out_n);
    assert(s >= 0) by {
        vstd::arithmetic::div_mod::lemma_div_pos_is_pos(n, out_n);
    }
    assert(v * s >= 0) by (nonlinear_arith)
        requires
            v >= 0,
            s >= 0,
    ;
    if s >= 1 {
        assert(v * s <= (out_n - 1) * s) by (nonlinear_arith)
            requires
                v <= out_n - 1,
                s >= 0,
        ;
        assert((out_n - 1) * s == out_n * s - s) by (nonlinear_arith);
        assert(out_n * s <= n);
    }
}

proof fn lemma_flat_bound(y: int, x: int, w: int, h: int, bpp: int, k: int)
    requires
        0 <= y < h,
        0 <= x < w,
        0 <= k < bpp,
    ensures
        0 <= flat_index(y, x, w, bpp, k) < w * h * bpp,
{
    assert(y * w + x >= 0) by (nonlinear_arith)
        requires
            y >= 0,
            x >= 0,
            w >= 1,
    ;
    assert((y * w + x) * bpp >= 0) by (nonlinear_arith)
        requires
            y * w + x >= 0,
            bpp >= 1,
    ;
    assert(y * w + x <= h * w - 1) by (nonlinear_arith)
        requires
            y <= h - 1,
            x <= w - 1,
            w >= 1,
    ;
    assert((y * w + x) * bpp + k < (y * w + x + 1) * bpp) by (nonlinear_arith)
        requires
            k < bpp,
    ;
    assert((y * w + x + 1) * bpp <= (h * w) * bpp) by (nonlinear_arith)
        requires
            y * w + x + 1 <= h * w,
            bpp >= 1,
    ;
    assert((h * w) * bpp == w * h * bpp) by (nonlinear_arith);
}

/// Shrink an image to `out_w` by `out_h` by picking, for each output pixel,
/// the source pixel at the top-left of its cell on a fixed grid: output
/// pixel `(x, y)` takes source pixel `(x * (w / out_w), y * (h / out_h))`,
/// channel by channel.
pub fn resize_nearest(
    pixels: &Vec<u8>,
    w: usize,
    h: usize,
    bpp: usize,
    out_w: usize,
    out_h: usize,
) -> (r: Vec<u8>)
    requires
        1 <= w,
        1 <= h,
        1 <= bpp,
        1 <= out_w,
        1 <= out_h,
        pixels@.len() == w * h * bpp,
        out_w * out_h * bpp <= usize::MAX,
    ensures
        r@.len() == out_h * (out_w * bpp),
        forall|y: int, x: int, k: int|
            0 <= y < out_h && 0 <= x < out_w && 0 <= k < bpp ==> r@[#[trigger] flat_index(
                y,
                x,
                out_w as int,
                bpp as int,
                k,
            )] == pixels@[flat_index(y * ((h / out_h) as int), x * ((w / out_w) as int),
                w as int, bpp as int, k)],
{
    let plen: usize = pixels.len();
    proof {
        assert(w * h * bpp <= usize::MAX) by {
            assert(plen == pixels@.len());
        }
    }
    let x_scale: usize = w / out_w;
    let y_scale: usize = h / out_h;
    let row_stride: usize = {
        proof {
            assert(out_w * bpp <= out_w * out_h * bpp) by (nonlinear_arith)
                requires
                    out_h >= 1,
                    out_w >= 1,
                    bpp >= 1,
            ;
        }
        out_w * bpp
    };
    let mut r: Vec<u8> = Vec::new();
    let mut y: usize = 0;
    while y < out_h
        invariant
            y <= out_h,
            1 <= w,
            1 <= h,
            1 <= bpp,
            1 <= out_w,
            1 <= out_h,
            x_scale == w / out_w,
            y_scale == h / out_h,
            row_stride == out_w * bpp,
            out_w * out_h * bpp <= usize::MAX,
            w * h * bpp <= usize::MAX,
            pixels@.len() == w * h * bpp,
            r@.len() == y * row_stride as int,
            forall|yy: int, xx: int, kk: int|
                0 <= yy < y && 0 <= xx < out_w && 0 <= kk < bpp ==> r@[#[trigger] flat_index(
                    yy,
                    xx,
                    out_w as int,
                    bpp as int,
                    kk,
                )] == pixels@[flat_index(yy * y_scale as int, xx * x_scale as int, w as int,
                    bpp as int, kk)],
        decreases out_h - y,
    {
        proof {
            assert((y + 1) * row_stride as int == y * row_stride as int + row_stride)
                by (nonlinear_arith);
            assert((y + 1) * row_stride as int <= out_h * row_stride as int)
                by (nonlinear_arith)
                requires
                    y + 1 <= out_h,
                    row_stride >= 0,
            ;
            assert(out_h * row_stride as int == out_w * out_h * bpp) by (nonlinear_arith)
                requires
                    row_stride == out_w * bpp,
            ;
        }
        let mut x: usize = 0;
        while x < out_w
            invariant
                x <= out_w,
                y < out_h,
                1 <= w,
                1 <= h,
                1 <= bpp,
                1 <= out_w,
                1 <= out_h,
                x_scale == w / out_w,
                y_scale == h / out_h,
                row_stride == out_w * bpp,
                out_w * out_h * bpp <= usize::MAX,
                w * h * bpp <= usize::MAX,
                pixels@.len() == w * h * bpp,
                r@.len() == y * row_stride as int + x * bpp as int,
                y * row_stride as int + out_w * bpp <= out_w * out_h * bpp,
                forall|yy: int, xx: int, kk: int|
                    0 <= yy < y && 0 <= xx < out_w && 0 <= kk < bpp ==> r@[
                        #[trigger] flat_index(yy, xx, out_w as int, bpp as int, kk)
                    ] == pixels@[flat_index(yy * y_scale as int, xx * x_scale as int,
                        w as int, bpp as int, kk)],
                forall|xx: int, kk: int|
                    0 <= xx < x && 0 <= kk < bpp ==> r@[#[trigger] flat_index(y as int, xx,
                        out_w as int, bpp as int, kk)] == pixels@[flat_index(
                        (y * y_scale) as int, xx * x_scale as int, w as int, bpp as int,
                        kk)],
            decreases out_w - x,
        {
            proof {
                assert(x * bpp as int + bpp <= out_w * bpp as int) by (nonlinear_arith)
                    requires
                        x + 1 <= out_w,
                        bpp >= 0,
                ;
                lemma_scaled_coord(y as int, out_h as int, h as int);
                lemma_scaled_coord(x as int, out_w as int, w as int);
            }
            let src_row: usize = y * y_scale;
            let src_col: usize = x * x_scale;
            let mut k: usize = 0;
            while k < bpp
                invariant
                    k <= bpp,
                    x < out_w,
                    y < out_h,
                    1 <= w,
                    1 <= h,
                    1 <= bpp,
                    1 <= out_w,
                    1 <= out_h,
                    x_scale == w / out_w,
                    y_scale == h / out_h,
                    row_stride == out_w * bpp,
                    src_row == y * y_scale,
                    src_col == x * x_scale,
                    src_row < h,
                    src_col < w,
                    out_w * out_h * bpp <= usize::MAX,
                    w * h * bpp <= usize::MAX,
                    pixels@.len() == w * h * bpp,
                    r@.len() == y * row_stride as int + x * bpp as int + k,
                    y * row_stride as int + x * bpp + bpp <= out_w * out_h * bpp,
                    forall|yy: int, xx: int, kk: int|
                        0 <= yy < y && 0 <= xx < out_w && 0 <= kk < bpp ==> r@[
                            #[trigger] flat_index(yy, xx, out_w as int, bpp as int, kk)
                        ] == pixels@[flat_index(yy * y_scale as int, xx * x_scale as int,
                            w as int, bpp as int, kk)],
                    forall|xx: int, kk: int|
                        0 <= xx < x && 0 <= kk < bpp ==> r@[#[trigger] flat_index(y as int,
                            xx, out_w as int, bpp as int, kk)] == pixels@[flat_index(
                            src_row as int, xx * x_scale as int, w as int, bpp as int, kk)],
                    forall|kk: int|
                        0 <= kk < k ==> r@[#[trigger] flat_index(y as int, x as int,
                            out_w as int, bpp as int, kk)] == pixels@[flat_index(
                            src_row as int, src_col as int, w as int, bpp as int, kk)],
                decreases bpp - k,
            {
                proof {
                    lemma_flat_bound(src_row as int, src_col as int, w as int, h as int,
                        bpp as int, k as int);
                    assert(src_row * w as int + src_col <= (src_row * w as int + src_col)
                        * bpp) by (nonlinear_arith)
                        requires
                            bpp >= 1,
                            src_row * w as int + src_col >= 0,
                    ;
                    assert(src_row * w as int >= 0 && src_col >= 0) by (nonlinear_arith)
                        requires
                            src_row >= 0,
                            src_col >= 0,
                            w >= 1,
                    ;
                    assert(flat_index(y as int, x as int, out_w as int, bpp as int, k as int)
                        == y * row_stride as int + x * bpp as int + k) by (nonlinear_arith)
                        requires
                            row_stride == out_w * bpp,
                    ;
                }
                let src_idx: usize = (src_row * w + src_col) * bpp + k;
                let ghost before = r@;
                r.push(pixels[src_idx]);
                proof {
                    assert(forall|i: int| 0 <= i < before.len() ==> r@[i] == before[i]);
                    assert(r@[before.len() as int] == pixels@[src_idx as int]);
                    assert forall|yy: int, xx: int, kk: int|
                        0 <= yy < y && 0 <= xx < out_w && 0 <= kk < bpp implies r@[
                        #[trigger] flat_index(yy, xx, out_w as int, bpp as int, kk)
                    ] == pixels@[flat_index(yy * y_scale as int, xx * x_scale as int,
                        w as int, bpp as int, kk)] by {
                        assert(flat_index(yy, xx, out_w as int, bpp as int, kk) < y
                            * row_stride as int) by (nonlinear_arith)
                            requires
                                0 <= yy < y,
                                0 <= xx < out_w,
                                0 <= kk < bpp,
                                row_stride == out_w * bpp,
                                out_w >= 1,
                                bpp >= 1,
                        ;
                    }
                    assert forall|xx: int, kk: int|
                        0 <= xx < x && 0 <= kk < bpp implies r@[#[trigger] flat_index(
                        y as int, xx, out_w as int, bpp as int, kk)] == pixels@[flat_index(
                        src_row as int, xx * x_scale as int, w as int, bpp as int, kk)] by {
                        assert(flat_index(y as int, xx, out_w as int, bpp as int, kk) < y
                            * row_stride as int + x * bpp as int) by (nonlinear_arith)
                            requires
                                0 <= xx < x,
                                0 <= kk < bpp,
                                row_stride == out_w * bpp,
                                out_w >= 1,
                                bpp >= 1,
                        ;
                    }
                }
                k = k + 1;
            }
            proof {
                assert((x + 1) * bpp as int == x * bpp as int + bpp) by (nonlinear_arith);
            }
            x = x + 1;
        }
        proof {
            assert(y * row_stride as int + out_w * bpp as int == (y + 1) * row_stride as int)
                by (nonlinear_arith)
                requires
                    row_stride == out_w * bpp,
            ;
        }
        y = y + 1;
    }
    proof {
        assert(out_h * row_stride as int == out_h * (out_w * bpp)) by (nonlinear_arith)
            requires
                row_stride == out_w * bpp,
        ;
    }
    r
}

/// The fixed thumbnail size the image workload produces.
pub const THUMB_SIDE: usize = 32;

/// `out` is the nearest-neighbor 32 by 32 shrink of a decoded RGB image
/// `px` of `w` by `h` pixels.
pub open spec fn is_thumbnail_of(out: Seq<u8>, px: Seq<u8>, w: usize, h: usize) -> bool {
    &&& px.len() == w * h * 3
    &&& 1 <= w <= 65535
    &&& 1 <= h <= 65535
    &&& out.len() == 32 * (32 * 3)
    &&& forall|y: int, x: int, k: int|
        0 <= y < 32 && 0 <= x < 32 && 0 <= k < 3 ==> out[#[trigger] flat_index(y, x, 32, 3, k)]
            == px[flat_index(y * ((h / 32) as int), x * ((w / 32) as int), w as int, 3, k)]
}

/// Decode a JPEG and shrink it to a 32 by 32 RGB thumbnail, as the image
/// workload of the benchmarked programs does.  An image the decoder refuses
/// yields nothing.  Which pixel bytes the decoder produces may depend on the
/// machine, so the contract holds of whatever it returned: the output is the
/// exact shrink of some well-formed decoded image.
pub fn thumbnail(data: &Vec<u8>) -> (r: Option<Vec<u8>>)
    ensures
        match r {
            Some(out) => exists|px: Seq<u8>, w: usize, h: usize| is_thumbnail_of(out@, px, w, h),
            None => true,
        },
{
    let (pixels, w, h) = match decode_rgb(data) {
        Some(t) => t,
        None => {
            return None;
        },
    };
    proof {
        assert(w * h * 3 == w * (h * 3)) by (nonlinear_arith);
        assert(w * (h * 3) <= 65535 * (65535 * 3)) by (nonlinear_arith)
            requires
                1 <= w <= 65535,
                1 <= h <= 65535,
        ;
    }
    let out = resize_nearest(&pixels, w, h, 3, THUMB_SIDE, THUMB_SIDE);
    let result: Option<Vec<u8>> = Some(out);
    proof {
        assert(result->0 == out);
        assert(is_thumbnail_of(result->0@, pixels@, w, h));
    }
    result
}

} // verus!
