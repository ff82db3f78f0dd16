//! BT.601 studio-swing conversion between interleaved BGRA pixels and planar 4:2:0.
use vstd::prelude::*;

verus! {

/// Luma of a pixel: `((66R + 129G + 25B) >> 8) + 16`.
pub open spec fn luma_of(r: u8, g: u8, b: u8) -> u8 {
    ((66 * r + 129 * g + 25 * b) / 256 + 16) as u8
}

/// Blue-difference chroma: `((-38R - 74G + 112B) >> 8) + 128`.
pub open spec fn chroma_u(r: u8, g: u8, b: u8) -> u8 {
    ((-38 * r - 74 * g + 112 * b) / 256 + 128) as u8
}

/// Red-difference chroma: `((112R - 94G - 18B) >> 8) + 128`.
pub open spec fn chroma_v(r: u8, g: u8, b: u8) -> u8 {
    ((112 * r - 94 * g - 18 * b) / 256 + 128) as u8
}

/// A value clamped to `0..=255`.
pub open spec fn clamp_byte(x: int) -> u8 {
    if x > 255 {
        255
    } else if x < 0 {
        0
    } else {
        x as u8
    }
}

pub open spec fn red_of(y: u8, u: u8, v: u8) -> u8 {
    clamp_byte((298 * (y - 16) + 409 * (v - 128) + 128) / 256)
}

pub open spec fn green_of(y: u8, u: u8, v: u8) -> u8 {
    clamp_byte((298 * (y - 16) - 100 * (u - 128) - 208 * (v - 128) + 128) / 256)
}

pub open spec fn blue_of(y: u8, u: u8, v: u8) -> u8 {
    clamp_byte((298 * (y - 16) + 516 * (u - 128) + 128) / 256)
}

/// Luma of pixel `i` of a BGRA buffer.
pub open spec fn pixel_luma(bgra: Seq<u8>, i: int) -> u8 {
    luma_of(bgra[4 * i + 2], bgra[4 * i + 1], bgra[4 * i])
}

/// Pixel `i` of an image `w` pixels wide carries chroma: it is on an even row and in an even column.
pub open spec fn sampled(i: int, w: int) -> bool {
    (i % w) % 2 == 0 && (i / w) % 2 == 0
}

/// The luma plane of the first `n` pixels.
pub open spec fn luma_plane(bgra: Seq<u8>, n: nat) -> Seq<u8>
    decreases n,
{
    if n == 0 {
        seq![]
    } else {
        luma_plane(bgra, (n - 1) as nat).push(pixel_luma(bgra, n - 1))
    }
}

/// The chroma plane (`v` chooses which) of the first `n` pixels, in raster order of the sampled ones.
pub open spec fn chroma_plane(bgra: Seq<u8>, w: nat, n: nat, v: bool) -> Seq<u8>
    decreases n,
{
    if n == 0 {
        seq![]
    } else {
        let i = n - 1;
        let prev = chroma_plane(bgra, w, (n - 1) as nat, v);
        if sampled(i, w as int) {
            let (r, g, b) = (bgra[4 * i + 2], bgra[4 * i + 1], bgra[4 * i]);
            prev.push(if v { chroma_v(r, g, b) } else { chroma_u(r, g, b) })
        } else {
            prev
        }
    }
}

pub fn luma(r: u8, g: u8, b: u8) -> (y: u8)
    ensures
        y == luma_of(r, g, b),
{
    (((66 * r as u32 + 129 * g as u32 + 25 * b as u32) / 256) + 16) as u8
}

fn chroma(r: u8, g: u8, b: u8) -> (uv: (u8, u8))
    ensures
        uv.0 == chroma_u(r, g, b),
        uv.1 == chroma_v(r, g, b),
{
    let (r, g, b) = (r as i32, g as i32, b as i32);
    // offset by 128 * 256 so that the shift works on a non-negative value
    let u = (-38 * r - 74 * g + 112 * b + 32768) >> 8;
    let v = (112 * r - 94 * g - 18 * b + 32768) >> 8;
    proof {
        let tu = -38 * r - 74 * g + 112 * b;
        let tv = 112 * r - 94 * g - 18 * b;
        assert((tu + 32768) / 256 == tu / 256 + 128) by (nonlinear_arith);
        assert((tv + 32768) / 256 == tv / 256 + 128) by (nonlinear_arith);
        assert(0 <= tu + 32768 < 65536);
        assert(0 <= tv + 32768 < 65536);
        let (xu, xv) = ((tu + 32768) as i32, (tv + 32768) as i32);
        assert(0 <= xu ==> xu >> 8i32 == xu / 256) by (bit_vector);
        assert(0 <= xv ==> xv >> 8i32 == xv / 256) by (bit_vector);
        assert(tu / 256 + 128 <= 255 && tu / 256 + 128 >= 0) by (nonlinear_arith)
            requires
                -28560 <= tu <= 28560,
        ;
        assert(tv / 256 + 128 <= 255 && tv / 256 + 128 >= 0) by (nonlinear_arith)
            requires
                -28560 <= tv <= 28560,
        ;
    }
    (u as u8, v as u8)
}

/// A value clamped to a byte.
pub fn as_byte(x: i32) -> (r: u8)
    ensures
        r == clamp_byte(x as int),
{
    if x > 255 {
        return 255;
    }
    if x < 0 {
        return 0;
    }
    x as u8
}

/// `x >> 8` clamped to a byte.
fn shifted_byte(x: i32) -> (r: u8)
    ensures
        r == clamp_byte(x as int / 256),
{
    if x < 0 {
        assert(x as int / 256 < 0) by (nonlinear_arith)
            requires
                x < 0,
        ;
        return 0;
    }
    assert(0 <= x ==> x >> 8i32 == x / 256) by (bit_vector);
    as_byte(x >> 8)
}

/// BGRA bytes of one YUV sample; alpha is opaque.
pub fn yuv_to_bgra(y: u8, u: u8, v: u8) -> (px: [u8; 4])
    ensures
        px@ == seq![blue_of(y, u, v), green_of(y, u, v), red_of(y, u, v), 255u8],
{
    let c = y as i32 - 16;
    let d = u as i32 - 128;
    let e = v as i32 - 128;
    let r = shifted_byte(298 * c + 409 * e + 128);
    let g = shifted_byte(298 * c - 100 * d - 208 * e + 128);
    let b = shifted_byte(298 * c + 516 * d + 128);
    let px = [b, g, r, 0xff];
    assert(px@ =~= seq![blue_of(y, u, v), green_of(y, u, v), red_of(y, u, v), 255u8]);
    px
}

proof fn lemma_next_pixel(i: int, w: int, x: int, line: int)
    requires
        w > 0,
        i >= 0,
        x == i % w,
        line == i / w,
    ensures
        x + 1 < w ==> (i + 1) % w == x + 1 && (i + 1) / w == line,
        x + 1 >= w ==> (i + 1) % w == 0 && (i + 1) / w == line + 1,
{
    vstd::arithmetic::div_mod::lemma_fundamental_div_mod(i, w);
    vstd::arithmetic::div_mod::lemma_mod_pos_bound(i, w);
    assert(w * line + w == (line + 1) * w) by (nonlinear_arith);
    if x + 1 < w {
        vstd::arithmetic::div_mod::lemma_fundamental_div_mod_converse(i + 1, w, line, x + 1);
    } else {
        vstd::arithmetic::div_mod::lemma_fundamental_div_mod_converse(i + 1, w, line + 1, 0);
    }
}

/// Planar 4:2:0 image: full-size luma, and chroma at every second pixel of every second row.
pub struct Yuv420 {
    pub y: Vec<u8>,
    pub u: Vec<u8>,
    pub v: Vec<u8>,
}

/// Converts `width × height` BGRA pixels to planar 4:2:0.
pub fn to_yuv420(bgra: &[u8], width: usize, height: usize) -> (r: Yuv420)
    requires
        width > 0,
        4 * width * height <= bgra@.len(),
    ensures
        r.y@ == luma_plane(bgra@, (width * height) as nat),
        r.u@ == chroma_plane(bgra@, width as nat, (width * height) as nat, false),
        r.v@ == chroma_plane(bgra@, width as nat, (width * height) as nat, true),
{
    let total = bgra.len();
    proof {
        assert(4 * width * height == 4 * (width * height)) by (nonlinear_arith);
    }
    let n = width * height;
    let mut ys: Vec<u8> = Vec::new();
    let mut us: Vec<u8> = Vec::new();
    let mut vs: Vec<u8> = Vec::new();
    let mut x: usize = 0;
    let mut line: usize = 0;
    let mut i: usize = 0;
    while i < n
        invariant
            width > 0,
            n == width * height,
            4 * n <= bgra@.len(),
            total == bgra@.len(),
            i <= n,
            x < width,
            x as int == i as int % width as int,
            line as int == i as int / width as int,
            ys@ == luma_plane(bgra@, i as nat),
            us@ == chroma_plane(bgra@, width as nat, i as nat, false),
            vs@ == chroma_plane(bgra@, width as nat, i as nat, true),
        decreases n - i,
    {
        let r = bgra[4 * i + 2];
        let g = bgra[4 * i + 1];
        let b = bgra[4 * i];
        ys.push(luma(r, g, b));
        if line % 2 == 0 && x % 2 == 0 {
            let (u, v) = chroma(r, g, b);
            us.push(u);
            vs.push(v);
        }
        proof {
            lemma_next_pixel(i as int, width as int, x as int, line as int);
        }
        i = i + 1;
        if x + 1 < width {
            x = x + 1;
        } else {
            x = 0;
            line = line + 1;
        }
    }
    Yuv420 { y: ys, u: us, v: vs }
}

/// One row of BGRA output read from 4:2:0 planes with the given strides.
pub open spec fn row_bgra(
    y: Seq<u8>, ys: nat, u: Seq<u8>, us: nat, v: Seq<u8>, vs: nat, line: nat, cols: nat,
) -> Seq<u8>
    decreases cols,
{
    if cols == 0 {
        seq![]
    } else {
        let c = cols - 1;
        let yy = y[line * ys + c];
        let uu = u[(line / 2) * us + c / 2];
        let vv = v[(line / 2) * vs + c / 2];
        row_bgra(y, ys, u, us, v, vs, line, (cols - 1) as nat)
            + seq![blue_of(yy, uu, vv), green_of(yy, uu, vv), red_of(yy, uu, vv), 255u8]
    }
}

/// The first `lines` rows of BGRA output, each `width` pixels.
pub open spec fn image_bgra(
    y: Seq<u8>, ys: nat, u: Seq<u8>, us: nat, v: Seq<u8>, vs: nat, width: nat, lines: nat,
) -> Seq<u8>
    decreases lines,
{
    if lines == 0 {
        seq![]
    } else {
        image_bgra(y, ys, u, us, v, vs, width, (lines - 1) as nat)
            + row_bgra(y, ys, u, us, v, vs, (lines - 1) as nat, width)
    }
}

/// Converts 4:2:0 planes with the given line strides to `width × height` BGRA pixels.
pub fn to_bgra(
    y: &[u8], y_stride: usize, u: &[u8], u_stride: usize, v: &[u8], v_stride: usize, width: usize, height: usize,
) -> (r: Vec<u8>)
    requires
        width <= y_stride,
        (width + 1) / 2 <= u_stride,
        (width + 1) / 2 <= v_stride,
        height * y_stride <= y@.len(),
        ((height + 1) / 2) * u_stride <= u@.len(),
        ((height + 1) / 2) * v_stride <= v@.len(),
    ensures
        r@ == image_bgra(y@, y_stride as nat, u@, u_stride as nat, v@, v_stride as nat, width as nat, height as nat),
{
    let (ylen, ulen, vlen) = (y.len(), u.len(), v.len());
    let mut out: Vec<u8> = Vec::new();
    let mut line: usize = 0;
    while line < height
        invariant
            line <= height,
            ylen == y@.len(),
            ulen == u@.len(),
            vlen == v@.len(),
            width <= y_stride,
            (width + 1) / 2 <= u_stride,
            (width + 1) / 2 <= v_stride,
            height * y_stride <= y@.len(),
            ((height + 1) / 2) * u_stride <= u@.len(),
            ((height + 1) / 2) * v_stride <= v@.len(),
            out@ == image_bgra(y@, y_stride as nat, u@, u_stride as nat, v@, v_stride as nat, width as nat, line as nat),
        decreases height - line,
    {
        proof {
            assert((line + 1) * y_stride <= height * y_stride) by (nonlinear_arith)
                requires
                    line < height,
            ;
            assert((line / 2 + 1) * u_stride <= ((height + 1) / 2) * u_stride) by (nonlinear_arith)
                requires
                    line < height,
            ;
            assert((line / 2 + 1) * v_stride <= ((height + 1) / 2) * v_stride) by (nonlinear_arith)
                requires
                    line < height,
            ;
            assert(line * y_stride + y_stride == (line + 1) * y_stride) by (nonlinear_arith);
            assert(line * y_stride <= (line + 1) * y_stride) by (nonlinear_arith);
            assert((line / 2) * u_stride <= (line / 2 + 1) * u_stride) by (nonlinear_arith);
            assert((line / 2) * v_stride <= (line / 2 + 1) * v_stride) by (nonlinear_arith);
            assert((line / 2) * u_stride + u_stride == (line / 2 + 1) * u_stride) by (nonlinear_arith);
            assert((line / 2) * v_stride + v_stride == (line / 2 + 1) * v_stride) by (nonlinear_arith);
        }
        let y_row = line * y_stride;
        let u_row = (line / 2) * u_stride;
        let v_row = (line / 2) * v_stride;
        let ghost start = out@;
        let mut col: usize = 0;
        while col < width
            invariant
                col <= width,
                ylen == y@.len(),
                ulen == u@.len(),
                vlen == v@.len(),
                width <= y_stride,
                (width + 1) / 2 <= u_stride,
                (width + 1) / 2 <= v_stride,
                y_row + y_stride <= y@.len(),
                u_row + u_stride <= u@.len(),
                v_row + v_stride <= v@.len(),
                y_row == line * y_stride,
                u_row == (line / 2) * u_stride,
                v_row == (line / 2) * v_stride,
                out@ == start + row_bgra(y@, y_stride as nat, u@, u_stride as nat, v@, v_stride as nat, line as nat, col as nat),
            decreases width - col,
        {
            let px = yuv_to_bgra(y[y_row + col], u[u_row + col / 2], v[v_row + col / 2]);
            out.push(px[0]);
            out.push(px[1]);
            out.push(px[2]);
            out.push(px[3]);
            col = col + 1;
            proof {
                assert(out@ =~= start + row_bgra(y@, y_stride as nat, u@, u_stride as nat, v@, v_stride as nat, line as nat, col as nat));
            }
        }
        line = line + 1;
    }
    out
}

} // verus!
