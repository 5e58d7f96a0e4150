//! Screenshot pixels: X ZPixmap scanlines to packed RGB, and RGB to PNG.
use vstd::prelude::*;

use vstd::arithmetic::div_mod::lemma_fundamental_div_mod_converse;

use crate::cua::{is_tool, CuaError};
use crate::num::{dec_text, nat_string};
use crate::text::{extend_str, string_of};

verus! {

/// Byte `j` of the RGB image converted from packed BGRA `src`: the pixel
/// `j / 3`, channel `j % 3`, red first.
pub open spec fn bgra_byte(src: Seq<u8>, j: int) -> u8 {
    src[4 * (j / 3) + 2 - j % 3]
}

proof fn lemma_split3(i: int, c: int)
    requires
        0 <= c < 3,
    ensures
        (3 * i + c) / 3 == i,
        (3 * i + c) % 3 == c,
{
    lemma_fundamental_div_mod_converse(3 * i + c, 3, i, c);
}

/// Convert `dst.len() / 3` packed BGRA pixels of `src` to RGB; the caller
/// hands slices of exactly matching size.
pub fn bgra_to_rgb_unchecked(src: &[u8], dst: &mut [u8])
    requires
        old(dst)@.len() % 3 == 0,
        src@.len() == old(dst)@.len() / 3 * 4,
    ensures
        final(dst)@.len() == old(dst)@.len(),
        forall|j: int| 0 <= j < final(dst)@.len() ==> #[trigger] final(dst)@[j] == bgra_byte(src@, j),
{
    let n = dst.len() / 3;
    let sl = src.len();
    let dl = dst.len();
    let mut i: usize = 0;
    while i < n
        invariant
            sl == src@.len(),
            dl == dst@.len(),
            n == dst@.len() / 3,
            dst@.len() % 3 == 0,
            dst@.len() == old(dst)@.len(),
            src@.len() == n * 4,
            i <= n,
            forall|j: int| 0 <= j < 3 * i ==> #[trigger] dst@[j] == bgra_byte(src@, j),
        decreases n - i,
    {
        let o = 3 * i;
        let b = 4 * i;
        proof {
            lemma_split3(i as int, 0);
            lemma_split3(i as int, 1);
            lemma_split3(i as int, 2);
        }
        dst[o] = src[b + 2];
        dst[o + 1] = src[b + 1];
        dst[o + 2] = src[b];
        i = i + 1;
    }
}

/// Convert as many whole BGRA pixels as both buffers hold; bytes of `dst`
/// past them stay as they were.
pub fn bgra_to_rgb(src: &[u8], dst: &mut [u8])
    ensures
        final(dst)@.len() == old(dst)@.len(),
        ({
            let n = if src@.len() / 4 < old(dst)@.len() / 3 {
                src@.len() / 4
            } else {
                old(dst)@.len() / 3
            };
            &&& forall|j: int| 0 <= j < 3 * n ==> #[trigger] final(dst)@[j] == bgra_byte(src@, j)
            &&& forall|j: int| 3 * n <= j < old(dst)@.len() ==> #[trigger] final(dst)@[j] == old(
                dst,
            )@[j]
        }),
{
    let n = if src.len() / 4 < dst.len() / 3 {
        src.len() / 4
    } else {
        dst.len() / 3
    };
    let sl = src.len();
    let dl = dst.len();
    let mut i: usize = 0;
    while i < n
        invariant
            sl == src@.len(),
            dl == dst@.len(),
            n <= src@.len() / 4,
            n <= old(dst)@.len() / 3,
            dst@.len() == old(dst)@.len(),
            i <= n,
            forall|j: int| 0 <= j < 3 * i ==> #[trigger] dst@[j] == bgra_byte(src@, j),
            forall|j: int| 3 * i <= j < dst@.len() ==> #[trigger] dst@[j] == old(dst)@[j],
        decreases n - i,
    {
        let o = 3 * i;
        let b = 4 * i;
        proof {
            lemma_split3(i as int, 0);
            lemma_split3(i as int, 1);
            lemma_split3(i as int, 2);
        }
        dst[o] = src[b + 2];
        dst[o + 1] = src[b + 1];
        dst[o + 2] = src[b];
        i = i + 1;
    }
}

} // verus!

verus! {

/// Xvfb's default TrueColor masks: red `0xff0000`, green `0xff00`, blue
/// `0xff`.
pub open spec fn xvfb_masks(r: u32, g: u32, b: u32) -> bool {
    r == 0x00ff_0000 && g == 0x0000_ff00 && b == 0x0000_00ff
}

/// `usize::saturating_mul`.
pub open spec fn sat_mul(a: int, b: int) -> int {
    if a * b > usize::MAX {
        usize::MAX as int
    } else {
        a * b
    }
}

/// How a ZPixmap buffer gets converted, or why it cannot be.
pub enum ZPlan {
    Fail(Seq<char>),
    /// A zero-sized image: nothing to write.
    Empty,
    /// 32 bpp little-endian with Xvfb's masks: bytes 2, 1, 0 of each pixel.
    Bgra,
    /// Any other 24 or 32 bpp layout: each channel through its mask.
    Unpack,
}

pub open spec fn zplan(
    data_len: int,
    w: int,
    h: int,
    stride: int,
    lsb: bool,
    bpp: u8,
    rm: u32,
    gm: u32,
    bm: u32,
    rgb_len: int,
) -> ZPlan {
    if w * h * 3 > usize::MAX {
        ZPlan::Fail("screenshot dimensions overflow"@)
    } else if rgb_len < w * h * 3 {
        ZPlan::Fail("rgb buffer too small"@)
    } else if h == 0 || w == 0 {
        ZPlan::Empty
    } else if stride < sat_mul(w, (bpp + 7) / 8) || data_len < sat_mul(stride, h) {
        ZPlan::Fail("GetImage payload shorter than geometry"@)
    } else if bpp == 32 && lsb && xvfb_masks(rm, gm, bm) {
        ZPlan::Bgra
    } else if bpp != 32 && bpp != 24 {
        ZPlan::Fail("unsupported screenshot depth "@ + dec_text(bpp as nat) + " bpp"@)
    } else {
        ZPlan::Unpack
    }
}

/// The pixel word at byte `off`, in the scanline's byte order.
pub open spec fn pixel_at(data: Seq<u8>, off: int, bpp: u8, lsb: bool) -> u32 {
    if bpp == 32 {
        if lsb {
            (data[off] + data[off + 1] * 256 + data[off + 2] * 65536 + data[off + 3]
                * 16777216) as u32
        } else {
            (data[off + 3] + data[off + 2] * 256 + data[off + 1] * 65536 + data[off]
                * 16777216) as u32
        }
    } else {
        if lsb {
            (data[off] + data[off + 1] * 256 + data[off + 2] * 65536) as u32
        } else {
            (data[off + 2] + data[off + 1] * 256 + data[off] * 65536) as u32
        }
    }
}

/// One channel of a pixel: its masked bits shifted down to bit 0.
pub open spec fn channel(p: u32, mask: u32) -> u8 {
    ((p & mask) >> mask.trailing_zeros()) as u8
}

pub open spec fn mask_of(c: int, r: u32, g: u32, b: u32) -> u32 {
    if c == 0 {
        r
    } else if c == 1 {
        g
    } else {
        b
    }
}

/// Byte `j` of the RGB image: pixel `j / 3` counted row by row, channel
/// `j % 3`.
pub open spec fn zbyte(
    data: Seq<u8>,
    w: int,
    stride: int,
    bpp: u8,
    lsb: bool,
    rm: u32,
    gm: u32,
    bm: u32,
    bgra: bool,
    j: int,
) -> u8 {
    let p = j / 3;
    let c = j % 3;
    let y = p / w;
    let x = p % w;
    if bgra {
        data[y * stride + 4 * x + 2 - c]
    } else {
        channel(pixel_at(data, y * stride + x * (bpp / 8), bpp, lsb), mask_of(c, rm, gm, bm))
    }
}

proof fn lemma_flat(w: int, y: int, x: int, c: int)
    requires
        0 <= x < w,
        0 <= y,
        0 <= c < 3,
    ensures
        (3 * (y * w + x) + c) / 3 == y * w + x,
        (3 * (y * w + x) + c) % 3 == c,
        (y * w + x) / w == y,
        (y * w + x) % w == x,
{
    lemma_fundamental_div_mod_converse(3 * (y * w + x) + c, 3, y * w + x, c);
    assert(y * w + x == y * w + x);
    vstd::arithmetic::mul::lemma_mul_is_commutative(y, w);
    lemma_fundamental_div_mod_converse(y * w + x, w, y, x);
}

/// In the RGB image, pixel `(x, y)` takes the three bytes from `3 * (y * w + x)`
/// on: red, then green, then blue. Unpacked, red is the pixel's bits under
/// `red_mask` shifted down by the mask's trailing zeros, green those under
/// `green_mask`, blue those under `blue_mask`; from BGRA memory, red is byte 2
/// of the pixel, green byte 1 and blue byte 0.
pub proof fn law_rgb_bytes_take_their_own_channel(
    data: Seq<u8>,
    w: int,
    stride: int,
    bpp: u8,
    lsb: bool,
    red_mask: u32,
    green_mask: u32,
    blue_mask: u32,
    x: int,
    y: int,
)
    requires
        0 <= x < w,
        0 <= y,
    ensures
        ({
            let p = y * w + x;
            let px = pixel_at(data, y * stride + x * (bpp / 8), bpp, lsb);
            &&& zbyte(data, w, stride, bpp, lsb, red_mask, green_mask, blue_mask, false, 3 * p)
                == ((px & red_mask) >> red_mask.trailing_zeros()) as u8
            &&& zbyte(data, w, stride, bpp, lsb, red_mask, green_mask, blue_mask, false, 3 * p + 1)
                == ((px & green_mask) >> green_mask.trailing_zeros()) as u8
            &&& zbyte(data, w, stride, bpp, lsb, red_mask, green_mask, blue_mask, false, 3 * p + 2)
                == ((px & blue_mask) >> blue_mask.trailing_zeros()) as u8
            &&& zbyte(data, w, stride, bpp, lsb, red_mask, green_mask, blue_mask, true, 3 * p)
                == data[y * stride + 4 * x + 2]
            &&& zbyte(data, w, stride, bpp, lsb, red_mask, green_mask, blue_mask, true, 3 * p + 1)
                == data[y * stride + 4 * x + 1]
            &&& zbyte(data, w, stride, bpp, lsb, red_mask, green_mask, blue_mask, true, 3 * p + 2)
                == data[y * stride + 4 * x]
        }),
        ({
            let p = y * w + x;
            &&& bgra_byte(data, 3 * p) == data[4 * p + 2]
            &&& bgra_byte(data, 3 * p + 1) == data[4 * p + 1]
            &&& bgra_byte(data, 3 * p + 2) == data[4 * p]
        }),
{
    lemma_flat(w, y, x, 0);
    lemma_flat(w, y, x, 1);
    lemma_flat(w, y, x, 2);
}

proof fn lemma_row_fits(y: int, h: int, stride: int, w: int, bpb: int, x: int)
    requires
        0 <= y < h,
        0 <= x < w,
        w * bpb <= stride,
        0 < bpb,
    ensures
        y * stride + x * bpb + bpb <= stride * h,
        0 <= y * stride,
        0 <= x * bpb,
{
    assert(x * bpb + bpb <= w * bpb) by (nonlinear_arith)
        requires
            x < w,
            0 < bpb,
    ;
    assert(y * stride + stride <= stride * h) by (nonlinear_arith)
        requires
            y < h,
            0 <= stride,
    ;
    assert(0 <= y * stride) by (nonlinear_arith)
        requires
            0 <= y,
            0 <= stride,
    ;
    assert(0 <= x * bpb) by (nonlinear_arith)
        requires
            0 <= x,
            0 < bpb,
    ;
}

proof fn lemma_pixel_index(w: int, h: int, y: int, x: int)
    requires
        0 <= y < h,
        0 <= x < w,
    ensures
        3 * (y * w + x) + 3 <= 3 * w * h,
        0 <= y * w + x,
{
    assert(3 * w * h == 3 * (w * h)) by (nonlinear_arith);
    assert(y * w + x + 1 <= w * h) by (nonlinear_arith)
        requires
            0 <= y < h,
            0 <= x < w,
    ;
    assert(0 <= y * w) by (nonlinear_arith)
        requires
            0 <= y,
            0 <= w,
    ;
}

fn load_pixel(data: &[u8], off: usize, bpp: u8, lsb: bool) -> (p: u32)
    requires
        bpp == 32 || bpp == 24,
        off + (bpp / 8) as int <= data@.len(),
    ensures
        p == pixel_at(data@, off as int, bpp, lsb),
{
    let a = data[off] as u32;
    let b = data[off + 1] as u32;
    let c = data[off + 2] as u32;
    if bpp == 32 {
        let d = data[off + 3] as u32;
        if lsb {
            a + b * 256 + c * 65536 + d * 16777216
        } else {
            d + c * 256 + b * 65536 + a * 16777216
        }
    } else {
        if lsb {
            a + b * 256 + c * 65536
        } else {
            c + b * 256 + a * 65536
        }
    }
}

/// Unpack a ZPixmap image of 24 or 32 bits per pixel into packed RGB.
///
/// `stride` is the bytes per scanline. The first `width * height * 3` bytes
/// of `rgb` receive the image; the rest keep their value.
pub fn zpixmap_to_rgb(
    data: &[u8],
    width: u32,
    height: u32,
    stride: usize,
    lsb_first: bool,
    bits_per_pixel: u8,
    red_mask: u32,
    green_mask: u32,
    blue_mask: u32,
    rgb: &mut [u8],
) -> (r: Result<(), CuaError>)
    requires
        data@.len() <= isize::MAX,
        zplan(
            data@.len() as int,
            width as int,
            height as int,
            stride as int,
            lsb_first,
            bits_per_pixel,
            red_mask,
            green_mask,
            blue_mask,
            old(rgb)@.len() as int,
        ) == ZPlan::Unpack ==> red_mask != 0 && green_mask != 0 && blue_mask != 0,
    ensures
        final(rgb)@.len() == old(rgb)@.len(),
        ({
            let w = width as int;
            let h = height as int;
            let plan = zplan(
                data@.len() as int,
                w,
                h,
                stride as int,
                lsb_first,
                bits_per_pixel,
                red_mask,
                green_mask,
                blue_mask,
                old(rgb)@.len() as int,
            );
            match plan {
                ZPlan::Fail(m) => r is Err && is_tool(r->Err_0, m) && final(rgb)@ == old(rgb)@,
                ZPlan::Empty => r is Ok && final(rgb)@ == old(rgb)@,
                _ => r is Ok && (forall|j: int|
                    0 <= j < 3 * w * h ==> #[trigger] final(rgb)@[j] == zbyte(
                        data@,
                        w,
                        stride as int,
                        bits_per_pixel,
                        lsb_first,
                        red_mask,
                        green_mask,
                        blue_mask,
                        plan is Bgra,
                        j,
                    )) && (forall|j: int|
                    3 * w * h <= j < old(rgb)@.len() ==> #[trigger] final(rgb)@[j] == old(
                        rgb,
                    )@[j]),
            }
        }),
{
    let w = width as usize;
    let h = height as usize;
    assert((width as int) * (height as int) * 3 <= 0xffff_ffff * 0xffff_ffff * 3) by (
    nonlinear_arith)
        requires
            width <= 0xffff_ffff,
            height <= 0xffff_ffff,
    ;
    let wide: u128 = (width as u128) * (height as u128) * 3;
    if wide > usize::MAX as u128 {
        return Err(CuaError::Tool("screenshot dimensions overflow".to_owned()));
    }
    let needed: usize = wide as usize;
    assert(needed == 3 * w * h) by (nonlinear_arith)
        requires
            needed == (width as int) * (height as int) * 3,
            w == width,
            h == height,
    ;
    if rgb.len() < needed {
        return Err(CuaError::Tool("rgb buffer too small".to_owned()));
    }
    if h == 0 || w == 0 {
        return Ok(());
    }
    let bpb_up: usize = ((bits_per_pixel as usize) + 7) / 8;
    assert((w as int) * (bpb_up as int) <= 0xffff_ffff * 32) by (nonlinear_arith)
        requires
            w <= 0xffff_ffff,
            bpb_up <= 32,
    ;
    let row_need: usize = if (w as u128) * (bpb_up as u128) > usize::MAX as u128 {
        usize::MAX
    } else {
        w * bpb_up
    };
    assert((stride as int) * (h as int) <= 0xffff_ffff_ffff_ffff * 0xffff_ffff) by (
    nonlinear_arith)
        requires
            stride <= 0xffff_ffff_ffff_ffff,
            h <= 0xffff_ffff,
    ;
    let all_need: usize = if (stride as u128) * (h as u128) > usize::MAX as u128 {
        usize::MAX
    } else {
        stride * h
    };
    if stride < row_need || data.len() < all_need {
        return Err(CuaError::Tool("GetImage payload shorter than geometry".to_owned()));
    }
    let bgra = bits_per_pixel == 32 && lsb_first && red_mask == 0x00ff_0000 && green_mask
        == 0x0000_ff00 && blue_mask == 0x0000_00ff;
    if !bgra && bits_per_pixel != 32 && bits_per_pixel != 24 {
        let mut v: Vec<char> = Vec::new();
        extend_str(&mut v, "unsupported screenshot depth ");
        extend_str(&mut v, nat_string(bits_per_pixel as u64).as_str());
        extend_str(&mut v, " bpp");
        return Err(CuaError::Tool(string_of(v.as_slice())));
    }
    let bpb: usize = (bits_per_pixel / 8) as usize;
    let mut r_shift: u32 = 0;
    let mut g_shift: u32 = 0;
    let mut b_shift: u32 = 0;
    if !bgra {
        proof {
            vstd::std_specs::bits::axiom_u32_trailing_zeros(red_mask);
            vstd::std_specs::bits::axiom_u32_trailing_zeros(green_mask);
            vstd::std_specs::bits::axiom_u32_trailing_zeros(blue_mask);
        }
        r_shift = red_mask.trailing_zeros();
        g_shift = green_mask.trailing_zeros();
        b_shift = blue_mask.trailing_zeros();
    }
    proof {
        assert(bpb == bpb_up);
        if (stride as int) * (h as int) > usize::MAX {
            assert(all_need == usize::MAX);
            assert(false);
        }
        if (w as int) * (bpb_up as int) > usize::MAX {
            assert(stride == usize::MAX);
            assert((stride as int) * (h as int) >= stride as int) by (nonlinear_arith)
                requires
                    h >= 1,
                    stride >= 0,
            ;
            assert(false);
        }
    }
    assert(stride * h <= data@.len());
    assert(w * bpb <= stride);
    let ghost d = data@;
    let ghost plan_bgra = bgra;
    let mut y: usize = 0;
    while y < h
        invariant
            w == width,
            h == height,
            needed == 3 * w * h,
            needed <= rgb@.len(),
            rgb@.len() == old(rgb)@.len(),
            d == data@,
            data@.len() <= isize::MAX,
            w > 0,
            h > 0,
            stride * h <= data@.len(),
            w * bpb <= stride,
            bpb == bits_per_pixel / 8,
            bpb == 3 || bpb == 4,
            bits_per_pixel == 32 || bits_per_pixel == 24,
            bgra ==> bits_per_pixel == 32,
            !bgra ==> r_shift == red_mask.trailing_zeros() && g_shift
                == green_mask.trailing_zeros() && b_shift == blue_mask.trailing_zeros(),
            !bgra ==> r_shift < 32 && g_shift < 32 && b_shift < 32,
            y <= h,
            forall|j: int|
                0 <= j < 3 * (y * w) ==> #[trigger] rgb@[j] == zbyte(
                    d,
                    w as int,
                    stride as int,
                    bits_per_pixel,
                    lsb_first,
                    red_mask,
                    green_mask,
                    blue_mask,
                    bgra,
                    j,
                ),
            forall|j: int| needed <= j < rgb@.len() ==> #[trigger] rgb@[j] == old(rgb)@[j],
        decreases h - y,
    {
        let mut x: usize = 0;
        while x < w
            invariant
                w == width,
                h == height,
                needed == 3 * w * h,
                needed <= rgb@.len(),
                rgb@.len() == old(rgb)@.len(),
                d == data@,
                data@.len() <= isize::MAX,
                w > 0,
                h > 0,
                stride * h <= data@.len(),
                w * bpb <= stride,
                bpb == bits_per_pixel / 8,
                bpb == 3 || bpb == 4,
                bits_per_pixel == 32 || bits_per_pixel == 24,
                bgra ==> bits_per_pixel == 32,
                !bgra ==> r_shift == red_mask.trailing_zeros() && g_shift
                    == green_mask.trailing_zeros() && b_shift == blue_mask.trailing_zeros(),
                !bgra ==> r_shift < 32 && g_shift < 32 && b_shift < 32,
                y < h,
                x <= w,
                forall|j: int|
                    0 <= j < 3 * (y * w + x) ==> #[trigger] rgb@[j] == zbyte(
                        d,
                        w as int,
                        stride as int,
                        bits_per_pixel,
                        lsb_first,
                        red_mask,
                        green_mask,
                        blue_mask,
                        bgra,
                        j,
                    ),
                forall|j: int| needed <= j < rgb@.len() ==> #[trigger] rgb@[j] == old(rgb)@[j],
            decreases w - x,
        {
            proof {
                lemma_row_fits(y as int, h as int, stride as int, w as int, bpb as int, x as int);
                lemma_pixel_index(w as int, h as int, y as int, x as int);
                lemma_flat(w as int, y as int, x as int, 0);
                lemma_flat(w as int, y as int, x as int, 1);
                lemma_flat(w as int, y as int, x as int, 2);
            }
            let off: usize = y * stride + x * bpb;
            let o: usize = 3 * (y * w + x);
            if bgra {
                rgb[o] = data[off + 2];
                rgb[o + 1] = data[off + 1];
                rgb[o + 2] = data[off];
            } else {
                let pixel = load_pixel(data, off, bits_per_pixel, lsb_first);
                rgb[o] = ((pixel & red_mask) >> r_shift) as u8;
                rgb[o + 1] = ((pixel & green_mask) >> g_shift) as u8;
                rgb[o + 2] = ((pixel & blue_mask) >> b_shift) as u8;
            }
            x = x + 1;
        }
        y = y + 1;
        assert(3 * ((y - 1) * w + w) == 3 * (y * w)) by (nonlinear_arith);
    }
    assert(3 * (h * w) == 3 * w * h) by (nonlinear_arith);
    Ok(())
}

} // verus!

verus! {

/// The eight bytes every PNG file starts with.
pub open spec fn png_signature() -> Seq<u8> {
    seq![137u8, 80u8, 78u8, 71u8, 13u8, 10u8, 26u8, 10u8]
}

#[verifier::external_type_specification]
#[verifier::external_body]
pub struct ExPngEncodingError(png::EncodingError);

/// Which part of PNG encoding failed.
#[derive(Debug, Clone, Copy, PartialEq, Eq, Structural)]
pub enum PngStage {
    Header,
    Data,
    Finish,
}

/// The bytes the `png` crate writes for an 8-bit RGB image of the given size
/// with fast compression and the Sub filter, or `None` when it refuses it.
pub uninterp spec fn png_rgb(width: u32, height: u32, rgb: Seq<u8>) -> Option<Seq<u8>>;

/// The frame of a PNG the `png` crate writes for one image: the signature,
/// then the `IHDR` chunk (length 13, type, width and height big-endian),
/// and at the end the empty `IEND` chunk with its fixed CRC.
pub open spec fn png_shape(png: Seq<u8>, width: u32, height: u32) -> bool {
    &&& png.len() >= 45
    &&& png.take(8) == png_signature()
    &&& png.subrange(8, 16) == seq![0u8, 0u8, 0u8, 13u8, 73u8, 72u8, 68u8, 82u8]
    &&& png.subrange(16, 20) == crate::egress::protocol::be_bytes(width)
    &&& png.subrange(20, 24) == crate::egress::protocol::be_bytes(height)
    &&& png.skip(png.len() - 12) == seq![
        0u8,
        0u8,
        0u8,
        0u8,
        73u8,
        69u8,
        78u8,
        68u8,
        0xaeu8,
        0x42u8,
        0x60u8,
        0x82u8,
    ]
}

/// The sizes the `png` crate encodes without overflowing `usize`: it
/// multiplies the filtered row length (`width * 3 + 1`) by the height, and
/// bounds the stored fallback a little above that.
pub open spec fn png_fits(width: u32, height: u32) -> bool {
    (width as int * 3 + 1) * (height as int) * 2 <= usize::MAX
}

/// `png::Encoder` set to 8-bit RGB, `Compression::Fast` and `Filter::Sub`,
/// then `write_header`, `write_image_data` and `finish`, appending to `out`.
/// On success what was appended is `png_rgb` of the arguments, framed as
/// `png_shape` says (the header writes the signature and `IHDR` first,
/// `finish` writes `IEND` last); a zero width or
/// height is refused at the header, and image data of another length than
/// `width * height * 3` at the data step. Otherwise encoding succeeds:
/// writing to a `Vec` cannot fail, the colour type and depth are a valid
/// pair, and a single image completes the sequence. The size products the
/// crate computes without checks are kept in range by `requires`.
#[verifier::external_body]
fn png_encode(width: u32, height: u32, rgb: &[u8], out: &mut Vec<u8>) -> (r: Result<
    (),
    (PngStage, png::EncodingError),
>)
    requires
        png_fits(width, height),
    ensures
        r is Ok ==> final(out)@.take(old(out)@.len() as int) == old(out)@,
        r is Ok ==> png_rgb(width, height, rgb@) == Some(final(out)@.skip(old(out)@.len() as int)),
        r is Ok ==> png_shape(final(out)@.skip(old(out)@.len() as int), width, height),
        r is Ok ==> final(out)@.len() >= old(out)@.len() + 45,
        r is Err ==> png_rgb(width, height, rgb@) is None,
        width == 0 || height == 0 ==> r matches Err((PngStage::Header, _)),
        width > 0 && height > 0 && rgb@.len() != (width as int) * (height as int) * 3 ==> r matches Err(
            (PngStage::Data, _),
        ),
        width > 0 && height > 0 && rgb@.len() == (width as int) * (height as int) * 3 ==> r is Ok,
{
    let mut encoder = png::Encoder::new(out, width, height);
    encoder.set_color(png::ColorType::Rgb);
    encoder.set_depth(png::BitDepth::Eight);
    encoder.set_compression(png::Compression::Fast);
    encoder.set_filter(png::Filter::Sub);
    let mut writer = encoder.write_header().map_err(|e| (PngStage::Header, e))?;
    writer.write_image_data(rgb).map_err(|e| (PngStage::Data, e))?;
    writer.finish().map_err(|e| (PngStage::Finish, e))
}

/// Whether the encoder's size products stay in range (`png_fits`).
fn png_size_ok(width: u32, height: u32) -> (b: bool)
    ensures
        b == png_fits(width, height),
{
    assert((width as int * 3 + 1) * (height as int) * 2 <= (0xffff_ffffint * 3 + 1) * 0xffff_ffffint
        * 2) by (nonlinear_arith)
        requires
            width <= 0xffff_ffff,
            height <= 0xffff_ffff,
    ;
    let wide: u128 = ((width as u128) * 3 + 1) * (height as u128) * 2;
    wide <= usize::MAX as u128
}

/// The `Display` text of a PNG encoding error.
#[verifier::external_body]
fn png_error_text(e: &png::EncodingError) -> (s: String) {
    e.to_string()
}

/// Encode `rgb` as PNG onto the end of `out`. A size whose encoding the
/// `png` crate cannot size in `usize` is refused.
pub fn encode_png_rgb_into(width: u32, height: u32, rgb: &[u8], out: &mut Vec<u8>) -> (r: Result<
    (),
    CuaError,
>)
    ensures
        !png_fits(width, height) ==> r is Err && is_tool(r->Err_0, "png dimensions overflow"@)
            && final(out)@ == old(out)@,
        png_fits(width, height) ==> (r is Ok <==> png_rgb(width, height, rgb@) is Some),
        png_fits(width, height) && width > 0 && height > 0 && rgb@.len() == (width as int) * (
        height as int) * 3 ==> r is Ok,
        r is Ok ==> final(out)@ == old(out)@ + png_rgb(width, height, rgb@)->Some_0,
        r is Ok ==> png_shape(png_rgb(width, height, rgb@)->Some_0, width, height),
        r is Err ==> (r->Err_0 matches CuaError::Tool(_)),
{
    if !png_size_ok(width, height) {
        return Err(CuaError::Tool("png dimensions overflow".to_owned()));
    }
    match png_encode(width, height, rgb, out) {
        Ok(()) => {
            assert(final(out)@ =~= old(out)@ + final(out)@.skip(old(out)@.len() as int)) by {
                assert(out@.take(old(out)@.len() as int) == old(out)@);
            }
            Ok(())
        },
        Err((stage, e)) => Err(png_failure(stage, &e)),
    }
}

/// The error an encoding failure is reported as: the stage, then the
/// crate's text.
fn png_failure(stage: PngStage, e: &png::EncodingError) -> (err: CuaError)
    ensures
        err matches CuaError::Tool(_),
{
    let detail = png_error_text(e);
    let mut v: Vec<char> = Vec::new();
    match stage {
        PngStage::Header => extend_str(&mut v, "png header: "),
        PngStage::Data => extend_str(&mut v, "png encode: "),
        PngStage::Finish => extend_str(&mut v, "png finish: "),
    }
    extend_str(&mut v, detail.as_str());
    CuaError::Tool(string_of(v.as_slice()))
}

/// Encode an 8-bit RGB image of `width * height * 3` bytes as PNG.
pub fn encode_png_rgb(width: u32, height: u32, rgb: &[u8]) -> (r: Result<Vec<u8>, CuaError>)
    ensures
        (width as int) * (height as int) * 3 > usize::MAX ==> r is Err && is_tool(
            r->Err_0,
            "png dimensions overflow"@,
        ),
        (width as int) * (height as int) * 3 <= usize::MAX && rgb@.len() != (width as int) * (
        height as int) * 3 ==> r is Err && is_tool(r->Err_0, "rgb buffer size mismatch"@),
        (width as int) * (height as int) * 3 <= usize::MAX && rgb@.len() == (width as int) * (
        height as int) * 3 && !png_fits(width, height) ==> r is Err && is_tool(
            r->Err_0,
            "png dimensions overflow"@,
        ),
        rgb@.len() == (width as int) * (height as int) * 3 && png_fits(width, height) ==> (r is Ok
            <==> png_rgb(width, height, rgb@) is Some) && (r is Ok ==> r->Ok_0@ == png_rgb(
            width,
            height,
            rgb@,
        )->Some_0),
        rgb@.len() == (width as int) * (height as int) * 3 && png_fits(width, height) && width > 0
            && height > 0 ==> r is Ok,
        r is Ok ==> r->Ok_0@.len() >= 8 && r->Ok_0@.take(8) == png_signature(),
        r is Ok ==> png_shape(r->Ok_0@, width, height),
{
    assert((width as int) * (height as int) * 3 <= 0xffff_ffff * 0xffff_ffff * 3) by (
    nonlinear_arith)
        requires
            width <= 0xffff_ffff,
            height <= 0xffff_ffff,
    ;
    assert(png_fits(width, height) ==> (width as int) * (height as int) * 3 <= usize::MAX) by (
    nonlinear_arith)
        requires
            width <= 0xffff_ffff,
            height <= 0xffff_ffff,
    ;
    let wide: u128 = (width as u128) * (height as u128) * 3;
    if wide > usize::MAX as u128 {
        return Err(CuaError::Tool("png dimensions overflow".to_owned()));
    }
    let expected = wide as usize;
    if rgb.len() != expected {
        return Err(CuaError::Tool("rgb buffer size mismatch".to_owned()));
    }
    if !png_size_ok(width, height) {
        return Err(CuaError::Tool("png dimensions overflow".to_owned()));
    }
    let cap = if expected / 6 > 32 * 1024 {
        expected / 6
    } else {
        32 * 1024
    };
    let mut out: Vec<u8> = Vec::with_capacity(cap);
    match png_encode(width, height, rgb, &mut out) {
        Ok(()) => {
            assert(out@.skip(0) =~= out@);
            Ok(out)
        },
        Err((stage, e)) => Err(png_failure(stage, &e)),
    }
}

/// A captured frame must be a PNG: at least the eight signature bytes.
pub fn check_png(png: Vec<u8>) -> (r: Result<Vec<u8>, CuaError>)
    ensures
        png@.len() < 8 ==> r is Err && is_tool(r->Err_0, "screenshot was empty"@),
        png@.len() >= 8 && png@.take(8) != png_signature() ==> r is Err && is_tool(
            r->Err_0,
            "screenshot was not a PNG"@,
        ),
        png@.len() >= 8 && png@.take(8) == png_signature() ==> r == Ok::<Vec<u8>, CuaError>(png),
{
    if png.len() < 8 {
        return Err(CuaError::Tool("screenshot was empty".to_owned()));
    }
    let sig: [u8; 8] = [137, 80, 78, 71, 13, 10, 26, 10];
    let mut i: usize = 0;
    while i < 8
        invariant
            i <= 8,
            png@.len() >= 8,
            sig@ == png_signature(),
            forall|j: int| 0 <= j < i ==> png@[j] == sig@[j],
        decreases 8 - i,
    {
        if png[i] != sig[i] {
            assert(png@.take(8)[i as int] != png_signature()[i as int]);
            return Err(CuaError::Tool("screenshot was not a PNG".to_owned()));
        }
        i = i + 1;
    }
    assert(png@.take(8) =~= png_signature());
    Ok(png)
}

} // verus!
