//! RGBA pixels: packed colors and straight-alpha "over" compositing.

use vstd::prelude::*;

verus! {

/// One pixel with straight (non-premultiplied) alpha.
#[derive(Debug, Clone, Copy, PartialEq, Eq, Structural)]
pub struct Rgba {
    pub r: u8,
    pub g: u8,
    pub b: u8,
    pub a: u8,
}

/// The color that a packed `0xRRGGBBAA` word stands for: red is the highest
/// byte, alpha the lowest.
pub open spec fn unpacked(color: u32) -> Rgba {
    Rgba {
        r: (color as int / 0x100_0000) as u8,
        g: ((color as int / 0x1_0000) % 256) as u8,
        b: ((color as int / 0x100) % 256) as u8,
        a: (color as int % 256) as u8,
    }
}

impl Rgba {
    /// The byte that this pixel stores at offset `c`: red, green, blue, then
    /// alpha.
    pub open spec fn channel(self, c: int) -> u8 {
        if c == 0 {
            self.r
        } else if c == 1 {
            self.g
        } else if c == 2 {
            self.b
        } else {
            self.a
        }
    }
}

/// Pixel number `p` of an RGBA raster.
pub open spec fn rgba_at(raster: Seq<u8>, p: int) -> Rgba {
    Rgba { r: raster[4 * p], g: raster[4 * p + 1], b: raster[4 * p + 2], a: raster[4 * p + 3] }
}

/// A raster of `len` bytes in which every whole pixel is `color`.
pub open spec fn filled(len: nat, color: Rgba) -> Seq<u8> {
    Seq::new(len, |i: int| color.channel(i % 4))
}

/// A color channel after blending: `src·a + dst·(1 − a)` with `a = alpha/255`,
/// cut down to a whole number.
pub open spec fn blend_channel(src: u8, dst: u8, alpha: u8) -> int {
    (src as int * alpha as int + dst as int * (255 - alpha as int)) / 255
}

/// The exact alpha after blending, `(a + d·(1 − a))·255` with
/// `a = src_alpha/255` and `d = dst_alpha/255`, counted in 255ths.
pub open spec fn exact_alpha_255ths(src_alpha: u8, dst_alpha: u8) -> int {
    255 * src_alpha as int + dst_alpha as int * (255 - src_alpha as int)
}

/// The destination alpha after blending: the exact alpha rounded to the
/// nearest whole number.
pub open spec fn blend_alpha(src_alpha: u8, dst_alpha: u8) -> int {
    (exact_alpha_255ths(src_alpha, dst_alpha) + 127) / 255
}

/// The destination pixel after `src` has been composited over `dst`.
///
/// A fully transparent source leaves the destination as it is; a fully opaque
/// one replaces its color and makes it opaque; any other source is blended.
pub open spec fn composited(src: Rgba, dst: Rgba) -> Rgba {
    if src.a == 0 {
        dst
    } else if src.a == 255 {
        Rgba { r: src.r, g: src.g, b: src.b, a: 255 }
    } else {
        Rgba {
            r: blend_channel(src.r, dst.r, src.a) as u8,
            g: blend_channel(src.g, dst.g, src.a) as u8,
            b: blend_channel(src.b, dst.b, src.a) as u8,
            a: blend_alpha(src.a, dst.a) as u8,
        }
    }
}

/// A blended channel lies between its two inputs, so it is a byte.
pub proof fn lemma_blend_channel_between(src: u8, dst: u8, alpha: u8)
    ensures
        src <= dst ==> src <= blend_channel(src, dst, alpha) <= dst,
        dst <= src ==> dst <= blend_channel(src, dst, alpha) <= src,
        0 <= blend_channel(src, dst, alpha) <= 255,
{
    let s = src as int;
    let d = dst as int;
    let a = alpha as int;
    let n = s * a + d * (255 - a);
    assert(s <= d ==> s * 255 <= n <= d * 255) by (nonlinear_arith)
        requires
            n == s * a + d * (255 - a),
            0 <= a <= 255,
    ;
    assert(d <= s ==> d * 255 <= n <= s * 255) by (nonlinear_arith)
        requires
            n == s * a + d * (255 - a),
            0 <= a <= 255,
    ;
}

/// The blended alpha is the whole number nearest to the exact alpha, it is a
/// byte, and it is never below either input.
pub proof fn lemma_blend_alpha_nearest(src_alpha: u8, dst_alpha: u8)
    ensures
        -127 <= exact_alpha_255ths(src_alpha, dst_alpha) - 255 * blend_alpha(src_alpha, dst_alpha)
            <= 127,
        0 <= blend_alpha(src_alpha, dst_alpha) <= 255,
        src_alpha <= blend_alpha(src_alpha, dst_alpha),
        dst_alpha <= blend_alpha(src_alpha, dst_alpha),
{
    let s = src_alpha as int;
    let d = dst_alpha as int;
    let n = exact_alpha_255ths(src_alpha, dst_alpha);
    assert(255 * s <= n <= 255 * 255 && 255 * d <= n) by (nonlinear_arith)
        requires
            n == 255 * s + d * (255 - s),
            0 <= s <= 255,
            0 <= d <= 255,
    ;
}

/// An opaque source replaces the destination, whatever it held; a transparent
/// one changes nothing. Both agree with the blend formulas at their ends.
pub proof fn lemma_composite_extremes(src: Rgba, dst: Rgba)
    ensures
        src.a == 255 ==> composited(src, dst) == (Rgba { r: src.r, g: src.g, b: src.b, a: 255 }),
        src.a == 0 ==> composited(src, dst) == dst,
        blend_channel(src.r, dst.r, 255) == src.r,
        blend_channel(src.r, dst.r, 0) == dst.r,
        blend_alpha(255, dst.a) == 255,
        blend_alpha(0, dst.a) == dst.a,
{
}

/// A half-transparent source over an opaque destination gives, in each color
/// channel, the midpoint of the two colors to within one, and stays opaque.
pub proof fn lemma_half_alpha_is_midpoint(src: Rgba, dst: Rgba)
    requires
        src.a == 127 || src.a == 128,
        dst.a == 255,
    ensures
        (src.r + dst.r) / 2 - 1 <= composited(src, dst).r <= (src.r + dst.r) / 2 + 1,
        (src.g + dst.g) / 2 - 1 <= composited(src, dst).g <= (src.g + dst.g) / 2 + 1,
        (src.b + dst.b) / 2 - 1 <= composited(src, dst).b <= (src.b + dst.b) / 2 + 1,
        composited(src, dst).a == 255,
{
    lemma_half_blend(src.r, dst.r, src.a);
    lemma_half_blend(src.g, dst.g, src.a);
    lemma_half_blend(src.b, dst.b, src.a);
    lemma_blend_alpha_nearest(src.a, dst.a);
}

/// Blending with half the weight on each side gives the midpoint to within
/// one.
proof fn lemma_half_blend(src: u8, dst: u8, alpha: u8)
    requires
        alpha == 127 || alpha == 128,
    ensures
        (src + dst) / 2 - 1 <= blend_channel(src, dst, alpha) <= (src + dst) / 2 + 1,
        0 <= blend_channel(src, dst, alpha) <= 255,
{
    let s = src as int;
    let d = dst as int;
    if alpha == 127 {
        assert(blend_channel(src, dst, alpha) == (s * 127 + d * 128) / 255);
    } else {
        assert(blend_channel(src, dst, alpha) == (s * 128 + d * 127) / 255);
    }
}

impl Rgba {
    /// Unpacks a `0xRRGGBBAA` word.
    pub fn from_hex(color: u32) -> (p: Rgba)
        ensures
            p == unpacked(color),
    {
        proof {
            lemma_packed_bytes(color);
        }
        Rgba {
            r: ((color >> 24) & 0xFF) as u8,
            g: ((color >> 16) & 0xFF) as u8,
            b: ((color >> 8) & 0xFF) as u8,
            a: (color & 0xFF) as u8,
        }
    }

    /// Composites `self` over `dst` and returns the new destination pixel.
    pub fn over(self, dst: Rgba) -> (out: Rgba)
        ensures
            out == composited(self, dst),
    {
        if self.a == 0 {
            dst
        } else if self.a == 255 {
            Rgba { r: self.r, g: self.g, b: self.b, a: 255 }
        } else {
            proof {
                lemma_blend_alpha_nearest(self.a, dst.a);
            }
            let a: u32 = self.a as u32;
            let cover: u32 = 255 * a + (dst.a as u32) * (255 - a);
            Rgba {
                r: blend(self.r, dst.r, self.a),
                g: blend(self.g, dst.g, self.a),
                b: blend(self.b, dst.b, self.a),
                a: ((cover + 127) / 255) as u8,
            }
        }
    }
}

/// Overwrites every pixel of an RGBA raster with `color`, without blending.
pub(crate) fn fill_rgba(raster: &mut [u8], color: Rgba)
    requires
        old(raster)@.len() % 4 == 0,
    ensures
        final(raster)@ == filled(old(raster)@.len(), color),
{
    let len: usize = raster.len();
    let mut i: usize = 0;
    while i < len
        invariant
            i <= len,
            i % 4 == 0,
            len % 4 == 0,
            raster@.len() == len,
            forall|k: int| 0 <= k < i ==> raster@[k] == color.channel(k % 4),
        decreases len - i,
    {
        raster[i] = color.r;
        raster[i + 1] = color.g;
        raster[i + 2] = color.b;
        raster[i + 3] = color.a;
        i += 4;
    }
    assert(raster@ =~= filled(len as nat, color));
}

/// Blends one color channel.
fn blend(src: u8, dst: u8, alpha: u8) -> (out: u8)
    ensures
        out == blend_channel(src, dst, alpha),
{
    proof {
        lemma_blend_channel_between(src, dst, alpha);
        assert(0 <= src as int * alpha as int <= 255 * 255) by (nonlinear_arith);
        assert(0 <= dst as int * (255 - alpha as int) <= 255 * 255) by (nonlinear_arith);
    }
    let a: u32 = alpha as u32;
    let n: u32 = (src as u32) * a + (dst as u32) * (255 - a);
    (n / 255) as u8
}

/// Shifting and masking picks the same bytes as dividing and taking
/// remainders.
proof fn lemma_packed_bytes(color: u32)
    ensures
        ((color >> 24) & 0xFF) == color as int / 0x100_0000,
        ((color >> 16) & 0xFF) == (color as int / 0x1_0000) % 256,
        ((color >> 8) & 0xFF) == (color as int / 0x100) % 256,
        (color & 0xFF) == color as int % 256,
{
    assert(((color >> 24) & 0xFF) == color / 0x100_0000) by (bit_vector);
    assert(((color >> 16) & 0xFF) == (color / 0x1_0000) % 256) by (bit_vector);
    assert(((color >> 8) & 0xFF) == (color / 0x100) % 256) by (bit_vector);
    assert((color & 0xFF) == color % 256) by (bit_vector);
}

} // verus!
