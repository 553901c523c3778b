use vstd::prelude::*;

verus! {

/// An RGBA colour with eight bits per channel.
#[derive(Clone, Copy, Debug, PartialEq, Eq, Structural)]
pub struct Rgba {
    pub r: u8,
    pub g: u8,
    pub b: u8,
    pub a: u8,
}

/// One channel of a foreground laid over a background with weight `alpha`
/// out of 255: `fg * alpha + bg * (1 - alpha)`, rounded towards zero.
pub open spec fn mix(fg: int, bg: int, alpha: int) -> int {
    (fg * alpha + bg * (255 - alpha)) / 255
}

/// Glyph coverage scaled by the foreground's own alpha, out of 255.
pub open spec fn effective_alpha(coverage: int, fg_alpha: int) -> int {
    (coverage * fg_alpha) / 255
}

/// The colour that results when `fg` is composited over `bg` at a pixel that
/// the glyph covers by `coverage` out of 255. All four channels are weighted
/// by the same effective alpha.
pub open spec fn over(fg: Rgba, bg: Rgba, coverage: u8) -> Rgba {
    let alpha = effective_alpha(coverage as int, fg.a as int);
    Rgba {
        r: mix(fg.r as int, bg.r as int, alpha) as u8,
        g: mix(fg.g as int, bg.g as int, alpha) as u8,
        b: mix(fg.b as int, bg.b as int, alpha) as u8,
        a: mix(fg.a as int, bg.a as int, alpha) as u8,
    }
}

/// The colour with its alpha raised to full.
pub open spec fn opaque(c: Rgba) -> Rgba {
    Rgba { r: c.r, g: c.g, b: c.b, a: 255 }
}

/// A colour unpacked from the 32-bit form `0xAARRGGBB`.
pub open spec fn unpack(argb: u32) -> Rgba {
    Rgba {
        r: ((argb >> 16) & 0xff) as u8,
        g: ((argb >> 8) & 0xff) as u8,
        b: (argb & 0xff) as u8,
        a: ((argb >> 24) & 0xff) as u8,
    }
}

/// The 32-bit form `0xAARRGGBB` of a colour.
pub open spec fn pack(c: Rgba) -> u32 {
    ((c.a as u32) << 24) | ((c.r as u32) << 16) | ((c.g as u32) << 8) | (c.b as u32)
}

/// A mixed channel lies between 0 and 255, and between its two inputs'
/// extremes.
pub proof fn lemma_mix_bounds(fg: int, bg: int, alpha: int)
    requires
        0 <= fg <= 255,
        0 <= bg <= 255,
        0 <= alpha <= 255,
    ensures
        0 <= mix(fg, bg, alpha) <= 255,
        alpha == 255 ==> mix(fg, bg, alpha) == fg,
        alpha == 0 ==> mix(fg, bg, alpha) == bg,
{
    assert(0 <= fg * alpha <= 255 * alpha) by (nonlinear_arith)
        requires
            0 <= fg <= 255,
            0 <= alpha,
    ;
    assert(0 <= bg * (255 - alpha) <= 255 * (255 - alpha)) by (nonlinear_arith)
        requires
            0 <= bg <= 255,
            0 <= 255 - alpha,
    ;
    assert(alpha == 0 ==> fg * alpha == 0 && bg * (255 - alpha) == bg * 255) by (nonlinear_arith);
    assert(alpha == 255 ==> bg * (255 - alpha) == 0 && fg * alpha == fg * 255) by (nonlinear_arith);
}

/// The effective alpha lies between 0 and 255; full coverage of an opaque
/// foreground gives 255, and no coverage gives 0.
pub proof fn lemma_effective_alpha_bounds(coverage: int, fg_alpha: int)
    requires
        0 <= coverage <= 255,
        0 <= fg_alpha <= 255,
    ensures
        0 <= effective_alpha(coverage, fg_alpha) <= 255,
        coverage == 255 ==> effective_alpha(coverage, fg_alpha) == fg_alpha,
        fg_alpha == 255 ==> effective_alpha(coverage, fg_alpha) == coverage,
        coverage == 0 ==> effective_alpha(coverage, fg_alpha) == 0,
{
    assert(0 <= coverage * fg_alpha <= 255 * 255) by (nonlinear_arith)
        requires
            0 <= coverage <= 255,
            0 <= fg_alpha <= 255,
    ;
    assert(coverage == 0 ==> coverage * fg_alpha == 0) by (nonlinear_arith);
}

/// Compositing a fully covered pixel of an opaque foreground yields exactly
/// the foreground colour, whatever the background.
pub proof fn lemma_opaque_glyph_replaces_background(fg: Rgba, bg: Rgba)
    requires
        fg.a == 255,
    ensures
        over(fg, bg, 255) == fg,
{
    lemma_effective_alpha_bounds(255, fg.a as int);
    lemma_mix_bounds(fg.r as int, bg.r as int, 255);
    lemma_mix_bounds(fg.g as int, bg.g as int, 255);
    lemma_mix_bounds(fg.b as int, bg.b as int, 255);
    lemma_mix_bounds(fg.a as int, bg.a as int, 255);
}

/// Compositing a pixel that the glyph does not cover leaves the background
/// as it was, whatever the foreground.
pub proof fn lemma_uncovered_pixel_keeps_background(fg: Rgba, bg: Rgba)
    ensures
        over(fg, bg, 0) == bg,
{
    lemma_effective_alpha_bounds(0, fg.a as int);
    lemma_mix_bounds(fg.r as int, bg.r as int, 0);
    lemma_mix_bounds(fg.g as int, bg.g as int, 0);
    lemma_mix_bounds(fg.b as int, bg.b as int, 0);
    lemma_mix_bounds(fg.a as int, bg.a as int, 0);
}

fn mix_channel(fg: u8, bg: u8, alpha: u8) -> (out: u8)
    ensures
        out == mix(fg as int, bg as int, alpha as int),
{
    let f: u32 = fg as u32;
    let b: u32 = bg as u32;
    let a: u32 = alpha as u32;
    proof {
        lemma_mix_bounds(fg as int, bg as int, alpha as int);
        assert(0 <= f * a <= 255 * 255) by (nonlinear_arith)
            requires
                0 <= f <= 255,
                0 <= a <= 255,
        ;
        assert(0 <= b * (255 - a) <= 255 * 255) by (nonlinear_arith)
            requires
                0 <= b <= 255,
                0 <= a <= 255,
        ;
    }
    let sum: u32 = f * a + b * (255 - a);
    let q: u32 = sum / 255;
    q as u8
}

impl Rgba {
    /// Unpacks `0xAARRGGBB`.
    pub fn from_argb(argb: u32) -> (c: Rgba)
        ensures
            c == unpack(argb),
    {
        Rgba {
            r: ((argb >> 16) & 0xff) as u8,
            g: ((argb >> 8) & 0xff) as u8,
            b: (argb & 0xff) as u8,
            a: ((argb >> 24) & 0xff) as u8,
        }
    }

    /// Packs the colour as `0xAARRGGBB`.
    pub fn to_argb(&self) -> (argb: u32)
        ensures
            argb == pack(*self),
            unpack(argb) == *self,
    {
        let a: u32 = self.a as u32;
        let r: u32 = self.r as u32;
        let g: u32 = self.g as u32;
        let b: u32 = self.b as u32;
        let argb: u32 = (a << 24) | (r << 16) | (g << 8) | b;
        assert(((argb >> 16) & 0xff) == r && ((argb >> 8) & 0xff) == g && (argb & 0xff) == b && ((
        argb >> 24) & 0xff) == a) by (bit_vector)
            requires
                argb == (a << 24) | (r << 16) | (g << 8) | b,
                a <= 255,
                r <= 255,
                g <= 255,
                b <= 255,
        ;
        argb
    }

    /// Composites `self` as the foreground over `bg` at a pixel covered by
    /// `coverage` out of 255.
    pub fn blend_over(&self, bg: Rgba, coverage: u8) -> (out: Rgba)
        ensures
            out == over(*self, bg, coverage),
    {
        proof {
            lemma_effective_alpha_bounds(coverage as int, self.a as int);
            assert(0 <= (coverage as u32) * (self.a as u32) <= 255 * 255) by (nonlinear_arith)
                requires
                    0 <= coverage as u32 <= 255,
                    0 <= self.a as u32 <= 255,
            ;
        }
        let scaled: u32 = (coverage as u32) * (self.a as u32) / 255;
        let alpha: u8 = scaled as u8;
        Rgba {
            r: mix_channel(self.r, bg.r, alpha),
            g: mix_channel(self.g, bg.g, alpha),
            b: mix_channel(self.b, bg.b, alpha),
            a: mix_channel(self.a, bg.a, alpha),
        }
    }
}

} // verus!
