use vstd::prelude::*;
use crate::color::{
    HSL, hsl_of, hsl_to_rgb, lemma_hsl_of_ranges, rgb_of_hsl, rgb_to_hsl,
};
use crate::fraction::Fraction;
use crate::vram::{VRam, lemma_index_split, opaque, pack_opaque, rgb_of, unpack_rgb};

verus! {

/// Luma `0.299 R + 0.587 G + 0.114 B`, truncated.
pub open spec fn luma(r: u8, g: u8, b: u8) -> u8 {
    ((299 * r as int + 587 * g as int + 114 * b as int) / 1000) as u8
}

/// A sample turned grey: its luma in all three channels.
pub open spec fn gray_pixel(p: u32) -> u32 {
    let (r, g, b) = rgb_of(p);
    let l = luma(r, g, b);
    opaque(l, l, l)
}

/// A sample with its saturation set to `level`.
pub open spec fn saturated_pixel(p: u32, level: Fraction) -> u32 {
    let (r, g, b) = rgb_of(p);
    let hsl = hsl_of(r, g, b);
    let c = rgb_of_hsl(hsl.hue, level, hsl.lightness);
    opaque(c.r, c.g, c.b)
}

/// A hue moved by `shift` whole degrees.
pub open spec fn shifted_hue(h: Fraction, shift: int) -> Fraction {
    Fraction { num: (h.num + shift * h.den) as i64, den: h.den }
}

/// A sample with its hue moved by `shift` degrees.
pub open spec fn hue_shifted_pixel(p: u32, shift: int) -> u32 {
    let (r, g, b) = rgb_of(p);
    let hsl = hsl_of(r, g, b);
    let c = rgb_of_hsl(shifted_hue(hsl.hue, shift), hsl.saturation, hsl.lightness);
    opaque(c.r, c.g, c.b)
}

/// A colour counts as red eye when its hue lies within 20 degrees of red
/// (`[0, 20]` or `[340, 360)`), its saturation is above 0.35 and its
/// lightness lies strictly between 0.05 and 0.7.
pub open spec fn is_red_eye(hsl: HSL) -> bool {
    let h = hsl.hue;
    let s = hsl.saturation;
    let l = hsl.lightness;
    &&& (h.num <= 20 * h.den || h.num >= 340 * h.den)
    &&& 20 * s.num > 7 * s.den
    &&& 20 * l.num > l.den
    &&& 10 * l.num < 7 * l.den
}

/// The hue moved 60% of the way toward 30 degrees along the shorter way
/// round the circle, then brought back into `[0, 360)`.
pub open spec fn red_eye_hue(h: Fraction) -> Fraction {
    let hd = h.den as int;
    let raw = 30 * hd - h.num;
    let diff = if raw > 180 * hd {
        raw - 360 * hd
    } else if raw < -180 * hd {
        raw + 360 * hd
    } else {
        raw
    };
    Fraction { num: ((5 * h.num + 3 * diff + 1800 * hd) % (1800 * hd)) as i64, den: (5 * hd) as u32 }
}

/// A red-eye sample corrected: saturation times 0.15, lightness times 0.6,
/// hue pulled toward orange. Other samples stay as they are.
pub open spec fn red_eye_pixel(p: u32) -> u32 {
    let (r, g, b) = rgb_of(p);
    let hsl = hsl_of(r, g, b);
    if is_red_eye(hsl) {
        let s = hsl.saturation;
        let l = hsl.lightness;
        let c = rgb_of_hsl(
            red_eye_hue(hsl.hue),
            Fraction { num: (3 * s.num) as i64, den: (20 * s.den) as u32 },
            Fraction { num: (3 * l.num) as i64, den: (5 * l.den) as u32 },
        );
        opaque(c.r, c.g, c.b)
    } else {
        p
    }
}

/// The grey version of every sample of an image.
pub open spec fn gray_image(s: Seq<u32>) -> Seq<u32> {
    s.map_values(|p: u32| gray_pixel(p))
}

fn gray_of(p: u32) -> (q: u32)
    ensures
        q == gray_pixel(p),
{
    let (r, g, b) = unpack_rgb(p);
    let l = ((299 * r as u32 + 587 * g as u32 + 114 * b as u32) / 1000) as u8;
    pack_opaque(l, l, l)
}

/// Turns every pixel grey: its luma `0.299 R + 0.587 G + 0.114 B`
/// (truncated) goes into all three channels.
pub fn grayscale(vram: &mut VRam)
    requires
        old(vram).wf(),
    ensures
        final(vram).wf(),
        final(vram).width == old(vram).width,
        final(vram).height == old(vram).height,
        final(vram).data@ == gray_image(old(vram).data@),
{
    let ghost src = vram.data@;
    let n = vram.data.len();
    let mut i: usize = 0;
    while i < n
        invariant
            vram.wf(),
            vram.width == old(vram).width,
            vram.height == old(vram).height,
            src == old(vram).data@,
            n == src.len(),
            vram.data@.len() == n,
            i <= n,
            forall|j: int| i <= j < n ==> #[trigger] vram.data@[j] == src[j],
            forall|j: int| 0 <= j < i ==> #[trigger] vram.data@[j] == gray_pixel(src[j]),
        decreases n - i,
    {
        let q = gray_of(vram.data[i]);
        vram.data.set(i, q);
        i = i + 1;
    }
    assert(vram.data@ =~= gray_image(src));
}

/// A grey sample stays the same grey: its three channels are equal and
/// the luma weights sum to one.
pub proof fn lemma_gray_pixel_idempotent(p: u32)
    ensures
        gray_pixel(gray_pixel(p)) == gray_pixel(p),
{
    let (r, g, b) = rgb_of(p);
    let l = luma(r, g, b);
    crate::vram::lemma_rgb_of_opaque(l, l, l);
    assert((299 * l as int + 587 * l as int + 114 * l as int) / 1000 == l as int);
}

/// Turning an image grey twice gives the same image as doing it once.
pub proof fn lemma_grayscale_idempotent(s: Seq<u32>)
    ensures
        gray_image(gray_image(s)) == gray_image(s),
{
    assert forall|i: int| 0 <= i < s.len() implies #[trigger] gray_image(gray_image(s))[i]
        == gray_image(s)[i] by {
        lemma_gray_pixel_idempotent(s[i]);
    }
    assert(gray_image(gray_image(s)) =~= gray_image(s));
}

/// Blue channel of the gradient exercise.
pub const GRADIENT_BLUE: u8 = 128;

/// The sample the gradient exercise writes at `(x, y)`: red and green follow
/// the coordinates (mod 256), blue is fixed at 128.
pub open spec fn gradient_pixel(x: int, y: int) -> u32 {
    opaque((x % 256) as u8, (y % 256) as u8, 128)
}

/// Fills the buffer with a gradient: red grows with `x`, green with `y`
/// (both wrapping at 256), blue is 128.
pub fn exercise_one(vram: &mut VRam)
    requires
        old(vram).wf(),
    ensures
        final(vram).wf(),
        final(vram).width == old(vram).width,
        final(vram).height == old(vram).height,
        forall|x: int, y: int|
            old(vram).in_bounds(x, y) ==> #[trigger] final(vram).pixel(x, y) == gradient_pixel(x, y),
{
    let w = vram.width;
    let h = vram.height;
    let n = vram.data.len();
    let mut i: usize = 0;
    while i < n
        invariant
            vram.wf(),
            vram.width == w,
            vram.height == h,
            w == old(vram).width,
            h == old(vram).height,
            n == vram.data@.len(),
            i <= n,
            forall|j: int|
                0 <= j < i ==> #[trigger] vram.data@[j] == gradient_pixel(
                    j % w as int,
                    j / w as int,
                ),
        decreases n - i,
    {
        proof {
            lemma_index_split(i as int, w as int, h as int);
        }
        let x = (i as u32) % w;
        let y = (i as u32) / w;
        let p = pack_opaque((x % 256) as u8, (y % 256) as u8, GRADIENT_BLUE);
        vram.data.set(i, p);
        i = i + 1;
    }
    proof {
        assert forall|x: int, y: int| old(vram).in_bounds(x, y) implies #[trigger] vram.pixel(x, y)
            == gradient_pixel(x, y) by {
            crate::vram::lemma_index_in_bounds(w as int, h as int, x, y);
            vstd::arithmetic::div_mod::lemma_fundamental_div_mod_converse(
                y * w + x,
                w as int,
                y,
                x,
            );
        }
    }
}

fn saturated_of(p: u32, level: Fraction) -> (q: u32)
    requires
        level.wf(),
    ensures
        q == saturated_pixel(p, level),
{
    let (r, g, b) = unpack_rgb(p);
    let hsl = rgb_to_hsl(r, g, b);
    let c = hsl_to_rgb(hsl.hue, level, hsl.lightness);
    pack_opaque(c.r, c.g, c.b)
}

/// Sets the saturation of every pixel to `level` (clamped into `[0, 1]`),
/// keeping its hue and lightness.
pub fn saturate_image(vram: &mut VRam, level: Fraction)
    requires
        old(vram).wf(),
        level.wf(),
    ensures
        final(vram).wf(),
        final(vram).width == old(vram).width,
        final(vram).height == old(vram).height,
        final(vram).data@ == old(vram).data@.map_values(|p: u32| saturated_pixel(p, level)),
{
    let ghost src = vram.data@;
    let n = vram.data.len();
    let mut i: usize = 0;
    while i < n
        invariant
            vram.wf(),
            vram.width == old(vram).width,
            vram.height == old(vram).height,
            level.wf(),
            src == old(vram).data@,
            n == src.len(),
            vram.data@.len() == n,
            i <= n,
            forall|j: int| i <= j < n ==> #[trigger] vram.data@[j] == src[j],
            forall|j: int| 0 <= j < i ==> #[trigger] vram.data@[j] == saturated_pixel(src[j], level),
        decreases n - i,
    {
        let q = saturated_of(vram.data[i], level);
        vram.data.set(i, q);
        i = i + 1;
    }
    assert(vram.data@ =~= src.map_values(|p: u32| saturated_pixel(p, level)));
}

fn hue_shifted_of(p: u32, shift: i32) -> (q: u32)
    ensures
        q == hue_shifted_pixel(p, shift as int),
{
    let (r, g, b) = unpack_rgb(p);
    let hsl = rgb_to_hsl(r, g, b);
    proof {
        lemma_hsl_of_ranges(r, g, b);
        assert(-0x80_0000_0000 <= shift * hsl.hue.den <= 0x80_0000_0000) by (nonlinear_arith)
            requires
                0 < hsl.hue.den <= 255,
                i32::MIN <= shift <= i32::MAX,
        ;
    }
    let hue = Fraction {
        num: hsl.hue.num + shift as i64 * hsl.hue.den as i64,
        den: hsl.hue.den,
    };
    let c = hsl_to_rgb(hue, hsl.saturation, hsl.lightness);
    pack_opaque(c.r, c.g, c.b)
}

/// Moves the hue of every pixel by `shift` degrees, keeping saturation and
/// lightness; the hue wraps around the colour circle.
pub fn hue_shift(vram: &mut VRam, shift: i32)
    requires
        old(vram).wf(),
    ensures
        final(vram).wf(),
        final(vram).width == old(vram).width,
        final(vram).height == old(vram).height,
        final(vram).data@ == old(vram).data@.map_values(
            |p: u32| hue_shifted_pixel(p, shift as int),
        ),
{
    let ghost src = vram.data@;
    let n = vram.data.len();
    let mut i: usize = 0;
    while i < n
        invariant
            vram.wf(),
            vram.width == old(vram).width,
            vram.height == old(vram).height,
            src == old(vram).data@,
            n == src.len(),
            vram.data@.len() == n,
            i <= n,
            forall|j: int| i <= j < n ==> #[trigger] vram.data@[j] == src[j],
            forall|j: int|
                0 <= j < i ==> #[trigger] vram.data@[j] == hue_shifted_pixel(src[j], shift as int),
        decreases n - i,
    {
        let q = hue_shifted_of(vram.data[i], shift);
        vram.data.set(i, q);
        i = i + 1;
    }
    assert(vram.data@ =~= src.map_values(|p: u32| hue_shifted_pixel(p, shift as int)));
}

fn red_eye_of(p: u32) -> (q: u32)
    ensures
        q == red_eye_pixel(p),
{
    let (r, g, b) = unpack_rgb(p);
    let hsl = rgb_to_hsl(r, g, b);
    proof {
        lemma_hsl_of_ranges(r, g, b);
    }
    let h = hsl.hue;
    let s = hsl.saturation;
    let l = hsl.lightness;
    let hd = h.den as i64;
    let is_red = h.num <= 20 * hd || h.num >= 340 * hd;
    let is_saturated = 20 * s.num > 7 * (s.den as i64);
    let is_midlight = 20 * l.num > l.den as i64 && 10 * l.num < 7 * (l.den as i64);
    if is_red && is_saturated && is_midlight {
        let new_sat = Fraction { num: 3 * s.num, den: 20 * s.den };
        let new_light = Fraction { num: 3 * l.num, den: 5 * l.den };
        let raw = 30 * hd - h.num;
        let diff = if raw > 180 * hd {
            raw - 360 * hd
        } else if raw + 180 * hd < 0 {
            raw + 360 * hd
        } else {
            raw
        };
        let total = 5 * h.num + 3 * diff + 1800 * hd;
        let hue = Fraction { num: ((total as u64) % ((1800 * hd) as u64)) as i64, den: 5 * h.den };
        let c = hsl_to_rgb(hue, new_sat, new_light);
        pack_opaque(c.r, c.g, c.b)
    } else {
        p
    }
}

/// Corrects red-eye pixels (see `is_red_eye`): their saturation is scaled
/// by 0.15, their lightness by 0.6, and their hue pulled 60% of the way
/// toward 30 degrees. Every other pixel is left untouched.
pub fn red_eye_removal(vram: &mut VRam)
    requires
        old(vram).wf(),
    ensures
        final(vram).wf(),
        final(vram).width == old(vram).width,
        final(vram).height == old(vram).height,
        final(vram).data@ == old(vram).data@.map_values(|p: u32| red_eye_pixel(p)),
{
    let ghost src = vram.data@;
    let n = vram.data.len();
    let mut i: usize = 0;
    while i < n
        invariant
            vram.wf(),
            vram.width == old(vram).width,
            vram.height == old(vram).height,
            src == old(vram).data@,
            n == src.len(),
            vram.data@.len() == n,
            i <= n,
            forall|j: int| i <= j < n ==> #[trigger] vram.data@[j] == src[j],
            forall|j: int| 0 <= j < i ==> #[trigger] vram.data@[j] == red_eye_pixel(src[j]),
        decreases n - i,
    {
        let q = red_eye_of(vram.data[i]);
        vram.data.set(i, q);
        i = i + 1;
    }
    assert(vram.data@ =~= src.map_values(|p: u32| red_eye_pixel(p)));
}

/// The image shown for a pristine `source` and the current edit settings:
/// saturation set to `saturation` when that is non-zero, then the hue moved
/// by `hue` degrees when that is non-zero.
pub open spec fn edited_image(source: Seq<u32>, saturation: Fraction, hue: int) -> Seq<u32> {
    let saturated = if saturation.num != 0 {
        source.map_values(|p: u32| saturated_pixel(p, saturation))
    } else {
        source
    };
    if hue != 0 {
        saturated.map_values(|p: u32| hue_shifted_pixel(p, hue))
    } else {
        saturated
    }
}

/// Recomputes the displayed image from the pristine `source` and the edit
/// settings, so that repeated edits never compound: the result depends on
/// `source` and the settings alone.
pub fn render_edits(source: &VRam, saturation: Fraction, hue: i32) -> (out: VRam)
    requires
        source.wf(),
        saturation.wf(),
    ensures
        out.wf(),
        out.width == source.width,
        out.height == source.height,
        out.data@ == edited_image(source.data@, saturation, hue as int),
{
    let mut out = VRam { width: source.width, height: source.height, data: source.data.clone() };
    assert(out.data@ =~= source.data@);
    if saturation.num != 0 {
        saturate_image(&mut out, saturation);
    }
    if hue != 0 {
        hue_shift(&mut out, hue);
    }
    out
}

} // verus!
