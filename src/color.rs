use vstd::prelude::*;
use crate::fraction::Fraction;

verus! {

/// Hue (degrees), saturation and lightness of a colour, each an exact fraction.
#[derive(Clone, Copy, Debug)]
pub struct HSL {
    pub hue: Fraction,
    pub saturation: Fraction,
    pub lightness: Fraction,
}

impl HSL {
    pub open spec fn wf(self) -> bool {
        self.hue.wf() && self.saturation.wf() && self.lightness.wf()
    }
}

/// An 8-bit colour.
#[derive(Clone, Copy, Debug, PartialEq, Eq, Structural)]
pub struct RGB {
    pub r: u8,
    pub g: u8,
    pub b: u8,
}

pub open spec fn abs(v: int) -> int {
    if v < 0 {
        -v
    } else {
        v
    }
}

pub open spec fn max3(a: int, b: int, c: int) -> int {
    if a >= b && a >= c {
        a
    } else if b >= c {
        b
    } else {
        c
    }
}

pub open spec fn min3(a: int, b: int, c: int) -> int {
    if a <= b && a <= c {
        a
    } else if b <= c {
        b
    } else {
        c
    }
}

/// The hue of `(r, g, b)`, from whichever channel is largest (red first,
/// then green), as a fraction of degrees in `[0, 360)`; grey has hue 0.
pub open spec fn hue_of(r: u8, g: u8, b: u8) -> Fraction {
    let mx = max3(r as int, g as int, b as int);
    let d = mx - min3(r as int, g as int, b as int);
    if d == 0 {
        Fraction { num: 0, den: 1 }
    } else if mx == r {
        let h = 60 * (g - b);
        Fraction { num: (if h < 0 { h + 360 * d } else { h }) as i64, den: d as u32 }
    } else if mx == g {
        Fraction { num: (60 * (b - r) + 120 * d) as i64, den: d as u32 }
    } else {
        Fraction { num: (60 * (r - g) + 240 * d) as i64, den: d as u32 }
    }
}

/// The saturation of `(r, g, b)`: `delta / (1 - |2 * lightness - 1|)`, or 0
/// for grey.
pub open spec fn saturation_of(r: u8, g: u8, b: u8) -> Fraction {
    let mx = max3(r as int, g as int, b as int);
    let mn = min3(r as int, g as int, b as int);
    if mx == mn {
        Fraction { num: 0, den: 1 }
    } else {
        Fraction { num: (mx - mn) as i64, den: (255 - abs(mx + mn - 255)) as u32 }
    }
}

/// The lightness of `(r, g, b)`: the mean of the largest and smallest channel.
pub open spec fn lightness_of(r: u8, g: u8, b: u8) -> Fraction {
    Fraction {
        num: (max3(r as int, g as int, b as int) + min3(r as int, g as int, b as int)) as i64,
        den: 510,
    }
}

pub open spec fn hsl_of(r: u8, g: u8, b: u8) -> HSL {
    HSL { hue: hue_of(r, g, b), saturation: saturation_of(r, g, b), lightness: lightness_of(r, g, b) }
}

/// Numerator of a fraction clamped into `[0, 1]`.
pub open spec fn unit_num(f: Fraction) -> int {
    if f.num < 0 {
        0
    } else if f.num > f.den {
        1
    } else {
        f.num as int
    }
}

/// Denominator of a fraction clamped into `[0, 1]`.
pub open spec fn unit_den(f: Fraction) -> int {
    if f.num < 0 || f.num > f.den {
        1
    } else {
        f.den as int
    }
}

/// `n / d` scaled to `[0, 255]`, rounded half away from zero and clamped.
pub open spec fn to_byte(n: int, d: int) -> u8 {
    let v = (510 * n + d) / (2 * d);
    if v < 0 {
        0
    } else if v > 255 {
        255
    } else {
        v as u8
    }
}

/// The colour of hue `hn / hd` degrees (with `0 <= hn < 360 * hd`),
/// saturation `sn / sd` and lightness `ln / ld` (both in `[0, 1]`).
///
/// With chroma `c = (1 - |2l - 1|) * s`, `x = c * (1 - |(h / 60 mod 2) - 1|)`
/// and `m = l - c / 2`, the channels are `(c, x, 0)`, `(x, c, 0)`, ...
/// according to the 60-degree sector of `h`, each plus `m`. All terms share
/// the denominator `120 * ld * sd * hd`.
pub open spec fn rgb_from_parts(hn: int, hd: int, sn: int, sd: int, ln: int, ld: int) -> RGB {
    let chroma = (ld - abs(2 * ln - ld)) * sn;
    let t = hn % (120 * hd);
    let mid = 2 * chroma * (60 * hd - abs(t - 60 * hd));
    let top = 120 * hd * chroma;
    let base = 120 * sd * hd * ln - 60 * hd * chroma;
    let den = 120 * ld * sd * hd;
    let sector = hn / (60 * hd);
    let (r1, g1, b1) = if sector == 0 {
        (top, mid, 0)
    } else if sector == 1 {
        (mid, top, 0)
    } else if sector == 2 {
        (0, top, mid)
    } else if sector == 3 {
        (0, mid, top)
    } else if sector == 4 {
        (mid, 0, top)
    } else {
        (top, 0, mid)
    };
    RGB { r: to_byte(r1 + base, den), g: to_byte(g1 + base, den), b: to_byte(b1 + base, den) }
}

/// The colour of `(h, s, l)`: the hue is taken modulo 360 degrees, and
/// saturation and lightness are clamped into `[0, 1]`.
pub open spec fn rgb_of_hsl(h: Fraction, s: Fraction, l: Fraction) -> RGB {
    rgb_from_parts(
        h.num as int % (360 * h.den as int),
        h.den as int,
        unit_num(s),
        unit_den(s),
        unit_num(l),
        unit_den(l),
    )
}

fn max_u8(a: u8, b: u8) -> (m: u8)
    ensures
        m == if a >= b { a } else { b },
{
    if a >= b {
        a
    } else {
        b
    }
}

fn min_u8(a: u8, b: u8) -> (m: u8)
    ensures
        m == if a <= b { a } else { b },
{
    if a <= b {
        a
    } else {
        b
    }
}

/// Converts an 8-bit colour to hue, saturation and lightness.
pub fn rgb_to_hsl(r: u8, g: u8, b: u8) -> (hsl: HSL)
    ensures
        hsl == hsl_of(r, g, b),
        hsl.wf(),
{
    let max = max_u8(max_u8(r, g), b);
    let min = min_u8(min_u8(r, g), b);
    let delta = max - min;
    let sum = max as i64 + min as i64;
    let lightness = Fraction { num: sum, den: 510 };
    let saturation = if delta == 0 {
        Fraction { num: 0, den: 1 }
    } else {
        let spread: i64 = if sum > 255 { sum - 255 } else { 255 - sum };
        Fraction { num: delta as i64, den: (255 - spread) as u32 }
    };
    let d = delta as i64;
    let hue = if delta == 0 {
        Fraction { num: 0, den: 1 }
    } else if max == r {
        let h = 60 * (g as i64 - b as i64);
        Fraction { num: if h < 0 { h + 360 * d } else { h }, den: delta as u32 }
    } else if max == g {
        Fraction { num: 60 * (b as i64 - r as i64) + 120 * d, den: delta as u32 }
    } else {
        Fraction { num: 60 * (r as i64 - g as i64) + 240 * d, den: delta as u32 }
    };
    HSL { hue, saturation, lightness }
}

proof fn lemma_mul_le(a: int, b: int, x: int, y: int)
    by (nonlinear_arith)
    requires
        0 <= a <= x,
        0 <= b <= y,
    ensures
        0 <= a * b <= x * y,
{
}

proof fn lemma_mul_pos(a: int, b: int)
    by (nonlinear_arith)
    requires
        0 < a,
        0 < b,
    ensures
        0 < a * b,
{
}

proof fn lemma_base_nonneg(hd: int, sd: int, ln: int, chroma: int)
    by (nonlinear_arith)
    requires
        0 <= hd,
        0 <= chroma <= 2 * ln * sd,
    ensures
        60 * hd * chroma <= 120 * sd * hd * ln,
{
}

/// `a mod m` (Euclidean, so never negative).
fn euclid_mod(a: i64, m: u64) -> (r: u64)
    requires
        m > 0,
    ensures
        r as int == a as int % m as int,
{
    if a >= 0 {
        (a as u64) % m
    } else {
        let q: u128 = (-(a as i128)) as u128;
        let p: u128 = q % (m as u128);
        proof {
            let k = q as int / m as int;
            vstd::arithmetic::div_mod::lemma_fundamental_div_mod(q as int, m as int);
            assert(a as int == (-k) * m + 0 - p && a as int == (-k - 1) * m + (m - p))
                by (nonlinear_arith)
                requires
                    q == m * k + p,
                    a as int == -(q as int),
            ;
            if p == 0 {
                vstd::arithmetic::div_mod::lemma_fundamental_div_mod_converse(
                    a as int,
                    m as int,
                    -k,
                    0,
                );
            } else {
                vstd::arithmetic::div_mod::lemma_fundamental_div_mod_converse(
                    a as int,
                    m as int,
                    -k - 1,
                    m - p,
                );
            }
        }
        if p == 0 {
            0
        } else {
            (m as u128 - p) as u64
        }
    }
}

/// A fraction clamped into `[0, 1]`, as (numerator, denominator).
fn clamp_unit(f: Fraction) -> (c: (u128, u128))
    requires
        f.wf(),
    ensures
        c.0 as int == unit_num(f),
        c.1 as int == unit_den(f),
        0 <= c.0 <= c.1,
        0 < c.1 <= u32::MAX,
{
    if f.num < 0 {
        (0, 1)
    } else if f.num > f.den as i64 {
        (1, 1)
    } else {
        (f.num as u128, f.den as u128)
    }
}

/// `n / d` scaled to `[0, 255]` and rounded, for non-negative `n`.
fn byte_of(n: u128, d: u128) -> (v: u8)
    requires
        0 < d < 0x1_0000_0000_0000_0000_0000_0000_0000,
        n < 0x1_0000_0000_0000_0000_0000_0000_0000,
    ensures
        v == to_byte(n as int, d as int),
{
    let q = (510 * n + d) / (2 * d);
    if q > 255 {
        255
    } else {
        q as u8
    }
}

/// Converts hue (degrees, any value), saturation and lightness to an 8-bit
/// colour. The hue is normalised into `[0, 360)`; saturation and lightness
/// are clamped into `[0, 1]`; each channel is rounded to the nearest value.
pub fn hsl_to_rgb(h: Fraction, s: Fraction, l: Fraction) -> (c: RGB)
    requires
        h.wf(),
        s.wf(),
        l.wf(),
    ensures
        c == rgb_of_hsl(h, s, l),
{
    let hd: u128 = h.den as u128;
    let hn: u128 = euclid_mod(h.num, 360 * h.den as u64) as u128;
    let (sn, sd) = clamp_unit(s);
    let (ln, ld) = clamp_unit(l);
    let spread: u128 = if 2 * ln >= ld {
        2 * ln - ld
    } else {
        ld - 2 * ln
    };
    proof {
        lemma_mul_le(ld - spread, sn as int, 0x1_0000_0000int, 0x1_0000_0000int);
    }
    let chroma: u128 = (ld - spread) * sn;
    let t: u128 = hn % (120 * hd);
    let dist: u128 = if t >= 60 * hd {
        t - 60 * hd
    } else {
        60 * hd - t
    };
    proof {
        vstd::arithmetic::div_mod::lemma_fundamental_div_mod(hn as int, 120 * hd as int);
        lemma_mul_le(2 * chroma, 60 * hd - dist, 2 * 0x1_0000_0000int * 0x1_0000_0000int, 60 * 0x1_0000_0000int);
        lemma_mul_le(120 * hd, chroma as int, 120 * 0x1_0000_0000int, 0x1_0000_0000int * 0x1_0000_0000int);
        lemma_mul_le(120 * sd, hd as int, 120 * 0x1_0000_0000int, 0x1_0000_0000int);
        lemma_mul_le(120 * sd * hd, ln as int, 120 * 0x1_0000_0000int * 0x1_0000_0000int, 0x1_0000_0000int);
        lemma_mul_le(60 * hd, chroma as int, 60 * 0x1_0000_0000int, 0x1_0000_0000int * 0x1_0000_0000int);
        lemma_mul_le(ld - spread, sn as int, 2 * ln, sd as int);
        lemma_base_nonneg(hd as int, sd as int, ln as int, chroma as int);
        lemma_mul_le(120 * ld, sd as int, 120 * 0x1_0000_0000int, 0x1_0000_0000int);
        lemma_mul_le(120 * ld * sd, hd as int, 120 * 0x1_0000_0000int * 0x1_0000_0000int, 0x1_0000_0000int);
        lemma_mul_pos(120 * ld as int, sd as int);
        lemma_mul_pos(120 * ld * sd, hd as int);
    }
    let mid: u128 = 2 * chroma * (60 * hd - dist);
    let top: u128 = 120 * hd * chroma;
    let base: u128 = 120 * sd * hd * ln - 60 * hd * chroma;
    let den: u128 = 120 * ld * sd * hd;
    let sector: u128 = hn / (60 * hd);
    let (r1, g1, b1) = if sector == 0 {
        (top, mid, 0)
    } else if sector == 1 {
        (mid, top, 0)
    } else if sector == 2 {
        (0, top, mid)
    } else if sector == 3 {
        (0, mid, top)
    } else if sector == 4 {
        (mid, 0, top)
    } else {
        (top, 0, mid)
    };
    RGB { r: byte_of(r1 + base, den), g: byte_of(g1 + base, den), b: byte_of(b1 + base, den) }
}

/// The channels `(hi, md, lo)` of a colour placed as the 60-degree hue
/// sector `sector` orders them.
pub open spec fn sector_rgb(sector: int, hi: int, md: int, lo: int) -> RGB {
    let (r, g, b) = if sector == 0 {
        (hi, md, lo)
    } else if sector == 1 {
        (md, hi, lo)
    } else if sector == 2 {
        (lo, hi, md)
    } else if sector == 3 {
        (lo, md, hi)
    } else if sector == 4 {
        (md, lo, hi)
    } else {
        (hi, lo, md)
    };
    RGB { r: r as u8, g: g as u8, b: b as u8 }
}

proof fn lemma_to_byte_exact(v: int, k: int)
    requires
        0 < k,
        0 <= v <= 255,
    ensures
        to_byte(240 * k * v, 61200 * k) == v,
{
    assert(510 * (240 * k * v) + 61200 * k == v * (2 * (61200 * k)) + 61200 * k) by (
    nonlinear_arith);
    vstd::arithmetic::div_mod::lemma_fundamental_div_mod_converse(
        510 * (240 * k * v) + 61200 * k,
        2 * (61200 * k),
        v,
        61200 * k,
    );
}

/// The colour that `rgb_from_parts` rebuilds from the exact hue, saturation
/// and lightness of a colour with largest channel `hi`, smallest `lo` and
/// remaining channel `md`.
proof fn lemma_parts_exact(
    hn: int,
    d: int,
    s: int,
    lo: int,
    hi: int,
    md: int,
    sector: int,
    t: int,
)
    requires
        0 < d,
        0 < s,
        hi == lo + d,
        0 <= lo,
        hi <= 255,
        lo <= md <= hi,
        2 * s == 510 - abs(2 * (hi + lo) - 510),
        0 <= sector < 6,
        hn / (60 * d) == sector,
        hn % (120 * d) == t,
        60 * d - abs(t - 60 * d) == 60 * (md - lo),
    ensures
        rgb_from_parts(hn, d, d, s, hi + lo, 510) == sector_rgb(sector, hi, md, lo),
{
    let k = s * d;
    lemma_mul_pos(s, d);
    let chroma = (510 - abs(2 * (hi + lo) - 510)) * d;
    assert(chroma == 2 * k) by (nonlinear_arith)
        requires
            chroma == (510 - abs(2 * (hi + lo) - 510)) * d,
            510 - abs(2 * (hi + lo) - 510) == 2 * s,
            k == s * d,
    ;
    let w = 60 * d - abs(t - 60 * d);
    assert(120 * d * chroma + (120 * s * d * (hi + lo) - 60 * d * chroma) == 240 * k * hi
        && 120 * s * d * (hi + lo) - 60 * d * chroma == 240 * k * lo
        && 2 * chroma * w + (120 * s * d * (hi + lo) - 60 * d * chroma) == 240 * k * md
        && 120 * 510 * s * d == 61200 * k) by (nonlinear_arith)
        requires
            chroma == 2 * k,
            k == s * d,
            hi == lo + d,
            w == 60 * (md - lo),
    ;
    lemma_to_byte_exact(hi, k);
    lemma_to_byte_exact(lo, k);
    lemma_to_byte_exact(md, k);
}

/// Converting a colour to HSL and back gives the same colour again: both
/// conversions are exact, so no channel moves at all.
pub proof fn lemma_hsl_round_trip(r: u8, g: u8, b: u8)
    ensures
        rgb_of_hsl(hue_of(r, g, b), saturation_of(r, g, b), lightness_of(r, g, b)) == (RGB {
            r,
            g,
            b,
        }),
{
    let (ri, gi, bi) = (r as int, g as int, b as int);
    let hi = max3(ri, gi, bi);
    let lo = min3(ri, gi, bi);
    let d = hi - lo;
    let s = 255 - abs(hi + lo - 255);
    let h = hue_of(r, g, b);
    if d == 0 {
        assert(0int % 360 == 0 && 0int % 120 == 0 && 0int / 60 == 0);
        lemma_to_byte_exact(hi, 1);
        assert((510 - abs(2 * (2 * hi) - 510)) * 0 == 0);
        assert(120 * 1 * 1 * (2 * hi) - 60 * 1 * 0 == 240 * 1 * hi);
        assert(120 * 510 * 1 * 1 == 61200 * 1);
    } else {
        let hn = h.num as int;
        assert(0 <= hn < 360 * d);
        vstd::arithmetic::div_mod::lemma_small_mod(hn as nat, (360 * d) as nat);
        if hi == ri {
            if gi >= bi {
                if gi - bi < d {
                    vstd::arithmetic::div_mod::lemma_fundamental_div_mod_converse(hn, 60 * d, 0, hn);
                    vstd::arithmetic::div_mod::lemma_fundamental_div_mod_converse(hn, 120 * d, 0, hn);
                    lemma_parts_exact(hn, d, s, lo, hi, gi, 0, hn);
                } else {
                    vstd::arithmetic::div_mod::lemma_fundamental_div_mod_converse(hn, 60 * d, 1, 0);
                    vstd::arithmetic::div_mod::lemma_fundamental_div_mod_converse(hn, 120 * d, 0, hn);
                    lemma_parts_exact(hn, d, s, lo, hi, hi, 1, hn);
                }
            } else {
                vstd::arithmetic::div_mod::lemma_fundamental_div_mod_converse(
                    hn,
                    60 * d,
                    5,
                    hn - 300 * d,
                );
                vstd::arithmetic::div_mod::lemma_fundamental_div_mod_converse(
                    hn,
                    120 * d,
                    2,
                    hn - 240 * d,
                );
                lemma_parts_exact(hn, d, s, lo, hi, bi, 5, hn - 240 * d);
            }
        } else if hi == gi {
            if bi < ri {
                vstd::arithmetic::div_mod::lemma_fundamental_div_mod_converse(
                    hn,
                    60 * d,
                    1,
                    hn - 60 * d,
                );
                vstd::arithmetic::div_mod::lemma_fundamental_div_mod_converse(hn, 120 * d, 0, hn);
                lemma_parts_exact(hn, d, s, lo, hi, ri, 1, hn);
            } else if bi - ri < d {
                vstd::arithmetic::div_mod::lemma_fundamental_div_mod_converse(
                    hn,
                    60 * d,
                    2,
                    hn - 120 * d,
                );
                vstd::arithmetic::div_mod::lemma_fundamental_div_mod_converse(
                    hn,
                    120 * d,
                    1,
                    hn - 120 * d,
                );
                lemma_parts_exact(hn, d, s, lo, hi, bi, 2, hn - 120 * d);
            } else {
                vstd::arithmetic::div_mod::lemma_fundamental_div_mod_converse(hn, 60 * d, 3, 0);
                vstd::arithmetic::div_mod::lemma_fundamental_div_mod_converse(
                    hn,
                    120 * d,
                    1,
                    hn - 120 * d,
                );
                lemma_parts_exact(hn, d, s, lo, hi, bi, 3, hn - 120 * d);
            }
        } else {
            if ri < gi {
                vstd::arithmetic::div_mod::lemma_fundamental_div_mod_converse(
                    hn,
                    60 * d,
                    3,
                    hn - 180 * d,
                );
                vstd::arithmetic::div_mod::lemma_fundamental_div_mod_converse(
                    hn,
                    120 * d,
                    1,
                    hn - 120 * d,
                );
                lemma_parts_exact(hn, d, s, lo, hi, gi, 3, hn - 120 * d);
            } else {
                vstd::arithmetic::div_mod::lemma_fundamental_div_mod_converse(
                    hn,
                    60 * d,
                    4,
                    hn - 240 * d,
                );
                vstd::arithmetic::div_mod::lemma_fundamental_div_mod_converse(
                    hn,
                    120 * d,
                    2,
                    hn - 240 * d,
                );
                lemma_parts_exact(hn, d, s, lo, hi, ri, 4, hn - 240 * d);
            }
        }
    }
}

/// The ranges of the exact HSL values of any 8-bit colour.
pub proof fn lemma_hsl_of_ranges(r: u8, g: u8, b: u8)
    ensures
        0 < hue_of(r, g, b).den <= 255,
        0 <= hue_of(r, g, b).num < 360 * hue_of(r, g, b).den,
        0 < saturation_of(r, g, b).den <= 255,
        0 <= saturation_of(r, g, b).num <= saturation_of(r, g, b).den,
        lightness_of(r, g, b).den == 510,
        0 <= lightness_of(r, g, b).num <= 510,
{
}

} // verus!
