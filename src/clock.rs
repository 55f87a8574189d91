use vstd::prelude::*;
use crate::fraction::Fraction;
use crate::vram::{
    VRam, blue_of, green_of, lemma_index_in_bounds, lemma_index_split, opaque, pack_opaque,
    red_of, unpack_rgb,
};

verus! {

/// A time of day shown on the analog clock.
#[derive(Clone, Copy, Debug)]
pub struct ClockTime {
    pub hours: u32,
    pub minutes: u32,
    pub seconds: u32,
}

/// Clockwise angles from 12 o'clock of the hour, minute and second hands,
/// in degrees, each as a fraction over 120: the hour hand turns 30 degrees
/// an hour (on a 12-hour dial) plus its share of the minutes and seconds,
/// the minute hand 6 degrees a minute plus 0.1 a second, the second hand 6
/// degrees a second.
pub fn calculate_angles(time: &ClockTime) -> (angles: (Fraction, Fraction, Fraction))
    ensures
        angles.0.num == 3600 * (time.hours % 12) + 60 * time.minutes + time.seconds,
        angles.1.num == 720 * time.minutes + 12 * time.seconds,
        angles.2.num == 720 * time.seconds,
        angles.0.den == 120,
        angles.1.den == 120,
        angles.2.den == 120,
{
    let h = time.hours as i64;
    let m = time.minutes as i64;
    let s = time.seconds as i64;
    let sek_angle = Fraction { num: 720 * s, den: 120 };
    let min_angle = Fraction { num: 720 * m + 12 * s, den: 120 };
    let hod_angle = Fraction { num: 3600 * (h % 12) + 60 * m + s, den: 120 };
    (hod_angle, min_angle, sek_angle)
}

/// `fg` laid over `bg` with opacity `a / 255`, truncated.
pub open spec fn blend_channel(fg: int, bg: int, a: int) -> u8 {
    ((fg * a + bg * (255 - a)) / 255) as u8
}

/// The sample at `(x, y)` after an `ow x oh` RGBA overlay has been laid on
/// `v` with its top-left corner at `(offx, offy)`. Covered pixels are
/// alpha-blended; fully transparent overlay pixels and uncovered pixels keep
/// the old sample.
pub open spec fn blended_pixel(
    v: VRam,
    ow: int,
    oh: int,
    overlay: Seq<u8>,
    offx: int,
    offy: int,
    x: int,
    y: int,
) -> u32 {
    let ox = x - offx;
    let oy = y - offy;
    let p = v.pixel(x, y);
    if 0 <= ox < ow && 0 <= oy < oh {
        let i = 4 * (oy * ow + ox);
        let a = overlay[i + 3] as int;
        if a == 0 {
            p
        } else {
            opaque(
                blend_channel(overlay[i] as int, red_of(p) as int, a),
                blend_channel(overlay[i + 1] as int, green_of(p) as int, a),
                blend_channel(overlay[i + 2] as int, blue_of(p) as int, a),
            )
        }
    } else {
        p
    }
}

fn blend_byte(fg: u8, bg: u8, a: u8) -> (c: u8)
    ensures
        c == blend_channel(fg as int, bg as int, a as int),
{
    assert(fg * a + bg * (255 - a) <= 255 * 255) by (nonlinear_arith)
        requires
            fg <= 255,
            bg <= 255,
            a <= 255,
    ;
    ((fg as u32 * a as u32 + bg as u32 * (255 - a as u32)) / 255) as u8
}

/// Lays an `overlay_width x overlay_height` RGBA image (four bytes per
/// pixel, row by row) over the buffer, centred on `(target_cx, target_cy)`,
/// blending by the overlay's alpha. Parts that fall outside the buffer are
/// dropped.
pub fn blend_image_on_vram(
    vram: &mut VRam,
    overlay_width: u32,
    overlay_height: u32,
    overlay: &Vec<u8>,
    target_cx: u32,
    target_cy: u32,
)
    requires
        old(vram).wf(),
        overlay@.len() == 4 * (overlay_width as int * overlay_height as int),
    ensures
        final(vram).wf(),
        final(vram).width == old(vram).width,
        final(vram).height == old(vram).height,
        forall|x: int, y: int|
            old(vram).in_bounds(x, y) ==> #[trigger] final(vram).pixel(x, y) == blended_pixel(
                *old(vram),
                overlay_width as int,
                overlay_height as int,
                overlay@,
                target_cx - overlay_width / 2,
                target_cy - overlay_height / 2,
                x,
                y,
            ),
{
    let ghost src = *vram;
    let total = overlay.len();
    let offset_x: i64 = target_cx as i64 - (overlay_width / 2) as i64;
    let offset_y: i64 = target_cy as i64 - (overlay_height / 2) as i64;
    let w = vram.width;
    let h = vram.height;
    let n = vram.data.len();
    let mut i: usize = 0;
    while i < n
        invariant
            src.wf(),
            vram.wf(),
            vram.width == w,
            vram.height == h,
            w == src.width,
            h == src.height,
            n == src.data@.len(),
            total == overlay@.len(),
            overlay@.len() == 4 * (overlay_width as int * overlay_height as int),
            offset_x == target_cx - overlay_width / 2,
            offset_y == target_cy - overlay_height / 2,
            i <= n,
            forall|j: int| i <= j < n ==> #[trigger] vram.data@[j] == src.data@[j],
            forall|j: int|
                0 <= j < i ==> #[trigger] vram.data@[j] == blended_pixel(
                    src,
                    overlay_width as int,
                    overlay_height as int,
                    overlay@,
                    offset_x as int,
                    offset_y as int,
                    j % w as int,
                    j / w as int,
                ),
        decreases n - i,
    {
        proof {
            lemma_index_split(i as int, w as int, h as int);
        }
        let x = (i as u32) % w;
        let y = (i as u32) / w;
        let ox: i64 = x as i64 - offset_x;
        let oy: i64 = y as i64 - offset_y;
        if 0 <= ox && ox < overlay_width as i64 && 0 <= oy && oy < overlay_height as i64 {
            proof {
                lemma_index_in_bounds(
                    overlay_width as int,
                    overlay_height as int,
                    ox as int,
                    oy as int,
                );
            }
            let k: usize = 4 * (oy as usize * overlay_width as usize + ox as usize);
            let a = overlay[k + 3];
            if a > 0 {
                let (bg_r, bg_g, bg_b) = unpack_rgb(vram.data[i]);
                let out_r = blend_byte(overlay[k], bg_r, a);
                let out_g = blend_byte(overlay[k + 1], bg_g, a);
                let out_b = blend_byte(overlay[k + 2], bg_b, a);
                vram.data.set(i, pack_opaque(out_r, out_g, out_b));
            }
        }
        i = i + 1;
    }
    proof {
        assert forall|x: int, y: int| src.in_bounds(x, y) implies #[trigger] vram.pixel(x, y)
            == blended_pixel(
            src,
            overlay_width as int,
            overlay_height as int,
            overlay@,
            offset_x as int,
            offset_y as int,
            x,
            y,
        ) by {
            lemma_index_in_bounds(w as int, h as int, x, y);
            vstd::arithmetic::div_mod::lemma_fundamental_div_mod_converse(
                y * w + x,
                w as int,
                y,
                x,
            );
        }
    }
}

} // verus!
