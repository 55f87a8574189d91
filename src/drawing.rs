use vstd::prelude::*;
use crate::vram::{VRam, lemma_index_in_bounds, opaque};

verus! {

/// `(x, y)` lies in the closed disc of the given radius around `(cx, cy)`.
pub open spec fn in_disc(cx: int, cy: int, radius: int, x: int, y: int) -> bool {
    (x - cx) * (x - cx) + (y - cy) * (y - cy) <= radius * radius
}

/// Two in-bounds pixels share a sample index only if they are the same pixel.
proof fn lemma_index_unique(v: VRam, x1: int, y1: int, x2: int, y2: int)
    requires
        v.in_bounds(x1, y1),
        v.in_bounds(x2, y2),
        v.index_of(x1, y1) == v.index_of(x2, y2),
    ensures
        x1 == x2 && y1 == y2,
{
    let w = v.width as int;
    vstd::arithmetic::div_mod::lemma_fundamental_div_mod_converse(y1 * w + x1, w, y1, x1);
    vstd::arithmetic::div_mod::lemma_fundamental_div_mod_converse(y2 * w + x2, w, y2, x2);
}

/// A point of the disc lies within `radius` of the centre on each axis.
proof fn lemma_disc_box(cx: int, cy: int, radius: int, x: int, y: int)
    requires
        radius >= 0,
        in_disc(cx, cy, radius, x, y),
    ensures
        cx - radius <= x <= cx + radius,
        cy - radius <= y <= cy + radius,
{
    assert((x - cx) * (x - cx) >= 0 && (y - cy) * (y - cy) >= 0) by (nonlinear_arith);
    if x > cx + radius || x < cx - radius {
        assert((x - cx) * (x - cx) > radius * radius) by (nonlinear_arith)
            requires
                x > cx + radius || x < cx - radius,
                radius >= 0,
        ;
    }
    if y > cy + radius || y < cy - radius {
        assert((y - cy) * (y - cy) > radius * radius) by (nonlinear_arith)
            requires
                y > cy + radius || y < cy - radius,
                radius >= 0,
        ;
    }
}

/// Fills the disc of the given radius around `(cx, cy)` with an opaque
/// colour; the parts outside the buffer are skipped.
pub fn draw_point_circle(vram: &mut VRam, cx: i32, cy: i32, radius: u32, r: u8, g: u8, b: u8)
    requires
        old(vram).wf(),
    ensures
        final(vram).wf(),
        final(vram).width == old(vram).width,
        final(vram).height == old(vram).height,
        forall|x: int, y: int|
            old(vram).in_bounds(x, y) ==> #[trigger] final(vram).pixel(x, y) == if in_disc(
                cx as int,
                cy as int,
                radius as int,
                x,
                y,
            ) {
                opaque(r, g, b)
            } else {
                old(vram).pixel(x, y)
            },
{
    let ghost src = *vram;
    let ghost (c_x, c_y, rad) = (cx as int, cy as int, radius as int);
    assert(radius * radius <= 0x1_0000_0000_0000_0000) by (nonlinear_arith)
        requires
            radius <= u32::MAX,
    ;
    let rr: i128 = radius as i128 * radius as i128;
    let y_end: i64 = cy as i64 + radius as i64;
    let x_end: i64 = cx as i64 + radius as i64;
    let mut y: i64 = cy as i64 - radius as i64;
    proof {
        assert forall|px: int, py: int| src.in_bounds(px, py) implies #[trigger] vram.pixel(px, py)
            == if in_disc(c_x, c_y, rad, px, py) && py < y {
            opaque(r, g, b)
        } else {
            src.pixel(px, py)
        } by {
            if in_disc(c_x, c_y, rad, px, py) {
                lemma_disc_box(c_x, c_y, rad, px, py);
            }
        }
    }
    while y <= y_end
        invariant
            src.wf(),
            vram.wf(),
            vram.width == src.width,
            vram.height == src.height,
            c_x == cx,
            c_y == cy,
            rad == radius,
            rr == rad * rad,
            y_end == c_y + rad,
            x_end == c_x + rad,
            c_y - rad <= y <= y_end + 1,
            forall|px: int, py: int|
                src.in_bounds(px, py) ==> #[trigger] vram.pixel(px, py) == if in_disc(
                    c_x,
                    c_y,
                    rad,
                    px,
                    py,
                ) && py < y {
                    opaque(r, g, b)
                } else {
                    src.pixel(px, py)
                },
        decreases y_end + 1 - y,
    {
        let mut x: i64 = cx as i64 - radius as i64;
        proof {
            assert forall|px: int, py: int| src.in_bounds(px, py) implies #[trigger] vram.pixel(
                px,
                py,
            ) == if in_disc(c_x, c_y, rad, px, py) && (py < y || (py == y && px < x)) {
                opaque(r, g, b)
            } else {
                src.pixel(px, py)
            } by {
                if in_disc(c_x, c_y, rad, px, py) {
                    lemma_disc_box(c_x, c_y, rad, px, py);
                }
            }
        }
        while x <= x_end
            invariant
                src.wf(),
                vram.wf(),
                vram.width == src.width,
                vram.height == src.height,
                c_x == cx,
                c_y == cy,
                rad == radius,
                rr == rad * rad,
                y_end == c_y + rad,
                x_end == c_x + rad,
                c_y - rad <= y <= y_end,
                c_x - rad <= x <= x_end + 1,
                forall|px: int, py: int|
                    src.in_bounds(px, py) ==> #[trigger] vram.pixel(px, py) == if in_disc(
                        c_x,
                        c_y,
                        rad,
                        px,
                        py,
                    ) && (py < y || (py == y && px < x)) {
                        opaque(r, g, b)
                    } else {
                        src.pixel(px, py)
                    },
            decreases x_end + 1 - x,
        {
            let dx: i128 = (x - cx as i64) as i128;
            let dy: i128 = (y - cy as i64) as i128;
            assert(0 <= dx * dx <= 0x1_0000_0000_0000_0000) by (nonlinear_arith)
                requires
                    -0x1_0000_0000 <= dx <= 0x1_0000_0000,
            ;
            assert(0 <= dy * dy <= 0x1_0000_0000_0000_0000) by (nonlinear_arith)
                requires
                    -0x1_0000_0000 <= dy <= 0x1_0000_0000,
            ;
            let inside = dx * dx + dy * dy <= rr;
            if inside && x >= 0 && x < vram.width as i64 && y >= 0 && y < vram.height as i64 {
                let ghost before = *vram;
                vram.set_pixel(x as u32, y as u32, r, g, b);
                proof {
                    lemma_index_in_bounds(
                        src.width as int,
                        src.height as int,
                        x as int,
                        y as int,
                    );
                    assert forall|px: int, py: int| src.in_bounds(px, py) implies #[trigger] vram.pixel(
                        px,
                        py,
                    ) == if in_disc(c_x, c_y, rad, px, py) && (py < y || (py == y && px < x + 1)) {
                        opaque(r, g, b)
                    } else {
                        src.pixel(px, py)
                    } by {
                        lemma_index_in_bounds(src.width as int, src.height as int, px, py);
                        if px != x || py != y {
                            if before.index_of(px, py) == before.index_of(x as int, y as int) {
                                lemma_index_unique(before, px, py, x as int, y as int);
                            }
                            assert(vram.pixel(px, py) == before.pixel(px, py));
                        }
                    }
                }
            } else {
                proof {
                    assert forall|px: int, py: int| src.in_bounds(px, py) implies #[trigger] vram.pixel(
                        px,
                        py,
                    ) == if in_disc(c_x, c_y, rad, px, py) && (py < y || (py == y && px < x + 1)) {
                        opaque(r, g, b)
                    } else {
                        src.pixel(px, py)
                    } by {
                        if px == x && py == y {
                            assert(!in_disc(c_x, c_y, rad, px, py));
                        }
                    }
                }
            }
            x = x + 1;
        }
        proof {
            assert forall|px: int, py: int| src.in_bounds(px, py) implies #[trigger] vram.pixel(
                px,
                py,
            ) == if in_disc(c_x, c_y, rad, px, py) && py < y + 1 {
                opaque(r, g, b)
            } else {
                src.pixel(px, py)
            } by {
                if in_disc(c_x, c_y, rad, px, py) {
                    lemma_disc_box(c_x, c_y, rad, px, py);
                }
            }
        }
        y = y + 1;
    }
    proof {
        assert forall|px: int, py: int| src.in_bounds(px, py) implies #[trigger] vram.pixel(px, py)
            == if in_disc(c_x, c_y, rad, px, py) {
            opaque(r, g, b)
        } else {
            src.pixel(px, py)
        } by {
            if in_disc(c_x, c_y, rad, px, py) {
                lemma_disc_box(c_x, c_y, rad, px, py);
            }
        }
    }
}

} // verus!
