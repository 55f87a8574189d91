use vstd::prelude::*;
use crate::color::abs;
use crate::kernel::{Kernel, KernelModel, box_blur, identity_kernel};
use crate::vram::{
    VRam, blue_of, green_of, lemma_index_in_bounds, lemma_index_split, lemma_rgb_of_opaque, opaque,
    pack_opaque, red_of, rgb_of, unpack_rgb,
};

verus! {

/// `v` moved into `[lo, hi]`.
pub open spec fn clamp(v: int, lo: int, hi: int) -> int {
    if v < lo {
        lo
    } else if v > hi {
        hi
    } else {
        v
    }
}

/// The sample at `(x, y)`, with coordinates outside the buffer moved to the
/// nearest edge pixel.
pub open spec fn edge_sample(src: VRam, x: int, y: int) -> u32 {
    src.pixel(clamp(x, 0, src.width - 1), clamp(y, 0, src.height - 1))
}

/// Channel `c` of a sample: 0 red, 1 green, 2 blue.
pub open spec fn channel(p: u32, c: int) -> int {
    if c == 0 {
        red_of(p) as int
    } else if c == 1 {
        green_of(p) as int
    } else {
        blue_of(p) as int
    }
}

/// Weighted sum of channel `c` over the first `n` cells (row-major) of the
/// kernel window centred on `(x, y)`. Cell `(kx, ky)` reads the source at
/// `(x + kx - width / 2, y + ky - height / 2)`.
pub open spec fn window_sum(src: VRam, k: KernelModel, x: int, y: int, c: int, n: nat) -> int
    decreases n,
{
    if n == 0 {
        0
    } else {
        let i = n - 1;
        let kx = i % k.width;
        let ky = i / k.width;
        window_sum(src, k, x, y, c, (n - 1) as nat) + k.weights[i] * channel(
            edge_sample(src, x + kx - k.width / 2, y + ky - k.height / 2),
            c,
        )
    }
}

/// The divider actually used: a zero divider counts as 1.
pub open spec fn effective_divider(k: KernelModel) -> int {
    if k.divider == 0 {
        1
    } else {
        k.divider
    }
}

/// Integer division rounding toward zero.
pub open spec fn trunc_div(a: int, d: int) -> int {
    let q = abs(a) / abs(d);
    if (a < 0) != (d < 0) {
        -q
    } else {
        q
    }
}

pub open spec fn clamp_byte(v: int) -> u8 {
    clamp(v, 0, 255) as u8
}

/// Channel `c` of the convolution of `src` by `k` at `(x, y)`.
pub open spec fn convolved_channel(src: VRam, k: KernelModel, x: int, y: int, c: int) -> u8 {
    clamp_byte(
        trunc_div(window_sum(src, k, x, y, c, (k.width * k.height) as nat), effective_divider(k)),
    )
}

/// The (opaque) output sample of the convolution of `src` by `k` at `(x, y)`.
pub open spec fn convolved_pixel(src: VRam, k: KernelModel, x: int, y: int) -> u32 {
    opaque(
        convolved_channel(src, k, x, y, 0),
        convolved_channel(src, k, x, y, 1),
        convolved_channel(src, k, x, y, 2),
    )
}

/// Every term of a window sum is at most `2^31 * 255` in size.
proof fn lemma_window_sum_bound(src: VRam, k: KernelModel, x: int, y: int, c: int, n: nat)
    requires
        n <= k.weights.len(),
    ensures
        abs(window_sum(src, k, x, y, c, n)) <= n * 0x80_0000_0000,
    decreases n,
{
    if n > 0 {
        lemma_window_sum_bound(src, k, x, y, c, (n - 1) as nat);
        let w = k.weights[n - 1] as int;
        let ch = channel(
            edge_sample(src, x + (n - 1) % k.width - k.width / 2, y + (n - 1) / k.width - k.height / 2),
            c,
        );
        lemma_term_bound(w, ch);
    }
}

proof fn lemma_term_bound(w: int, ch: int)
    by (nonlinear_arith)
    requires
        i32::MIN <= w <= i32::MAX,
        0 <= ch <= 255,
    ensures
        abs(w * ch) <= 0x80_0000_0000,
{
}

/// `a / d` rounded toward zero, for a non-zero divider.
fn div_toward_zero(a: i128, d: i32) -> (q: i128)
    requires
        d != 0,
        abs(a as int) <= 0x1_0000_0000_0000_0000_0000_0000_0000,
    ensures
        q as int == trunc_div(a as int, d as int),
{
    let ua: u128 = if a < 0 {
        (-a) as u128
    } else {
        a as u128
    };
    let ud: u128 = if d < 0 {
        (-(d as i128)) as u128
    } else {
        d as u128
    };
    proof {
        vstd::arithmetic::div_mod::lemma_div_is_ordered_by_denominator(ua as int, 1, ud as int);
    }
    let q = (ua / ud) as i128;
    if (a < 0) != (d < 0) {
        -q
    } else {
        q
    }
}

fn clamp_to_byte(v: i128) -> (b: u8)
    ensures
        b == clamp_byte(v as int),
{
    if v < 0 {
        0
    } else if v > 255 {
        255
    } else {
        v as u8
    }
}

/// The edge-clamped source coordinate for window offset `k - half`.
fn clamp_coord(p: u32, k: usize, half: usize, size: u32) -> (c: u32)
    requires
        size > 0,
    ensures
        c as int == clamp(p + k - half, 0, size - 1),
{
    let v: i128 = p as i128 + k as i128 - half as i128;
    if v < 0 {
        0
    } else if v > (size - 1) as i128 {
        size - 1
    } else {
        v as u32
    }
}

/// The convolved colour of pixel `(x, y)`.
fn convolve_at(source: &VRam, kernel: &Kernel, x: u32, y: u32) -> (c: (u8, u8, u8))
    requires
        source.wf(),
        kernel.wf(),
        source.in_bounds(x as int, y as int),
    ensures
        c == (
            convolved_channel(*source, kernel@, x as int, y as int, 0),
            convolved_channel(*source, kernel@, x as int, y as int, 1),
            convolved_channel(*source, kernel@, x as int, y as int, 2),
        ),
{
    let ghost k = kernel@;
    let ghost src = *source;
    let kw = kernel.width;
    let kh = kernel.height;
    let half_w = kw / 2;
    let half_h = kh / 2;
    let divider: i32 = if kernel.divider == 0 {
        1
    } else {
        kernel.divider
    };
    let len = kernel.data.len();
    let mut sum_r: i128 = 0;
    let mut sum_g: i128 = 0;
    let mut sum_b: i128 = 0;
    let mut ky: usize = 0;
    while ky < kh
        invariant
            kernel.wf(),
            source.wf(),
            source.in_bounds(x as int, y as int),
            k == kernel@,
            src == *source,
            kw == kernel.width,
            kh == kernel.height,
            half_w == kw / 2,
            half_h == kh / 2,
            len == kernel.data@.len(),
            ky <= kh,
            ky * kw <= len,
            sum_r == window_sum(src, k, x as int, y as int, 0, (ky * kw) as nat),
            sum_g == window_sum(src, k, x as int, y as int, 1, (ky * kw) as nat),
            sum_b == window_sum(src, k, x as int, y as int, 2, (ky * kw) as nat),
        decreases kh - ky,
    {
        let mut kx: usize = 0;
        while kx < kw
            invariant
                kernel.wf(),
                source.wf(),
                source.in_bounds(x as int, y as int),
                k == kernel@,
                src == *source,
                kw == kernel.width,
                kh == kernel.height,
                half_w == kw / 2,
                half_h == kh / 2,
                len == kernel.data@.len(),
                ky < kh,
                kx <= kw,
                ky * kw + kx <= len,
                sum_r == window_sum(src, k, x as int, y as int, 0, (ky * kw + kx) as nat),
                sum_g == window_sum(src, k, x as int, y as int, 1, (ky * kw + kx) as nat),
                sum_b == window_sum(src, k, x as int, y as int, 2, (ky * kw + kx) as nat),
            decreases kw - kx,
        {
            let ghost n: int = ky * kw + kx;
            proof {
                lemma_index_in_bounds(kw as int, kh as int, kx as int, ky as int);
                vstd::arithmetic::div_mod::lemma_fundamental_div_mod_converse(
                    n,
                    kw as int,
                    ky as int,
                    kx as int,
                );
                lemma_window_sum_bound(src, k, x as int, y as int, 0, n as nat);
                lemma_window_sum_bound(src, k, x as int, y as int, 1, n as nat);
                lemma_window_sum_bound(src, k, x as int, y as int, 2, n as nat);
            }
            let px = clamp_coord(x, kx, half_w, source.width);
            let py = clamp_coord(y, ky, half_h, source.height);
            if let Some((r, g, b)) = source.get_pixel_rgb(px, py) {
                let w = kernel.get(kx, ky);
                proof {
                    lemma_term_bound(w as int, r as int);
                    lemma_term_bound(w as int, g as int);
                    lemma_term_bound(w as int, b as int);
                }
                sum_r = sum_r + w as i128 * r as i128;
                sum_g = sum_g + w as i128 * g as i128;
                sum_b = sum_b + w as i128 * b as i128;
            }
            kx = kx + 1;
        }
        proof {
            assert(ky * kw + kw == (ky + 1) * kw) by (nonlinear_arith);
            assert((ky + 1) * kw <= kw * kh) by (nonlinear_arith)
                requires
                    ky + 1 <= kh,
            ;
        }
        ky = ky + 1;
    }
    proof {
        assert(ky * kw == kw * kh) by (nonlinear_arith)
            requires ky == kh;
        lemma_window_sum_bound(src, k, x as int, y as int, 0, (kw * kh) as nat);
        lemma_window_sum_bound(src, k, x as int, y as int, 1, (kw * kh) as nat);
        lemma_window_sum_bound(src, k, x as int, y as int, 2, (kw * kh) as nat);
    }
    let r = clamp_to_byte(div_toward_zero(sum_r, divider));
    let g = clamp_to_byte(div_toward_zero(sum_g, divider));
    let b = clamp_to_byte(div_toward_zero(sum_b, divider));
    (r, g, b)
}

/// Convolves `source` by `kernel` into a new buffer of the same size.
///
/// Each output pixel is the kernel-weighted sum of the window around it,
/// read from the unchanged source with clamp-to-edge sampling, divided by
/// the kernel's divider (0 counts as 1) rounding toward zero, and clamped
/// into `[0, 255]`.
pub fn convolve(source: &VRam, kernel: &Kernel) -> (out: VRam)
    requires
        source.wf(),
        kernel.wf(),
    ensures
        out.wf(),
        out.width == source.width,
        out.height == source.height,
        forall|x: int, y: int|
            source.in_bounds(x, y) ==> #[trigger] out.pixel(x, y) == convolved_pixel(
                *source,
                kernel@,
                x,
                y,
            ),
{
    let w = source.width;
    let h = source.height;
    let mut data: Vec<u32> = Vec::new();
    let mut y: u32 = 0;
    while y < h
        invariant
            source.wf(),
            kernel.wf(),
            w == source.width,
            h == source.height,
            y <= h,
            data@.len() == y * w,
            forall|j: int|
                0 <= j < data@.len() ==> #[trigger] data@[j] == convolved_pixel(
                    *source,
                    kernel@,
                    j % w as int,
                    j / w as int,
                ),
        decreases h - y,
    {
        let mut x: u32 = 0;
        while x < w
            invariant
                source.wf(),
                kernel.wf(),
                w == source.width,
                h == source.height,
                y < h,
                x <= w,
                data@.len() == y * w + x,
                forall|j: int|
                    0 <= j < data@.len() ==> #[trigger] data@[j] == convolved_pixel(
                        *source,
                        kernel@,
                        j % w as int,
                        j / w as int,
                    ),
            decreases w - x,
        {
            let (r, g, b) = convolve_at(source, kernel, x, y);
            proof {
                vstd::arithmetic::div_mod::lemma_fundamental_div_mod_converse(
                    y * w + x,
                    w as int,
                    y as int,
                    x as int,
                );
                lemma_index_in_bounds(w as int, h as int, x as int, y as int);
            }
            data.push(pack_opaque(r, g, b));
            x = x + 1;
        }
        proof {
            assert(y * w + w == (y + 1) * w) by (nonlinear_arith);
        }
        y = y + 1;
    }
    proof {
        vstd::arithmetic::mul::lemma_mul_is_commutative(w as int, h as int);
    }
    let out = VRam { width: w, height: h, data };
    proof {
        assert forall|x: int, y: int| source.in_bounds(x, y) implies #[trigger] out.pixel(x, y)
            == convolved_pixel(*source, kernel@, x, y) by {
            lemma_index_in_bounds(w as int, h as int, x, y);
            vstd::arithmetic::div_mod::lemma_fundamental_div_mod_converse(
                y * w + x,
                w as int,
                y,
                x,
            );
        }
    }
    out
}

/// Blurs the whole buffer with the 3 x 3 box kernel, reading from a
/// snapshot of the buffer as it was before the call.
pub fn convolution(vram: &mut VRam)
    requires
        old(vram).wf(),
    ensures
        final(vram).wf(),
        final(vram).width == old(vram).width,
        final(vram).height == old(vram).height,
        forall|x: int, y: int|
            old(vram).in_bounds(x, y) ==> #[trigger] final(vram).pixel(x, y) == convolved_pixel(
                *old(vram),
                box_blur(3),
                x,
                y,
            ),
{
    let kernel = Kernel::create_blur(3);
    let out = convolve(vram, &kernel);
    *vram = out;
}

/// The result of edge-preserving smoothing at `(x, y)`: the convolved pixel
/// where its red channel differs from the source pixel's by less than
/// `threshold`, else the source colour (made opaque).
pub open spec fn smoothed_pixel(src: VRam, k: KernelModel, threshold: int, x: int, y: int) -> u32 {
    let orig = src.pixel(x, y);
    let blur = convolved_pixel(src, k, x, y);
    if abs(red_of(blur) - red_of(orig)) < threshold {
        blur
    } else {
        opaque(red_of(orig), green_of(orig), blue_of(orig))
    }
}

/// Edge-preserving smoothing: convolves the buffer by `kernel`, then keeps
/// each convolved pixel only where its red channel moved by less than
/// `threshold`; elsewhere the source colour stays.
pub fn convolution_smoothing(vram: &mut VRam, kernel: &Kernel, threshold: i32)
    requires
        old(vram).wf(),
        kernel.wf(),
    ensures
        final(vram).wf(),
        final(vram).width == old(vram).width,
        final(vram).height == old(vram).height,
        forall|x: int, y: int|
            old(vram).in_bounds(x, y) ==> #[trigger] final(vram).pixel(x, y) == smoothed_pixel(
                *old(vram),
                kernel@,
                threshold as int,
                x,
                y,
            ),
{
    let ghost src = *vram;
    let blurred = convolve(vram, kernel);
    let w = vram.width;
    let h = vram.height;
    let n = vram.data.len();
    let mut i: usize = 0;
    while i < n
        invariant
            src.wf(),
            vram.width == src.width,
            vram.height == src.height,
            w == src.width,
            h == src.height,
            n == src.data@.len(),
            vram.data@.len() == n,
            i <= n,
            blurred.wf(),
            blurred.width == src.width,
            blurred.height == src.height,
            forall|x: int, y: int|
                src.in_bounds(x, y) ==> #[trigger] blurred.pixel(x, y) == convolved_pixel(
                    src,
                    kernel@,
                    x,
                    y,
                ),
            forall|j: int| i <= j < n ==> #[trigger] vram.data@[j] == src.data@[j],
            forall|j: int|
                0 <= j < i ==> #[trigger] vram.data@[j] == smoothed_pixel(
                    src,
                    kernel@,
                    threshold as int,
                    j % w as int,
                    j / w as int,
                ),
        decreases n - i,
    {
        proof {
            lemma_index_split(i as int, w as int, h as int);
            assert(blurred.pixel(i as int % w as int, i as int / w as int) == convolved_pixel(
                src,
                kernel@,
                i as int % w as int,
                i as int / w as int,
            ));
        }
        let orig = vram.data[i];
        let bl = blurred.data[i];
        let (or, og, ob) = unpack_rgb(orig);
        let (br, _bg, _bb) = unpack_rgb(bl);
        let diff: i32 = if br >= or {
            (br - or) as i32
        } else {
            (or - br) as i32
        };
        let v = if diff < threshold {
            bl
        } else {
            pack_opaque(or, og, ob)
        };
        vram.data.set(i, v);
        i = i + 1;
    }
    proof {
        assert forall|x: int, y: int| src.in_bounds(x, y) implies #[trigger] vram.pixel(x, y)
            == smoothed_pixel(src, kernel@, threshold as int, x, y) by {
            lemma_index_in_bounds(w as int, h as int, x, y);
            vstd::arithmetic::div_mod::lemma_fundamental_div_mod_converse(
                y * w + x,
                w as int,
                y,
                x,
            );
        }
    }
}

/// Convolving by the identity kernel leaves the colour of every pixel as
/// it was.
pub proof fn lemma_identity_kernel_keeps_colours(src: VRam, x: int, y: int)
    requires
        src.wf(),
        src.in_bounds(x, y),
    ensures
        rgb_of(convolved_pixel(src, identity_kernel(), x, y)) == rgb_of(src.pixel(x, y)),
{
    let k = identity_kernel();
    let p = src.pixel(x, y);
    reveal_with_fuel(window_sum, 10);
    assert(k.weights[4] == 1);
    assert forall|i: int| 0 <= i < 9 && i != 4 implies #[trigger] k.weights[i] == 0 by {}
    assert(edge_sample(src, x + 4int % 3 - 3int / 2, y + 4int / 3 - 3int / 2) == p);
    assert forall|c: int| 0 <= c < 3 implies #[trigger] window_sum(src, k, x, y, c, 9) == channel(
        p,
        c,
    ) by {
        assert forall|i: int| 0 <= i < 9 && i != 4 implies #[trigger] (k.weights[i] * channel(
            edge_sample(src, x + i % 3 - 3int / 2, y + i / 3 - 3int / 2),
            c,
        )) == 0 by {}
        assert(k.weights[4] * channel(p, c) == channel(p, c));
    }
    assert(k.width * k.height == 9);
    assert(convolved_channel(src, k, x, y, 0) == red_of(p)) by {
        assert(window_sum(src, k, x, y, 0, 9) == channel(p, 0));
        assert(effective_divider(k) == 1);
        vstd::arithmetic::div_mod::lemma_div_basics(channel(p, 0));
        assert(trunc_div(channel(p, 0), 1) == channel(p, 0));
        assert(clamp_byte(channel(p, 0)) == red_of(p));
    }
    assert(convolved_channel(src, k, x, y, 1) == green_of(p)) by {
        assert(window_sum(src, k, x, y, 1, 9) == channel(p, 1));
        assert(effective_divider(k) == 1);
        vstd::arithmetic::div_mod::lemma_div_basics(channel(p, 1));
        assert(trunc_div(channel(p, 1), 1) == channel(p, 1));
        assert(clamp_byte(channel(p, 1)) == green_of(p));
    }
    assert(convolved_channel(src, k, x, y, 2) == blue_of(p)) by {
        assert(window_sum(src, k, x, y, 2, 9) == channel(p, 2));
        assert(effective_divider(k) == 1);
        vstd::arithmetic::div_mod::lemma_div_basics(channel(p, 2));
        assert(trunc_div(channel(p, 2), 1) == channel(p, 2));
        assert(clamp_byte(channel(p, 2)) == blue_of(p));
    }
    lemma_rgb_of_opaque(red_of(p), green_of(p), blue_of(p));
}

/// Every window sum of the box blur over a buffer of one colour is the
/// number of cells times that colour's channel.
proof fn lemma_box_window_sum(src: VRam, size: int, x: int, y: int, c: int, n: nat)
    requires
        src.wf(),
        1 <= size,
        n <= size * size,
        src.in_bounds(x, y),
        forall|i: int|
            0 <= i < src.data@.len() ==> rgb_of(#[trigger] src.data@[i]) == rgb_of(
                src.pixel(x, y),
            ),
    ensures
        window_sum(src, box_blur(size), x, y, c, n) == n * channel(src.pixel(x, y), c),
    decreases n,
{
    if n > 0 {
        let k = box_blur(size);
        lemma_box_window_sum(src, size, x, y, c, (n - 1) as nat);
        let i = n - 1;
        let sx = clamp(x + i % size - size / 2, 0, src.width - 1);
        let sy = clamp(y + i / size - size / 2, 0, src.height - 1);
        lemma_index_in_bounds(src.width as int, src.height as int, sx, sy);
        let q = src.data@[src.index_of(sx, sy)];
        assert(rgb_of(q) == rgb_of(src.pixel(x, y)));
        assert(channel(q, c) == channel(src.pixel(x, y), c));
        assert(k.weights[i] == 1);
        let v = channel(src.pixel(x, y), c);
        assert(edge_sample(src, x + i % k.width - k.width / 2, y + i / k.width - k.height / 2)
            == q);
        assert(k.weights[i] * channel(q, c) == v);
        assert((n - 1) * v + v == n * v) by (nonlinear_arith);
    } else {
        let v = channel(src.pixel(x, y), c);
        assert(0 * v == 0);
    }
}

/// The box blur (of any size) leaves a buffer of one colour unchanged.
pub proof fn lemma_box_blur_keeps_uniform(src: VRam, size: int, x: int, y: int)
    requires
        src.wf(),
        1 <= size,
        src.in_bounds(x, y),
        forall|i: int, j: int|
            0 <= i < src.data@.len() && 0 <= j < src.data@.len() ==> rgb_of(
                #[trigger] src.data@[i],
            ) == rgb_of(#[trigger] src.data@[j]),
    ensures
        rgb_of(convolved_pixel(src, box_blur(size), x, y)) == rgb_of(src.pixel(x, y)),
{
    let p = src.pixel(x, y);
    lemma_index_in_bounds(src.width as int, src.height as int, x, y);
    assert forall|i: int| 0 <= i < src.data@.len() implies rgb_of(#[trigger] src.data@[i]) == rgb_of(
        p,
    ) by {
        assert(rgb_of(src.data@[i]) == rgb_of(src.data@[src.index_of(x, y)]));
    }
    let n = size * size;
    assert(n >= 1) by (nonlinear_arith)
        requires
            n == size * size,
            1 <= size,
    ;
    assert forall|c: int| 0 <= c < 3 implies #[trigger] trunc_div(
        window_sum(src, box_blur(size), x, y, c, n as nat),
        n,
    ) == channel(p, c) by {
        lemma_box_window_sum(src, size, x, y, c, n as nat);
        let v = channel(p, c);
        assert(0 <= n * v) by (nonlinear_arith)
            requires
                n >= 1,
                v >= 0,
        ;
        vstd::arithmetic::div_mod::lemma_div_multiples_vanish(v, n);
        vstd::arithmetic::mul::lemma_mul_is_commutative(v, n);
    }
    assert(effective_divider(box_blur(size)) == n);
    lemma_rgb_of_opaque(red_of(p), green_of(p), blue_of(p));
    assert(convolved_channel(src, box_blur(size), x, y, 0) == red_of(p));
    assert(convolved_channel(src, box_blur(size), x, y, 1) == green_of(p));
    assert(convolved_channel(src, box_blur(size), x, y, 2) == blue_of(p));
}

/// With a threshold of 0 (or below) smoothing keeps every source colour;
/// with a threshold above 255 it keeps every convolved pixel.
pub proof fn lemma_smoothing_threshold_extremes(
    src: VRam,
    k: KernelModel,
    threshold: int,
    x: int,
    y: int,
)
    ensures
        threshold <= 0 ==> smoothed_pixel(src, k, threshold, x, y) == opaque(
            red_of(src.pixel(x, y)),
            green_of(src.pixel(x, y)),
            blue_of(src.pixel(x, y)),
        ),
        threshold > 255 ==> smoothed_pixel(src, k, threshold, x, y) == convolved_pixel(
            src,
            k,
            x,
            y,
        ),
{
}

} // verus!
