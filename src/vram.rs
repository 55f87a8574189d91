use vstd::prelude::*;

verus! {

/// Red channel of a packed `0xAARRGGBB` sample.
pub open spec fn red_of(p: u32) -> u8 {
    ((p as int / 0x10000) % 0x100) as u8
}

/// Green channel of a packed `0xAARRGGBB` sample.
pub open spec fn green_of(p: u32) -> u8 {
    ((p as int / 0x100) % 0x100) as u8
}

/// Blue channel of a packed `0xAARRGGBB` sample.
pub open spec fn blue_of(p: u32) -> u8 {
    (p as int % 0x100) as u8
}

/// Alpha channel of a packed `0xAARRGGBB` sample.
pub open spec fn alpha_of(p: u32) -> u8 {
    (p as int / 0x1000000) as u8
}

/// The colour channels of a packed sample.
pub open spec fn rgb_of(p: u32) -> (u8, u8, u8) {
    (red_of(p), green_of(p), blue_of(p))
}

/// The packed sample of a fully opaque colour.
pub open spec fn opaque(r: u8, g: u8, b: u8) -> u32 {
    (0xFF00_0000 + r as int * 0x10000 + g as int * 0x100 + b as int) as u32
}

/// Unpacking an opaque colour gives the colour back.
pub proof fn lemma_rgb_of_opaque(r: u8, g: u8, b: u8)
    ensures
        rgb_of(opaque(r, g, b)) == (r, g, b),
        alpha_of(opaque(r, g, b)) == 0xFF,
{
    let p = 0xFF00_0000 + r as int * 0x10000 + g as int * 0x100 + b as int;
    assert(p / 0x10000 == 0xFF00 + r as int) by (nonlinear_arith)
        requires p == 0xFF00_0000 + r as int * 0x10000 + g as int * 0x100 + b as int,
            0 <= r < 256, 0 <= g < 256, 0 <= b < 256;
    assert(p / 0x100 == 0xFF0000 + r as int * 0x100 + g as int) by (nonlinear_arith)
        requires p == 0xFF00_0000 + r as int * 0x10000 + g as int * 0x100 + b as int,
            0 <= r < 256, 0 <= g < 256, 0 <= b < 256;
    assert(p / 0x1000000 == 0xFF) by (nonlinear_arith)
        requires p == 0xFF00_0000 + r as int * 0x10000 + g as int * 0x100 + b as int,
            0 <= r < 256, 0 <= g < 256, 0 <= b < 256;
}

/// Splits a packed sample into its colour channels.
pub fn unpack_rgb(argb: u32) -> (c: (u8, u8, u8))
    ensures
        c == rgb_of(argb),
{
    let r = ((argb >> 16u32) & 0xFFu32) as u8;
    let g = ((argb >> 8u32) & 0xFFu32) as u8;
    let b = (argb & 0xFFu32) as u8;
    assert((argb >> 16u32) & 0xFFu32 == (argb / 0x10000u32) % 0x100u32) by (bit_vector);
    assert((argb >> 8u32) & 0xFFu32 == (argb / 0x100u32) % 0x100u32) by (bit_vector);
    assert(argb & 0xFFu32 == argb % 0x100u32) by (bit_vector);
    (r, g, b)
}

/// The alpha channel of a packed sample.
pub fn unpack_alpha(argb: u32) -> (a: u8)
    ensures
        a == alpha_of(argb),
{
    assert(argb >> 24u32 == argb / 0x100_0000u32) by (bit_vector);
    (argb >> 24u32) as u8
}

/// Packs a colour into an opaque sample.
pub fn pack_opaque(r: u8, g: u8, b: u8) -> (p: u32)
    ensures
        p == opaque(r, g, b),
{
    let p = (255u32 << 24u32) | ((r as u32) << 16u32) | ((g as u32) << 8u32) | (b as u32);
    let (r32, g32, b32) = (r as u32, g as u32, b as u32);
    assert((255u32 << 24u32) | (r32 << 16u32) | (g32 << 8u32) | b32 == 0xFF00_0000u32 + r32
        * 0x10000u32 + g32 * 0x100u32 + b32) by (bit_vector)
        requires
            r32 < 256,
            g32 < 256,
            b32 < 256,
    ;
    p
}

/// A width x height grid of packed `0xAARRGGBB` samples, stored row by row.
#[derive(Clone, Debug)]
pub struct VRam {
    pub width: u32,
    pub height: u32,
    pub data: Vec<u32>,
}

impl VRam {
    /// The sample grid has exactly one sample per pixel, and every pixel
    /// index fits the coordinate type.
    pub open spec fn wf(&self) -> bool {
        &&& self.width as int * self.height as int <= u32::MAX as int
        &&& self.data@.len() == self.width as int * self.height as int
    }

    pub open spec fn in_bounds(&self, x: int, y: int) -> bool {
        0 <= x < self.width && 0 <= y < self.height
    }

    /// Position of pixel `(x, y)` in `data`.
    pub open spec fn index_of(&self, x: int, y: int) -> int {
        y * self.width as int + x
    }

    /// The sample of pixel `(x, y)`.
    pub open spec fn pixel(&self, x: int, y: int) -> u32 {
        self.data@[self.index_of(x, y)]
    }

    /// A black, fully transparent buffer of the given size.
    pub fn new(width: u32, height: u32) -> (v: VRam)
        requires
            width as int * height as int <= u32::MAX as int,
        ensures
            v.wf(),
            v.width == width,
            v.height == height,
            forall|i: int| 0 <= i < v.data@.len() ==> v.data@[i] == 0,
    {
        VRam { width, height, data: vec![0u32; (width * height) as usize] }
    }

    /// The colour of pixel `(x, y)`, or `None` outside the buffer.
    pub fn get_pixel_rgb(&self, x: u32, y: u32) -> (c: Option<(u8, u8, u8)>)
        requires
            self.wf(),
        ensures
            c == if self.in_bounds(x as int, y as int) {
                Some(rgb_of(self.pixel(x as int, y as int)))
            } else {
                None::<(u8, u8, u8)>
            },
    {
        if x < self.width && y < self.height {
            proof {
                lemma_index_in_bounds(self.width as int, self.height as int, x as int, y as int);
            }
            let argb = self.data[(y * self.width + x) as usize];
            Some(unpack_rgb(argb))
        } else {
            None
        }
    }

    /// Writes an opaque colour at `(x, y)`; outside the buffer nothing happens.
    pub fn set_pixel(&mut self, x: u32, y: u32, r: u8, g: u8, b: u8)
        requires
            old(self).wf(),
        ensures
            final(self).wf(),
            final(self).width == old(self).width,
            final(self).height == old(self).height,
            final(self).data@ == if old(self).in_bounds(x as int, y as int) {
                old(self).data@.update(old(self).index_of(x as int, y as int), opaque(r, g, b))
            } else {
                old(self).data@
            },
    {
        if x < self.width && y < self.height {
            proof {
                lemma_index_in_bounds(self.width as int, self.height as int, x as int, y as int);
            }
            let argb = pack_opaque(r, g, b);
            let i = (y * self.width + x) as usize;
            self.data.set(i, argb);
        }
    }
}

impl VRam {
    /// Replaces the buffer with a `width x height` image given as RGBA bytes,
    /// four per pixel, row by row. Source alpha is dropped: every pixel
    /// becomes opaque.
    pub fn set_from_rgba8(&mut self, width: u32, height: u32, rgba: &Vec<u8>)
        requires
            width as int * height as int <= u32::MAX as int,
            rgba@.len() == 4 * width as int * height as int,
        ensures
            final(self).wf(),
            final(self).width == width,
            final(self).height == height,
            forall|i: int|
                0 <= i < width as int * height as int ==> #[trigger] final(self).data@[i] == opaque(
                    rgba@[4 * i],
                    rgba@[4 * i + 1],
                    rgba@[4 * i + 2],
                ),
    {
        let n = (width * height) as usize;
        let total = rgba.len();
        assert(4 * width as int * height as int == 4 * (width as int * height as int)) by (
        nonlinear_arith);
        let mut data: Vec<u32> = Vec::new();
        let mut i: usize = 0;
        while i < n
            invariant
                n == width as int * height as int,
                rgba@.len() == 4 * n,
                total == rgba@.len(),
                i <= n,
                data@.len() == i,
                forall|j: int|
                    0 <= j < i ==> #[trigger] data@[j] == opaque(
                        rgba@[4 * j],
                        rgba@[4 * j + 1],
                        rgba@[4 * j + 2],
                    ),
            decreases n - i,
        {
            let p = pack_opaque(rgba[4 * i], rgba[4 * i + 1], rgba[4 * i + 2]);
            data.push(p);
            i = i + 1;
        }
        self.width = width;
        self.height = height;
        self.data = data;
    }

    /// The buffer as RGBA bytes, four per pixel, row by row: a lossless
    /// export of every sample, alpha included.
    pub fn to_rgba8_bytes(&self) -> (bytes: Vec<u8>)
        requires
            self.wf(),
        ensures
            bytes@.len() == 4 * self.data@.len(),
            forall|i: int|
                0 <= i < self.data@.len() ==> {
                    &&& #[trigger] bytes@[4 * i] == red_of(self.data@[i])
                    &&& bytes@[4 * i + 1] == green_of(self.data@[i])
                    &&& bytes@[4 * i + 2] == blue_of(self.data@[i])
                    &&& bytes@[4 * i + 3] == alpha_of(self.data@[i])
                },
    {
        let n = self.data.len();
        let mut bytes: Vec<u8> = Vec::new();
        let mut i: usize = 0;
        while i < n
            invariant
                self.wf(),
                n == self.data@.len(),
                i <= n,
                bytes@.len() == 4 * i,
                forall|j: int|
                    0 <= j < i ==> {
                        &&& #[trigger] bytes@[4 * j] == red_of(self.data@[j])
                        &&& bytes@[4 * j + 1] == green_of(self.data@[j])
                        &&& bytes@[4 * j + 2] == blue_of(self.data@[j])
                        &&& bytes@[4 * j + 3] == alpha_of(self.data@[j])
                    },
            decreases n - i,
        {
            let argb = self.data[i];
            let (r, g, b) = unpack_rgb(argb);
            let ghost before = bytes@;
            bytes.push(r);
            bytes.push(g);
            bytes.push(b);
            bytes.push(unpack_alpha(argb));
            proof {
                assert forall|j: int| 0 <= j < i + 1 implies {
                    &&& #[trigger] bytes@[4 * j] == red_of(self.data@[j])
                    &&& bytes@[4 * j + 1] == green_of(self.data@[j])
                    &&& bytes@[4 * j + 2] == blue_of(self.data@[j])
                    &&& bytes@[4 * j + 3] == alpha_of(self.data@[j])
                } by {
                    if j < i {
                        assert(before[4 * j] == red_of(self.data@[j]));
                    }
                }
            }
            i = i + 1;
        }
        bytes
    }
}

/// A pixel inside a width x height grid has an index below `width * height`.
pub proof fn lemma_index_in_bounds(w: int, h: int, x: int, y: int)
    requires
        0 <= x < w,
        0 <= y < h,
    ensures
        0 <= y * w + x < w * h,
{
    assert(0 <= y * w + x < w * h) by (nonlinear_arith)
        requires
            0 <= x < w,
            0 <= y < h,
    ;
}

/// Index `i` of a width x height grid is pixel `(i % w, i / w)`.
pub proof fn lemma_index_split(i: int, w: int, h: int)
    requires
        0 <= w,
        0 <= h,
        0 <= i < w * h,
    ensures
        w > 0,
        0 <= i % w < w,
        0 <= i / w < h,
        (i / w) * w + i % w == i,
{
    if w <= 0 {
        assert(w * h == 0) by (nonlinear_arith)
            requires
                w == 0,
        ;
    }
    vstd::arithmetic::div_mod::lemma_fundamental_div_mod(i, w);
    let q = i / w;
    let r = i % w;
    assert(i == q * w + r) by {
        vstd::arithmetic::mul::lemma_mul_is_commutative(w, q);
    }
    if q >= h {
        assert(q * w + r >= w * h) by (nonlinear_arith)
            requires
                q >= h,
                w > 0,
                r >= 0,
        ;
    }
    if q < 0 {
        assert(q * w + r < 0) by (nonlinear_arith)
            requires
                q < 0,
                w > 0,
                r < w,
        ;
    }
}

} // verus!
