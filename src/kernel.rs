use vstd::prelude::*;

verus! {

/// The mathematical content of a kernel: its size, its weights in row-major
/// order and its normalisation divider.
pub struct KernelModel {
    pub width: int,
    pub height: int,
    pub weights: Seq<i32>,
    pub divider: int,
}

/// Sum of a sequence of weights.
pub open spec fn weight_sum(s: Seq<i32>) -> int
    decreases s.len(),
{
    if s.len() == 0 {
        0
    } else {
        weight_sum(s.drop_last()) + s.last()
    }
}

/// The box blur of the given size: every weight 1, divider the cell count.
pub open spec fn box_blur(size: int) -> KernelModel {
    KernelModel {
        width: size,
        height: size,
        weights: Seq::new((size * size) as nat, |i: int| 1i32),
        divider: size * size,
    }
}

/// The 3 x 3 identity kernel: centre weight 1, zero elsewhere, divider 1.
pub open spec fn identity_kernel() -> KernelModel {
    KernelModel {
        width: 3,
        height: 3,
        weights: seq![0i32, 0i32, 0i32, 0i32, 1i32, 0i32, 0i32, 0i32, 0i32],
        divider: 1,
    }
}

/// A 2D integer convolution kernel: `width * height` weights stored row by
/// row, and a divider applied after accumulation.
#[derive(Clone, Debug)]
pub struct Kernel {
    pub width: usize,
    pub height: usize,
    pub data: Vec<i32>,
    pub divider: i32,
}

impl View for Kernel {
    type V = KernelModel;

    open spec fn view(&self) -> KernelModel {
        KernelModel {
            width: self.width as int,
            height: self.height as int,
            weights: self.data@,
            divider: self.divider as int,
        }
    }
}

/// Sums a short list of small weights.
fn sum_of(weights: &Vec<i32>) -> (s: i32)
    requires
        weights@.len() <= 9,
        forall|i: int| 0 <= i < weights@.len() ==> -16 <= #[trigger] weights@[i] <= 16,
    ensures
        s as int == weight_sum(weights@),
{
    let mut s: i32 = 0;
    let mut i: usize = 0;
    while i < weights.len()
        invariant
            i <= weights@.len() <= 9,
            forall|j: int| 0 <= j < weights@.len() ==> -16 <= #[trigger] weights@[j] <= 16,
            s as int == weight_sum(weights@.subrange(0, i as int)),
            -16 * i <= s <= 16 * i,
        decreases weights@.len() - i,
    {
        proof {
            let next = weights@.subrange(0, i + 1);
            assert(next.drop_last() =~= weights@.subrange(0, i as int));
        }
        s = s + weights[i];
        i = i + 1;
    }
    assert(weights@.subrange(0, weights@.len() as int) =~= weights@);
    s
}

impl Kernel {
    /// The weight vector holds one weight per cell.
    pub open spec fn wf(&self) -> bool {
        self.data@.len() == self.width as int * self.height as int
    }

    /// The weight of cell `(x, y)`.
    pub open spec fn weight(&self, x: int, y: int) -> i32 {
        self.data@[y * self.width as int + x]
    }

    /// A `size x size` kernel with every weight and the divider zero.
    pub fn new(size: usize) -> (k: Kernel)
        requires
            size as int * size as int <= usize::MAX as int,
        ensures
            k.wf(),
            k.width == size,
            k.height == size,
            k.divider == 0,
            forall|i: int| 0 <= i < k.data@.len() ==> k.data@[i] == 0,
    {
        Kernel { width: size, height: size, data: vec![0i32; size * size], divider: 0 }
    }

    /// The weight of cell `(x, y)`.
    pub fn get(&self, x: usize, y: usize) -> (w: i32)
        requires
            self.wf(),
            x < self.width,
            y < self.height,
        ensures
            w == self.weight(x as int, y as int),
    {
        proof {
            crate::vram::lemma_index_in_bounds(
                self.width as int,
                self.height as int,
                x as int,
                y as int,
            );
        }
        let len = self.data.len();
        assert(y * self.width + x < len);
        self.data[y * self.width + x]
    }

    /// Sets the weight of cell `(x, y)`.
    pub fn set(&mut self, x: usize, y: usize, value: i32)
        requires
            old(self).wf(),
            x < old(self).width,
            y < old(self).height,
        ensures
            final(self).wf(),
            final(self).width == old(self).width,
            final(self).height == old(self).height,
            final(self).divider == old(self).divider,
            final(self).data@ == old(self).data@.update(
                y as int * old(self).width as int + x as int,
                value,
            ),
    {
        proof {
            crate::vram::lemma_index_in_bounds(
                self.width as int,
                self.height as int,
                x as int,
                y as int,
            );
        }
        let len = self.data.len();
        assert(y * self.width + x < len);
        let i = y * self.width + x;
        self.data.set(i, value);
    }

    /// Box blur: every weight 1, divided by the number of cells.
    pub fn create_blur(size: usize) -> (k: Kernel)
        requires
            size as int * size as int <= i32::MAX as int,
        ensures
            k.wf(),
            k.width == size,
            k.height == size,
            k.divider as int == size as int * size as int,
            forall|i: int| 0 <= i < k.data@.len() ==> k.data@[i] == 1,
            k@ == box_blur(size as int),
    {
        let mut kernel = Self::new(size);
        kernel.data = vec![1i32; size * size];
        kernel.divider = (size * size) as i32;
        assert(kernel.data@ =~= box_blur(size as int).weights);
        kernel
    }

    /// Sharpen: a cross with centre 5 and arms -1; the weights sum to 1.
    pub fn create_sharpen() -> (k: Kernel)
        ensures
            k.wf(),
            k.width == 3,
            k.height == 3,
            k.data@ == seq![0i32, -1i32, 0i32, -1i32, 5i32, -1i32, 0i32, -1i32, 0i32],
            k.divider as int == weight_sum(k.data@),
            k.divider == 1,
    {
        let mut kernel = Self::new(3);
        kernel.data = vec![0i32, -1, 0, -1, 5, -1, 0, -1, 0];
        kernel.divider = sum_of(&kernel.data);
        proof {
            reveal_with_fuel(weight_sum, 10);
        }
        kernel
    }

    /// Strong sharpen: centre 9 inside a ring of -1; the weights sum to 1.
    pub fn create_uncanny_sharpen() -> (k: Kernel)
        ensures
            k.wf(),
            k.width == 3,
            k.height == 3,
            k.data@ == seq![-1i32, -1i32, -1i32, -1i32, 9i32, -1i32, -1i32, -1i32, -1i32],
            k.divider as int == weight_sum(k.data@),
            k.divider == 1,
    {
        let mut kernel = Self::new(3);
        kernel.data = vec![-1i32, -1, -1, -1, 9, -1, -1, -1, -1];
        kernel.divider = sum_of(&kernel.data);
        proof {
            reveal_with_fuel(weight_sum, 10);
        }
        kernel
    }

    /// A directional edge kernel. Its weights sum to 0, so the divider is
    /// fixed at 1.
    pub fn create_directional_weird() -> (k: Kernel)
        ensures
            k.wf(),
            k.width == 3,
            k.height == 3,
            k.data@ == seq![2i32, 0i32, -2i32, 1i32, 0i32, -1i32, 0i32, 0i32, 0i32],
            k.divider == 1,
    {
        let mut kernel = Self::new(3);
        kernel.data = vec![2i32, 0, -2, 1, 0, -1, 0, 0, 0];
        kernel.divider = 1;
        kernel
    }

    /// Identity: centre weight 1, every other weight 0, divider 1.
    pub fn create_basic() -> (k: Kernel)
        ensures
            k.wf(),
            k.width == 3,
            k.height == 3,
            k.data@ == seq![0i32, 0i32, 0i32, 0i32, 1i32, 0i32, 0i32, 0i32, 0i32],
            k@ == identity_kernel(),
            k.divider as int == weight_sum(k.data@),
            k.divider == 1,
    {
        let mut kernel = Self::new(3);
        kernel.data = vec![0i32, 0, 0, 0, 1, 0, 0, 0, 0];
        kernel.divider = sum_of(&kernel.data);
        proof {
            reveal_with_fuel(weight_sum, 10);
        }
        kernel
    }
}

} // verus!
