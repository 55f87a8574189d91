use vstd::prelude::*;

verus! {

/// An exact rational value `num / den`.
///
/// Colour values (hue in degrees, saturation and lightness in `[0, 1]`) are
/// kept as fractions so that every colour computation is exact and only the
/// final conversion back to 8-bit channels rounds.
#[derive(Clone, Copy, Debug)]
pub struct Fraction {
    pub num: i64,
    pub den: u32,
}

impl Fraction {
    /// A usable fraction has a positive denominator.
    pub open spec fn wf(self) -> bool {
        self.den > 0
    }

    pub fn new(num: i64, den: u32) -> (f: Fraction)
        ensures
            f.num == num,
            f.den == den,
    {
        Fraction { num, den }
    }

    /// The integer `n` as a fraction.
    pub fn whole(n: i64) -> (f: Fraction)
        ensures
            f.wf(),
            f.num == n,
            f.den == 1,
    {
        Fraction { num: n, den: 1 }
    }
}

} // verus!
