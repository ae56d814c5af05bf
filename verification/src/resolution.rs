//! Resolution presets: fixed pixel budgets from which lattice width and
//! height are solved against the viewport's aspect ratio.

use vstd::prelude::*;

verus! {

/// A target pixel count for the lattice.
#[derive(PartialEq, Eq, Structural, Clone, Copy, Debug)]
pub enum Resolution {
    TEST,
    NHD,
    HD,
    FHD,
    UHD,
}

impl Resolution {
    /// The preset's total pixel budget.
    pub open spec fn budget_spec(self) -> u32 {
        match self {
            Resolution::TEST => 1000,
            Resolution::NHD => 230400,
            Resolution::HD => 921600,
            Resolution::FHD => 2073600,
            Resolution::UHD => 3686400,
        }
    }

    /// The preset's total pixel budget.
    pub fn pixel_budget(self) -> (r: u32)
        ensures
            r == self.budget_spec(),
    {
        match self {
            Resolution::TEST => 1000,
            Resolution::NHD => 230400,
            Resolution::HD => 921600,
            Resolution::FHD => 2073600,
            Resolution::UHD => 3686400,
        }
    }
}

/// The largest `x` with `x * x * h <= t`.
#[verifier::loop_isolation(false)]
fn isqrt_scaled(t: u64, h: u64) -> (x: u64)
    requires
        1 <= h <= 0xFFFF_FFFFu64,
    ensures
        x * x * h <= t,
        (x + 1) * (x + 1) * h > t,
{
    let mut lo: u64 = 0;
    let mut hi: u64 = 0x1_0000_0000;
    proof {
        assert((0x1_0000_0000u64 as int) * (0x1_0000_0000u64 as int) * (h as int) > t as int)
            by (nonlinear_arith)
            requires
                1 <= h,
                t <= 0xFFFF_FFFF_FFFF_FFFFu64,
        ;
    }
    while lo + 1 < hi
        invariant
            lo < hi,
            hi <= 0x1_0000_0000,
            lo * lo * h <= t,
            hi * hi * h > t,
        decreases hi - lo,
    {
        let mid = lo + (hi - lo) / 2;
        proof {
            assert(lo < mid < hi);
        }
        proof {
            assert((mid as int) * (mid as int) <= 0x1_0000_0000_0000_0000int
                && (mid as int) * (mid as int) * (h as int)
                <= 0x1_0000_0000_0000_0000_0000_0000int) by (nonlinear_arith)
                requires
                    mid <= 0x1_0000_0000u64,
                    1 <= h <= 0xFFFF_FFFFu64,
            ;
        }
        let sq = (mid as u128) * (mid as u128) * (h as u128);
        if sq <= t as u128 {
            lo = mid;
        } else {
            hi = mid;
        }
    }
    lo
}

/// Solve lattice dimensions from a pixel budget and a viewport: the width
/// is the largest whole number of cells whose square matches the budget at
/// the viewport's aspect ratio, and the height fills the viewport at the
/// resulting cell size.  The product never exceeds the budget.
pub fn calculate_dimensions(res: Resolution, width: u32, height: u32) -> (r: (u32, u32))
    requires
        1 <= width,
        1 <= height,
    ensures
        (r.0 as int) * (r.0 as int) * (height as int) <= (res.budget_spec() as int) * (
        width as int),
        ((r.0 as int) + 1) * ((r.0 as int) + 1) * (height as int) > (res.budget_spec() as int) * (
        width as int),
        r.1 == ((height as int) * (r.0 as int)) / (width as int),
        (r.0 as int) * (r.1 as int) <= res.budget_spec() as int,
{
    let b = res.pixel_budget() as u64;
    let w = width as u64;
    let h = height as u64;
    let t = b * w;
    let x = isqrt_scaled(t, h);
    proof {
        assert(x < 0x1_0000_0000) by (nonlinear_arith)
            requires
                x * x * h <= t,
                t <= 0xFFFF_FFFF_FFFF_FFFFu64,
                1 <= h,
        ;
    }
    proof {
        assert((h as int) * (x as int) < 0x1_0000_0000_0000_0000int) by (nonlinear_arith)
            requires
                h < 0x1_0000_0000u64,
                x < 0x1_0000_0000u64,
        ;
    }
    let y = (h * x) / w;
    proof {
        let xi = x as int;
        let yi = y as int;
        let hi = h as int;
        let wi = w as int;
        let bi = b as int;
        assert(yi == (hi * xi) / wi);
        vstd::arithmetic::div_mod::lemma_fundamental_div_mod(hi * xi, wi);
        assert(yi * wi <= hi * xi);
        assert(xi * yi * wi <= xi * xi * hi) by (nonlinear_arith)
            requires
                yi * wi <= hi * xi,
                0 <= xi,
        ;
        assert(xi * yi <= bi) by (nonlinear_arith)
            requires
                xi * yi * wi <= xi * xi * hi,
                xi * xi * hi <= bi * wi,
                1 <= wi,
        ;
        assert(yi < 0x1_0000_0000) by (nonlinear_arith)
            requires
                yi * wi <= hi * xi,
                xi * yi <= bi,
                1 <= wi,
                0 <= yi,
                0 <= xi,
                hi < 0x1_0000_0000,
                bi <= 0x1_0000_0000,
        ;
    }
    (x as u32, y as u32)
}

} // verus!
