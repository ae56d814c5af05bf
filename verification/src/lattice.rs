//! The D2Q9 lattice-Boltzmann state and its compute passes, in exact
//! fixed-point arithmetic.  Velocities and densities are numerators over
//! `SPEED_SCALE`; distribution values are numerators over
//! `72 * SPEED_SCALE^3`, which makes the standard equilibrium distribution
//! an integer and lets mass conservation be proved exactly.
//!
//! Directions are indexed `0..9` row-major from north-west to south-east:
//! `0` NW, `1` N, `2` NE, `3` W, `4` rest, `5` E, `6` SW, `7` S, `8` SE;
//! the opposite of direction `d` is `8 - d`.

use vstd::prelude::*;

verus! {

/// Fixed-point scale of velocity and density inputs.
pub const SPEED_SCALE: i64 = 1000;

/// Distribution values are clamped into `[-DIST_LIMIT, DIST_LIMIT]`, which
/// keeps every intermediate product inside 128-bit arithmetic.
pub const DIST_LIMIT: i64 = 10_000_000_000_000;

/// The x component of lattice direction `d`.
pub open spec fn dir_x(d: int) -> int {
    if d == 0 || d == 3 || d == 6 {
        -1
    } else if d == 2 || d == 5 || d == 8 {
        1
    } else {
        0
    }
}

/// The y component of lattice direction `d`.
pub open spec fn dir_y(d: int) -> int {
    if d <= 2 {
        1
    } else if d >= 6 {
        -1
    } else {
        0
    }
}

/// The equilibrium weight of direction `d`, times thirty-six.
pub open spec fn w36(d: int) -> int {
    if d == 4 {
        16
    } else if d == 1 || d == 3 || d == 5 || d == 7 {
        4
    } else {
        1
    }
}

/// The x component of lattice direction `d`.
pub fn dir_x_of(d: usize) -> (r: i64)
    requires
        d < 9,
    ensures
        r == dir_x(d as int),
{
    if d == 0 || d == 3 || d == 6 {
        -1
    } else if d == 2 || d == 5 || d == 8 {
        1
    } else {
        0
    }
}

/// The y component of lattice direction `d`.
pub fn dir_y_of(d: usize) -> (r: i64)
    requires
        d < 9,
    ensures
        r == dir_y(d as int),
{
    if d <= 2 {
        1
    } else if d >= 6 {
        -1
    } else {
        0
    }
}

/// The equilibrium weight of direction `d`, times thirty-six.
pub fn w36_of(d: usize) -> (r: i64)
    requires
        d < 9,
    ensures
        r == w36(d as int),
{
    if d == 4 {
        16
    } else if d == 1 || d == 3 || d == 5 || d == 7 {
        4
    } else {
        1
    }
}

/// The equilibrium distribution for direction `d` at density `rho_n` and
/// velocity `(ux_n, uy_n)` (all over `SPEED_SCALE`), as a numerator over
/// `72 * SPEED_SCALE^3`: this is the standard D2Q9 weight split
/// `w * rho * (1 + 3 e.u + 4.5 (e.u)^2 - 1.5 u.u)` cleared of denominators.
pub open spec fn equil_num(rho_n: int, ux_n: int, uy_n: int, d: int) -> int {
    let q = dir_x(d) * ux_n + dir_y(d) * uy_n;
    w36(d) * rho_n * (2 * SPEED_SCALE * SPEED_SCALE + 6 * SPEED_SCALE * q + 9 * q * q - 3 * (ux_n
        * ux_n + uy_n * uy_n))
}

/// The sum of the equilibrium numerators of the first `n` directions.
pub open spec fn equil_sum(rho_n: int, ux_n: int, uy_n: int, n: int) -> int
    decreases n,
{
    if n <= 0 {
        0
    } else {
        equil_sum(rho_n, ux_n, uy_n, n - 1) + equil_num(rho_n, ux_n, uy_n, n - 1)
    }
}

/// Mass conservation of the equilibrium distribution: over all nine
/// directions the equilibrium values sum to exactly the density (both sides
/// here carry the common denominator `72 * SPEED_SCALE^3`, so the sum of
/// numerators is `72 * SPEED_SCALE^2` times the density numerator).
#[verifier::rlimit(100)]
pub proof fn lemma_equilibrium_mass(rho_n: int, ux_n: int, uy_n: int)
    ensures
        equil_sum(rho_n, ux_n, uy_n, 9) == 72 * SPEED_SCALE * SPEED_SCALE * rho_n,
{
    reveal_with_fuel(equil_sum, 10);
    let s = SPEED_SCALE as int;
    let uu = ux_n * ux_n + uy_n * uy_n;
    let q0 = dir_x(0) * ux_n + dir_y(0) * uy_n;
    let q1 = dir_x(1) * ux_n + dir_y(1) * uy_n;
    let q2 = dir_x(2) * ux_n + dir_y(2) * uy_n;
    let q3 = dir_x(3) * ux_n + dir_y(3) * uy_n;
    let q4 = dir_x(4) * ux_n + dir_y(4) * uy_n;
    let q5 = dir_x(5) * ux_n + dir_y(5) * uy_n;
    let q6 = dir_x(6) * ux_n + dir_y(6) * uy_n;
    let q7 = dir_x(7) * ux_n + dir_y(7) * uy_n;
    let q8 = dir_x(8) * ux_n + dir_y(8) * uy_n;
    let i0 = 2 * s * s + 6 * s * q0 + 9 * q0 * q0 - 3 * uu;
    let i1 = 2 * s * s + 6 * s * q1 + 9 * q1 * q1 - 3 * uu;
    let i2 = 2 * s * s + 6 * s * q2 + 9 * q2 * q2 - 3 * uu;
    let i3 = 2 * s * s + 6 * s * q3 + 9 * q3 * q3 - 3 * uu;
    let i4 = 2 * s * s + 6 * s * q4 + 9 * q4 * q4 - 3 * uu;
    let i5 = 2 * s * s + 6 * s * q5 + 9 * q5 * q5 - 3 * uu;
    let i6 = 2 * s * s + 6 * s * q6 + 9 * q6 * q6 - 3 * uu;
    let i7 = 2 * s * s + 6 * s * q7 + 9 * q7 * q7 - 3 * uu;
    let i8 = 2 * s * s + 6 * s * q8 + 9 * q8 * q8 - 3 * uu;
    assert(i0 + 4 * i1 + i2 + 4 * i3 + 16 * i4 + 4 * i5 + i6 + 4 * i7 + i8 == 72 * s * s)
        by (nonlinear_arith)
        requires
            i0 == 2 * s * s + 6 * s * q0 + 9 * q0 * q0 - 3 * uu,
            i1 == 2 * s * s + 6 * s * q1 + 9 * q1 * q1 - 3 * uu,
            i2 == 2 * s * s + 6 * s * q2 + 9 * q2 * q2 - 3 * uu,
            i3 == 2 * s * s + 6 * s * q3 + 9 * q3 * q3 - 3 * uu,
            i4 == 2 * s * s + 6 * s * q4 + 9 * q4 * q4 - 3 * uu,
            i5 == 2 * s * s + 6 * s * q5 + 9 * q5 * q5 - 3 * uu,
            i6 == 2 * s * s + 6 * s * q6 + 9 * q6 * q6 - 3 * uu,
            i7 == 2 * s * s + 6 * s * q7 + 9 * q7 * q7 - 3 * uu,
            i8 == 2 * s * s + 6 * s * q8 + 9 * q8 * q8 - 3 * uu,
            q0 == uy_n - ux_n,
            q1 == uy_n,
            q2 == ux_n + uy_n,
            q3 == -ux_n,
            q4 == 0,
            q5 == ux_n,
            q6 == -ux_n - uy_n,
            q7 == -uy_n,
            q8 == ux_n - uy_n,
            uu == ux_n * ux_n + uy_n * uy_n,
    ;
    assert(equil_num(rho_n, ux_n, uy_n, 0) == rho_n * i0);
    assert(equil_num(rho_n, ux_n, uy_n, 1) == 4 * rho_n * i1);
    assert(equil_num(rho_n, ux_n, uy_n, 2) == rho_n * i2);
    assert(equil_num(rho_n, ux_n, uy_n, 3) == 4 * rho_n * i3);
    assert(equil_num(rho_n, ux_n, uy_n, 4) == 16 * rho_n * i4);
    assert(equil_num(rho_n, ux_n, uy_n, 5) == 4 * rho_n * i5);
    assert(equil_num(rho_n, ux_n, uy_n, 6) == rho_n * i6);
    assert(equil_num(rho_n, ux_n, uy_n, 7) == 4 * rho_n * i7);
    assert(equil_num(rho_n, ux_n, uy_n, 8) == rho_n * i8);
    assert(rho_n * i0 + 4 * rho_n * i1 + rho_n * i2 + 4 * rho_n * i3 + 16 * rho_n * i4 + 4 * rho_n
        * i5 + rho_n * i6 + 4 * rho_n * i7 + rho_n * i8 == 72 * s * s * rho_n)
        by (nonlinear_arith)
        requires
            i0 + 4 * i1 + i2 + 4 * i3 + 16 * i4 + 4 * i5 + i6 + 4 * i7 + i8 == 72 * s * s,
    ;
}

/// The nine equilibrium numerators for one density and velocity.
#[verifier::loop_isolation(false)]
pub fn equilibrium(rho_n: i64, ux_n: i64, uy_n: i64) -> (r: Vec<i64>)
    requires
        0 <= rho_n <= 10 * SPEED_SCALE,
        -SPEED_SCALE <= ux_n <= SPEED_SCALE,
        -SPEED_SCALE <= uy_n <= SPEED_SCALE,
    ensures
        r@.len() == 9,
        forall|d: int| 0 <= d < 9 ==> r@[d] == equil_num(rho_n as int, ux_n as int, uy_n as int, d),
        forall|d: int| 0 <= d < 9 ==> -DIST_LIMIT <= #[trigger] r@[d] <= DIST_LIMIT,
{
    let mut out: Vec<i64> = Vec::new();
    let mut d: usize = 0;
    while d < 9
        invariant
            d <= 9,
            out@.len() == d,
            forall|k: int|
                0 <= k < d ==> out@[k] == equil_num(rho_n as int, ux_n as int, uy_n as int, k),
            forall|k: int| 0 <= k < d ==> -DIST_LIMIT <= #[trigger] out@[k] <= DIST_LIMIT,
        decreases 9 - d,
    {
        let q: i64 = dir_x_of(d) * ux_n + dir_y_of(d) * uy_n;
        proof {
            assert(-2000 <= q <= 2000);
            assert(0 <= q * q <= 4_000_000 && 0 <= ux_n * ux_n <= 1_000_000 && 0 <= uy_n * uy_n
                <= 1_000_000) by (nonlinear_arith)
                requires
                    -2000 <= q <= 2000,
                    -1000 <= ux_n <= 1000,
                    -1000 <= uy_n <= 1000,
            ;
            assert(-12_000_000 <= 6 * SPEED_SCALE * q <= 12_000_000) by (nonlinear_arith)
                requires
                    -2000 <= q <= 2000,
                    SPEED_SCALE == 1000,
            ;
        }
        let inner: i64 = 2 * SPEED_SCALE * SPEED_SCALE + 6 * SPEED_SCALE * q + 9 * (q * q) - 3 * (
        ux_n * ux_n + uy_n * uy_n);
        let wr: i64 = w36_of(d) * rho_n;
        proof {
            assert(-62_000_000 <= inner <= 62_000_000);
            assert(0 <= wr <= 160_000);
            assert(wr * inner <= 9_920_000_000_000 && wr * inner >= -9_920_000_000_000)
                by (nonlinear_arith)
                requires
                    -62_000_000 <= inner <= 62_000_000,
                    0 <= wr <= 160_000,
            ;
        }
        let v: i64 = wr * inner;
        proof {
            let qi = dir_x(d as int) * ux_n + dir_y(d as int) * uy_n;
            assert(v == w36(d as int) * rho_n * inner) by (nonlinear_arith)
                requires
                    v == wr * inner,
                    wr == w36(d as int) * rho_n,
            ;
            assert(v == equil_num(rho_n as int, ux_n as int, uy_n as int, d as int))
                by (nonlinear_arith)
                requires
                    v == w36(d as int) * rho_n * inner,
                    inner == 2 * SPEED_SCALE * SPEED_SCALE + 6 * SPEED_SCALE * qi + 9 * (qi * qi)
                        - 3 * (ux_n * ux_n + uy_n * uy_n),
                    equil_num(rho_n as int, ux_n as int, uy_n as int, d as int) == w36(d as int)
                        * rho_n * (2 * SPEED_SCALE * SPEED_SCALE + 6 * SPEED_SCALE * qi + 9 * qi
                        * qi - 3 * (ux_n * ux_n + uy_n * uy_n)),
            ;
        }
        out.push(v);
        d = d + 1;
    }
    out
}


/// Truncating division (rounding toward zero), the rounding the compute
/// passes use.
pub open spec fn div_trunc(a: int, b: int) -> int {
    if a >= 0 {
        a / b
    } else {
        -((-a) / b)
    }
}

/// Clamp a distribution numerator into the representable band.
pub open spec fn clamp_dist(v: int) -> int {
    if v > DIST_LIMIT {
        DIST_LIMIT as int
    } else if v < -DIST_LIMIT {
        -(DIST_LIMIT as int)
    } else {
        v
    }
}

fn div_trunc_i128(a: i128, b: i128) -> (r: i128)
    requires
        0 < b,
        -0x4000_0000_0000_0000_0000_0000_0000_0000i128 < a,
    ensures
        r == div_trunc(a as int, b as int),
        0 <= a ==> 0 <= r <= a,
        a < 0 ==> a <= r <= 0,
{
    if a >= 0 {
        let q = (a as u128) / (b as u128);
        proof {
            vstd::arithmetic::div_mod::lemma_fundamental_div_mod(a as int, b as int);
            assert((a as int) / (b as int) <= a as int) by (nonlinear_arith)
                requires
                    (a as int) == (b as int) * ((a as int) / (b as int)) + (a as int) % (b as int),
                    0 <= (a as int) % (b as int),
                    0 <= (a as int) / (b as int),
                    1 <= b as int,
            ;
        }
        q as i128
    } else {
        let m = -a;
        let q = (m as u128) / (b as u128);
        proof {
            vstd::arithmetic::div_mod::lemma_fundamental_div_mod(m as int, b as int);
            assert((m as int) / (b as int) <= m as int) by (nonlinear_arith)
                requires
                    (m as int) == (b as int) * ((m as int) / (b as int)) + (m as int) % (b as int),
                    0 <= (m as int) % (b as int),
                    0 <= (m as int) / (b as int),
                    1 <= b as int,
            ;
        }
        -(q as i128)
    }
}

/// One distribution value relaxed toward the local equilibrium: the
/// standard BGK update `f + omega * (f_eq - f)`, computed in fixed point
/// with truncating division, clamped into the representable band, and
/// leaving the value untouched when the local density is not positive.
pub open spec fn collide_cell(
    f: int,
    rho: int,
    mx: int,
    my: int,
    d: int,
    om_num: int,
    om_den: int,
) -> int {
    if rho <= 0 {
        f
    } else {
        let q = dir_x(d) * mx + dir_y(d) * my;
        let num = w36(d) * (2 * rho * rho + 6 * rho * q + 9 * q * q - 3 * (mx * mx + my * my));
        let feq = div_trunc(num, 72 * rho);
        clamp_dist(f + div_trunc(om_num * (feq - f), om_den))
    }
}

/// Execute the relaxation of one distribution value.
pub fn collide_dist(f: i64, rho: i64, mx: i64, my: i64, d: usize, om_num: i64, om_den: i64) -> (r:
    i64)
    requires
        d < 9,
        -DIST_LIMIT <= f <= DIST_LIMIT,
        -9 * DIST_LIMIT <= rho <= 9 * DIST_LIMIT,
        -9 * DIST_LIMIT <= mx <= 9 * DIST_LIMIT,
        -9 * DIST_LIMIT <= my <= 9 * DIST_LIMIT,
        0 < om_den <= 1_000_000_000,
        0 <= om_num <= 1_000_000,
    ensures
        r == collide_cell(f as int, rho as int, mx as int, my as int, d as int, om_num as int,
            om_den as int),
        -DIST_LIMIT <= r <= DIST_LIMIT,
{
    if rho <= 0 {
        return f;
    }
    let dx = dir_x_of(d);
    let dy = dir_y_of(d);
    proof {
        assert(-1 <= dx <= 1 && -1 <= dy <= 1);
        assert(-90_000_000_000_000 <= (dx as int) * (mx as int) <= 90_000_000_000_000
            && -90_000_000_000_000 <= (dy as int) * (my as int) <= 90_000_000_000_000)
            by (nonlinear_arith)
            requires
                -1 <= dx as int <= 1,
                -1 <= dy as int <= 1,
                -90_000_000_000_000 <= mx as int <= 90_000_000_000_000,
                -90_000_000_000_000 <= my as int <= 90_000_000_000_000,
        ;
    }
    let q: i128 = (dx as i128) * (mx as i128) + (dy as i128) * (my as i128);
    proof {
        assert(-180_000_000_000_000i128 <= q <= 180_000_000_000_000i128);
        assert(0 <= (rho as int) * (rho as int) <= 8_100_000_000_000_000_000_000_000_000 && 0 <= (
        q as int) * (q as int) <= 32_400_000_000_000_000_000_000_000_000 && 0 <= (mx as int) * (
        mx as int) <= 8_100_000_000_000_000_000_000_000_000 && 0 <= (my as int) * (my as int)
            <= 8_100_000_000_000_000_000_000_000_000 && -16_200_000_000_000_000_000_000_000_000
            <= (rho as int) * (q as int) <= 16_200_000_000_000_000_000_000_000_000)
            by (nonlinear_arith)
            requires
                -90_000_000_000_000 <= rho as int <= 90_000_000_000_000,
                -90_000_000_000_000 <= mx as int <= 90_000_000_000_000,
                -90_000_000_000_000 <= my as int <= 90_000_000_000_000,
                -180_000_000_000_000 <= q as int <= 180_000_000_000_000,
        ;
    }
    let poly: i128 = 2 * ((rho as i128) * (rho as i128)) + 6 * ((rho as i128) * q) + 9 * (q * q)
        - 3 * ((mx as i128) * (mx as i128) + (my as i128) * (my as i128));
    proof {
        assert(-500_000_000_000_000_000_000_000_000_000 <= poly as int
            <= 500_000_000_000_000_000_000_000_000_000);
    }
    let w = w36_of(d);
    proof {
        assert(1 <= w <= 16);
        assert(-10_000_000_000_000_000_000_000_000_000_000 <= (w as int) * (poly as int)
            <= 10_000_000_000_000_000_000_000_000_000_000) by (nonlinear_arith)
            requires
                1 <= w as int <= 16,
                -500_000_000_000_000_000_000_000_000_000 <= poly as int
                    <= 500_000_000_000_000_000_000_000_000_000,
        ;
    }
    let num: i128 = (w as i128) * poly;
    let feq: i128 = div_trunc_i128(num, 72 * (rho as i128));
    let delta: i128 = feq - (f as i128);
    proof {
        assert(-20_000_000_000_000_000_000_000_000_000_000 <= delta as int
            <= 20_000_000_000_000_000_000_000_000_000_000);
    }
    proof {
        assert(-20_000_000_000_000_000_000_000_000_000_000_000_000 <= (om_num as int) * (
        delta as int) <= 20_000_000_000_000_000_000_000_000_000_000_000_000) by (nonlinear_arith)
            requires
                0 <= om_num as int <= 1_000_000,
                -20_000_000_000_000_000_000_000_000_000_000 <= delta as int
                    <= 20_000_000_000_000_000_000_000_000_000_000,
        ;
    }
    let prod: i128 = (om_num as i128) * delta;
    let corr: i128 = div_trunc_i128(prod, om_den as i128);
    let v: i128 = (f as i128) + corr;
    let out: i64 = if v > DIST_LIMIT as i128 {
        DIST_LIMIT
    } else if v < -DIST_LIMIT as i128 {
        -DIST_LIMIT
    } else {
        v as i64
    };
    proof {
        let qi = dir_x(d as int) * (mx as int) + dir_y(d as int) * (my as int);
        assert(q as int == qi);
        assert(num as int == w36(d as int) * (2 * (rho as int) * (rho as int) + 6 * (rho as int)
            * qi + 9 * qi * qi - 3 * ((mx as int) * (mx as int) + (my as int) * (my as int))))
            by (nonlinear_arith)
            requires
                num as int == (w as int) * (poly as int),
                w as int == w36(d as int),
                poly as int == 2 * ((rho as int) * (rho as int)) + 6 * ((rho as int) * (
                q as int)) + 9 * ((q as int) * (q as int)) - 3 * ((mx as int) * (mx as int) + (
                my as int) * (my as int)),
                q as int == qi,
        ;
        assert(feq as int == div_trunc(num as int, 72 * (rho as int)));
        assert(prod as int == (om_num as int) * ((feq as int) - (f as int))) by (nonlinear_arith)
            requires
                prod as int == (om_num as int) * (delta as int),
                delta as int == (feq as int) - (f as int),
        ;
        assert(v as int == (f as int) + div_trunc((om_num as int) * ((feq as int) - (f as int)),
            om_den as int));
        assert(out as int == clamp_dist(v as int));
    }
    out
}

/// The per-direction grids of one buffer generation, as sequences.
pub open spec fn gview(g: Seq<Vec<i64>>) -> Seq<Seq<i64>> {
    Seq::new(g.len(), |d: int| g[d]@)
}


/// Well-formed generation grids: nine direction arrays of `n` cells each,
/// every value inside the representable band.
pub open spec fn wf_grids(g: Seq<Seq<i64>>, n: int) -> bool {
    &&& g.len() == 9
    &&& forall|d: int| 0 <= d < 9 ==> (#[trigger] g[d]).len() == n
    &&& forall|d: int, c: int|
        0 <= d < 9 && 0 <= c < n ==> -DIST_LIMIT <= #[trigger] g[d][c] <= DIST_LIMIT
}

/// The local density at cell `c`: the sum of the first `n` distribution
/// values there.
pub open spec fn sum_f(g: Seq<Seq<i64>>, c: int, n: int) -> int
    decreases n,
{
    if n <= 0 {
        0
    } else {
        sum_f(g, c, n - 1) + g[n - 1][c]
    }
}

/// The local x momentum at cell `c` over the first `n` directions.
pub open spec fn sum_mx(g: Seq<Seq<i64>>, c: int, n: int) -> int
    decreases n,
{
    if n <= 0 {
        0
    } else {
        sum_mx(g, c, n - 1) + dir_x(n - 1) * g[n - 1][c]
    }
}

/// The local y momentum at cell `c` over the first `n` directions.
pub open spec fn sum_my(g: Seq<Seq<i64>>, c: int, n: int) -> int
    decreases n,
{
    if n <= 0 {
        0
    } else {
        sum_my(g, c, n - 1) + dir_y(n - 1) * g[n - 1][c]
    }
}

/// What streaming writes into direction `d` of the cell at `(cx, cy)`:
/// barrier cells keep their value; otherwise the value arrives from the
/// upstream neighbour, except that where the upstream cell is solid or
/// outside the lattice the cell's own opposite-direction value bounces back
/// in.
pub open spec fn stream_val(
    cur: Seq<Seq<i64>>,
    barrier: Seq<bool>,
    xd: int,
    yd: int,
    d: int,
    cx: int,
    cy: int,
) -> i64 {
    let c = cx + cy * xd;
    if barrier[c] {
        cur[d][c]
    } else {
        let sx = cx - dir_x(d);
        let sy = cy - dir_y(d);
        if 0 <= sx < xd && 0 <= sy < yd && !barrier[sx + sy * xd] {
            cur[d][sx + sy * xd]
        } else {
            cur[8 - d][c]
        }
    }
}

/// Streaming into a solid cell bounces the value into the opposite
/// direction's slot of the cell it came from, rather than advancing it.
pub proof fn lemma_stream_bounce(
    cur: Seq<Seq<i64>>,
    barrier: Seq<bool>,
    xd: int,
    yd: int,
    d: int,
    cx: int,
    cy: int,
)
    requires
        0 <= d < 9,
        0 <= cx < xd,
        0 <= cy < yd,
        barrier.len() == xd * yd,
        !barrier[cx + cy * xd],
        0 <= cx + dir_x(d) < xd && 0 <= cy + dir_y(d) < yd ==> barrier[(cx + dir_x(d)) + (cy
            + dir_y(d)) * xd],
    ensures
        stream_val(cur, barrier, xd, yd, 8 - d, cx, cy) == cur[d][cx + cy * xd],
{
}


/// A vector of `n` copies of `v`.
#[verifier::loop_isolation(false)]
fn filled(v: i64, n: usize) -> (r: Vec<i64>)
    ensures
        r@.len() == n,
        forall|c: int| 0 <= c < n ==> r@[c] == v,
{
    let mut out: Vec<i64> = Vec::new();
    let mut i: usize = 0;
    while i < n
        invariant
            i <= n,
            out@.len() == i,
            forall|c: int| 0 <= c < i ==> out@[c] == v,
        decreases n - i,
    {
        out.push(v);
        i = i + 1;
    }
    out
}

/// The initial barrier mask: fluid everywhere except the two horizontal
/// boundary rows, which are solid.
#[verifier::loop_isolation(false)]
pub fn init_barrier(x: usize, y: usize) -> (r: Vec<bool>)
    requires
        1 <= x,
        1 <= y,
        x * y <= 0x1000_0000,
    ensures
        r@.len() == x * y,
        forall|i: int| 0 <= i < x * y ==> r@[i] == (i < x || i >= x * (y - 1)),
{
    let n = x * y;
    proof {
        assert(0 <= x * (y - 1) <= x * y) by (nonlinear_arith)
            requires
                1 <= x,
                1 <= y,
        ;
    }
    let top = x * (y - 1);
    let mut out: Vec<bool> = Vec::new();
    let mut i: usize = 0;
    while i < n
        invariant
            i <= n,
            out@.len() == i,
            top == x * (y - 1),
            forall|k: int| 0 <= k < i ==> out@[k] == (k < x || k >= x * (y - 1)),
        decreases n - i,
    {
        out.push(i < x || i >= top);
        i = i + 1;
    }
    out
}

/// The number of workgroups of 256 threads that cover the lattice.
pub fn calculate_work_group_size(x: u32, y: u32) -> (r: usize)
    requires
        x as int * y as int <= 0x1000_0000,
    ensures
        r == (x as int * y as int + 255) / 256,
{
    ((x as usize) * (y as usize) + 255) / 256
}

/// The derived scalar field shown on screen.
#[derive(PartialEq, Eq, Structural, Clone, Copy, Debug)]
pub enum SummaryStat {
    Curl,
    Ux,
    Uy,
    Rho,
    Speed,
}

/// The palette the scalar field is mapped through.
#[derive(PartialEq, Eq, Structural, Clone, Copy, Debug)]
pub enum ColorMap {
    Inferno,
    Viridis,
    Jet,
}

/// The built-in demonstration preset.
#[derive(PartialEq, Eq, Structural, Clone, Copy, Debug)]
pub enum Preset {
    Welcome,
}

/// The double-buffered D2Q9 lattice state: two generations of nine
/// distribution grids, the barrier mask, the moment scratch buffers, and
/// the relaxation rate as an exact rational.
pub struct Lattice {
    pub x: usize,
    pub y: usize,
    pub fa: Vec<Vec<i64>>,
    pub fb: Vec<Vec<i64>>,
    pub barrier: Vec<bool>,
    pub rho: Vec<i64>,
    pub mx: Vec<i64>,
    pub my: Vec<i64>,
    pub omega_num: i64,
    pub omega_den: i64,
    pub compute_step: usize,
    pub frame_number: usize,
    pub summary_stat: SummaryStat,
    pub color_map: ColorMap,
}

impl Lattice {
    /// The number of lattice cells.
    pub open spec fn cells(&self) -> int {
        self.x * self.y
    }

    /// Structural invariant: both generations hold nine well-formed grids,
    /// the mask and scratch buffers cover every cell, and the relaxation
    /// rational is in range.
    pub open spec fn wf(&self) -> bool {
        &&& 1 <= self.x
        &&& 1 <= self.y
        &&& self.x * self.y <= 0x1000_0000
        &&& wf_grids(gview(self.fa@), self.cells())
        &&& wf_grids(gview(self.fb@), self.cells())
        &&& self.barrier@.len() == self.cells()
        &&& self.rho@.len() == self.cells()
        &&& self.mx@.len() == self.cells()
        &&& self.my@.len() == self.cells()
        &&& forall|c: int|
            0 <= c < self.cells() ==> -9 * DIST_LIMIT <= #[trigger] self.rho@[c] <= 9 * DIST_LIMIT
        &&& forall|c: int|
            0 <= c < self.cells() ==> -9 * DIST_LIMIT <= #[trigger] self.mx@[c] <= 9 * DIST_LIMIT
        &&& forall|c: int|
            0 <= c < self.cells() ==> -9 * DIST_LIMIT <= #[trigger] self.my@[c] <= 9 * DIST_LIMIT
        &&& 0 < self.omega_den <= 1_000_000_000
        &&& 0 <= self.omega_num <= 1_000_000
    }

    /// The authoritative generation at the current step.
    pub open spec fn cur_gen(&self) -> Seq<Seq<i64>> {
        if self.compute_step % 2 == 0 {
            gview(self.fa@)
        } else {
            gview(self.fb@)
        }
    }

    /// The generation streaming writes into.
    pub open spec fn next_gen(&self) -> Seq<Seq<i64>> {
        if self.compute_step % 2 == 0 {
            gview(self.fb@)
        } else {
            gview(self.fa@)
        }
    }

    /// The row-major index of the cell at `(x, y)`.
    pub fn index(&self, x: usize, y: usize) -> (r: usize)
        requires
            self.wf(),
            x < self.x,
            y < self.y,
        ensures
            r == x + y * self.x,
            r < self.cells(),
    {
        proof {
            assert(x + y * self.x < self.x * self.y) by (nonlinear_arith)
                requires
                    x < self.x,
                    y < self.y,
                    1 <= self.x,
            ;
        }
        x + y * self.x
    }
}


#[verifier::loop_isolation(false)]
fn moments_pass(
    g: &Vec<Vec<i64>>,
    rho: &mut Vec<i64>,
    mx: &mut Vec<i64>,
    my: &mut Vec<i64>,
    n: usize,
)
    requires
        wf_grids(gview(g@), n as int),
        old(rho)@.len() == n,
        old(mx)@.len() == n,
        old(my)@.len() == n,
    ensures
        final(rho)@.len() == n,
        final(mx)@.len() == n,
        final(my)@.len() == n,
        forall|c: int| 0 <= c < n ==> #[trigger] final(rho)@[c] == sum_f(gview(g@), c, 9),
        forall|c: int| 0 <= c < n ==> #[trigger] final(mx)@[c] == sum_mx(gview(g@), c, 9),
        forall|c: int| 0 <= c < n ==> #[trigger] final(my)@[c] == sum_my(gview(g@), c, 9),
        forall|c: int|
            0 <= c < n ==> -9 * DIST_LIMIT <= #[trigger] final(rho)@[c] <= 9 * DIST_LIMIT,
        forall|c: int|
            0 <= c < n ==> -9 * DIST_LIMIT <= #[trigger] final(mx)@[c] <= 9 * DIST_LIMIT,
        forall|c: int|
            0 <= c < n ==> -9 * DIST_LIMIT <= #[trigger] final(my)@[c] <= 9 * DIST_LIMIT,
{
    let ghost gs = gview(g@);
    let mut c: usize = 0;
    while c < n
        invariant
            c <= n,
            rho@.len() == n,
            mx@.len() == n,
            my@.len() == n,
            forall|dd: int| 0 <= dd < 9 ==> (#[trigger] g@[dd])@ == gs[dd],
            forall|k: int| 0 <= k < c ==> #[trigger] rho@[k] == sum_f(gs, k, 9),
            forall|k: int| 0 <= k < c ==> #[trigger] mx@[k] == sum_mx(gs, k, 9),
            forall|k: int| 0 <= k < c ==> #[trigger] my@[k] == sum_my(gs, k, 9),
            forall|k: int| 0 <= k < c ==> -9 * DIST_LIMIT <= #[trigger] rho@[k] <= 9 * DIST_LIMIT,
            forall|k: int| 0 <= k < c ==> -9 * DIST_LIMIT <= #[trigger] mx@[k] <= 9 * DIST_LIMIT,
            forall|k: int| 0 <= k < c ==> -9 * DIST_LIMIT <= #[trigger] my@[k] <= 9 * DIST_LIMIT,
        decreases n - c,
    {
        let mut r: i64 = 0;
        let mut ax: i64 = 0;
        let mut ay: i64 = 0;
        let mut d: usize = 0;
        while d < 9
            invariant
                d <= 9,
                c < n,
                forall|dd: int| 0 <= dd < 9 ==> (#[trigger] g@[dd])@ == gs[dd],
                r == sum_f(gs, c as int, d as int),
                ax == sum_mx(gs, c as int, d as int),
                ay == sum_my(gs, c as int, d as int),
                -(d as int) * DIST_LIMIT <= r <= (d as int) * DIST_LIMIT,
                -(d as int) * DIST_LIMIT <= ax <= (d as int) * DIST_LIMIT,
                -(d as int) * DIST_LIMIT <= ay <= (d as int) * DIST_LIMIT,
            decreases 9 - d,
        {
            let v = g[d][c];
            let dx = dir_x_of(d);
            let dy = dir_y_of(d);
            proof {
                assert(gs[d as int][c as int] == v);
                assert(-1 <= dx <= 1 && -1 <= dy <= 1);
                assert(-DIST_LIMIT <= dx * v <= DIST_LIMIT && -DIST_LIMIT <= dy * v <= DIST_LIMIT)
                    by (nonlinear_arith)
                    requires
                        -1 <= dx <= 1,
                        -1 <= dy <= 1,
                        -DIST_LIMIT <= v <= DIST_LIMIT,
                        DIST_LIMIT == 10_000_000_000_000,
                ;
            }
            r = r + v;
            ax = ax + dx * v;
            ay = ay + dy * v;
            d = d + 1;
        }
        rho[c] = r;
        mx[c] = ax;
        my[c] = ay;
        c = c + 1;
    }
}

#[verifier::loop_isolation(false)]
fn relax_pass(
    g: &mut Vec<Vec<i64>>,
    rho: &Vec<i64>,
    mx: &Vec<i64>,
    my: &Vec<i64>,
    om_num: i64,
    om_den: i64,
    n: usize,
)
    requires
        wf_grids(gview(old(g)@), n as int),
        rho@.len() == n,
        mx@.len() == n,
        my@.len() == n,
        forall|c: int| 0 <= c < n ==> -9 * DIST_LIMIT <= #[trigger] rho@[c] <= 9 * DIST_LIMIT,
        forall|c: int| 0 <= c < n ==> -9 * DIST_LIMIT <= #[trigger] mx@[c] <= 9 * DIST_LIMIT,
        forall|c: int| 0 <= c < n ==> -9 * DIST_LIMIT <= #[trigger] my@[c] <= 9 * DIST_LIMIT,
        0 < om_den <= 1_000_000_000,
        0 <= om_num <= 1_000_000,
    ensures
        wf_grids(gview(final(g)@), n as int),
        forall|d: int, c: int|
            0 <= d < 9 && 0 <= c < n ==> (#[trigger] gview(final(g)@)[d][c]) as int == collide_cell(
                gview(old(g)@)[d][c] as int,
                rho@[c] as int,
                mx@[c] as int,
                my@[c] as int,
                d,
                om_num as int,
                om_den as int,
            ),
{
    let ghost g0 = gview(old(g)@);
    proof {
        assert forall|d: int| 0 <= d < 9 implies (#[trigger] g@[d])@.len() == n by {
            assert(gview(g@)[d] == g@[d]@);
        }
        assert forall|d: int, k: int|
            0 <= d < 9 && 0 <= k < n implies -DIST_LIMIT <= #[trigger] g@[d]@[k] <= DIST_LIMIT by {
            assert(gview(g@)[d] == g@[d]@);
        }
        assert forall|d: int, k: int|
            0 <= d < 9 && 0 <= k < n implies #[trigger] g@[d]@[k] == g0[d][k] by {
            assert(gview(g@)[d] == g@[d]@);
        }
    }
    let mut c: usize = 0;
    while c < n
        invariant
            c <= n,
            g@.len() == 9,
            g0.len() == 9,
            forall|d: int| 0 <= d < 9 ==> (#[trigger] g@[d])@.len() == n,
            forall|d: int| 0 <= d < 9 ==> (#[trigger] g0[d]).len() == n,
            forall|d: int, k: int|
                0 <= d < 9 && c <= k < n ==> #[trigger] g@[d]@[k] == g0[d][k],
            forall|d: int, k: int|
                0 <= d < 9 && 0 <= k < c ==> (#[trigger] g@[d]@[k]) as int == collide_cell(
                    g0[d][k] as int,
                    rho@[k] as int,
                    mx@[k] as int,
                    my@[k] as int,
                    d,
                    om_num as int,
                    om_den as int,
                ),
            forall|d: int, k: int|
                0 <= d < 9 && 0 <= k < n ==> -DIST_LIMIT <= #[trigger] g@[d]@[k] <= DIST_LIMIT,
        decreases n - c,
    {
        let mut d: usize = 0;
        while d < 9
            invariant
                d <= 9,
                c < n,
                g@.len() == 9,
                forall|dd: int| 0 <= dd < 9 ==> (#[trigger] g@[dd])@.len() == n,
                forall|dd: int, k: int|
                    0 <= dd < 9 && c < k < n ==> #[trigger] g@[dd]@[k] == g0[dd][k],
                forall|dd: int|
                    d <= dd < 9 ==> #[trigger] g@[dd]@[c as int] == g0[dd][c as int],
                forall|dd: int, k: int|
                    0 <= dd < 9 && 0 <= k < c ==> (#[trigger] g@[dd]@[k]) as int == collide_cell(
                        g0[dd][k] as int,
                        rho@[k] as int,
                        mx@[k] as int,
                        my@[k] as int,
                        dd,
                        om_num as int,
                        om_den as int,
                    ),
                forall|dd: int|
                    0 <= dd < d ==> (#[trigger] g@[dd]@[c as int]) as int == collide_cell(
                        g0[dd][c as int] as int,
                        rho@[c as int] as int,
                        mx@[c as int] as int,
                        my@[c as int] as int,
                        dd,
                        om_num as int,
                        om_den as int,
                    ),
                forall|dd: int, k: int|
                    0 <= dd < 9 && 0 <= k < n ==> -DIST_LIMIT <= #[trigger] g@[dd]@[k]
                        <= DIST_LIMIT,
            decreases 9 - d,
        {
            let f = g[d][c];
            let v = collide_dist(f, rho[c], mx[c], my[c], d, om_num, om_den);
            g[d][c] = v;
            d = d + 1;
        }
        c = c + 1;
    }
    proof {
        assert forall|d: int| 0 <= d < 9 implies (#[trigger] gview(g@)[d]).len() == n by {
            assert(gview(g@)[d] == g@[d]@);
        }
        assert forall|d: int, k: int|
            0 <= d < 9 && 0 <= k < n implies -DIST_LIMIT <= #[trigger] gview(g@)[d][k]
            <= DIST_LIMIT && gview(g@)[d][k] as int == collide_cell(
            g0[d][k] as int,
            rho@[k] as int,
            mx@[k] as int,
            my@[k] as int,
            d,
            om_num as int,
            om_den as int,
        ) by {
            assert(gview(g@)[d] == g@[d]@);
        }
    }
}

#[verifier::loop_isolation(false)]
fn stream_pass(
    cur: &Vec<Vec<i64>>,
    next: &mut Vec<Vec<i64>>,
    barrier: &Vec<bool>,
    x: usize,
    y: usize,
)
    requires
        1 <= x,
        1 <= y,
        x * y <= 0x1000_0000,
        wf_grids(gview(cur@), x * y),
        wf_grids(gview(old(next)@), x * y),
        barrier@.len() == x * y,
    ensures
        wf_grids(gview(final(next)@), x * y),
        forall|d: int, c: int|
            0 <= d < 9 && 0 <= c < x * y ==> #[trigger] gview(final(next)@)[d][c] == stream_val(
                gview(cur@),
                barrier@,
                x as int,
                y as int,
                d,
                c % (x as int),
                c / (x as int),
            ),
{
    let ghost curg = gview(cur@);
    let n = x * y;
    proof {
        assert(x <= 0x1000_0000 && y <= 0x1000_0000) by (nonlinear_arith)
            requires
                x * y <= 0x1000_0000,
                1 <= x,
                1 <= y,
        ;
        assert forall|d: int| 0 <= d < 9 implies (#[trigger] next@[d])@.len() == n by {
            assert(gview(next@)[d] == next@[d]@);
        }
        assert forall|d: int, k: int|
            0 <= d < 9 && 0 <= k < n implies -DIST_LIMIT <= #[trigger] next@[d]@[k] <= DIST_LIMIT
            by {
            assert(gview(next@)[d] == next@[d]@);
        }
        assert forall|d: int| 0 <= d < 9 implies (#[trigger] cur@[d])@ == curg[d] by {
            assert(gview(cur@)[d] == cur@[d]@);
        }
    }
    let mut c: usize = 0;
    while c < n
        invariant
            c <= n,
            n == x * y,
            next@.len() == 9,
            curg.len() == 9,
            forall|dd: int| 0 <= dd < 9 ==> (#[trigger] cur@[dd])@ == curg[dd],
            forall|dd: int| 0 <= dd < 9 ==> (#[trigger] curg[dd]).len() == n,
            forall|dd: int| 0 <= dd < 9 ==> (#[trigger] next@[dd])@.len() == n,
            forall|dd: int, k: int|
                0 <= dd < 9 && 0 <= k < c ==> #[trigger] next@[dd]@[k] == stream_val(
                    curg,
                    barrier@,
                    x as int,
                    y as int,
                    dd,
                    k % (x as int),
                    k / (x as int),
                ),
            forall|dd: int, k: int|
                0 <= dd < 9 && 0 <= k < n ==> -DIST_LIMIT <= #[trigger] next@[dd]@[k]
                    <= DIST_LIMIT,
        decreases n - c,
    {
        let cx = c % x;
        let cy = c / x;
        proof {
            vstd::arithmetic::div_mod::lemma_fundamental_div_mod(c as int, x as int);
            assert(cy < y) by (nonlinear_arith)
                requires
                    c as int == (x as int) * (cy as int) + (cx as int),
                    0 <= cx < x,
                    c < x * y,
                    1 <= x,
                    cy == c as int / x as int,
            ;
        }
        let mut d: usize = 0;
        while d < 9
            invariant
                d <= 9,
                c < n,
                cx == c % x,
                cy == c / x,
                cx < x,
                cy < y,
                c == cx + cy * x,
                next@.len() == 9,
                curg.len() == 9,
                forall|dd: int| 0 <= dd < 9 ==> (#[trigger] cur@[dd])@ == curg[dd],
                forall|dd: int| 0 <= dd < 9 ==> (#[trigger] curg[dd]).len() == n,
                forall|dd: int| 0 <= dd < 9 ==> (#[trigger] next@[dd])@.len() == n,
                forall|dd: int, k: int|
                    0 <= dd < 9 && 0 <= k < c ==> #[trigger] next@[dd]@[k] == stream_val(
                        curg,
                        barrier@,
                        x as int,
                        y as int,
                        dd,
                        k % (x as int),
                        k / (x as int),
                    ),
                forall|dd: int|
                    0 <= dd < d ==> #[trigger] next@[dd]@[c as int] == stream_val(
                        curg,
                        barrier@,
                        x as int,
                        y as int,
                        dd,
                        c as int % (x as int),
                        c as int / (x as int),
                    ),
                forall|dd: int, k: int|
                    0 <= dd < 9 && 0 <= k < n ==> -DIST_LIMIT <= #[trigger] next@[dd]@[k]
                        <= DIST_LIMIT,
            decreases 9 - d,
        {
            let v: i64 = if barrier[c] {
                cur[d][c]
            } else {
                let dx = dir_x_of(d);
                let dy = dir_y_of(d);
                let sx: i64 = cx as i64 - dx;
                let sy: i64 = cy as i64 - dy;
                if 0 <= sx && sx < x as i64 && 0 <= sy && sy < y as i64 {
                    proof {
                        assert((sx as int) + (sy as int) * (x as int) < x * y)
                            by (nonlinear_arith)
                            requires
                                0 <= sx as int,
                                (sx as int) < (x as int),
                                0 <= sy as int,
                                (sy as int) < (y as int),
                                1 <= x,
                        ;
                    }
                    let src = (sx as usize) + (sy as usize) * x;
                    if !barrier[src] {
                        cur[d][src]
                    } else {
                        cur[8 - d][c]
                    }
                } else {
                    cur[8 - d][c]
                }
            };
            proof {
                assert(v == stream_val(
                    curg,
                    barrier@,
                    x as int,
                    y as int,
                    d as int,
                    c as int % (x as int),
                    c as int / (x as int),
                ));
            }
            next[d][c] = v;
            d = d + 1;
        }
        c = c + 1;
    }
    proof {
        assert forall|d: int| 0 <= d < 9 implies (#[trigger] gview(next@)[d]).len() == n by {
            assert(gview(next@)[d] == next@[d]@);
        }
        assert forall|d: int, k: int|
            0 <= d < 9 && 0 <= k < n implies -DIST_LIMIT <= #[trigger] gview(next@)[d][k]
            <= DIST_LIMIT && gview(next@)[d][k] == stream_val(
            curg,
            barrier@,
            x as int,
            y as int,
            d,
            k % (x as int),
            k / (x as int),
        ) by {
            assert(gview(next@)[d] == next@[d]@);
        }
    }
}


#[verifier::loop_isolation(false)]
fn build_gen(e: &Vec<i64>, n: usize) -> (r: Vec<Vec<i64>>)
    requires
        e@.len() == 9,
        forall|d: int| 0 <= d < 9 ==> -DIST_LIMIT <= #[trigger] e@[d] <= DIST_LIMIT,
    ensures
        wf_grids(gview(r@), n as int),
        forall|d: int, c: int|
            0 <= d < 9 && 0 <= c < n ==> #[trigger] gview(r@)[d][c] == e@[d],
{
    let mut out: Vec<Vec<i64>> = Vec::new();
    let mut d: usize = 0;
    while d < 9
        invariant
            d <= 9,
            out@.len() == d,
            forall|k: int| 0 <= k < d ==> (#[trigger] out@[k])@.len() == n,
            forall|k: int, c: int|
                0 <= k < d && 0 <= c < n ==> #[trigger] out@[k]@[c] == e@[k],
        decreases 9 - d,
    {
        out.push(filled(e[d], n));
        d = d + 1;
    }
    proof {
        assert forall|dd: int| 0 <= dd < 9 implies (#[trigger] gview(out@)[dd]).len() == n by {
            assert(gview(out@)[dd] == out@[dd]@);
        }
        assert forall|dd: int, c: int|
            0 <= dd < 9 && 0 <= c < n implies #[trigger] gview(out@)[dd][c] == e@[dd] by {
            assert(gview(out@)[dd] == out@[dd]@);
        }
    }
    out
}

/// The probe cell a single-cell impulse preset spikes, by preset index.
pub open spec fn probe_cell(index: int, x: int, y: int) -> int {
    let px = if index == 0 || index == 3 || index == 6 {
        x - 2
    } else if index == 1 || index == 4 || index == 7 {
        (3 * x) / 4
    } else if index == 2 {
        x / 3
    } else {
        x / 2
    };
    let py = if index <= 2 {
        y - 2
    } else if index <= 5 {
        y / 2
    } else {
        1
    };
    px + py * x
}

impl Lattice {
    /// A lattice of `x` by `y` cells at rest-flow equilibrium (density one,
    /// a rightward drift of a tenth), both generations identical, the two
    /// horizontal boundary rows solid, and the given relaxation rational.
    pub fn new(x: usize, y: usize, omega_num: i64, omega_den: i64) -> (r: Lattice)
        requires
            1 <= x,
            1 <= y,
            x * y <= 0x1000_0000,
            0 < omega_den <= 1_000_000_000,
            0 <= omega_num <= 1_000_000,
        ensures
            r.wf(),
            r.x == x,
            r.y == y,
            r.compute_step == 0,
            r.frame_number == 0,
            r.omega_num == omega_num,
            r.omega_den == omega_den,
            forall|d: int, c: int|
                0 <= d < 9 && 0 <= c < x * y ==> (#[trigger] r.cur_gen()[d][c]) as int
                    == equil_num(SPEED_SCALE as int, (SPEED_SCALE / 10) as int, 0, d),
            forall|i: int| 0 <= i < x * y ==> r.barrier@[i] == (i < x || i >= x * (y - 1)),
    {
        let e = equilibrium(SPEED_SCALE, SPEED_SCALE / 10, 0);
        let n = x * y;
        Lattice {
            x,
            y,
            fa: build_gen(&e, n),
            fb: build_gen(&e, n),
            barrier: init_barrier(x, y),
            rho: filled(0, n),
            mx: filled(0, n),
            my: filled(0, n),
            omega_num,
            omega_den,
            compute_step: 0,
            frame_number: 0,
            summary_stat: SummaryStat::Curl,
            color_map: ColorMap::Jet,
        }
    }

    /// Run the pre-collision and collision passes: accumulate each cell's
    /// density and momentum into the scratch buffers, then relax every
    /// distribution of the current generation toward its local equilibrium.
    pub fn collide(&mut self)
        requires
            old(self).wf(),
        ensures
            final(self).wf(),
            final(self).x == old(self).x,
            final(self).y == old(self).y,
            final(self).barrier == old(self).barrier,
            final(self).omega_num == old(self).omega_num,
            final(self).omega_den == old(self).omega_den,
            final(self).compute_step == old(self).compute_step,
            final(self).frame_number == old(self).frame_number,
            final(self).summary_stat == old(self).summary_stat,
            final(self).color_map == old(self).color_map,
            final(self).next_gen() == old(self).next_gen(),
            forall|c: int|
                0 <= c < old(self).cells() ==> #[trigger] final(self).rho@[c] == sum_f(
                    old(self).cur_gen(),
                    c,
                    9,
                ),
            forall|c: int|
                0 <= c < old(self).cells() ==> #[trigger] final(self).mx@[c] == sum_mx(
                    old(self).cur_gen(),
                    c,
                    9,
                ),
            forall|c: int|
                0 <= c < old(self).cells() ==> #[trigger] final(self).my@[c] == sum_my(
                    old(self).cur_gen(),
                    c,
                    9,
                ),
            forall|d: int, c: int|
                0 <= d < 9 && 0 <= c < old(self).cells() ==> (#[trigger] final(self).cur_gen(
                )[d][c]) as int == collide_cell(
                    old(self).cur_gen()[d][c] as int,
                    sum_f(old(self).cur_gen(), c, 9),
                    sum_mx(old(self).cur_gen(), c, 9),
                    sum_my(old(self).cur_gen(), c, 9),
                    d,
                    old(self).omega_num as int,
                    old(self).omega_den as int,
                ),
    {
        let n = self.x * self.y;
        if self.compute_step % 2 == 0 {
            moments_pass(&self.fa, &mut self.rho, &mut self.mx, &mut self.my, n);
            relax_pass(
                &mut self.fa,
                &self.rho,
                &self.mx,
                &self.my,
                self.omega_num,
                self.omega_den,
                n,
            );
        } else {
            moments_pass(&self.fb, &mut self.rho, &mut self.mx, &mut self.my, n);
            relax_pass(
                &mut self.fb,
                &self.rho,
                &self.mx,
                &self.my,
                self.omega_num,
                self.omega_den,
                n,
            );
        }
    }

    /// Run the streaming passes: every distribution of the current
    /// generation advances one lattice step into the next generation,
    /// bouncing back where it would enter a solid cell or leave the
    /// lattice.
    pub fn stream(&mut self)
        requires
            old(self).wf(),
        ensures
            final(self).wf(),
            final(self).x == old(self).x,
            final(self).y == old(self).y,
            final(self).barrier == old(self).barrier,
            final(self).omega_num == old(self).omega_num,
            final(self).omega_den == old(self).omega_den,
            final(self).compute_step == old(self).compute_step,
            final(self).frame_number == old(self).frame_number,
            final(self).summary_stat == old(self).summary_stat,
            final(self).color_map == old(self).color_map,
            final(self).rho == old(self).rho,
            final(self).mx == old(self).mx,
            final(self).my == old(self).my,
            final(self).cur_gen() == old(self).cur_gen(),
            forall|d: int, c: int|
                0 <= d < 9 && 0 <= c < old(self).cells() ==> #[trigger] final(self).next_gen(
                )[d][c] == stream_val(
                    old(self).cur_gen(),
                    old(self).barrier@,
                    old(self).x as int,
                    old(self).y as int,
                    d,
                    c % (old(self).x as int),
                    c / (old(self).x as int),
                ),
    {
        if self.compute_step % 2 == 0 {
            stream_pass(&self.fa, &mut self.fb, &self.barrier, self.x, self.y);
        } else {
            stream_pass(&self.fb, &mut self.fa, &self.barrier, self.x, self.y);
        }
    }

    /// One full compute step: collision followed by streaming, after which
    /// the freshly written generation becomes the current one.
    pub fn compute_step(&mut self)
        requires
            old(self).wf(),
            old(self).compute_step < usize::MAX,
        ensures
            final(self).wf(),
            final(self).x == old(self).x,
            final(self).y == old(self).y,
            final(self).barrier == old(self).barrier,
            final(self).omega_num == old(self).omega_num,
            final(self).omega_den == old(self).omega_den,
            final(self).compute_step == old(self).compute_step + 1,
            final(self).frame_number == old(self).frame_number,
            final(self).summary_stat == old(self).summary_stat,
            final(self).color_map == old(self).color_map,
            forall|c: int|
                0 <= c < old(self).cells() ==> #[trigger] final(self).rho@[c] == sum_f(
                    old(self).cur_gen(),
                    c,
                    9,
                ),
            forall|c: int|
                0 <= c < old(self).cells() ==> #[trigger] final(self).mx@[c] == sum_mx(
                    old(self).cur_gen(),
                    c,
                    9,
                ),
            forall|c: int|
                0 <= c < old(self).cells() ==> #[trigger] final(self).my@[c] == sum_my(
                    old(self).cur_gen(),
                    c,
                    9,
                ),
            forall|d: int, c: int|
                0 <= d < 9 && 0 <= c < old(self).cells() ==> (#[trigger] final(self).next_gen(
                )[d][c]) as int == collide_cell(
                    old(self).cur_gen()[d][c] as int,
                    sum_f(old(self).cur_gen(), c, 9),
                    sum_mx(old(self).cur_gen(), c, 9),
                    sum_my(old(self).cur_gen(), c, 9),
                    d,
                    old(self).omega_num as int,
                    old(self).omega_den as int,
                ),
            forall|d: int, c: int|
                0 <= d < 9 && 0 <= c < old(self).cells() ==> #[trigger] final(self).cur_gen(
                )[d][c] == stream_val(
                    final(self).next_gen(),
                    final(self).barrier@,
                    old(self).x as int,
                    old(self).y as int,
                    d,
                    c % (old(self).x as int),
                    c / (old(self).x as int),
                ),
    {
        self.collide();
        let ghost midcur = self.cur_gen();
        self.stream();
        let ghost streamed = self.next_gen();
        proof {
            assert forall|d: int, c: int|
                0 <= d < 9 && 0 <= c < self.cells() implies #[trigger] streamed[d][c]
                == stream_val(
                midcur,
                self.barrier@,
                self.x as int,
                self.y as int,
                d,
                c % (self.x as int),
                c / (self.x as int),
            ) by {
                assert(self.next_gen()[d][c] == stream_val(
                    midcur,
                    self.barrier@,
                    self.x as int,
                    self.y as int,
                    d,
                    c % (self.x as int),
                    c / (self.x as int),
                ));
            }
            let t = self.compute_step as int;
            vstd::arithmetic::div_mod::lemma_add_mod_noop(t, 1, 2);
            assert(t % 2 == 0 ==> (t + 1) % 2 == 1);
            assert(t % 2 == 1 ==> (t + 1) % 2 == 0);
        }
        self.compute_step = self.compute_step + 1;
        proof {
            if old(self).compute_step % 2 == 0 {
                assert(self.cur_gen() == gview(self.fb@));
                assert(self.next_gen() == gview(self.fa@));
            } else {
                assert(self.cur_gen() == gview(self.fa@));
                assert(self.next_gen() == gview(self.fb@));
            }
            assert(self.cur_gen() == streamed);
            assert(self.next_gen() == midcur);
            assert forall|d: int, c: int|
                0 <= d < 9 && 0 <= c < self.cells() implies #[trigger] self.cur_gen()[d][c]
                == stream_val(
                self.next_gen(),
                self.barrier@,
                old(self).x as int,
                old(self).y as int,
                d,
                c % (old(self).x as int),
                c / (old(self).x as int),
            ) by {
                assert(self.cur_gen()[d][c] == streamed[d][c]);
                assert(streamed[d][c] == stream_val(
                    midcur,
                    self.barrier@,
                    self.x as int,
                    self.y as int,
                    d,
                    c % (self.x as int),
                    c / (self.x as int),
                ));
            }
        }
    }
}

/// A field in which every cell holds the zero-velocity equilibrium of one
/// uniform density.
pub open spec fn uniform_equilibrium(g: Seq<Seq<i64>>, n: int, rho_n: int) -> bool {
    &&& g.len() == 9
    &&& forall|d: int| 0 <= d < 9 ==> (#[trigger] g[d]).len() == n
    &&& forall|d: int, c: int|
        0 <= d < 9 && 0 <= c < n ==> (#[trigger] g[d][c]) as int == 2 * SPEED_SCALE * SPEED_SCALE
            * rho_n * w36(d)
}

/// A uniform zero-velocity equilibrium field is a fixed point of one full
/// compute step: collision leaves every distribution unchanged, and the
/// streamed generation holds exactly the same values, whatever the barrier
/// mask.
#[verifier::rlimit(100)]
pub proof fn lemma_step_preserves_equilibrium(
    g: Seq<Seq<i64>>,
    barrier: Seq<bool>,
    xd: int,
    yd: int,
    rho_n: int,
    om_num: int,
    om_den: int,
)
    requires
        1 <= xd,
        1 <= yd,
        uniform_equilibrium(g, xd * yd, rho_n),
        barrier.len() == xd * yd,
        0 < rho_n <= 10 * SPEED_SCALE,
        0 < om_den,
        0 <= om_num,
    ensures
        forall|d: int, c: int|
            0 <= d < 9 && 0 <= c < xd * yd ==> collide_cell(
                g[d][c] as int,
                sum_f(g, c, 9),
                sum_mx(g, c, 9),
                sum_my(g, c, 9),
                d,
                om_num,
                om_den,
            ) == (#[trigger] g[d][c]) as int,
        forall|d: int, c: int|
            0 <= d < 9 && 0 <= c < xd * yd ==> stream_val(g, barrier, xd, yd, d, c % xd, c / xd)
                == #[trigger] g[d][c],
{
    let s = SPEED_SCALE as int;
    let n = xd * yd;
    assert forall|c: int| 0 <= c < n implies sum_f(g, c, 9) == 72 * s * s * rho_n && sum_mx(
        g,
        c,
        9,
    ) == 0 && sum_my(g, c, 9) == 0 by {
        reveal_with_fuel(sum_f, 10);
        reveal_with_fuel(sum_mx, 10);
        reveal_with_fuel(sum_my, 10);
        assert(sum_f(g, c, 9) == g[0][c] + g[1][c] + g[2][c] + g[3][c] + g[4][c] + g[5][c]
            + g[6][c] + g[7][c] + g[8][c]);
        assert(sum_f(g, c, 9) == 2 * s * s * rho_n * 1 + 2 * s * s * rho_n * 4 + 2 * s * s * rho_n
            * 1 + 2 * s * s * rho_n * 4 + 2 * s * s * rho_n * 16 + 2 * s * s * rho_n * 4 + 2 * s
            * s * rho_n * 1 + 2 * s * s * rho_n * 4 + 2 * s * s * rho_n * 1);
        assert(sum_f(g, c, 9) == 72 * s * s * rho_n) by (nonlinear_arith)
            requires
                sum_f(g, c, 9) == 2 * s * s * rho_n * 1 + 2 * s * s * rho_n * 4 + 2 * s * s
                    * rho_n * 1 + 2 * s * s * rho_n * 4 + 2 * s * s * rho_n * 16 + 2 * s * s
                    * rho_n * 4 + 2 * s * s * rho_n * 1 + 2 * s * s * rho_n * 4 + 2 * s * s
                    * rho_n * 1,
        ;
        assert(sum_mx(g, c, 9) == (-1) * g[0][c] + 0 * g[1][c] + 1 * g[2][c] + (-1) * g[3][c] + 0
            * g[4][c] + 1 * g[5][c] + (-1) * g[6][c] + 0 * g[7][c] + 1 * g[8][c]);
        assert(sum_mx(g, c, 9) == 0) by (nonlinear_arith)
            requires
                sum_mx(g, c, 9) == (-1) * (2 * s * s * rho_n * 1) + 1 * (2 * s * s * rho_n * 1) + (
                -1) * (2 * s * s * rho_n * 4) + 1 * (2 * s * s * rho_n * 4) + (-1) * (2 * s * s
                    * rho_n * 1) + 1 * (2 * s * s * rho_n * 1),
        ;
        assert(sum_my(g, c, 9) == 1 * g[0][c] + 1 * g[1][c] + 1 * g[2][c] + 0 * g[3][c] + 0
            * g[4][c] + 0 * g[5][c] + (-1) * g[6][c] + (-1) * g[7][c] + (-1) * g[8][c]);
        assert(sum_my(g, c, 9) == 0) by (nonlinear_arith)
            requires
                sum_my(g, c, 9) == 1 * (2 * s * s * rho_n * 1) + 1 * (2 * s * s * rho_n * 4) + 1
                    * (2 * s * s * rho_n * 1) + (-1) * (2 * s * s * rho_n * 1) + (-1) * (2 * s * s
                    * rho_n * 4) + (-1) * (2 * s * s * rho_n * 1),
        ;
    }
    assert forall|d: int, c: int| 0 <= d < 9 && 0 <= c < n implies collide_cell(
        g[d][c] as int,
        sum_f(g, c, 9),
        sum_mx(g, c, 9),
        sum_my(g, c, 9),
        d,
        om_num,
        om_den,
    ) == (#[trigger] g[d][c]) as int by {
        let rho = 72 * s * s * rho_n;
        let f = g[d][c] as int;
        assert(rho > 0) by (nonlinear_arith)
            requires
                rho == 72 * s * s * rho_n,
                s == 1000,
                rho_n > 0,
        ;
        let rho_cc = sum_f(g, c, 9);
        let mx_cc = sum_mx(g, c, 9);
        let my_cc = sum_my(g, c, 9);
        assert(rho_cc == rho && mx_cc == 0 && my_cc == 0);
        let qcc = dir_x(d) * mx_cc + dir_y(d) * my_cc;
        assert(qcc == 0) by (nonlinear_arith)
            requires
                qcc == dir_x(d) * mx_cc + dir_y(d) * my_cc,
                mx_cc == 0,
                my_cc == 0,
        ;
        let num = w36(d) * (2 * rho * rho);
        assert(w36(d) * (2 * rho_cc * rho_cc + 6 * rho_cc * qcc + 9 * qcc * qcc - 3 * (mx_cc
            * mx_cc + my_cc * my_cc)) == num) by (nonlinear_arith)
            requires
                qcc == 0,
                rho_cc == rho,
                mx_cc == 0,
                my_cc == 0,
                num == w36(d) * (2 * rho * rho),
        ;
        assert(num == (72 * rho) * (2 * s * s * rho_n * w36(d))) by (nonlinear_arith)
            requires
                num == w36(d) * (2 * rho * rho),
                rho == 72 * s * s * rho_n,
        ;
        vstd::arithmetic::div_mod::lemma_div_multiples_vanish(
            2 * s * s * rho_n * w36(d),
            72 * rho,
        );
        assert(num >= 0) by (nonlinear_arith)
            requires
                num == w36(d) * (2 * rho * rho),
                1 <= w36(d),
        ;
        assert(div_trunc(num, 72 * rho) == 2 * s * s * rho_n * w36(d));
        assert(f == 2 * s * s * rho_n * w36(d));
        assert(om_num * (div_trunc(num, 72 * rho) - f) == 0) by (nonlinear_arith)
            requires
                div_trunc(num, 72 * rho) - f == 0,
        ;
        assert(div_trunc(0, om_den) == 0) by {
            assert(0int / om_den == 0) by (nonlinear_arith)
                requires
                    0 < om_den,
            ;
        }
        assert(-DIST_LIMIT <= f <= DIST_LIMIT) by (nonlinear_arith)
            requires
                f == 2 * s * s * rho_n * w36(d),
                s == 1000,
                0 < rho_n <= 10 * s,
                1 <= w36(d) <= 16,
                DIST_LIMIT == 10_000_000_000_000,
        ;
        assert(clamp_dist(f + 0) == f);
    }
    assert forall|d: int, c: int| 0 <= d < 9 && 0 <= c < n implies stream_val(
        g,
        barrier,
        xd,
        yd,
        d,
        c % xd,
        c / xd,
    ) == #[trigger] g[d][c] by {
        let cx = c % xd;
        let cy = c / xd;
        vstd::arithmetic::div_mod::lemma_fundamental_div_mod(c, xd);
        assert(0 <= cx < xd);
        assert(cy < yd) by (nonlinear_arith)
            requires
                c == xd * cy + cx,
                0 <= cx < xd,
                c < xd * yd,
                1 <= xd,
        ;
        assert(0 <= cy);
        assert(cx + cy * xd == c) by (nonlinear_arith)
            requires
                c == xd * cy + cx,
        ;
        if !barrier[c] {
            let sx = cx - dir_x(d);
            let sy = cy - dir_y(d);
            if 0 <= sx < xd && 0 <= sy < yd && !barrier[sx + sy * xd] {
                assert(0 <= sx + sy * xd < n) by (nonlinear_arith)
                    requires
                        0 <= sx < xd,
                        0 <= sy < yd,
                        n == xd * yd,
                ;
                assert(g[d][sx + sy * xd] as int == 2 * s * s * rho_n * w36(d));
                assert(g[d][c] as int == 2 * s * s * rho_n * w36(d));
                assert(g[d][sx + sy * xd] == g[d][c]);
            } else {
                assert(w36(8 - d) == w36(d));
                assert(g[8 - d][c] as int == 2 * s * s * rho_n * w36(8 - d));
                assert(g[8 - d][c] == g[d][c]);
            }
        }
    }
}


/// The impulse value a single-cell preset injects, as a distribution
/// numerator: the value four at the common scale.
pub const SPIKE: i64 = 288_000_000_000;

/// The barrier mask after writing each tagged point of `pts[..k]` in order:
/// a present tag sets the cell solid, an absent tag clears it.
pub open spec fn apply_points(
    b: Seq<bool>,
    pts: Seq<crate::barrier_shapes::TaggedPoint>,
    xd: int,
    k: int,
) -> Seq<bool>
    decreases k,
{
    if k <= 0 {
        b
    } else {
        let p = pts[k - 1];
        apply_points(b, pts, xd, k - 1).update(p.0 + p.1 * xd, p.2)
    }
}

/// Writing a sequence of present-tagged points never clears a solid cell,
/// and leaves every written cell solid.
pub proof fn lemma_apply_points_true(
    b: Seq<bool>,
    pts: Seq<crate::barrier_shapes::TaggedPoint>,
    xd: int,
    n: int,
)
    requires
        0 <= n <= pts.len(),
        forall|k: int| 0 <= k < pts.len() ==> (#[trigger] pts[k]).2 == true,
        forall|k: int|
            0 <= k < pts.len() ==> 0 <= (#[trigger] pts[k]).0 + pts[k].1 * xd < b.len(),
    ensures
        apply_points(b, pts, xd, n).len() == b.len(),
        forall|c: int|
            0 <= c < b.len() && b[c] ==> #[trigger] apply_points(b, pts, xd, n)[c],
        forall|k: int|
            0 <= k < n ==> apply_points(b, pts, xd, n)[(#[trigger] pts[k]).0 + pts[k].1 * xd],
    decreases n,
{
    if n > 0 {
        lemma_apply_points_true(b, pts, xd, n - 1);
    }
}

impl Lattice {
    /// The number of compute steps taken since the last reset.
    pub fn get_compute_num(&self) -> (r: usize)
        ensures
            r == self.compute_step,
    {
        self.compute_step
    }

    /// The number of frames rendered since the last reset.
    pub fn get_frame_num(&self) -> (r: usize)
        ensures
            r == self.frame_number,
    {
        self.frame_number
    }

    /// Replace the relaxation rate, as the exact rational
    /// `omega_num / omega_den`.
    pub fn update_omega_buffer(&mut self, omega_num: i64, omega_den: i64)
        requires
            old(self).wf(),
            0 < omega_den <= 1_000_000_000,
            0 <= omega_num <= 1_000_000,
        ensures
            final(self).wf(),
            *final(self) == (Lattice { omega_num, omega_den, ..*old(self) }),
    {
        self.omega_num = omega_num;
        self.omega_den = omega_den;
    }

    /// Restore the initial barrier mask: fluid everywhere but the two
    /// horizontal boundary rows.
    pub fn reset_barrier(&mut self)
        requires
            old(self).wf(),
        ensures
            final(self).wf(),
            final(self).barrier@.len() == old(self).cells(),
            forall|i: int|
                0 <= i < old(self).cells() ==> final(self).barrier@[i] == (i < old(self).x || i
                    >= old(self).x * (old(self).y - 1)),
            *final(self) == (Lattice { barrier: final(self).barrier, ..*old(self) }),
    {
        self.barrier = init_barrier(self.x, self.y);
    }

    /// Write a shape's tagged points into the barrier mask: each present
    /// tag makes its cell solid, each absent tag clears it.
    #[verifier::loop_isolation(false)]
    pub fn draw_shape<S: crate::barrier_shapes::Shape>(&mut self, shape: &S)
        requires
            old(self).wf(),
            forall|k: int|
                0 <= k < shape.pts().len() ==> 0 <= (#[trigger] shape.pts()[k]).0 < old(self).x
                    && 0 <= shape.pts()[k].1 < old(self).y,
        ensures
            final(self).wf(),
            final(self).barrier@ == apply_points(
                old(self).barrier@,
                shape.pts(),
                old(self).x as int,
                shape.pts().len() as int,
            ),
            *final(self) == (Lattice { barrier: final(self).barrier, ..*old(self) }),
    {
        let pts = shape.get_points();
        let n = pts.len();
        let mut k: usize = 0;
        while k < n
            invariant
                k <= n,
                n == shape.pts().len(),
                pts@ == shape.pts(),
                self.barrier@.len() == old(self).cells(),
                self.barrier@ == apply_points(
                    old(self).barrier@,
                    shape.pts(),
                    old(self).x as int,
                    k as int,
                ),
                *self == (Lattice { barrier: self.barrier, ..*old(self) }),
            decreases n - k,
        {
            let p = pts[k];
            proof {
                assert((p.0 as int) + (p.1 as int) * (self.x as int) < self.cells())
                    by (nonlinear_arith)
                    requires
                        0 <= p.0 as int,
                        (p.0 as int) < (self.x as int),
                        0 <= p.1 as int,
                        (p.1 as int) < (self.y as int),
                        self.cells() == self.x * self.y,
                        1 <= self.x,
                ;
            }
            let idx = (p.0 as usize) + (p.1 as usize) * self.x;
            self.barrier[idx] = p.2;
            k = k + 1;
        }
    }

    fn fill_both(&mut self, e: &Vec<i64>)
        requires
            old(self).wf(),
            e@.len() == 9,
            forall|d: int| 0 <= d < 9 ==> -DIST_LIMIT <= #[trigger] e@[d] <= DIST_LIMIT,
        ensures
            final(self).wf(),
            final(self).x == old(self).x,
            final(self).y == old(self).y,
            final(self).barrier == old(self).barrier,
            final(self).omega_num == old(self).omega_num,
            final(self).omega_den == old(self).omega_den,
            final(self).compute_step == 0,
            final(self).frame_number == 0,
            forall|d: int, c: int|
                0 <= d < 9 && 0 <= c < old(self).cells() ==> #[trigger] final(self).cur_gen(
                )[d][c] == e@[d],
            forall|d: int, c: int|
                0 <= d < 9 && 0 <= c < old(self).cells() ==> #[trigger] final(self).next_gen(
                )[d][c] == e@[d],
    {
        let n = self.x * self.y;
        self.fa = build_gen(e, n);
        self.fb = build_gen(e, n);
        self.compute_step = 0;
        self.frame_number = 0;
    }

    /// Overwrite both generations with the equilibrium of a uniform
    /// rightward flow of the given speed at density one, reset the step and
    /// frame counters, and refresh the moment buffers.
    pub fn custom_speed(&mut self, ux_n: i64)
        requires
            old(self).wf(),
            -SPEED_SCALE <= ux_n <= SPEED_SCALE,
        ensures
            final(self).wf(),
            final(self).x == old(self).x,
            final(self).y == old(self).y,
            final(self).barrier == old(self).barrier,
            final(self).compute_step == 0,
            final(self).frame_number == 0,
            forall|d: int, c: int|
                0 <= d < 9 && 0 <= c < old(self).cells() ==> (#[trigger] final(self).cur_gen(
                )[d][c]) as int == equil_num(SPEED_SCALE as int, ux_n as int, 0, d),
            forall|c: int|
                0 <= c < old(self).cells() ==> #[trigger] final(self).rho@[c] == sum_f(
                    final(self).cur_gen(),
                    c,
                    9,
                ),
    {
        let e = equilibrium(SPEED_SCALE, ux_n, 0);
        self.fill_both(&e);
        let ghost eq_gen = self.cur_gen();
        proof {
            assert forall|d: int, c: int|
                0 <= d < 9 && 0 <= c < self.cells() implies #[trigger] eq_gen[d][c] == e@[d] by {
                assert(self.cur_gen()[d][c] == e@[d]);
            }
        }
        let n = self.x * self.y;
        moments_pass(&self.fa, &mut self.rho, &mut self.mx, &mut self.my, n);
        proof {
            assert(self.cur_gen() == gview(self.fa@));
            assert(self.cur_gen() == eq_gen);
            assert forall|d: int, c: int|
                0 <= d < 9 && 0 <= c < self.cells() implies (#[trigger] self.cur_gen()[d][c])
                as int == equil_num(SPEED_SCALE as int, ux_n as int, 0, d) by {
                assert(self.cur_gen()[d][c] == eq_gen[d][c]);
                assert(eq_gen[d][c] == e@[d]);
            }
        }
    }

    /// Overwrite both generations with the rest equilibrium of the default
    /// gentle rightward flow and reset the counters.
    pub fn reset_to_equilibrium(&mut self)
        requires
            old(self).wf(),
        ensures
            final(self).wf(),
            final(self).x == old(self).x,
            final(self).y == old(self).y,
            final(self).barrier == old(self).barrier,
            final(self).compute_step == 0,
            final(self).frame_number == 0,
            forall|d: int, c: int|
                0 <= d < 9 && 0 <= c < old(self).cells() ==> (#[trigger] final(self).cur_gen(
                )[d][c]) as int == equil_num(SPEED_SCALE as int, (SPEED_SCALE / 10) as int, 0, d),
    {
        self.custom_speed(SPEED_SCALE / 10);
    }

    /// Overwrite both generations with the zero-velocity equilibrium of
    /// density one, then spike one distribution component at one fixed
    /// probe coordinate chosen by `index`, and reset the counters.
    pub fn single_cell(&mut self, index: usize)
        requires
            old(self).wf(),
            index < 9,
            old(self).x >= 4,
            old(self).y >= 4,
        ensures
            final(self).wf(),
            final(self).x == old(self).x,
            final(self).y == old(self).y,
            final(self).barrier == old(self).barrier,
            final(self).compute_step == 0,
            final(self).frame_number == 0,
            forall|d: int, c: int|
                0 <= d < 9 && 0 <= c < old(self).cells() && !(d == index && c == probe_cell(
                    index as int,
                    old(self).x as int,
                    old(self).y as int,
                )) ==> (#[trigger] final(self).cur_gen()[d][c]) as int == equil_num(
                    SPEED_SCALE as int,
                    0,
                    0,
                    d,
                ),
            final(self).cur_gen()[index as int][probe_cell(
                index as int,
                old(self).x as int,
                old(self).y as int,
            )] == SPIKE,
    {
        let e = equilibrium(SPEED_SCALE, 0, 0);
        self.fill_both(&e);
        proof {
            assert(self.x <= 0x1000_0000 && self.y <= 0x1000_0000) by (nonlinear_arith)
                requires
                    self.x * self.y <= 0x1000_0000,
                    1 <= self.x,
                    1 <= self.y,
            ;
        }
        let px: usize = if index == 0 || index == 3 || index == 6 {
            self.x - 2
        } else if index == 1 || index == 4 || index == 7 {
            3 * self.x / 4
        } else if index == 2 {
            self.x / 3
        } else {
            self.x / 2
        };
        let py: usize = if index <= 2 {
            self.y - 2
        } else if index <= 5 {
            self.y / 2
        } else {
            1
        };
        proof {
            assert(3 * self.x / 4 < self.x && self.x / 3 < self.x && self.x / 2 < self.x)
                by (nonlinear_arith)
                requires
                    4 <= self.x,
            ;
        }
        let idx = self.index(px, py);
        let ghost eq_gen = self.cur_gen();
        let ghost e_seq = e@;
        proof {
            assert(idx as int == probe_cell(index as int, self.x as int, self.y as int));
            assert forall|d: int, c: int|
                0 <= d < 9 && 0 <= c < self.cells() implies #[trigger] eq_gen[d][c]
                == e_seq[d] by {
                assert(self.cur_gen()[d][c] == e@[d]);
            }
        }
        let ghost fa0 = self.fa@;
        let ghost fb0 = self.fb@;
        proof {
            assert forall|d: int| 0 <= d < 9 implies (#[trigger] fa0[d])@.len()
                == self.cells() by {
                assert(gview(fa0)[d] == fa0[d]@);
            }
            assert forall|d: int| 0 <= d < 9 implies (#[trigger] fb0[d])@.len()
                == self.cells() by {
                assert(gview(fb0)[d] == fb0[d]@);
            }
            assert forall|d: int, c: int|
                0 <= d < 9 && 0 <= c < self.cells() implies -DIST_LIMIT <= #[trigger] fa0[d]@[c]
                <= DIST_LIMIT by {
                assert(gview(fa0)[d] == fa0[d]@);
            }
            assert forall|d: int, c: int|
                0 <= d < 9 && 0 <= c < self.cells() implies -DIST_LIMIT <= #[trigger] fb0[d]@[c]
                <= DIST_LIMIT by {
                assert(gview(fb0)[d] == fb0[d]@);
            }
        }
        self.fa[index][idx] = SPIKE;
        self.fb[index][idx] = SPIKE;
        proof {
            assert forall|d: int| 0 <= d < 9 implies (#[trigger] gview(self.fa@)[d]).len()
                == self.cells() by {
                assert(gview(self.fa@)[d] == self.fa@[d]@);
                if d != index as int {
                    assert(self.fa@[d] == fa0[d]);
                } else {
                    assert(self.fa@[d]@ == fa0[d]@.update(idx as int, SPIKE));
                }
            }
            assert forall|d: int| 0 <= d < 9 implies (#[trigger] gview(self.fb@)[d]).len()
                == self.cells() by {
                assert(gview(self.fb@)[d] == self.fb@[d]@);
                if d != index as int {
                    assert(self.fb@[d] == fb0[d]);
                } else {
                    assert(self.fb@[d]@ == fb0[d]@.update(idx as int, SPIKE));
                }
            }
            assert forall|d: int, c: int|
                0 <= d < 9 && 0 <= c < self.cells() implies -DIST_LIMIT <= #[trigger] gview(
                self.fa@,
            )[d][c] <= DIST_LIMIT by {
                assert(gview(self.fa@)[d] == self.fa@[d]@);
                if d != index as int {
                    assert(self.fa@[d] == fa0[d]);
                } else {
                    assert(self.fa@[d]@ == fa0[d]@.update(idx as int, SPIKE));
                }
            }
            assert forall|d: int, c: int|
                0 <= d < 9 && 0 <= c < self.cells() implies -DIST_LIMIT <= #[trigger] gview(
                self.fb@,
            )[d][c] <= DIST_LIMIT by {
                assert(gview(self.fb@)[d] == self.fb@[d]@);
                if d != index as int {
                    assert(self.fb@[d] == fb0[d]);
                } else {
                    assert(self.fb@[d]@ == fb0[d]@.update(idx as int, SPIKE));
                }
            }
            assert(self.cur_gen() == gview(self.fa@));
            assert forall|d: int, c: int|
                0 <= d < 9 && 0 <= c < self.cells() && !(d == index && c == idx) implies (
            #[trigger] self.cur_gen()[d][c]) as int == equil_num(SPEED_SCALE as int, 0, 0, d) by {
                assert(gview(self.fa@)[d] == self.fa@[d]@);
                if d != index as int {
                    assert(self.fa@[d] == fa0[d]);
                } else {
                    assert(self.fa@[d]@ == fa0[d]@.update(idx as int, SPIKE));
                }
                assert(fa0[d]@[c] == eq_gen[d][c]);
                assert(eq_gen[d][c] == e_seq[d]);
            }
            assert(self.cur_gen()[index as int][idx as int] == SPIKE) by {
                assert(gview(self.fa@)[index as int] == self.fa@[index as int]@);
                assert(self.fa@[index as int]@ == fa0[index as int]@.update(idx as int, SPIKE));
            }
        }
    }
}


/// A velocity component recovered from momentum and density, scaled back to
/// `SPEED_SCALE` units; zero where the density is not positive.
pub open spec fn u_of(m: int, rho: int) -> int {
    if rho <= 0 {
        0
    } else {
        div_trunc(m * SPEED_SCALE, rho)
    }
}

/// The discrete vorticity at cell `c`: central differences of the y
/// velocity in x and of the x velocity in y; zero on the lattice border.
pub open spec fn curl_at(
    rho: Seq<i64>,
    mx: Seq<i64>,
    my: Seq<i64>,
    xd: int,
    yd: int,
    c: int,
) -> int {
    let cx = c % xd;
    let cy = c / xd;
    if 1 <= cx && cx < xd - 1 && 1 <= cy && cy < yd - 1 {
        (u_of(my[c + 1] as int, rho[c + 1] as int) - u_of(my[c - 1] as int, rho[c - 1] as int)) - (
        u_of(mx[c + xd] as int, rho[c + xd] as int) - u_of(mx[c - xd] as int, rho[c - xd] as int))
    } else {
        0
    }
}

/// One velocity component from the scratch moments.
fn u_val(m: i64, rho: i64) -> (r: i64)
    requires
        -9 * DIST_LIMIT <= m <= 9 * DIST_LIMIT,
        -9 * DIST_LIMIT <= rho <= 9 * DIST_LIMIT,
    ensures
        r == u_of(m as int, rho as int),
        -90_000_000_000_000_000 <= r <= 90_000_000_000_000_000,
{
    if rho <= 0 {
        return 0;
    }
    proof {
        assert(-90_000_000_000_000_000 <= (m as int) * (SPEED_SCALE as int)
            <= 90_000_000_000_000_000) by (nonlinear_arith)
            requires
                -90_000_000_000_000 <= m as int <= 90_000_000_000_000,
                SPEED_SCALE == 1000,
        ;
    }
    let num: i128 = (m as i128) * (SPEED_SCALE as i128);
    let q = div_trunc_i128(num, rho as i128);
    q as i64
}

/// The integer square root of `t`.
#[verifier::loop_isolation(false)]
fn isqrt_u128(t: u128) -> (r: u64)
    requires
        t <= 0x10_0000_0000_0000_0000_0000_0000_0000u128,
    ensures
        (r as int) * (r as int) <= t,
        ((r as int) + 1) * ((r as int) + 1) > t,
{
    let mut lo: u64 = 0;
    let mut hi: u64 = 0x4000_0000_0000_0000;
    proof {
        assert((0x4000_0000_0000_0000u64 as int) * (0x4000_0000_0000_0000u64 as int)
            > 0x10_0000_0000_0000_0000_0000_0000_0000u128 as int) by (nonlinear_arith);
    }
    while lo + 1 < hi
        invariant
            lo < hi,
            hi <= 0x4000_0000_0000_0000,
            (lo as int) * (lo as int) <= t,
            (hi as int) * (hi as int) > t,
        decreases hi - lo,
    {
        let mid = lo + (hi - lo) / 2;
        proof {
            assert(lo < mid < hi);
            assert((mid as int) * (mid as int) < 0x1_0000_0000_0000_0000_0000_0000_0000_0000int)
                by (nonlinear_arith)
                requires
                    mid < 0x8000_0000_0000_0000u64,
            ;
        }
        let sq = (mid as u128) * (mid as u128);
        if sq <= t {
            lo = mid;
        } else {
            hi = mid;
        }
    }
    lo
}

impl Lattice {
    /// Select which summary field the next frames derive.
    pub fn set_summary(&mut self, stat: SummaryStat)
        requires
            old(self).wf(),
        ensures
            final(self).wf(),
            *final(self) == (Lattice { summary_stat: stat, ..*old(self) }),
    {
        self.summary_stat = stat;
    }

    /// Derive the selected summary field from the scratch moments: density,
    /// a velocity component, flow speed, or discrete vorticity per cell.
    #[verifier::loop_isolation(false)]
    pub fn calculate_summary(&self) -> (r: Vec<i64>)
        requires
            self.wf(),
        ensures
            r@.len() == self.cells(),
            self.summary_stat == SummaryStat::Rho ==> forall|c: int|
                0 <= c < self.cells() ==> #[trigger] r@[c] == self.rho@[c],
            self.summary_stat == SummaryStat::Ux ==> forall|c: int|
                0 <= c < self.cells() ==> #[trigger] r@[c] == u_of(
                    self.mx@[c] as int,
                    self.rho@[c] as int,
                ),
            self.summary_stat == SummaryStat::Uy ==> forall|c: int|
                0 <= c < self.cells() ==> #[trigger] r@[c] == u_of(
                    self.my@[c] as int,
                    self.rho@[c] as int,
                ),
            self.summary_stat == SummaryStat::Speed ==> forall|c: int|
                0 <= c < self.cells() ==> {
                    let ux = u_of(self.mx@[c] as int, self.rho@[c] as int);
                    let uy = u_of(self.my@[c] as int, self.rho@[c] as int);
                    &&& (#[trigger] r@[c]) >= 0
                    &&& r@[c] * r@[c] <= ux * ux + uy * uy
                    &&& (r@[c] + 1) * (r@[c] + 1) > ux * ux + uy * uy
                },
            self.summary_stat == SummaryStat::Curl ==> forall|c: int|
                0 <= c < self.cells() ==> #[trigger] r@[c] == curl_at(
                    self.rho@,
                    self.mx@,
                    self.my@,
                    self.x as int,
                    self.y as int,
                    c,
                ),
    {
        let n = self.x * self.y;
        let mut out: Vec<i64> = Vec::new();
        let mut c: usize = 0;
        while c < n
            invariant
                c <= n,
                n == self.cells(),
                out@.len() == c,
                self.summary_stat == SummaryStat::Rho ==> forall|k: int|
                    0 <= k < c ==> #[trigger] out@[k] == self.rho@[k],
                self.summary_stat == SummaryStat::Ux ==> forall|k: int|
                    0 <= k < c ==> #[trigger] out@[k] == u_of(
                        self.mx@[k] as int,
                        self.rho@[k] as int,
                    ),
                self.summary_stat == SummaryStat::Uy ==> forall|k: int|
                    0 <= k < c ==> #[trigger] out@[k] == u_of(
                        self.my@[k] as int,
                        self.rho@[k] as int,
                    ),
                self.summary_stat == SummaryStat::Speed ==> forall|k: int|
                    0 <= k < c ==> {
                        let ux = u_of(self.mx@[k] as int, self.rho@[k] as int);
                        let uy = u_of(self.my@[k] as int, self.rho@[k] as int);
                        &&& (#[trigger] out@[k]) >= 0
                        &&& out@[k] * out@[k] <= ux * ux + uy * uy
                        &&& (out@[k] + 1) * (out@[k] + 1) > ux * ux + uy * uy
                    },
                self.summary_stat == SummaryStat::Curl ==> forall|k: int|
                    0 <= k < c ==> #[trigger] out@[k] == curl_at(
                        self.rho@,
                        self.mx@,
                        self.my@,
                        self.x as int,
                        self.y as int,
                        k,
                    ),
            decreases n - c,
        {
            let v: i64 = match self.summary_stat {
                SummaryStat::Rho => self.rho[c],
                SummaryStat::Ux => u_val(self.mx[c], self.rho[c]),
                SummaryStat::Uy => u_val(self.my[c], self.rho[c]),
                SummaryStat::Speed => {
                    let ux = u_val(self.mx[c], self.rho[c]);
                    let uy = u_val(self.my[c], self.rho[c]);
                    proof {
                        assert(0 <= (ux as int) * (ux as int)
                            <= 8_100_000_000_000_000_000_000_000_000_000_000 && 0 <= (uy as int)
                            * (uy as int) <= 8_100_000_000_000_000_000_000_000_000_000_000)
                            by (nonlinear_arith)
                            requires
                                -90_000_000_000_000_000 <= ux as int <= 90_000_000_000_000_000,
                                -90_000_000_000_000_000 <= uy as int <= 90_000_000_000_000_000,
                        ;
                    }
                    let ss: u128 = ((ux as i128) * (ux as i128) + (uy as i128) * (uy as i128))
                        as u128;
                    proof {
                        assert(ss as int <= 0x10_0000_0000_0000_0000_0000_0000_0000u128 as int);
                    }
                    let root = isqrt_u128(ss);
                    proof {
                        assert((root as int) * (root as int) <= ss as int);
                        assert((root as int) < 0x8000_0000_0000_0000int) by (nonlinear_arith)
                            requires
                                (root as int) * (root as int) <= ss as int,
                                ss as int <= 0x10_0000_0000_0000_0000_0000_0000_0000u128 as int,
                        ;
                    }
                    root as i64
                },
                SummaryStat::Curl => {
                    let cx = c % self.x;
                    let cy = c / self.x;
                    proof {
                        vstd::arithmetic::div_mod::lemma_fundamental_div_mod(
                            c as int,
                            self.x as int,
                        );
                        assert(cy < self.y) by (nonlinear_arith)
                            requires
                                c as int == (self.x as int) * (cy as int) + (cx as int),
                                0 <= cx < self.x,
                                c < self.x * self.y,
                                1 <= self.x,
                        ;
                    }
                    if 1 <= cx && cx + 1 < self.x && 1 <= cy && cy + 1 < self.y {
                        proof {
                            assert(((c as int) + (self.x as int)) < self.cells() && 0 <= (
                            c as int) - (self.x as int)) by (nonlinear_arith)
                                requires
                                    c as int == (self.x as int) * (cy as int) + (cx as int),
                                    0 <= cx < self.x,
                                    1 <= cy,
                                    (cy as int) + 1 < self.y as int,
                                    self.cells() == self.x * self.y,
                                    1 <= self.x,
                            ;
                        }
                        let uyr = u_val(self.my[c + 1], self.rho[c + 1]);
                        let uyl = u_val(self.my[c - 1], self.rho[c - 1]);
                        let uxu = u_val(self.mx[c + self.x], self.rho[c + self.x]);
                        let uxd = u_val(self.mx[c - self.x], self.rho[c - self.x]);
                        (uyr - uyl) - (uxu - uxd)
                    } else {
                        0
                    }
                },
            };
            out.push(v);
            c = c + 1;
        }
        out
    }

    /// Advance the simulation by the given number of compute steps, then
    /// derive the selected summary field and count the frame.
    #[verifier::loop_isolation(false)]
    pub fn iterate(&mut self, compute_steps: usize) -> (r: Vec<i64>)
        requires
            old(self).wf(),
            old(self).compute_step + compute_steps < usize::MAX,
            old(self).frame_number < usize::MAX,
        ensures
            final(self).wf(),
            final(self).x == old(self).x,
            final(self).y == old(self).y,
            final(self).barrier == old(self).barrier,
            final(self).omega_num == old(self).omega_num,
            final(self).omega_den == old(self).omega_den,
            final(self).summary_stat == old(self).summary_stat,
            final(self).color_map == old(self).color_map,
            final(self).compute_step == old(self).compute_step + compute_steps,
            final(self).frame_number == old(self).frame_number + 1,
            r@.len() == old(self).cells(),
            final(self).summary_stat == SummaryStat::Rho ==> forall|c: int|
                0 <= c < old(self).cells() ==> #[trigger] r@[c] == final(self).rho@[c],
            final(self).summary_stat == SummaryStat::Ux ==> forall|c: int|
                0 <= c < old(self).cells() ==> #[trigger] r@[c] == u_of(
                    final(self).mx@[c] as int,
                    final(self).rho@[c] as int,
                ),
            final(self).summary_stat == SummaryStat::Uy ==> forall|c: int|
                0 <= c < old(self).cells() ==> #[trigger] r@[c] == u_of(
                    final(self).my@[c] as int,
                    final(self).rho@[c] as int,
                ),
            final(self).summary_stat == SummaryStat::Curl ==> forall|c: int|
                0 <= c < old(self).cells() ==> #[trigger] r@[c] == curl_at(
                    final(self).rho@,
                    final(self).mx@,
                    final(self).my@,
                    old(self).x as int,
                    old(self).y as int,
                    c,
                ),
    {
        let mut i: usize = 0;
        while i < compute_steps
            invariant
                i <= compute_steps,
                self.wf(),
                self.x == old(self).x,
                self.y == old(self).y,
                self.barrier == old(self).barrier,
                self.omega_num == old(self).omega_num,
                self.omega_den == old(self).omega_den,
                self.summary_stat == old(self).summary_stat,
                self.color_map == old(self).color_map,
                self.compute_step == old(self).compute_step + i,
                self.frame_number == old(self).frame_number,
            decreases compute_steps - i,
        {
            self.compute_step();
            i = i + 1;
        }
        let out = self.calculate_summary();
        self.frame_number = self.frame_number + 1;
        out
    }

    /// Rasterize one present-tagged line between two in-bounds points and
    /// write it into the barrier mask: its cells become solid, and no solid
    /// cell is cleared.
    #[verifier::rlimit(60)]
    fn draw_line(&mut self, p1: (isize, isize), p2: (isize, isize))
        requires
            old(self).wf(),
            0 <= p1.0 < old(self).x,
            0 <= p1.1 < old(self).y,
            0 <= p2.0 < old(self).x,
            0 <= p2.1 < old(self).y,
        ensures
            final(self).wf(),
            *final(self) == (Lattice { barrier: final(self).barrier, ..*old(self) }),
            final(self).barrier@.len() == old(self).barrier@.len(),
            forall|c: int|
                0 <= c < old(self).barrier@.len() && old(self).barrier@[c]
                    ==> #[trigger] final(self).barrier@[c],
            final(self).barrier@[p1.0 + p1.1 * old(self).x],
            final(self).barrier@[p2.0 + p2.1 * old(self).x],
    {
        proof {
            assert(self.x <= 0x1000_0000 && self.y <= 0x1000_0000) by (nonlinear_arith)
                requires
                    self.x * self.y <= 0x1000_0000,
                    1 <= self.x,
                    1 <= self.y,
            ;
        }
        let x = self.x as isize;
        let y = self.y as isize;
        let line = crate::barrier_shapes::line::Line::new(p1, p2, x, y).unwrap();
        let ghost b0 = self.barrier@;
        self.draw_shape(&line);
        proof {
            let pts = line.points@;
            let xd = old(self).x as int;
            let yd = old(self).y as int;
            assert forall|k: int|
                0 <= k < pts.len() implies 0 <= (#[trigger] pts[k]).0 + pts[k].1 * xd
                < b0.len() by {
                let px = pts[k].0 as int;
                let py = pts[k].1 as int;
                assert(0 <= px + py * xd < xd * yd) by (nonlinear_arith)
                    requires
                        0 <= px < xd,
                        0 <= py < yd,
                        1 <= xd,
                ;
            }
            lemma_apply_points_true(b0, pts, xd, pts.len() as int);
            let o = crate::barrier_shapes::line::order_spec(p1, p2);
            let w = crate::barrier_shapes::line::bresenham_walk(o.0, o.1);
            assert(pts.contains((w[0].0, w[0].1, true)));
            assert(pts.contains((w[w.len() - 1].0, w[w.len() - 1].1, true)));
            let k1 = choose|k: int| 0 <= k < pts.len() && pts[k] == (w[0].0, w[0].1, true);
            let k2 = choose|k: int|
                0 <= k < pts.len() && pts[k] == (w[w.len() - 1].0, w[w.len() - 1].1, true);
            assert(self.barrier@[pts[k1].0 + pts[k1].1 * xd]);
            assert(self.barrier@[pts[k2].0 + pts[k2].1 * xd]);
        }
    }

    /// Refresh the summary field and count the frame without advancing the
    /// simulation.
    pub fn rerender(&mut self) -> (r: Vec<i64>)
        requires
            old(self).wf(),
            old(self).frame_number < usize::MAX,
        ensures
            final(self).wf(),
            *final(self) == (Lattice {
                frame_number: (old(self).frame_number + 1) as usize,
                ..*old(self)
            }),
            r@.len() == old(self).cells(),
            old(self).summary_stat == SummaryStat::Rho ==> forall|c: int|
                0 <= c < old(self).cells() ==> #[trigger] r@[c] == old(self).rho@[c],
            old(self).summary_stat == SummaryStat::Ux ==> forall|c: int|
                0 <= c < old(self).cells() ==> #[trigger] r@[c] == u_of(
                    old(self).mx@[c] as int,
                    old(self).rho@[c] as int,
                ),
            old(self).summary_stat == SummaryStat::Uy ==> forall|c: int|
                0 <= c < old(self).cells() ==> #[trigger] r@[c] == u_of(
                    old(self).my@[c] as int,
                    old(self).rho@[c] as int,
                ),
            old(self).summary_stat == SummaryStat::Curl ==> forall|c: int|
                0 <= c < old(self).cells() ==> #[trigger] r@[c] == curl_at(
                    old(self).rho@,
                    old(self).mx@,
                    old(self).my@,
                    old(self).x as int,
                    old(self).y as int,
                    c,
                ),
    {
        let out = self.calculate_summary();
        self.frame_number = self.frame_number + 1;
        out
    }

    /// Draw the vertical plate of the curl demonstration preset: a solid
    /// column at four tenths of the width, from a quarter to half height.
    #[verifier::rlimit(100)]
    pub fn curl_barrier(&mut self)
        requires
            old(self).wf(),
        ensures
            final(self).wf(),
            *final(self) == (Lattice { barrier: final(self).barrier, ..*old(self) }),
            final(self).barrier@[(4 * (old(self).x as int)) / 10 + ((old(self).y as int) / 4)
                * old(self).x],
            final(self).barrier@[(4 * (old(self).x as int)) / 10 + ((old(self).y as int) / 2)
                * old(self).x],
    {
        proof {
            assert((4 * (self.x as int)) / 10 < self.x as int && (self.y as int) / 4 < (
            self.y as int) && (self.y as int) / 2 < self.y as int && self.x <= 0x1000_0000
                && self.y <= 0x1000_0000) by (nonlinear_arith)
                requires
                    1 <= self.x,
                    1 <= self.y,
                    self.x * self.y <= 0x1000_0000,
            ;
        }
        let x = self.x as isize;
        let y = self.y as isize;
        let px = ((4 * (x as i64)) / 10) as isize;
        self.draw_line((px, y / 4), (px, y / 2));
        proof {
            let xd = old(self).x as int;
            let yd = old(self).y as int;
            let a = (4 * xd) / 10;
            let b1 = yd / 4;
            let b2 = yd / 2;
            assert(0 <= a + b1 * xd < xd * yd && 0 <= a + b2 * xd < xd * yd)
                by (nonlinear_arith)
                requires
                    0 <= a < xd,
                    0 <= b1 < yd,
                    0 <= b2 < yd,
                    1 <= xd,
            ;
        }
    }

    /// Draw the funnel-and-wedge plates of the chaotic demonstration
    /// preset: two vertical gate plates at half width and a wedge of two
    /// slanted plates behind them.
    #[verifier::rlimit(100)]
    pub fn chaos_barrier(&mut self)
        requires
            old(self).wf(),
        ensures
            final(self).wf(),
            *final(self) == (Lattice { barrier: final(self).barrier, ..*old(self) }),
            final(self).barrier@[(old(self).x as int) / 2 + ((9 * (old(self).y as int)) / 20)
                * old(self).x],
            final(self).barrier@[(old(self).x as int) / 2 + ((11 * (old(self).y as int)) / 20)
                * old(self).x],
            final(self).barrier@[(old(self).x as int) / 2 + ((old(self).y as int) - 1) * old(
                self,
            ).x],
            final(self).barrier@[(3 * (old(self).x as int)) / 5 + ((old(self).y as int) / 2)
                * old(self).x],
            final(self).barrier@[(3 * (old(self).x as int)) / 4 + ((3 * (old(self).y as int)) / 4)
                * old(self).x],
            final(self).barrier@[(3 * (old(self).x as int)) / 4 + ((old(self).y as int) / 4)
                * old(self).x],
    {
        proof {
            assert((self.x as int) / 2 < self.x as int && (9 * (self.y as int)) / 20 < (
            self.y as int) && (11 * (self.y as int)) / 20 < self.y as int && (3 * (
            self.x as int)) / 5 < (self.x as int) && (3 * (self.x as int)) / 4 < self.x as int
                && (3 * (self.y as int)) / 4 < self.y as int && (self.y as int) / 2 < (
            self.y as int) && (self.y as int) / 4 < (self.y as int) && self.x <= 0x1000_0000
                && self.y <= 0x1000_0000) by (nonlinear_arith)
                requires
                    1 <= self.x,
                    1 <= self.y,
                    self.x * self.y <= 0x1000_0000,
            ;
        }
        let x = self.x as isize;
        let y = self.y as isize;
        let y920 = ((9 * (y as i64)) / 20) as isize;
        let y1120 = ((11 * (y as i64)) / 20) as isize;
        let x35 = ((3 * (x as i64)) / 5) as isize;
        let x34 = ((3 * (x as i64)) / 4) as isize;
        let y34 = ((3 * (y as i64)) / 4) as isize;
        self.draw_line((x / 2, y920), (x / 2, 0));
        self.draw_line((x / 2, y1120), (x / 2, y - 1));
        self.draw_line((x35, y / 2), (x34, y34));
        self.draw_line((x35, y / 2), (x34, y / 4));
        proof {
            let xd = old(self).x as int;
            let yd = old(self).y as int;
            let a2 = xd / 2;
            let a35 = (3 * xd) / 5;
            let a34 = (3 * xd) / 4;
            let b920 = (9 * yd) / 20;
            let b1120 = (11 * yd) / 20;
            let b2 = yd / 2;
            let b34 = (3 * yd) / 4;
            let b4 = yd / 4;
            assert(0 <= a2 + b920 * xd < xd * yd && 0 <= a2 + b1120 * xd < xd * yd && 0 <= a2 + (
            yd - 1) * xd < xd * yd && 0 <= a35 + b2 * xd < xd * yd && 0 <= a34 + b34 * xd < xd
                * yd && 0 <= a34 + b4 * xd < xd * yd) by (nonlinear_arith)
                requires
                    0 <= a2 < xd,
                    0 <= a35 < xd,
                    0 <= a34 < xd,
                    0 <= b920 < yd,
                    0 <= b1120 < yd,
                    0 <= b2 < yd,
                    0 <= b34 < yd,
                    0 <= b4 < yd,
                    1 <= xd,
                    1 <= yd,
            ;
        }
    }
}


impl Lattice {
    /// Draw the welcome greeting: block letters spelling the word of
    /// greeting across the upper half of the channel, each stroke a
    /// rasterized line; the first letter's left stem spans from half height
    /// up a quarter of the channel.
    #[verifier::rlimit(100)]
    pub fn welcome_barrier(&mut self)
        requires
            old(self).wf(),
        ensures
            final(self).wf(),
            *final(self) == (Lattice { barrier: final(self).barrier, ..*old(self) }),
            final(self).barrier@[(old(self).x as int) / 5 + ((old(self).y as int) / 2) * old(
                self,
            ).x],
            final(self).barrier@[(old(self).x as int) / 5 + ((old(self).y as int) / 2 - (old(
                self,
            ).y as int) / 4) * old(self).x],
    {
        proof {
            assert(self.x <= 0x1000_0000 && self.y <= 0x1000_0000) by (nonlinear_arith)
                requires
                    self.x * self.y <= 0x1000_0000,
                    1 <= self.x,
                    1 <= self.y,
            ;
        }
        let x = self.x as isize;
        let y = self.y as isize;
        let bottom = y / 2;
        let hq = y / 4;
        let space = x / 50;
        let letter_width = x / 13;
        let lw2 = letter_width / 2;
        let hq2 = hq / 2;
        let hq4 = hq / 4;
        let hq5 = hq / 5;
        let hq10 = hq / 10;
        proof {
            vstd::arithmetic::div_mod::lemma_fundamental_div_mod(x as int, 5);
            vstd::arithmetic::div_mod::lemma_fundamental_div_mod(x as int, 13);
            vstd::arithmetic::div_mod::lemma_fundamental_div_mod(x as int, 50);
            vstd::arithmetic::div_mod::lemma_fundamental_div_mod(y as int, 2);
            vstd::arithmetic::div_mod::lemma_fundamental_div_mod(y as int, 4);
            vstd::arithmetic::div_mod::lemma_fundamental_div_mod(letter_width as int, 2);
            vstd::arithmetic::div_mod::lemma_fundamental_div_mod(hq as int, 2);
            vstd::arithmetic::div_mod::lemma_fundamental_div_mod(hq as int, 4);
            vstd::arithmetic::div_mod::lemma_fundamental_div_mod(hq as int, 5);
            vstd::arithmetic::div_mod::lemma_fundamental_div_mod(hq as int, 10);
            assert((x as int) / 5 + 6 * (letter_width as int) + 7 * (space as int) < x as int);
            assert(0 <= bottom - hq && bottom < y);
            assert(hq10 <= hq && hq5 <= hq && hq4 <= hq && hq2 <= hq);
        }
        let mut current_x = x / 5;
        // W
        self.draw_line((current_x, bottom - hq), (current_x, bottom));
        self.draw_line((current_x, bottom), (current_x + lw2, bottom - hq2));
        current_x = current_x + lw2;
        self.draw_line((current_x, bottom - hq2), (current_x + lw2, bottom));
        current_x = current_x + lw2;
        self.draw_line((current_x, bottom - hq), (current_x, bottom));
        current_x = current_x + space;
        // e
        self.draw_line((current_x, bottom - hq2), (current_x, bottom));
        self.draw_line((current_x, bottom), (current_x + letter_width, bottom));
        self.draw_line((current_x, bottom - hq4), (current_x + letter_width, bottom - hq4));
        self.draw_line((current_x, bottom - hq2), (current_x + letter_width, bottom - hq2));
        self.draw_line(
            (current_x + letter_width, bottom - hq2),
            (current_x + letter_width, bottom - hq4),
        );
        current_x = current_x + letter_width + space;
        // l
        self.draw_line((current_x, bottom), (current_x, bottom - hq));
        current_x = current_x + space;
        // c
        self.draw_line((current_x, bottom - hq2), (current_x, bottom));
        self.draw_line((current_x, bottom), (current_x + letter_width, bottom));
        self.draw_line((current_x, bottom - hq2), (current_x + letter_width, bottom - hq2));
        current_x = current_x + letter_width + space;
        // o
        self.draw_line((current_x, bottom - hq2), (current_x, bottom));
        self.draw_line((current_x, bottom), (current_x + letter_width, bottom));
        self.draw_line((current_x, bottom - hq2), (current_x + letter_width, bottom - hq2));
        self.draw_line(
            (current_x + letter_width, bottom - hq2),
            (current_x + letter_width, bottom),
        );
        current_x = current_x + letter_width + space;
        // m
        self.draw_line((current_x, bottom - hq2), (current_x, bottom));
        self.draw_line((current_x + lw2, bottom), (current_x + lw2, bottom - hq2));
        self.draw_line((current_x, bottom - hq2), (current_x + letter_width, bottom - hq2));
        self.draw_line(
            (current_x + letter_width, bottom - hq2),
            (current_x + letter_width, bottom),
        );
        current_x = current_x + letter_width + space;
        // e
        self.draw_line((current_x, bottom - hq2), (current_x, bottom));
        self.draw_line((current_x, bottom), (current_x + letter_width, bottom));
        self.draw_line((current_x, bottom - hq4), (current_x + letter_width, bottom - hq4));
        self.draw_line((current_x, bottom - hq2), (current_x + letter_width, bottom - hq2));
        self.draw_line(
            (current_x + letter_width, bottom - hq2),
            (current_x + letter_width, bottom - hq4),
        );
        current_x = current_x + letter_width + space;
        // exclamation mark
        self.draw_line((current_x, bottom - hq10), (current_x, bottom));
        self.draw_line((current_x, bottom - hq5), (current_x, bottom - hq));
        proof {
            let xd = old(self).x as int;
            let yd = old(self).y as int;
            let a = xd / 5;
            let b1 = yd / 2;
            let b2 = yd / 2 - yd / 4;
            assert(0 <= a + b1 * xd < xd * yd && 0 <= a + b2 * xd < xd * yd)
                by (nonlinear_arith)
                requires
                    0 <= a < xd,
                    0 <= b1 < yd,
                    0 <= b2 <= b1,
                    1 <= xd,
            ;
        }
    }
}

} // verus!
