use vstd::prelude::*;

use vstd::string::*;

use crate::fixed::{
    clamp_fine, clamp_to_fine, reduced, clamp_to_unit, clamp_unit, fixed_ratio_pow, fixed_root, fpow, fratio,
    froot, is_root, FINE, FINE_PER_UNIT, SCALE,
};

verus! {

/// A mapping between audio volume and light brightness.
///
/// Volumes are in millionths of full scale. Brightness is in fine steps of `10^-18` of full
/// scale (`FINE`), so that a steep curve keeps the very dark end apart and `inverse` can
/// recover the volume. `apply` maps a volume to a brightness and `inverse` maps a brightness
/// back to a volume. Both clamp their input first and never fail.
pub trait Curve {
    /// The brightness, in fine steps, that `apply` gives for a volume in millionths.
    spec fn spec_apply(&self, volume: int) -> nat;

    /// The volume, in millionths, that `inverse` gives for a brightness in fine steps.
    spec fn spec_inverse(&self, brightness: int) -> nat;

    /// The identifier of the curve.
    spec fn spec_name(&self) -> Seq<char>;

    /// Every output of the curve lies in range, whatever the input.
    proof fn lemma_range(&self, value: int)
        ensures
            self.spec_apply(value) <= FINE,
            self.spec_inverse(value) <= SCALE,
    ;

    /// Maps a volume to a brightness.
    fn apply(&self, volume: i64) -> (r: u64)
        ensures
            r == self.spec_apply(volume as int),
            r <= FINE,
    ;

    /// Maps a brightness back to a volume.
    fn inverse(&self, brightness: i64) -> (r: u32)
        ensures
            r == self.spec_inverse(brightness as int),
            r <= SCALE,
    ;

    /// The identifier used for configuration lookup and logging.
    fn name(&self) -> (r: &'static str)
        ensures
            r@ == self.spec_name(),
    ;
}

/// A level in millionths in fine steps.
pub open spec fn to_fine(v: nat) -> nat {
    v * (FINE_PER_UNIT as nat)
}

/// A brightness in fine steps in whole millionths, truncated.
pub open spec fn to_unit(b: nat) -> nat {
    b / (FINE_PER_UNIT as nat)
}

fn fine_of(v: u32) -> (r: u128)
    requires
        v <= SCALE,
    ensures
        r == to_fine(v as nat),
        r <= FINE,
{
    assert(v as u128 * 1000000000000 <= 1000000000000000000) by (nonlinear_arith)
        requires
            v <= 1000000,
    ;
    v as u128 * FINE_PER_UNIT as u128
}

fn unit_of(b: u128) -> (r: u32)
    requires
        b <= FINE,
    ensures
        r == to_unit(b as nat),
        r <= SCALE,
{
    assert(b / 1000000000000 <= 1000000) by (nonlinear_arith)
        requires
            b <= 1000000000000000000,
    ;
    (b / FINE_PER_UNIT as u128) as u32
}

/// The identity mapping, clamped.
#[derive(Clone, Copy, Debug)]
pub struct LinearCurve;

impl Curve for LinearCurve {
    open spec fn spec_apply(&self, volume: int) -> nat {
        to_fine(clamp_unit(volume))
    }

    open spec fn spec_inverse(&self, brightness: int) -> nat {
        to_unit(clamp_fine(brightness))
    }

    open spec fn spec_name(&self) -> Seq<char> {
        "linear"@
    }

    proof fn lemma_range(&self, value: int) {
    }

    fn apply(&self, volume: i64) -> (r: u64) {
        fine_of(clamp_to_unit(volume)) as u64
    }

    fn inverse(&self, brightness: i64) -> (r: u32) {
        unit_of(clamp_to_fine(brightness) as u128)
    }

    fn name(&self) -> (r: &'static str) {
        "linear"
    }
}

/// The exponent in thousandths that a curve parameter stands for; zero counts as the smallest
/// positive exponent.
pub open spec fn exponent_of(thousandths: u32) -> nat {
    if thousandths == 0 {
        1
    } else {
        thousandths as nat
    }
}

fn exponent(thousandths: u32) -> (r: u32)
    ensures
        r == exponent_of(thousandths),
        r >= 1,
{
    if thousandths == 0 {
        1
    } else {
        thousandths
    }
}

/// `apply(v) = v^gamma`, `inverse(b) = b^(1/gamma)`, with `gamma` in thousandths.
#[derive(Clone, Copy, Debug)]
pub struct GammaCurve {
    pub gamma: u32,
}

/// The default gamma, 2.2, in thousandths.
pub const DEFAULT_GAMMA: u32 = 2200;

impl GammaCurve {
    pub fn default_curve() -> (r: GammaCurve)
        ensures
            r.gamma == DEFAULT_GAMMA,
    {
        GammaCurve { gamma: DEFAULT_GAMMA }
    }
}

impl Curve for GammaCurve {
    open spec fn spec_apply(&self, volume: int) -> nat {
        fratio(FINE as nat, to_fine(clamp_unit(volume)), exponent_of(self.gamma), 1000)
    }

    open spec fn spec_inverse(&self, brightness: int) -> nat {
        to_unit(fratio(FINE as nat, clamp_fine(brightness), 1000, exponent_of(self.gamma)))
    }

    open spec fn spec_name(&self) -> Seq<char> {
        "gamma"@
    }

    proof fn lemma_range(&self, value: int) {
        crate::fixed::lemma_fratio_bounded(
            FINE as nat,
            to_fine(clamp_unit(value)),
            exponent_of(self.gamma),
            1000,
        );
        crate::fixed::lemma_fratio_bounded(
            FINE as nat,
            clamp_fine(value),
            1000,
            exponent_of(self.gamma),
        );
    }

    fn apply(&self, volume: i64) -> (r: u64) {
        let x = fine_of(clamp_to_unit(volume));
        fixed_ratio_pow(FINE as u128, x, exponent(self.gamma), 1000) as u64
    }

    fn inverse(&self, brightness: i64) -> (r: u32) {
        let b = clamp_to_fine(brightness) as u128;
        unit_of(fixed_ratio_pow(FINE as u128, b, 1000, exponent(self.gamma)))
    }

    fn name(&self) -> (r: &'static str) {
        "gamma"
    }
}

/// `apply(v) = v^(1/log10(base))`, `inverse(b) = b^log10(base)`, with `apply(0) = 0`.
///
/// `log_base` holds `log10(base)` in thousandths.
#[derive(Clone, Copy, Debug)]
pub struct LogarithmicCurve {
    pub log_base: u32,
}

/// The default `log10(base)` in thousandths: base 10.
pub const DEFAULT_LOG_BASE: u32 = 1000;

impl LogarithmicCurve {
    pub fn default_curve() -> (r: LogarithmicCurve)
        ensures
            r.log_base == DEFAULT_LOG_BASE,
    {
        LogarithmicCurve { log_base: DEFAULT_LOG_BASE }
    }
}

impl Curve for LogarithmicCurve {
    open spec fn spec_apply(&self, volume: int) -> nat {
        if volume <= 0 {
            0
        } else {
            fratio(FINE as nat, to_fine(clamp_unit(volume)), 1000, exponent_of(self.log_base))
        }
    }

    open spec fn spec_inverse(&self, brightness: int) -> nat {
        to_unit(fratio(FINE as nat, clamp_fine(brightness), exponent_of(self.log_base), 1000))
    }

    open spec fn spec_name(&self) -> Seq<char> {
        "logarithmic"@
    }

    proof fn lemma_range(&self, value: int) {
        crate::fixed::lemma_fratio_bounded(
            FINE as nat,
            to_fine(clamp_unit(value)),
            1000,
            exponent_of(self.log_base),
        );
        crate::fixed::lemma_fratio_bounded(
            FINE as nat,
            clamp_fine(value),
            exponent_of(self.log_base),
            1000,
        );
    }

    fn apply(&self, volume: i64) -> (r: u64) {
        if volume <= 0 {
            return 0;
        }
        let x = fine_of(clamp_to_unit(volume));
        fixed_ratio_pow(FINE as u128, x, 1000, exponent(self.log_base)) as u64
    }

    fn inverse(&self, brightness: i64) -> (r: u32) {
        let b = clamp_to_fine(brightness) as u128;
        unit_of(fixed_ratio_pow(FINE as u128, b, exponent(self.log_base), 1000))
    }

    fn name(&self) -> (r: &'static str) {
        "logarithmic"
    }
}

/// Volume at or below which the perceptual curve is linear: 0.08.
pub const PERCEPTUAL_KNEE: u32 = 80000;

/// Brightness at or below which the perceptual inverse is linear: 0.008856.
pub const PERCEPTUAL_INVERSE_KNEE: u32 = 8856;

/// `1.16^3` in millionths of a millionth, the divisor of the cube law.
pub const CUBE_DIVISOR: u64 = 1560896000000;

/// Lightness-style brightness of a volume: `v / 9.033` up to the knee, then
/// `((v + 0.16) / 1.16)^3`.
pub open spec fn perceptual_apply(v: nat) -> nat {
    if v <= PERCEPTUAL_KNEE {
        v * 1000 / 9033
    } else {
        let w = v + 160000;
        w * w * w / (CUBE_DIVISOR as nat)
    }
}

/// Volume of a brightness: `b * 9.033` up to the knee, then `1.16 * cbrt(b) - 0.16`, clamped.
pub open spec fn perceptual_inverse(b: nat) -> nat {
    if b <= PERCEPTUAL_INVERSE_KNEE {
        b * 9033 / 1000
    } else {
        let t = froot(SCALE as nat, b, 3) * 116 / 100;
        if t < 160000 {
            0
        } else {
            clamp_unit(t - 160000)
        }
    }
}

/// The piecewise cube-law curve modelled on perceived lightness.
#[derive(Clone, Copy, Debug)]
pub struct PerceptualCurve;

proof fn lemma_cube_bounded(w: nat)
    requires
        w <= 1160000,
    ensures
        w * w <= 1345600000000,
        w * w * w <= 1560896000000000000,
        w * w * w / (CUBE_DIVISOR as nat) <= SCALE,
{
    assert(w * w <= 1160000 * 1160000) by (nonlinear_arith)
        requires
            w <= 1160000,
    ;
    assert(w * w * w <= 1160000 * 1160000 * 1160000) by (nonlinear_arith)
        requires
            w <= 1160000,
    ;
}

fn perceptual_apply_exec(v: u32) -> (r: u32)
    requires
        v <= SCALE,
    ensures
        r == perceptual_apply(v as nat),
        r <= SCALE,
{
    if v <= PERCEPTUAL_KNEE {
        v * 1000 / 9033
    } else {
        let w: u64 = v as u64 + 160000;
        proof {
            lemma_cube_bounded(w as nat);
        }
        (w * w * w / CUBE_DIVISOR) as u32
    }
}

fn perceptual_inverse_exec(b: u32) -> (r: u32)
    requires
        b <= SCALE,
    ensures
        r == perceptual_inverse(b as nat),
        r <= SCALE,
{
    if b <= PERCEPTUAL_INVERSE_KNEE {
        b * 9033 / 1000
    } else {
        let c = fixed_root(SCALE as u128, b as u128, 3) as u32;
        let t: u32 = c * 116 / 100;
        if t < 160000 {
            0
        } else {
            clamp_to_unit((t - 160000) as i64)
        }
    }
}

impl Curve for PerceptualCurve {
    open spec fn spec_apply(&self, volume: int) -> nat {
        to_fine(perceptual_apply(clamp_unit(volume)))
    }

    open spec fn spec_inverse(&self, brightness: int) -> nat {
        perceptual_inverse(to_unit(clamp_fine(brightness)))
    }

    open spec fn spec_name(&self) -> Seq<char> {
        "perceptual"@
    }

    proof fn lemma_range(&self, value: int) {
        let v = clamp_unit(value);
        if v > PERCEPTUAL_KNEE {
            lemma_cube_bounded(v + 160000);
        }
        let b = to_unit(clamp_fine(value));
        if b > PERCEPTUAL_INVERSE_KNEE {
            crate::fixed::lemma_froot_bounded(SCALE as nat, b, 3);
        }
    }

    fn apply(&self, volume: i64) -> (r: u64) {
        fine_of(perceptual_apply_exec(clamp_to_unit(volume))) as u64
    }

    fn inverse(&self, brightness: i64) -> (r: u32) {
        perceptual_inverse_exec(unit_of(clamp_to_fine(brightness) as u128))
    }

    fn name(&self) -> (r: &'static str) {
        "perceptual"
    }
}

/// Linear curve: `inverse(apply(v)) == v` exactly on `[0, SCALE]`.
pub proof fn lemma_linear_round_trip(c: LinearCurve, v: int)
    requires
        0 <= v <= SCALE,
    ensures
        c.spec_inverse(c.spec_apply(v) as int) == v,
{
}

proof fn lemma_cube_monotone(a: int, b: int)
    requires
        0 <= a <= b,
    ensures
        a * a * a <= b * b * b,
{
    assert(a * a <= b * b) by (nonlinear_arith)
        requires
            0 <= a <= b,
    ;
    assert(a * a * a <= b * b * b) by (nonlinear_arith)
        requires
            0 <= a <= b,
            a * a <= b * b,
    ;
}

/// The truncated cube of a level lies within two units below the exact cube.
proof fn lemma_fpow3_bounds(c: nat)
    requires
        c <= SCALE,
    ensures
        fpow(SCALE as nat, c, 3) * SCALE * SCALE <= c * c * c,
        c * c * c < (fpow(SCALE as nat, c, 3) + 2) * SCALE * SCALE,
{
    let s = SCALE as int;
    assert(fpow(SCALE as nat, c, 0) == s);
    assert(fpow(SCALE as nat, c, 1) == s * (c as int) / s);
    assert(s * (c as int) / s == c) by (nonlinear_arith)
        requires
            s > 0,
    ;
    let ci = c as int;
    let a = fpow(SCALE as nat, c, 2) as int;
    let f = fpow(SCALE as nat, c, 3) as int;
    assert(a == ci * ci / s);
    assert(f == a * ci / s);
    assert(a * s <= ci * ci && ci * ci < (a + 1) * s) by (nonlinear_arith)
        requires
            a == ci * ci / s,
            s > 0,
            ci >= 0,
    ;
    assert(f * s <= a * ci && a * ci < (f + 1) * s) by (nonlinear_arith)
        requires
            f == a * ci / s,
            s > 0,
            ci >= 0,
            a >= 0,
    ;
    assert(f * s * s <= ci * ci * ci) by (nonlinear_arith)
        requires
            f * s <= a * ci,
            a * s <= ci * ci,
            s > 0,
            ci >= 0,
    ;
    assert(ci * ci * ci < (f + 2) * s * s) by (nonlinear_arith)
        requires
            ci * ci < (a + 1) * s,
            a * ci < (f + 1) * s,
            ci <= s,
            s > 0,
            ci >= 0,
            a >= 0,
    ;
}

/// A cube below `W^3 + 2 * 1.16^3 * 10^18` has a root at most 1900 above `W`, for `W` at or
/// beyond the cube law's knee.
proof fn lemma_cube_root_gap(cc: int, ww: int)
    requires
        cc >= 0,
        ww >= 24000000,
        cc * cc * cc < ww * ww * ww + 3121792000000000000,
    ensures
        cc <= ww + 1900,
{
    if cc > ww + 1900 {
        lemma_cube_monotone(ww + 1901, cc);
        assert((ww + 1901) * (ww + 1901) * (ww + 1901) >= ww * ww * ww + 5703 * (ww * ww))
            by (nonlinear_arith)
            requires
                ww >= 0,
        ;
        assert(ww * ww >= 576000000000000) by (nonlinear_arith)
            requires
                ww >= 24000000,
        ;
    }
}

/// A cube strictly below another has a strictly smaller root.
proof fn lemma_cube_lt(a: int, b: int)
    requires
        0 <= a,
        0 <= b,
        a * a * a < b * b * b,
    ensures
        a < b,
{
    if a >= b {
        lemma_cube_monotone(b, a);
    }
}

/// The perceptual inverse undoes the cube law to within 19 millionths, for a brightness that
/// is the cube law's image of `w = v + 0.16`.
proof fn lemma_cube_branch_round_trip(w: int)
    requires
        240005 <= w <= 1160000,
    ensures
        ({
            let b = (w * w * w / (CUBE_DIVISOR as int)) as nat;
            let t = froot(SCALE as nat, b, 3) * 116 / 100;
            &&& b > PERCEPTUAL_INVERSE_KNEE
            &&& b <= SCALE
            &&& w - 2 <= t <= w + 19
        }),
{
    let k = CUBE_DIVISOR as int;
    let s = SCALE as int;
    lemma_cube_bounded(w as nat);
    lemma_cube_monotone(240005, w);
    let b = w * w * w / k;
    assert(b * k <= w * w * w && w * w * w < (b + 1) * k) by (nonlinear_arith)
        requires
            b == w * w * w / k,
            k > 0,
            w >= 0,
    ;
    assert(b > 8856);
    let bn = b as nat;
    crate::fixed::lemma_froot_bounded(SCALE as nat, bn, 3);
    let c = froot(SCALE as nat, bn, 3);
    let ci = c as int;
    // Upper bound: the root's truncated cube does not exceed b.
    lemma_fpow3_bounds(c);
    let f = fpow(SCALE as nat, c, 3) as int;
    assert(f <= b);
    assert(ci * ci * ci < (b + 2) * s * s) by (nonlinear_arith)
        requires
            ci * ci * ci < (f + 2) * s * s,
            f <= b,
            s > 0,
    ;
    assert((116 * ci) * (116 * ci) * (116 * ci) < (100 * w) * (100 * w) * (100 * w)
        + 3121792000000000000) by (nonlinear_arith)
        requires
            ci * ci * ci < (b + 2) * s * s,
            b * k <= w * w * w,
            s == 1000000,
            k == 1560896000000,
    ;
    lemma_cube_root_gap(116 * ci, 100 * w);
    // Lower bound: the next level's truncated cube exceeds b.
    if c < SCALE {
        lemma_fpow3_bounds(c + 1);
        let g = fpow(SCALE as nat, c + 1, 3) as int;
        assert(g > b);
        assert((100 * w) * (100 * w) * (100 * w) < (116 * (ci + 1)) * (116 * (ci + 1)) * (116 * (
        ci + 1))) by (nonlinear_arith)
            requires
                g * s * s <= (ci + 1) * (ci + 1) * (ci + 1),
                b + 1 <= g,
                w * w * w < (b + 1) * k,
                s == 1000000,
                k == 1560896000000,
                w >= 0,
        ;
        lemma_cube_lt(100 * w, 116 * (ci + 1));
    }
}

/// The perceptual curve's inverse undoes it to within 100 millionths (1e-4) on `[0, SCALE]`.
pub proof fn lemma_perceptual_round_trip(c: PerceptualCurve, v: int)
    requires
        0 <= v <= SCALE,
    ensures
        v - 100 < c.spec_inverse(c.spec_apply(v) as int) < v + 100,
{
    let b = perceptual_apply(v as nat);
    c.lemma_range(v);
    assert(clamp_unit(b as int) == b);
    assert(clamp_fine(to_fine(b) as int) == to_fine(b));
    assert(to_unit(to_fine(b)) == b);
    if v <= PERCEPTUAL_KNEE {
        assert(b <= PERCEPTUAL_INVERSE_KNEE);
    } else {
        let w = v + 160000;
        lemma_cube_bounded(w as nat);
        if w < 240005 {
            let k = CUBE_DIVISOR as int;
            lemma_cube_monotone(240001, w);
            lemma_cube_monotone(w, 240004);
            assert(b == w * w * w / k);
            assert(b * k <= w * w * w && w * w * w < (b + 1) * k) by (nonlinear_arith)
                requires
                    b == w * w * w / k,
                    k > 0,
                    w >= 0,
            ;
            assert(b == 8856);
        } else {
            lemma_cube_branch_round_trip(w);
        }
    }
}

/// With base 10 the logarithmic curve is the clamped identity, so `inverse(apply(v)) == v`
/// exactly on `[0, SCALE]`.
pub proof fn lemma_logarithmic_base_ten_round_trip(c: LogarithmicCurve, v: int)
    requires
        c.log_base == DEFAULT_LOG_BASE,
        0 <= v <= SCALE,
    ensures
        c.spec_apply(v) == to_fine(v as nat),
        c.spec_inverse(c.spec_apply(v) as int) == v,
{
    assert(crate::fixed::strip_twos(1000, 1000) == crate::fixed::strip_twos(500, 500));
    assert(crate::fixed::strip_twos(500, 500) == crate::fixed::strip_twos(250, 250));
    assert(crate::fixed::strip_twos(250, 250) == crate::fixed::strip_twos(125, 125));
    assert(crate::fixed::strip_twos(125, 125) == (125nat, 125nat));
    assert(crate::fixed::strip_fives(125, 125) == crate::fixed::strip_fives(25, 25));
    assert(crate::fixed::strip_fives(25, 25) == crate::fixed::strip_fives(5, 5));
    assert(crate::fixed::strip_fives(5, 5) == crate::fixed::strip_fives(1, 1));
    assert(crate::fixed::strip_fives(1, 1) == (1nat, 1nat));
    assert(crate::fixed::reduced(1000, 1000) == (1nat, 1nat));
    let x = to_fine(v as nat);
    assert(x <= FINE);
    if x > 0 {
        lemma_fpow_one(x);
        if x < FINE {
            lemma_fpow_one(x + 1);
        }
        assert(is_root(FINE as nat, x, 1, x));
        crate::fixed::lemma_froot_is(FINE as nat, x, 1, x);
    }
    assert(clamp_fine(x as int) == x);
}

proof fn lemma_fpow_one(x: nat)
    ensures
        fpow(FINE as nat, x, 1) == x,
{
    assert(fpow(FINE as nat, x, 0) == FINE);
    assert((FINE as int) * (x as int) / (FINE as int) == x) by (nonlinear_arith);
}

/// `y^k`.
pub open spec fn power(y: int, k: nat) -> int
    decreases k,
{
    if k == 0 {
        1
    } else {
        y * power(y, (k - 1) as nat)
    }
}

/// The gap, in fine steps, within which an integer power and its root undo each other:
/// 99 millionths.
pub const ROUND_TRIP_GAP: u64 = 99000000000000;

proof fn lemma_power_nonneg(y: int, k: nat)
    requires
        y >= 0,
    ensures
        power(y, k) >= 0,
    decreases k,
{
    if k > 0 {
        lemma_power_nonneg(y, (k - 1) as nat);
        assert(y * power(y, (k - 1) as nat) >= 0) by (nonlinear_arith)
            requires
                y >= 0,
                power(y, (k - 1) as nat) >= 0,
        ;
    }
}

proof fn lemma_power_positive(y: int, k: nat)
    requires
        y >= 1,
    ensures
        power(y, k) >= 1,
    decreases k,
{
    if k > 0 {
        lemma_power_positive(y, (k - 1) as nat);
        assert(y * power(y, (k - 1) as nat) >= 1) by (nonlinear_arith)
            requires
                y >= 1,
                power(y, (k - 1) as nat) >= 1,
        ;
    }
}

/// A truncated power lies within `k + 1` steps below the exact one.
proof fn lemma_fpow_sandwich(y: nat, k: nat)
    requires
        y <= FINE,
    ensures
        fpow(FINE as nat, y, k) * power(FINE as int, k) <= power(y as int, k) * FINE,
        power(y as int, k) * FINE < (fpow(FINE as nat, y, k) + k + 1) * power(FINE as int, k),
    decreases k,
{
    let f = FINE as int;
    if k > 0 {
        let m = (k - 1) as nat;
        lemma_fpow_sandwich(y, m);
        lemma_power_positive(f, m);
        lemma_power_nonneg(y as int, m);
        let a = fpow(FINE as nat, y, m) as int;
        let g = fpow(FINE as nat, y, k) as int;
        let pf = power(f, m);
        let py = power(y as int, m);
        let yi = y as int;
        assert(g == a * yi / f);
        assert(g * f <= a * yi && a * yi < (g + 1) * f) by (nonlinear_arith)
            requires
                g == a * yi / f,
                f > 0,
                a >= 0,
                yi >= 0,
        ;
        assert(g * (f * pf) <= (yi * py) * f) by (nonlinear_arith)
            requires
                g * f <= a * yi,
                a * pf <= py * f,
                yi >= 0,
                pf >= 0,
                f > 0,
        ;
        assert((yi * py) * f < (g + k + 1) * (f * pf)) by (nonlinear_arith)
            requires
                py * f < (a + m + 1) * pf,
                a * yi < (g + 1) * f,
                yi <= f,
                yi >= 0,
                pf >= 1,
                f > 0,
                k == m + 1,
                g >= 0,
        ;
    }
}

proof fn lemma_power_superadditive(y: int, d: int, k: nat)
    requires
        y >= 0,
        d >= 0,
        k >= 1,
    ensures
        power(y + d, k) >= power(y, k) + power(d, k),
    decreases k,
{
    if k > 1 {
        let m = (k - 1) as nat;
        lemma_power_superadditive(y, d, m);
        lemma_power_nonneg(y, m);
        lemma_power_nonneg(d, m);
        let py = power(y, m);
        let pd = power(d, m);
        let ps = power(y + d, m);
        assert((y + d) * ps >= y * py + d * pd) by (nonlinear_arith)
            requires
                ps >= py + pd,
                py >= 0,
                pd >= 0,
                y >= 0,
                d >= 0,
        ;
    } else {
        assert(power(y + d, 0) == 1 && power(y, 0) == 1 && power(d, 0) == 1);
    }
}

/// Raising to an integer power of at most 4 separates levels that lie a round-trip gap apart.
proof fn lemma_fpow_gap(y: nat, k: nat)
    requires
        1 <= k <= 4,
        y + ROUND_TRIP_GAP <= FINE,
    ensures
        fpow(FINE as nat, (y + ROUND_TRIP_GAP) as nat, k) > fpow(FINE as nat, y, k),
{
    let f = FINE as int;
    let d = ROUND_TRIP_GAP as int;
    let z = (y + ROUND_TRIP_GAP) as nat;
    lemma_fpow_sandwich(y, k);
    lemma_fpow_sandwich(z, k);
    lemma_power_superadditive(y as int, d, k);
    assert(power(d, 0) == 1);
    assert(power(d, 1) == 99000000000000);
    assert(power(d, 2) == 9801000000000000000000000000);
    assert(power(d, 3) == 970299000000000000000000000000000000000000);
    assert(power(d, 4) == 96059601000000000000000000000000000000000000000000000000);
    assert(power(f, 0) == 1);
    assert(power(f, 1) == 1000000000000000000);
    assert(power(f, 2) == 1000000000000000000000000000000000000);
    assert(power(f, 3) == 1000000000000000000000000000000000000000000000000000000);
    assert(power(f, 4) == 1000000000000000000000000000000000000000000000000000000000000000000000000);
    if k == 1 {
        assert(power(d, k) * f >= (k + 1) * power(f, k));
    } else if k == 2 {
        assert(power(d, k) * f >= (k + 1) * power(f, k));
    } else if k == 3 {
        assert(power(d, k) * f >= (k + 1) * power(f, k));
    } else {
        assert(power(d, k) * f >= (k + 1) * power(f, k));
    }
    lemma_power_nonneg(f, k);
    let f1 = fpow(FINE as nat, y, k) as int;
    let f2 = fpow(FINE as nat, z, k) as int;
    let pf = power(f, k);
    assert(f2 * pf > f1 * pf) by (nonlinear_arith)
        requires
            f1 * pf <= power(y as int, k) * f,
            power(z as int, k) * f < (f2 + k + 1) * pf,
            power(z as int, k) >= power(y as int, k) + power(d, k),
            power(d, k) * f >= (k + 1) * pf,
            f > 0,
    ;
    assert(f2 > f1) by (nonlinear_arith)
        requires
            f2 * pf > f1 * pf,
            pf >= 0,
    ;
}

/// The root of an integer power of at most 4 gives the level back to within the round-trip
/// gap; a power that truncates to zero came from a level below the gap.
proof fn lemma_integer_power_round_trip(x: nat, k: nat)
    requires
        1 <= k <= 4,
        x <= FINE,
    ensures
        ({
            let a = fpow(FINE as nat, x, k);
            let r = if a == 0 {
                0
            } else {
                froot(FINE as nat, a, k)
            };
            x - ROUND_TRIP_GAP < r < x + ROUND_TRIP_GAP
        }),
{
    let s = FINE as nat;
    let a = fpow(s, x, k);
    crate::fixed::lemma_fpow_zero(s, k);
    if a == 0 {
        if x >= ROUND_TRIP_GAP {
            lemma_fpow_gap(0, k);
            crate::fixed::lemma_fpow_monotone(s, ROUND_TRIP_GAP as nat, x, k);
        }
    } else {
        crate::fixed::lemma_froot_bounded(s, a, k);
        let r = froot(s, a, k);
        if r < x {
            crate::fixed::lemma_fpow_monotone(s, r + 1, x, k);
        }
        if r >= x + ROUND_TRIP_GAP {
            lemma_fpow_gap(x, k);
            crate::fixed::lemma_fpow_monotone(s, (x + ROUND_TRIP_GAP) as nat, r, k);
        }
    }
}

proof fn lemma_froot_one(x: nat)
    requires
        x <= FINE,
    ensures
        froot(FINE as nat, x, 1) == x,
{
    lemma_fpow_one(x);
    if x < FINE {
        lemma_fpow_one(x + 1);
    }
    assert(is_root(FINE as nat, x, 1, x));
    crate::fixed::lemma_froot_is(FINE as nat, x, 1, x);
}

/// The brightness of an integer power `k` computed as `fratio` with exponent reduced to
/// `k / 1`, and the volume of its inverse with exponent reduced to `1 / k`, undo each other to
/// within 100 millionths.
proof fn lemma_fratio_integer_round_trip(v: nat, n: nat, d: nat, k: nat)
    requires
        1 <= k <= 4,
        v <= SCALE,
        reduced(n, d) == (k, 1nat),
        reduced(d, n) == (1nat, k),
    ensures
        ({
            let b = fratio(FINE as nat, to_fine(v), n, d);
            &&& b <= FINE
            &&& v - 100 < to_unit(fratio(FINE as nat, clamp_fine(b as int), d, n)) < v + 100
        }),
{
    let s = FINE as nat;
    let x = to_fine(v);
    assert(x <= FINE);
    crate::fixed::lemma_fpow_zero(s, k);
    if x > 0 {
        lemma_froot_one(x);
    }
    let b = fratio(s, x, n, d);
    assert(b == fpow(s, x, k));
    crate::fixed::lemma_fpow_bounded(s, x, k);
    assert(clamp_fine(b as int) == b);
    lemma_integer_power_round_trip(x, k);
    let r = if b == 0 {
        0
    } else {
        froot(s, b, k)
    };
    if b > 0 {
        crate::fixed::lemma_froot_bounded(s, b, k);
        lemma_fpow_one(r);
    }
    assert(fratio(s, b, d, n) == r);
    assert(x - ROUND_TRIP_GAP < r < x + ROUND_TRIP_GAP);
    assert(v - 100 < to_unit(r) < v + 100);
}

proof fn lemma_power_monotone(y: int, z: int, k: nat)
    requires
        0 <= y <= z,
    ensures
        power(y, k) <= power(z, k),
    decreases k,
{
    if k > 0 {
        let m = (k - 1) as nat;
        lemma_power_monotone(y, z, m);
        lemma_power_nonneg(y, m);
        assert(y * power(y, m) <= z * power(z, m)) by (nonlinear_arith)
            requires
                0 <= y <= z,
                0 <= power(y, m) <= power(z, m),
        ;
    }
}

/// Consecutive levels have exact powers at most `k * FINE^(k-1)` apart.
proof fn lemma_power_step(r: int, k: nat)
    requires
        k >= 1,
        0 <= r,
        r + 1 <= FINE,
    ensures
        power(r + 1, k) - power(r, k) <= k * power(FINE as int, (k - 1) as nat),
    decreases k,
{
    let f = FINE as int;
    if k > 1 {
        let m = (k - 1) as nat;
        lemma_power_step(r, m);
        lemma_power_monotone(r, f, m);
        let a = power(r + 1, m);
        let b = power(r, m);
        let pf = power(f, (m - 1) as nat);
        assert(power(f, m) == f * pf);
        lemma_power_nonneg(f, (m - 1) as nat);
        assert((r + 1) * a - r * b <= k * (f * pf)) by (nonlinear_arith)
            requires
                a - b <= m * pf,
                b <= f * pf,
                r + 1 <= f,
                r >= 0,
                pf >= 0,
                k == m + 1,
        ;
    } else {
        assert(power(r + 1, 1) == (r + 1) * power(r + 1, 0));
        assert(power(r, 1) == r * power(r, 0));
        assert(power(f, 0) == 1);
    }
}

/// The `k`-th power of the truncated `k`-th root of a level gives the level back to within
/// `2k + 1` fine steps, for `k` of at most 4.
proof fn lemma_integer_root_round_trip(x: nat, k: nat)
    requires
        1 <= k <= 4,
        x <= FINE,
    ensures
        x - ROUND_TRIP_GAP < fpow(FINE as nat, froot(FINE as nat, x, k), k) <= x,
        froot(FINE as nat, x, k) == 0 ==> x < ROUND_TRIP_GAP,
{
    let s = FINE as nat;
    lemma_root_power_close(x, k);
    crate::fixed::lemma_froot_bounded(s, x, k);
    let r = froot(s, x, k);
    if r == 0 {
        lemma_fpow_gap(0, k);
        crate::fixed::lemma_fpow_zero(s, k);
        if x >= ROUND_TRIP_GAP {
            crate::fixed::lemma_fpow_monotone(s, 1, ROUND_TRIP_GAP as nat, k);
        }
    }
}

proof fn lemma_fpow_full(k: nat)
    ensures
        fpow(FINE as nat, FINE as nat, k) == FINE,
    decreases k,
{
    if k > 0 {
        lemma_fpow_full((k - 1) as nat);
    }
}

/// The volume of the inverse with exponent reduced to `k / 1` of a brightness with exponent
/// reduced to `1 / k` is within 100 millionths of the volume.
proof fn lemma_fratio_root_round_trip(v: nat, n: nat, d: nat, k: nat)
    requires
        1 <= k <= 4,
        v <= SCALE,
        reduced(n, d) == (1nat, k),
        reduced(d, n) == (k, 1nat),
    ensures
        ({
            let b = fratio(FINE as nat, to_fine(v), n, d);
            &&& b <= FINE
            &&& v - 100 < to_unit(fratio(FINE as nat, clamp_fine(b as int), d, n)) < v + 100
        }),
{
    let s = FINE as nat;
    let x = to_fine(v);
    assert(x <= FINE);
    crate::fixed::lemma_fpow_zero(s, k);
    let b = fratio(s, x, n, d);
    if x > 0 {
        crate::fixed::lemma_froot_bounded(s, x, k);
        lemma_fpow_one(froot(s, x, k));
        lemma_integer_root_round_trip(x, k);
    }
    assert(clamp_fine(b as int) == b);
    if b > 0 {
        lemma_froot_one(b);
    }
    let r = fratio(s, b, d, n);
    assert(r == fpow(s, b, k));
    assert(x - ROUND_TRIP_GAP < r <= x);
    assert(v - 100 < to_unit(r) < v + 100);
}

/// A gamma curve with an integer gamma of at most 4 round-trips: `inverse(apply(v))` is within
/// 100 millionths (1e-4) of `v` on `[0, SCALE]`. `k` is the gamma, given with its reduced
/// fractions.
pub proof fn lemma_gamma_integer_round_trip(c: GammaCurve, k: nat, v: int)
    requires
        1 <= k <= 4,
        reduced(exponent_of(c.gamma), 1000) == (k, 1nat),
        reduced(1000, exponent_of(c.gamma)) == (1nat, k),
        0 <= v <= SCALE,
    ensures
        v - 100 < c.spec_inverse(c.spec_apply(v) as int) < v + 100,
{
    lemma_fratio_integer_round_trip(v as nat, exponent_of(c.gamma), 1000, k);
}

/// A logarithmic curve whose exponent `1 / log10(base)` is an integer of at most 4 round-trips:
/// `inverse(apply(v))` is within 100 millionths (1e-4) of `v` on `[0, SCALE]`.
pub proof fn lemma_logarithmic_integer_round_trip(c: LogarithmicCurve, k: nat, v: int)
    requires
        1 <= k <= 4,
        reduced(1000, exponent_of(c.log_base)) == (k, 1nat),
        reduced(exponent_of(c.log_base), 1000) == (1nat, k),
        0 <= v <= SCALE,
    ensures
        v - 100 < c.spec_inverse(c.spec_apply(v) as int) < v + 100,
{
    lemma_fratio_integer_round_trip(v as nat, 1000, exponent_of(c.log_base), k);
    if v == 0 {
        assert(clamp_fine(0) == 0);
    }
}

/// A gamma curve with gamma `1 / k`, `k` at most 4, round-trips: `inverse(apply(v))` is within
/// 100 millionths (1e-4) of `v` on `[0, SCALE]`.
pub proof fn lemma_gamma_root_round_trip(c: GammaCurve, k: nat, v: int)
    requires
        1 <= k <= 4,
        reduced(exponent_of(c.gamma), 1000) == (1nat, k),
        reduced(1000, exponent_of(c.gamma)) == (k, 1nat),
        0 <= v <= SCALE,
    ensures
        v - 100 < c.spec_inverse(c.spec_apply(v) as int) < v + 100,
{
    lemma_fratio_root_round_trip(v as nat, exponent_of(c.gamma), 1000, k);
}

/// A logarithmic curve whose exponent `1 / log10(base)` is `1 / k`, `k` at most 4,
/// round-trips: `inverse(apply(v))` is within 100 millionths (1e-4) of `v` on `[0, SCALE]`.
pub proof fn lemma_logarithmic_root_round_trip(c: LogarithmicCurve, k: nat, v: int)
    requires
        1 <= k <= 4,
        reduced(1000, exponent_of(c.log_base)) == (1nat, k),
        reduced(exponent_of(c.log_base), 1000) == (k, 1nat),
        0 <= v <= SCALE,
    ensures
        v - 100 < c.spec_inverse(c.spec_apply(v) as int) < v + 100,
{
    lemma_fratio_root_round_trip(v as nat, 1000, exponent_of(c.log_base), k);
    if v == 0 {
        assert(clamp_fine(0) == 0);
    }
}

/// Gamma 4, the steepest curve of the usual range, round-trips to within 100 millionths.
pub proof fn lemma_gamma_four_round_trip(c: GammaCurve, v: int)
    requires
        c.gamma == 4000,
        0 <= v <= SCALE,
    ensures
        v - 100 < c.spec_inverse(c.spec_apply(v) as int) < v + 100,
{
    assert(crate::fixed::strip_twos(4000, 1000) == crate::fixed::strip_twos(2000, 500));
    assert(crate::fixed::strip_twos(2000, 500) == crate::fixed::strip_twos(1000, 250));
    assert(crate::fixed::strip_twos(1000, 250) == crate::fixed::strip_twos(500, 125));
    assert(crate::fixed::strip_twos(500, 125) == (500nat, 125nat));
    assert(crate::fixed::strip_fives(500, 125) == crate::fixed::strip_fives(100, 25));
    assert(crate::fixed::strip_fives(100, 25) == crate::fixed::strip_fives(20, 5));
    assert(crate::fixed::strip_fives(20, 5) == crate::fixed::strip_fives(4, 1));
    assert(crate::fixed::strip_fives(4, 1) == (4nat, 1nat));
    assert(crate::fixed::strip_twos(1000, 4000) == crate::fixed::strip_twos(500, 2000));
    assert(crate::fixed::strip_twos(500, 2000) == crate::fixed::strip_twos(250, 1000));
    assert(crate::fixed::strip_twos(250, 1000) == crate::fixed::strip_twos(125, 500));
    assert(crate::fixed::strip_twos(125, 500) == (125nat, 500nat));
    assert(crate::fixed::strip_fives(125, 500) == crate::fixed::strip_fives(25, 100));
    assert(crate::fixed::strip_fives(25, 100) == crate::fixed::strip_fives(5, 20));
    assert(crate::fixed::strip_fives(5, 20) == crate::fixed::strip_fives(1, 4));
    assert(crate::fixed::strip_fives(1, 4) == (1nat, 4nat));
    lemma_gamma_integer_round_trip(c, 4, v);
}

proof fn lemma_power_binomial(y: int, g: int, k: nat)
    requires
        y >= 0,
        g >= 0,
        k >= 1,
    ensures
        power(y + g, k) >= power(y, k) + k * power(y, (k - 1) as nat) * g,
    decreases k,
{
    if k > 1 {
        let m = (k - 1) as nat;
        lemma_power_binomial(y, g, m);
        lemma_power_nonneg(y, m);
        lemma_power_nonneg(y, (m - 1) as nat);
        let a = power(y + g, m);
        let b = power(y, m);
        let c = power(y, (m - 1) as nat);
        assert(b == y * c);
        assert((y + g) * a >= y * b + k * b * g) by (nonlinear_arith)
            requires
                a >= b + m * c * g,
                b == y * c,
                c >= 0,
                y >= 0,
                g >= 0,
                k == m + 1,
        ;
    } else {
        assert(power(y + g, 0) == 1);
        assert(power(y, 0) == 1);
        assert(power(y + g, 1) == (y + g) * power(y + g, 0));
        assert(power(y, 1) == y * power(y, 0));
        assert(k == 1);
        assert((k - 1) as nat == 0);
        let one = power(y, 0);
        assert(1 * one * g == g) by (nonlinear_arith)
            requires
                one == 1,
        ;
    }
}

/// Levels `g` apart have exact powers at most `k * g * FINE^(k-1)` apart.
proof fn lemma_power_gap_upper(r: int, g: int, k: nat)
    requires
        k >= 1,
        0 <= r,
        0 <= g,
        r + g <= FINE,
    ensures
        power(r + g, k) - power(r, k) <= k * g * power(FINE as int, (k - 1) as nat),
    decreases k,
{
    let f = FINE as int;
    if k > 1 {
        let m = (k - 1) as nat;
        lemma_power_gap_upper(r, g, m);
        lemma_power_monotone(r, f, m);
        let a = power(r + g, m);
        let b = power(r, m);
        let pf = power(f, (m - 1) as nat);
        assert(power(f, m) == f * pf);
        lemma_power_nonneg(f, (m - 1) as nat);
        lemma_power_monotone(r, r + g, m);
        let e = a - b;
        assert((r + g) * a - r * b == (r + g) * e + g * b) by (nonlinear_arith)
            requires
                e == a - b,
        ;
        assert((r + g) * e <= f * (m * g * pf)) by (nonlinear_arith)
            requires
                e <= m * g * pf,
                r + g <= f,
                r >= 0,
                g >= 0,
                m * g * pf >= 0,
                e >= 0,
        ;
        assert(g * b <= g * (f * pf)) by (nonlinear_arith)
            requires
                b <= f * pf,
                g >= 0,
        ;
        assert(f * (m * g * pf) + g * (f * pf) == k * g * (f * pf)) by (nonlinear_arith)
            requires
                k == m + 1,
        ;
    } else {
        assert(power(r + g, 1) == (r + g) * power(r + g, 0));
        assert(power(r, 1) == r * power(r, 0));
        assert(power(f, 0) == 1);
    }
}

/// The `k`-th power of the truncated `k`-th root of a level lies within `2k + 2` fine steps
/// below the level.
proof fn lemma_root_power_close(x: nat, k: nat)
    requires
        k >= 1,
        x <= FINE,
    ensures
        fpow(FINE as nat, froot(FINE as nat, x, k), k) <= x,
        x < fpow(FINE as nat, froot(FINE as nat, x, k), k) + 2 * k + 2,
{
    let s = FINE as nat;
    let f = FINE as int;
    crate::fixed::lemma_froot_bounded(s, x, k);
    let r = froot(s, x, k);
    if r == FINE {
        lemma_fpow_full(k);
    } else {
        lemma_fpow_sandwich(r, k);
        lemma_fpow_sandwich(r + 1, k);
        lemma_power_step(r as int, k);
        lemma_power_positive(f, k);
        lemma_power_positive(f, (k - 1) as nat);
        assert(power(f, k) == f * power(f, (k - 1) as nat));
        let lo = fpow(s, r, k) as int;
        let hi = fpow(s, r + 1, k) as int;
        let p = power(f, k);
        let q = power(f, (k - 1) as nat);
        assert(hi * p < (lo + 2 * k + 2) * p) by (nonlinear_arith)
            requires
                hi * p <= power(r as int + 1, k) * f,
                power(r as int, k) * f < (lo + k + 1) * p,
                power(r as int + 1, k) - power(r as int, k) <= k * q,
                p == f * q,
                f > 0,
                q >= 1,
        ;
        assert(hi < lo + 2 * k + 2) by (nonlinear_arith)
            requires
                hi * p < (lo + 2 * k + 2) * p,
                p >= 1,
        ;
    }
}

/// The default gamma, 2.2, round-trips: `inverse(apply(v))` is within 100 millionths (1e-4) of
/// `v` on `[0, SCALE]`.
pub proof fn lemma_gamma_default_round_trip(c: GammaCurve, v: int)
    requires
        c.gamma == DEFAULT_GAMMA,
        0 <= v <= SCALE,
    ensures
        v - 100 < c.spec_inverse(c.spec_apply(v) as int) < v + 100,
{
    assert(crate::fixed::strip_twos(2200, 1000) == crate::fixed::strip_twos(1100, 500));
    assert(crate::fixed::strip_twos(1100, 500) == crate::fixed::strip_twos(550, 250));
    assert(crate::fixed::strip_twos(550, 250) == crate::fixed::strip_twos(275, 125));
    assert(crate::fixed::strip_twos(275, 125) == (275nat, 125nat));
    assert(crate::fixed::strip_fives(275, 125) == crate::fixed::strip_fives(55, 25));
    assert(crate::fixed::strip_fives(55, 25) == crate::fixed::strip_fives(11, 5));
    assert(crate::fixed::strip_fives(11, 5) == (11nat, 5nat));
    assert(crate::fixed::strip_twos(1000, 2200) == crate::fixed::strip_twos(500, 1100));
    assert(crate::fixed::strip_twos(500, 1100) == crate::fixed::strip_twos(250, 550));
    assert(crate::fixed::strip_twos(250, 550) == crate::fixed::strip_twos(125, 275));
    assert(crate::fixed::strip_twos(125, 275) == (125nat, 275nat));
    assert(crate::fixed::strip_fives(125, 275) == crate::fixed::strip_fives(25, 55));
    assert(crate::fixed::strip_fives(25, 55) == crate::fixed::strip_fives(5, 11));
    assert(crate::fixed::strip_fives(5, 11) == (5nat, 11nat));
    let x = to_fine(v as nat);
    assert(x <= FINE);
    let s = FINE as nat;
    let f = FINE as int;
    if x > 0 {
        crate::fixed::lemma_froot_bounded(s, x, 5);
        let y = froot(s, x, 5);
        let b = fpow(s, y, 11);
        crate::fixed::lemma_fpow_bounded(s, y, 11);
        assert(clamp_fine(b as int) == b);
        lemma_root_power_close(x, 5);
        lemma_default_gamma_inner(x, y);
    }
}

/// The core of the default-gamma round trip on the fine scale: from the fifth root `y` of `x`,
/// the eleventh power and its root, then the fifth power, land within the round-trip gap of
/// `x`.
proof fn lemma_default_gamma_inner(x: nat, y: nat)
    requires
        0 < x <= FINE,
        y == froot(FINE as nat, x, 5),
        fpow(FINE as nat, y, 5) <= x,
        x < fpow(FINE as nat, y, 5) + 12,
    ensures
        ({
            let b = fpow(FINE as nat, y, 11);
            let r = if b == 0 {
                0
            } else {
                fpow(FINE as nat, froot(FINE as nat, b, 11), 5)
            };
            x - ROUND_TRIP_GAP < r < x + ROUND_TRIP_GAP
        }),
{
    let s = FINE as nat;
    let f = FINE as int;
    crate::fixed::lemma_froot_bounded(s, x, 5);
    let b = fpow(s, y, 11);
    crate::fixed::lemma_fpow_bounded(s, y, 11);
    lemma_power_products(f);
    lemma_power_products(f);
    lemma_power_products(f);
    let p5 = power(f, 5);
    let p4 = power(f, 4);
    let p11 = power(f, 11);
    let y0: nat = 100000000000000000;
    if y < y0 {
        // Dark end: both the level and the result stay below the gap.
        crate::fixed::lemma_fpow_monotone(s, y, y0, 5);
        lemma_fpow_sandwich(y0, 5);
        lemma_power_products(y0 as int);
        let fy0 = fpow(s, y0, 5) as int;
        assert(fy0 <= 10000000000000) by (nonlinear_arith)
            requires
                fy0 * p5 <= power(y0 as int, 5) * f,
                power(y0 as int, 5) == (y0 as int) * y0 * y0 * y0 * y0,
                p5 == f * f * f * f * f,
                y0 == 100000000000000000,
                f == 1000000000000000000,
        ;
        if b > 0 {
            crate::fixed::lemma_froot_bounded(s, b, 11);
            let z = froot(s, b, 11);
            crate::fixed::lemma_fpow_monotone(s, y, y0, 11);
            lemma_fpow_sandwich(y0, 11);
            lemma_power_products(y0 as int);
            let b0 = fpow(s, y0, 11) as int;
            assert(b0 <= 10000000) by (nonlinear_arith)
                requires
                    b0 * p11 <= power(y0 as int, 11) * f,
                    power(y0 as int, 11) == (y0 as int) * y0 * y0 * y0 * y0 * y0 * y0 * y0 * y0 * y0
                        * y0,
                    p11 == f * f * f * f * f * f * f * f * f * f * f,
                    y0 == 100000000000000000,
                    f == 1000000000000000000,
            ;
            let z0: nat = 120000000000000000;
            if z >= z0 {
                crate::fixed::lemma_fpow_monotone(s, z0, z, 11);
                lemma_fpow_sandwich(z0, 11);
                lemma_power_products(z0 as int);
                let c0 = fpow(s, z0, 11) as int;
                assert(c0 > 10000000) by (nonlinear_arith)
                    requires
                        power(z0 as int, 11) * f < (c0 + 12) * p11,
                        power(z0 as int, 11) == (z0 as int) * z0 * z0 * z0 * z0 * z0 * z0 * z0 * z0
                            * z0 * z0,
                        p11 == f * f * f * f * f * f * f * f * f * f * f,
                        z0 == 120000000000000000,
                        f == 1000000000000000000,
                ;
            }
            crate::fixed::lemma_fpow_monotone(s, z, z0, 5);
            lemma_fpow_sandwich(z0, 5);
            lemma_power_products(z0 as int);
            let r0 = fpow(s, z0, 5) as int;
            assert(r0 <= 24883200000000) by (nonlinear_arith)
                requires
                    r0 * p5 <= power(z0 as int, 5) * f,
                    power(z0 as int, 5) == (z0 as int) * z0 * z0 * z0 * z0,
                    p5 == f * f * f * f * f,
                    z0 == 120000000000000000,
                    f == 1000000000000000000,
            ;
        }
    } else {
        // Bright side: the eleventh power separates levels one millionth apart.
        crate::fixed::lemma_fpow_monotone(s, y0, y, 11);
        lemma_fpow_sandwich(y0, 11);
        lemma_power_products(y0 as int);
        let b0 = fpow(s, y0, 11) as int;
        assert(b0 > 0) by (nonlinear_arith)
            requires
                power(y0 as int, 11) * f < (b0 + 12) * p11,
                power(y0 as int, 11) == (y0 as int) * y0 * y0 * y0 * y0 * y0 * y0 * y0 * y0 * y0
                    * y0,
                p11 == f * f * f * f * f * f * f * f * f * f * f,
                y0 == 100000000000000000,
                f == 1000000000000000000,
        ;
        crate::fixed::lemma_froot_bounded(s, b, 11);
        let z = froot(s, b, 11);
        let g: nat = 1000000000000;
        if z < y {
            crate::fixed::lemma_fpow_monotone(s, z + 1, y, 11);
        }
        if z >= y + g {
            let w = (y + g) as nat;
            crate::fixed::lemma_fpow_monotone(s, w, z, 11);
            lemma_fpow_sandwich(y, 11);
            lemma_fpow_sandwich(w, 11);
            lemma_power_binomial(y as int, g as int, 11);
            lemma_power_monotone(y0 as int, y as int, 10);
            lemma_power_products(y0 as int);
            let pw = power(w as int, 11);
            let py = power(y as int, 11);
            let p10 = power(y as int, 10);
            let fw = fpow(s, w, 11) as int;
            let fy = b as int;
            assert(fw * p11 > fy * p11) by (nonlinear_arith)
                requires
                    fy * p11 <= py * f,
                    pw * f < (fw + 12) * p11,
                    pw >= py + 11 * p10 * g,
                    p10 >= power(y0 as int, 10),
                    power(y0 as int, 10) == (y0 as int) * y0 * y0 * y0 * y0 * y0 * y0 * y0 * y0 * y0,
                    y0 == 100000000000000000,
                    g == 1000000000000,
                    f == 1000000000000000000,
                    p11 == f * f * f * f * f * f * f * f * f * f * f,
            ;
            assert(fw > fy) by (nonlinear_arith)
                requires
                    fw * p11 > fy * p11,
                    p11 > 0,
            ;
        }
        // Now y <= z < y + g: the fifth powers differ by at most about 5g.
        crate::fixed::lemma_fpow_monotone(s, y, z, 5);
        lemma_fpow_sandwich(y, 5);
        lemma_fpow_sandwich(z, 5);
        lemma_power_gap_upper(y as int, z - y, 5);
        let fz = fpow(s, z, 5) as int;
        let fy5 = fpow(s, y, 5) as int;
        assert(fz * p5 < (fy5 + 5 * (z - y) + 6) * p5) by (nonlinear_arith)
            requires
                fz * p5 <= power(z as int, 5) * f,
                power(y as int, 5) * f < (fy5 + 6) * p5,
                power(z as int, 5) - power(y as int, 5) <= 5 * (z - y) * p4,
                p5 == f * p4,
                f > 0,
        ;
        assert(fz < fy5 + 5 * (z - y) + 6) by (nonlinear_arith)
            requires
                fz * p5 < (fy5 + 5 * (z - y) + 6) * p5,
                p5 > 0,
        ;
    }
}

/// `power(y, k)` written out as a product, up to `k = 11`.
proof fn lemma_power_products(y: int)
    ensures
        power(y, 4) == y * y * y * y,
        power(y, 5) == y * y * y * y * y,
        power(y, 10) == y * y * y * y * y * y * y * y * y * y,
        power(y, 11) == y * y * y * y * y * y * y * y * y * y * y,
{
    assert(power(y, 0) == 1);
    assert(power(y, 1) == y * power(y, 0));
    assert(y * (1) == y) by (nonlinear_arith);
    assert(power(y, 2) == y * power(y, 1));
    assert(y * (y) == y * y) by (nonlinear_arith);
    assert(power(y, 3) == y * power(y, 2));
    assert(y * (y * y) == y * y * y) by (nonlinear_arith);
    assert(power(y, 4) == y * power(y, 3));
    assert(y * (y * y * y) == y * y * y * y) by (nonlinear_arith);
    assert(power(y, 5) == y * power(y, 4));
    assert(y * (y * y * y * y) == y * y * y * y * y) by (nonlinear_arith);
    assert(power(y, 6) == y * power(y, 5));
    assert(y * (y * y * y * y * y) == y * y * y * y * y * y) by (nonlinear_arith);
    assert(power(y, 7) == y * power(y, 6));
    assert(y * (y * y * y * y * y * y) == y * y * y * y * y * y * y) by (nonlinear_arith);
    assert(power(y, 8) == y * power(y, 7));
    assert(y * (y * y * y * y * y * y * y) == y * y * y * y * y * y * y * y) by (nonlinear_arith);
    assert(power(y, 9) == y * power(y, 8));
    assert(y * (y * y * y * y * y * y * y * y) == y * y * y * y * y * y * y * y * y) by (nonlinear_arith);
    assert(power(y, 10) == y * power(y, 9));
    assert(y * (y * y * y * y * y * y * y * y * y) == y * y * y * y * y * y * y * y * y * y) by (nonlinear_arith);
    assert(power(y, 11) == y * power(y, 10));
    assert(y * (y * y * y * y * y * y * y * y * y * y) == y * y * y * y * y * y * y * y * y * y * y) by (nonlinear_arith);
}

/// Gamma 0.25, the flattest curve of the usual range, round-trips to within 100 millionths.
pub proof fn lemma_gamma_quarter_round_trip(c: GammaCurve, v: int)
    requires
        c.gamma == 250,
        0 <= v <= SCALE,
    ensures
        v - 100 < c.spec_inverse(c.spec_apply(v) as int) < v + 100,
{
    assert(crate::fixed::strip_twos(250, 1000) == crate::fixed::strip_twos(125, 500));
    assert(crate::fixed::strip_twos(125, 500) == (125nat, 500nat));
    assert(crate::fixed::strip_fives(125, 500) == crate::fixed::strip_fives(25, 100));
    assert(crate::fixed::strip_fives(25, 100) == crate::fixed::strip_fives(5, 20));
    assert(crate::fixed::strip_fives(5, 20) == crate::fixed::strip_fives(1, 4));
    assert(crate::fixed::strip_fives(1, 4) == (1nat, 4nat));
    assert(crate::fixed::strip_twos(1000, 250) == crate::fixed::strip_twos(500, 125));
    assert(crate::fixed::strip_twos(500, 125) == (500nat, 125nat));
    assert(crate::fixed::strip_fives(500, 125) == crate::fixed::strip_fives(100, 25));
    assert(crate::fixed::strip_fives(100, 25) == crate::fixed::strip_fives(20, 5));
    assert(crate::fixed::strip_fives(20, 5) == crate::fixed::strip_fives(4, 1));
    assert(crate::fixed::strip_fives(4, 1) == (4nat, 1nat));
    lemma_gamma_root_round_trip(c, 4, v);
}

/// A curve configuration: a built-in curve by name, with an optional parameter.
#[derive(Clone, Copy, Debug, PartialEq, Eq, Structural)]
pub enum CurveConfig {
    Linear,
    /// `log_base` is `log10(base)` in thousandths; absent means base 10.
    Logarithmic { log_base: Option<u32> },
    /// `gamma` is in thousandths; absent means 2.2.
    Gamma { gamma: Option<u32> },
    Perceptual,
}

/// One of the four built-in curves.
#[derive(Clone, Copy, Debug)]
pub enum BuiltinCurve {
    Linear(LinearCurve),
    Logarithmic(LogarithmicCurve),
    Gamma(GammaCurve),
    Perceptual(PerceptualCurve),
}

impl Curve for BuiltinCurve {
    open spec fn spec_apply(&self, volume: int) -> nat {
        match self {
            BuiltinCurve::Linear(c) => c.spec_apply(volume),
            BuiltinCurve::Logarithmic(c) => c.spec_apply(volume),
            BuiltinCurve::Gamma(c) => c.spec_apply(volume),
            BuiltinCurve::Perceptual(c) => c.spec_apply(volume),
        }
    }

    open spec fn spec_inverse(&self, brightness: int) -> nat {
        match self {
            BuiltinCurve::Linear(c) => c.spec_inverse(brightness),
            BuiltinCurve::Logarithmic(c) => c.spec_inverse(brightness),
            BuiltinCurve::Gamma(c) => c.spec_inverse(brightness),
            BuiltinCurve::Perceptual(c) => c.spec_inverse(brightness),
        }
    }

    open spec fn spec_name(&self) -> Seq<char> {
        match self {
            BuiltinCurve::Linear(c) => c.spec_name(),
            BuiltinCurve::Logarithmic(c) => c.spec_name(),
            BuiltinCurve::Gamma(c) => c.spec_name(),
            BuiltinCurve::Perceptual(c) => c.spec_name(),
        }
    }

    proof fn lemma_range(&self, value: int) {
        match self {
            BuiltinCurve::Linear(c) => c.lemma_range(value),
            BuiltinCurve::Logarithmic(c) => c.lemma_range(value),
            BuiltinCurve::Gamma(c) => c.lemma_range(value),
            BuiltinCurve::Perceptual(c) => c.lemma_range(value),
        }
    }

    fn apply(&self, volume: i64) -> (r: u64) {
        match self {
            BuiltinCurve::Linear(c) => c.apply(volume),
            BuiltinCurve::Logarithmic(c) => c.apply(volume),
            BuiltinCurve::Gamma(c) => c.apply(volume),
            BuiltinCurve::Perceptual(c) => c.apply(volume),
        }
    }

    fn inverse(&self, brightness: i64) -> (r: u32) {
        match self {
            BuiltinCurve::Linear(c) => c.inverse(brightness),
            BuiltinCurve::Logarithmic(c) => c.inverse(brightness),
            BuiltinCurve::Gamma(c) => c.inverse(brightness),
            BuiltinCurve::Perceptual(c) => c.inverse(brightness),
        }
    }

    fn name(&self) -> (r: &'static str) {
        match self {
            BuiltinCurve::Linear(c) => c.name(),
            BuiltinCurve::Logarithmic(c) => c.name(),
            BuiltinCurve::Gamma(c) => c.name(),
            BuiltinCurve::Perceptual(c) => c.name(),
        }
    }
}

/// The curve a configuration stands for, with the default parameter where none is given.
pub open spec fn curve_of(config: CurveConfig) -> BuiltinCurve {
    match config {
        CurveConfig::Linear => BuiltinCurve::Linear(LinearCurve),
        CurveConfig::Logarithmic { log_base } => BuiltinCurve::Logarithmic(
            LogarithmicCurve {
                log_base: match log_base {
                    Some(l) => l,
                    None => DEFAULT_LOG_BASE,
                },
            },
        ),
        CurveConfig::Gamma { gamma } => BuiltinCurve::Gamma(
            GammaCurve {
                gamma: match gamma {
                    Some(g) => g,
                    None => DEFAULT_GAMMA,
                },
            },
        ),
        CurveConfig::Perceptual => BuiltinCurve::Perceptual(PerceptualCurve),
    }
}

/// The configuration a curve name stands for, with default parameters.
pub open spec fn config_named(name: Seq<char>) -> Option<CurveConfig> {
    if name == "linear"@ {
        Some(CurveConfig::Linear)
    } else if name == "logarithmic"@ {
        Some(CurveConfig::Logarithmic { log_base: None })
    } else if name == "gamma"@ {
        Some(CurveConfig::Gamma { gamma: None })
    } else if name == "perceptual"@ {
        Some(CurveConfig::Perceptual)
    } else {
        None
    }
}

impl CurveConfig {
    /// The curve this configuration stands for.
    pub fn into_curve(self) -> (r: BuiltinCurve)
        ensures
            r == curve_of(self),
    {
        match self {
            CurveConfig::Linear => BuiltinCurve::Linear(LinearCurve),
            CurveConfig::Logarithmic { log_base } => BuiltinCurve::Logarithmic(
                LogarithmicCurve {
                    log_base: match log_base {
                        Some(l) => l,
                        None => DEFAULT_LOG_BASE,
                    },
                },
            ),
            CurveConfig::Gamma { gamma } => BuiltinCurve::Gamma(
                GammaCurve {
                    gamma: match gamma {
                        Some(g) => g,
                        None => DEFAULT_GAMMA,
                    },
                },
            ),
            CurveConfig::Perceptual => BuiltinCurve::Perceptual(PerceptualCurve),
        }
    }

    /// Looks a built-in curve up by its name.
    pub fn named(name: &str) -> (r: Option<CurveConfig>)
        ensures
            r == config_named(name@),
    {
        let n = String::from_str(name);
        if n == String::from_str("linear") {
            Some(CurveConfig::Linear)
        } else if n == String::from_str("logarithmic") {
            Some(CurveConfig::Logarithmic { log_base: None })
        } else if n == String::from_str("gamma") {
            Some(CurveConfig::Gamma { gamma: None })
        } else if n == String::from_str("perceptual") {
            Some(CurveConfig::Perceptual)
        } else {
            None
        }
    }
}

} // verus!
