use vstd::prelude::*;

verus! {

/// One full unit (a volume or brightness of 1) in millionths.
pub const SCALE: u32 = 1000000;

/// One full unit in the fine steps of `10^-18` in which curves carry brightness, so that the
/// very dark end of a steep curve keeps its resolution.
pub const FINE: u64 = 1000000000000000000;

/// Fine steps per millionth.
pub const FINE_PER_UNIT: u64 = 1000000000000;

/// The largest unit that the power and root functions accept.
pub const MAX_UNIT: u128 = 1000000000000000000;

/// Clamps a value in millionths into `[0, SCALE]`.
pub open spec fn clamp_unit(v: int) -> nat {
    if v < 0 {
        0
    } else if v > SCALE {
        SCALE as nat
    } else {
        v as nat
    }
}

/// Clamps a value in millionths into `[0, SCALE]`.
pub fn clamp_to_unit(v: i64) -> (r: u32)
    ensures
        r == clamp_unit(v as int),
        r <= SCALE,
{
    if v < 0 {
        0
    } else if v > SCALE as i64 {
        SCALE
    } else {
        v as u32
    }
}

/// Clamps a value in fine steps into `[0, FINE]`.
pub open spec fn clamp_fine(v: int) -> nat {
    if v < 0 {
        0
    } else if v > FINE {
        FINE as nat
    } else {
        v as nat
    }
}

/// Clamps a value in fine steps into `[0, FINE]`.
pub fn clamp_to_fine(v: i64) -> (r: u64)
    ensures
        r == clamp_fine(v as int),
        r <= FINE,
{
    if v < 0 {
        0
    } else if v > FINE as i64 {
        FINE
    } else {
        v as u64
    }
}

/// `(x / s)^n` in units of `1 / s`, truncating after every multiplication.
pub open spec fn fpow(s: nat, x: nat, n: nat) -> nat
    decreases n,
{
    if n == 0 {
        s
    } else {
        fpow(s, x, (n - 1) as nat) * x / s
    }
}

/// `y` is the largest level in `[0, s]` whose `n`-th power stays at or below `x`.
pub open spec fn is_root(s: nat, x: nat, n: nat, y: nat) -> bool {
    &&& y <= s
    &&& fpow(s, y, n) <= x
    &&& (y == s || fpow(s, y + 1, n) > x)
}

/// The `n`-th root of `x / s` in units of `1 / s`, truncated.
pub open spec fn froot(s: nat, x: nat, n: nat) -> nat {
    choose|y: nat| is_root(s, x, n, y)
}

/// Halves `n` and `d` for as long as both are even.
pub open spec fn strip_twos(n: nat, d: nat) -> (nat, nat)
    decreases n,
{
    if n > 0 && d > 0 && n % 2 == 0 && d % 2 == 0 {
        strip_twos(n / 2, d / 2)
    } else {
        (n, d)
    }
}

/// Divides `n` and `d` by five for as long as both are multiples of five.
pub open spec fn strip_fives(n: nat, d: nat) -> (nat, nat)
    decreases n,
{
    if n > 0 && d > 0 && n % 5 == 0 && d % 5 == 0 {
        strip_fives(n / 5, d / 5)
    } else {
        (n, d)
    }
}

/// The fraction `n / d` with the common factors 2 and 5 removed.
pub open spec fn reduced(n: nat, d: nat) -> (nat, nat) {
    let (n2, d2) = strip_twos(n, d);
    strip_fives(n2, d2)
}

/// `(x / s)^(n / d)` in units of `1 / s`: the root of the reduced denominator, then the power
/// of the reduced numerator. Zero stays zero.
pub open spec fn fratio(s: nat, x: nat, n: nat, d: nat) -> nat {
    if x == 0 {
        0
    } else {
        let (rn, rd) = reduced(n, d);
        fpow(s, froot(s, x, rd), rn)
    }
}

pub proof fn lemma_scaled_product_bounded(s: nat, a: nat, x: nat)
    requires
        s >= 1,
        a <= s,
        x <= s,
    ensures
        a * x / s <= a,
        a * x <= s * s,
{
    assert(a * x <= a * s) by (nonlinear_arith)
        requires
            x <= s,
    ;
    assert(a * x <= s * s) by (nonlinear_arith)
        requires
            a <= s,
            x <= s,
    ;
    assert(a * x / s <= a) by (nonlinear_arith)
        requires
            a * x <= a * s,
            s >= 1,
    ;
}

pub proof fn lemma_fpow_bounded(s: nat, x: nat, n: nat)
    requires
        s >= 1,
        x <= s,
    ensures
        fpow(s, x, n) <= s,
    decreases n,
{
    if n > 0 {
        lemma_fpow_bounded(s, x, (n - 1) as nat);
        lemma_scaled_product_bounded(s, fpow(s, x, (n - 1) as nat), x);
    }
}

pub proof fn lemma_fpow_zero(s: nat, n: nat)
    requires
        s >= 1,
        n >= 1,
    ensures
        fpow(s, 0, n) == 0,
{
    let prev = fpow(s, 0, (n - 1) as nat);
    assert(fpow(s, 0, n) == prev * 0 / s);
    assert(prev * 0 == 0) by (nonlinear_arith);
}

/// A larger level never has a smaller power.
pub proof fn lemma_fpow_monotone(s: nat, x: nat, y: nat, n: nat)
    requires
        s >= 1,
        x <= y <= s,
    ensures
        fpow(s, x, n) <= fpow(s, y, n),
    decreases n,
{
    if n > 0 {
        let m = (n - 1) as nat;
        lemma_fpow_monotone(s, x, y, m);
        let a = fpow(s, x, m);
        let b = fpow(s, y, m);
        assert(a * x <= b * y) by (nonlinear_arith)
            requires
                a <= b,
                x <= y,
        ;
        assert(a * x / s <= b * y / s) by (nonlinear_arith)
            requires
                a * x <= b * y,
                s >= 1,
        ;
    }
}

/// At most one level is the root of a given value.
pub proof fn lemma_root_unique(s: nat, x: nat, n: nat, a: nat, b: nat)
    requires
        s >= 1,
        is_root(s, x, n, a),
        is_root(s, x, n, b),
    ensures
        a == b,
{
    if a < b {
        lemma_fpow_monotone(s, a + 1, b, n);
    } else if b < a {
        lemma_fpow_monotone(s, b + 1, a, n);
    }
}

/// The root that `froot` chooses is the one that was found.
pub proof fn lemma_froot_is(s: nat, x: nat, n: nat, y: nat)
    requires
        s >= 1,
        is_root(s, x, n, y),
    ensures
        froot(s, x, n) == y,
{
    lemma_root_unique(s, x, n, froot(s, x, n), y);
}

proof fn lemma_bisect(s: nat, x: nat, n: nat, lo: nat, hi: nat)
    requires
        lo < hi <= s + 1,
        fpow(s, lo, n) <= x,
        hi == s + 1 || fpow(s, hi, n) > x,
    ensures
        exists|y: nat| is_root(s, x, n, y),
    decreases hi - lo,
{
    if hi - lo == 1 {
        assert(is_root(s, x, n, lo));
    } else {
        let mid: nat = (lo + (hi - lo) / 2) as nat;
        if fpow(s, mid, n) <= x {
            lemma_bisect(s, x, n, mid, hi);
        } else {
            lemma_bisect(s, x, n, lo, mid);
        }
    }
}

/// A root found by bisection exists, so `froot` picks a level in range.
pub proof fn lemma_froot_bounded(s: nat, x: nat, n: nat)
    requires
        s >= 1,
        n >= 1,
    ensures
        is_root(s, x, n, froot(s, x, n)),
        froot(s, x, n) <= s,
{
    lemma_fpow_zero(s, n);
    lemma_bisect(s, x, n, 0, s + 1);
}

/// A fractional power of a level is again a level.
pub proof fn lemma_fratio_bounded(s: nat, x: nat, n: nat, d: nat)
    requires
        s >= 1,
        n >= 1,
        d >= 1,
    ensures
        fratio(s, x, n, d) <= s,
{
    if x > 0 {
        lemma_reduced_positive(n, d);
        let (rn, rd) = reduced(n, d);
        lemma_froot_bounded(s, x, rd);
        lemma_fpow_bounded(s, froot(s, x, rd), rn);
    }
}

proof fn lemma_strip_twos_positive(n: nat, d: nat)
    requires
        n >= 1,
        d >= 1,
    ensures
        strip_twos(n, d).0 >= 1,
        strip_twos(n, d).1 >= 1,
    decreases n,
{
    if n % 2 == 0 && d % 2 == 0 {
        lemma_strip_twos_positive(n / 2, d / 2);
    }
}

proof fn lemma_strip_fives_positive(n: nat, d: nat)
    requires
        n >= 1,
        d >= 1,
    ensures
        strip_fives(n, d).0 >= 1,
        strip_fives(n, d).1 >= 1,
    decreases n,
{
    if n % 5 == 0 && d % 5 == 0 {
        lemma_strip_fives_positive(n / 5, d / 5);
    }
}

proof fn lemma_reduced_positive(n: nat, d: nat)
    requires
        n >= 1,
        d >= 1,
    ensures
        reduced(n, d).0 >= 1,
        reduced(n, d).1 >= 1,
{
    lemma_strip_twos_positive(n, d);
    let (n2, d2) = strip_twos(n, d);
    lemma_strip_fives_positive(n2, d2);
}

/// Raises a level in units of `1 / unit` to the `n`-th power, truncating after each step.
pub fn fixed_pow(unit: u128, x: u128, n: u32) -> (r: u128)
    requires
        1 <= unit <= MAX_UNIT,
        x <= unit,
    ensures
        r == fpow(unit as nat, x as nat, n as nat),
        r <= unit,
{
    let mut acc: u128 = unit;
    let mut i: u32 = 0;
    while i < n
        invariant
            i <= n,
            1 <= unit <= MAX_UNIT,
            x <= unit,
            acc == fpow(unit as nat, x as nat, i as nat),
            acc <= unit,
        decreases n - i,
    {
        proof {
            lemma_scaled_product_bounded(unit as nat, acc as nat, x as nat);
            assert(unit * unit <= MAX_UNIT * MAX_UNIT) by (nonlinear_arith)
                requires
                    unit <= MAX_UNIT,
            ;
        }
        acc = acc * x / unit;
        i = i + 1;
    }
    acc
}

/// The `n`-th root of a level in units of `1 / unit`, truncated: found by bisection over
/// `[0, unit]`.
pub fn fixed_root(unit: u128, x: u128, n: u32) -> (r: u128)
    requires
        1 <= unit <= MAX_UNIT,
        n >= 1,
    ensures
        is_root(unit as nat, x as nat, n as nat, r as nat),
        r == froot(unit as nat, x as nat, n as nat),
        r <= unit,
{
    proof {
        lemma_fpow_zero(unit as nat, n as nat);
    }
    let mut lo: u128 = 0;
    let mut hi: u128 = unit + 1;
    while hi - lo > 1
        invariant
            1 <= unit <= MAX_UNIT,
            lo < hi <= unit + 1,
            fpow(unit as nat, lo as nat, n as nat) <= x,
            hi == unit + 1 || fpow(unit as nat, hi as nat, n as nat) > x,
        decreases hi - lo,
    {
        let mid: u128 = lo + (hi - lo) / 2;
        if fixed_pow(unit, mid, n) <= x {
            lo = mid;
        } else {
            hi = mid;
        }
    }
    proof {
        lemma_froot_is(unit as nat, x as nat, n as nat, lo as nat);
    }
    lo
}

/// Halves `n` and `d` while both are even.
fn strip_twos_exec(n: u32, d: u32) -> (r: (u32, u32))
    ensures
        (r.0 as nat, r.1 as nat) == strip_twos(n as nat, d as nat),
        n >= 1 ==> r.0 >= 1,
        d >= 1 ==> r.1 >= 1,
{
    let mut a: u32 = n;
    let mut b: u32 = d;
    while a > 0 && b > 0 && a % 2 == 0 && b % 2 == 0
        invariant
            strip_twos(a as nat, b as nat) == strip_twos(n as nat, d as nat),
            n >= 1 ==> a >= 1,
            d >= 1 ==> b >= 1,
        decreases a,
    {
        a = a / 2;
        b = b / 2;
    }
    (a, b)
}

/// Divides `n` and `d` by five while both are multiples of five.
fn strip_fives_exec(n: u32, d: u32) -> (r: (u32, u32))
    ensures
        (r.0 as nat, r.1 as nat) == strip_fives(n as nat, d as nat),
        n >= 1 ==> r.0 >= 1,
        d >= 1 ==> r.1 >= 1,
{
    let mut a: u32 = n;
    let mut b: u32 = d;
    while a > 0 && b > 0 && a % 5 == 0 && b % 5 == 0
        invariant
            strip_fives(a as nat, b as nat) == strip_fives(n as nat, d as nat),
            n >= 1 ==> a >= 1,
            d >= 1 ==> b >= 1,
        decreases a,
    {
        a = a / 5;
        b = b / 5;
    }
    (a, b)
}

/// Raises a level in units of `1 / unit` to the power `n / d`.
pub fn fixed_ratio_pow(unit: u128, x: u128, n: u32, d: u32) -> (r: u128)
    requires
        1 <= unit <= MAX_UNIT,
        x <= unit,
        n >= 1,
        d >= 1,
    ensures
        r == fratio(unit as nat, x as nat, n as nat, d as nat),
        r <= unit,
{
    proof {
        lemma_fratio_bounded(unit as nat, x as nat, n as nat, d as nat);
    }
    if x == 0 {
        return 0;
    }
    let (n2, d2) = strip_twos_exec(n, d);
    let (rn, rd) = strip_fives_exec(n2, d2);
    let root = fixed_root(unit, x, rd);
    fixed_pow(unit, root, rn)
}

} // verus!
