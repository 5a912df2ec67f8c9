use vstd::prelude::*;

verus! {

use vstd::arithmetic::div_mod::{
    lemma_fundamental_div_mod,
    lemma_mod_self_0,
    lemma_small_mod,
    lemma_mod_multiples_basic,
};

/// Largest magnitude an endpoint numerator or denominator may take. It is
/// `i64::MAX`; keeping numerators at or above `-MAX_COEFF` (rather than
/// `i64::MIN`) makes negation always exact.
pub const MAX_COEFF: i64 = 0x7fff_ffff_ffff_ffff;

/// An exact rational number: `num / den`.
#[derive(Clone, Copy, Debug)]
pub struct Rat {
    pub num: i64,
    pub den: i64,
}

/// A rational is well formed when its denominator is positive and its
/// numerator avoids `i64::MIN`, so that negating it cannot overflow.
pub open spec fn rat_wf(a: Rat) -> bool {
    1 <= a.den && -MAX_COEFF <= a.num
}

/// `a < b` by cross multiplication (denominators positive).
pub open spec fn rat_lt(a: Rat, b: Rat) -> bool {
    a.num * b.den < b.num * a.den
}

/// `a == b` as values (`1/2` equals `2/4`).
pub open spec fn rat_eq(a: Rat, b: Rat) -> bool {
    a.num * b.den == b.num * a.den
}

pub open spec fn rat_le(a: Rat, b: Rat) -> bool {
    rat_lt(a, b) || rat_eq(a, b)
}

pub open spec fn rat_zero() -> Rat {
    Rat { num: 0, den: 1 }
}

pub open spec fn rat_one() -> Rat {
    Rat { num: 1, den: 1 }
}

/// An endpoint of the extended real line. `Nan` is the absorbing
/// "undefined" result (infinity minus infinity, zero divided by zero);
/// every comparison involving it is false, mirroring how the undefined
/// endpoint behaves in conventional hardware float semantics.
#[derive(Clone, Copy, Debug)]
pub enum Extended {
    Nan,
    NegInf,
    Fin(Rat),
    PosInf,
}

pub open spec fn ext_wf(a: Extended) -> bool {
    match a {
        Extended::Fin(r) => rat_wf(r),
        _ => true,
    }
}

pub open spec fn ext_lt(a: Extended, b: Extended) -> bool {
    match (a, b) {
        (Extended::Nan, _) => false,
        (_, Extended::Nan) => false,
        (Extended::NegInf, Extended::NegInf) => false,
        (Extended::NegInf, _) => true,
        (_, Extended::NegInf) => false,
        (Extended::PosInf, _) => false,
        (_, Extended::PosInf) => true,
        (Extended::Fin(x), Extended::Fin(y)) => rat_lt(x, y),
    }
}

pub open spec fn ext_eq(a: Extended, b: Extended) -> bool {
    match (a, b) {
        (Extended::NegInf, Extended::NegInf) => true,
        (Extended::PosInf, Extended::PosInf) => true,
        (Extended::Fin(x), Extended::Fin(y)) => rat_eq(x, y),
        _ => false,
    }
}

pub open spec fn ext_le(a: Extended, b: Extended) -> bool {
    ext_lt(a, b) || ext_eq(a, b)
}

pub open spec fn ext_is_zero(a: Extended) -> bool {
    a matches Extended::Fin(r) && r.num == 0
}

/// The smaller operand, ignoring `Nan` unless both are `Nan`.
pub open spec fn ext_min(a: Extended, b: Extended) -> Extended {
    if a is Nan {
        b
    } else if b is Nan {
        a
    } else if ext_le(a, b) {
        a
    } else {
        b
    }
}

/// The larger operand, ignoring `Nan` unless both are `Nan`.
pub open spec fn ext_max(a: Extended, b: Extended) -> Extended {
    if a is Nan {
        b
    } else if b is Nan {
        a
    } else if ext_le(b, a) {
        a
    } else {
        b
    }
}

// ------------------------------------------------------------------
// Greatest common divisor, for normalizing fractions.
// ------------------------------------------------------------------

pub open spec fn spec_gcd(a: nat, b: nat) -> nat
    decreases b,
{
    if b == 0 {
        a
    } else {
        spec_gcd(b, a % b)
    }
}

/// The gcd of two numbers, not both zero, is positive and divides both.
pub proof fn lemma_gcd_divides(a: nat, b: nat)
    requires
        a > 0 || b > 0,
    ensures
        spec_gcd(a, b) >= 1,
        a as int % (spec_gcd(a, b) as int) == 0,
        b as int % (spec_gcd(a, b) as int) == 0,
    decreases b,
{
    if b == 0 {
        lemma_mod_self_0(a as int);
        lemma_small_mod(0, a);
    } else {
        let r = a % b;
        lemma_gcd_divides(b, r);
        let g = spec_gcd(b, r) as int;
        let ai = a as int;
        let bi = b as int;
        let ri = r as int;
        lemma_fundamental_div_mod(ai, bi);
        lemma_fundamental_div_mod(bi, g);
        lemma_fundamental_div_mod(ri, g);
        let q = ai / bi;
        let kb = bi / g;
        let kr = ri / g;
        assert(ai == (kb * q + kr) * g) by (nonlinear_arith)
            requires
                ai == bi * q + ri,
                bi == g * kb + 0,
                ri == g * kr + 0,
        ;
        lemma_mod_multiples_basic(kb * q + kr, g);
    }
}

fn exec_gcd(a0: u128, b0: u128) -> (g: u128)
    ensures
        g as nat == spec_gcd(a0 as nat, b0 as nat),
{
    let mut a = a0;
    let mut b = b0;
    while b != 0
        invariant
            spec_gcd(a as nat, b as nat) == spec_gcd(a0 as nat, b0 as nat),
        decreases b,
    {
        let t = a % b;
        a = b;
        b = t;
    }
    a
}

// ------------------------------------------------------------------
// Building a rational endpoint from a wide signed fraction.
// ------------------------------------------------------------------

pub open spec fn spec_abs(x: int) -> nat {
    if x < 0 {
        (-x) as nat
    } else {
        x as nat
    }
}

/// True when the fraction `un / d`, once normalized by its gcd, fits the
/// 64-bit coefficients of `Rat`, so that `spec_make` keeps its exact value.
pub open spec fn make_is_exact(un: nat, d: nat) -> bool {
    un / spec_gcd(un, d) <= MAX_COEFF && d / spec_gcd(un, d) <= MAX_COEFF
}

/// Round a wide fraction `(sign, un, d)` into an endpoint. The fraction is
/// first normalized by its gcd; if the normalized coefficients still do not
/// fit, the value is rounded to the nearest representable integer and, past
/// the representable range, saturates to the corresponding infinity. This is
/// the library's outward "overflow" rule; ordinary partitions never reach it.
#[verifier::opaque]
pub open spec fn spec_make(neg: bool, un: nat, d: nat) -> Extended
    recommends
        d >= 1,
{
    let g = spec_gcd(un, d);
    let un2 = un / g;
    let d2 = d / g;
    if un2 <= MAX_COEFF && d2 <= MAX_COEFF {
        Extended::Fin(
            Rat {
                num: (if neg {
                    -(un2 as int)
                } else {
                    un2 as int
                }) as i64,
                den: d2 as i64,
            },
        )
    } else {
        let q = un2 / d2;
        if q <= MAX_COEFF {
            Extended::Fin(
                Rat {
                    num: (if neg {
                        -(q as int)
                    } else {
                        q as int
                    }) as i64,
                    den: 1,
                },
            )
        } else {
            if neg {
                Extended::NegInf
            } else {
                Extended::PosInf
            }
        }
    }
}

/// Facts about `spec_make` that its callers need: the result is well
/// formed, and while the normalized coefficients fit, it is the exact
/// value of the given fraction.
pub proof fn lemma_make_value(neg: bool, un: nat, d: nat)
    requires
        d >= 1,
    ensures
        ext_wf(spec_make(neg, un, d)),
        spec_gcd(un, d) >= 1,
        un % spec_gcd(un, d) == 0,
        d % spec_gcd(un, d) == 0,
        make_is_exact(un, d) ==> (spec_make(neg, un, d) matches Extended::Fin(r)
            && r.num * d == (if neg { -(un as int) } else { un as int }) * r.den
            && 1 <= r.den),
        d / spec_gcd(un, d) >= 1,
{
    reveal(spec_make);
    lemma_gcd_divides(un, d);
    let g = spec_gcd(un, d) as int;
    let un2 = un as int / g;
    let d2 = d as int / g;
    lemma_fundamental_div_mod(un as int, g);
    lemma_fundamental_div_mod(d as int, g);
    assert(un as int == g * un2);
    assert(d as int == g * d2);
    assert(d2 >= 1) by (nonlinear_arith)
        requires
            d as int == g * d2,
            d >= 1,
            g >= 1,
            d2 >= 0,
    ;
    if make_is_exact(un, d) {
        let r = spec_make(neg, un, d)->Fin_0;
        assert(un2 * (d as int) == un as int * d2) by (nonlinear_arith)
            requires
                un as int == g * un2,
                d as int == g * d2,
        ;
        assert(r.den == d2);
        if neg {
            assert(r.num == -un2);
            assert((-un2) * (d as int) == -(un2 * (d as int))) by (nonlinear_arith);
            assert((-(un as int)) * d2 == -(un as int * d2)) by (nonlinear_arith);
        } else {
            assert(r.num == un2);
        }
    } else {
        let q = un2 / d2;
        if q <= MAX_COEFF {
            assert(q >= 0) by {
                assert(un2 >= 0);
                vstd::arithmetic::div_mod::lemma_div_pos_is_pos(un2, d2);
            }
        }
    }
}

/// Executable twin of `spec_make`.
fn exec_make(neg: bool, un: u128, d: u128) -> (r: Extended)
    requires
        d >= 1,
    ensures
        r == spec_make(neg, un as nat, d as nat),
        ext_wf(r),
{
    proof {
        reveal(spec_make);
        lemma_make_value(neg, un as nat, d as nat);
    }
    let g = exec_gcd(un, d);
    let un2 = un / g;
    let d2 = d / g;
    if un2 <= MAX_COEFF as u128 && d2 <= MAX_COEFF as u128 {
        let mag = un2 as i64;
        Extended::Fin(Rat { num: if neg { -mag } else { mag }, den: d2 as i64 })
    } else {
        let q = un2 / d2;
        if q <= MAX_COEFF as u128 {
            let mag = q as i64;
            Extended::Fin(Rat { num: if neg { -mag } else { mag }, den: 1 })
        } else {
            if neg {
                Extended::NegInf
            } else {
                Extended::PosInf
            }
        }
    }
}

/// Rounding a fraction never produces the undefined endpoint.
pub proof fn lemma_make_not_nan(neg: bool, un: nat, d: nat)
    ensures
        !(spec_make(neg, un, d) is Nan),
{
    reveal(spec_make);
}

/// Sums and products of defined endpoints with a finite right operand are
/// defined, and every defined endpoint equals itself.
pub proof fn lemma_fin_ops_not_nan(a: Extended, b: Extended)
    ensures
        (!(a is Nan) && b is Fin) ==> !(spec_ext_add(a, b) is Nan),
        (a is Fin && b is Fin) ==> !(spec_ext_mul(a, b) is Nan),
        !(a is Nan) ==> ext_eq(a, a),
{
    if a is Fin && b is Fin {
        lemma_make_not_nan(
            (a->Fin_0.num * b->Fin_0.den + b->Fin_0.num * a->Fin_0.den) < 0,
            spec_abs(a->Fin_0.num * b->Fin_0.den + b->Fin_0.num * a->Fin_0.den),
            (a->Fin_0.den * b->Fin_0.den) as nat,
        );
        lemma_make_not_nan(
            (a->Fin_0.num * b->Fin_0.num) < 0,
            spec_abs(a->Fin_0.num * b->Fin_0.num),
            (a->Fin_0.den * b->Fin_0.den) as nat,
        );
    }
}

// ------------------------------------------------------------------
// Executable comparisons.
// ------------------------------------------------------------------

/// 2^126, a bound on any product of two 64-bit coefficients.
pub proof fn lemma_mul64_fits(x: int, y: int)
    by (nonlinear_arith)
    requires
        -0x8000_0000_0000_0000 <= x <= 0x7fff_ffff_ffff_ffff,
        -0x8000_0000_0000_0000 <= y <= 0x7fff_ffff_ffff_ffff,
    ensures
        -0x4000_0000_0000_0000_0000_0000_0000_0000 <= x * y
            <= 0x4000_0000_0000_0000_0000_0000_0000_0000,
{
}

/// Widening product of two 64-bit coefficients; never overflows.
fn mul_wide(x: i64, y: i64) -> (r: i128)
    ensures
        r == x * y,
{
    proof {
        lemma_mul64_fits(x as int, y as int);
    }
    (x as i128) * (y as i128)
}

pub fn exec_rat_lt(a: &Rat, b: &Rat) -> (r: bool)
    ensures
        r == rat_lt(*a, *b),
{
    mul_wide(a.num, b.den) < mul_wide(b.num, a.den)
}

pub fn exec_rat_eq(a: &Rat, b: &Rat) -> (r: bool)
    ensures
        r == rat_eq(*a, *b),
{
    mul_wide(a.num, b.den) == mul_wide(b.num, a.den)
}

pub fn exec_rat_le(a: &Rat, b: &Rat) -> (r: bool)
    ensures
        r == rat_le(*a, *b),
{
    mul_wide(a.num, b.den) <= mul_wide(b.num, a.den)
}

pub fn exec_ext_lt(a: &Extended, b: &Extended) -> (r: bool)
    ensures
        r == ext_lt(*a, *b),
{
    match (a, b) {
        (Extended::Nan, _) => false,
        (_, Extended::Nan) => false,
        (Extended::NegInf, Extended::NegInf) => false,
        (Extended::NegInf, _) => true,
        (_, Extended::NegInf) => false,
        (Extended::PosInf, _) => false,
        (_, Extended::PosInf) => true,
        (Extended::Fin(x), Extended::Fin(y)) => exec_rat_lt(x, y),
    }
}

pub fn exec_ext_eq(a: &Extended, b: &Extended) -> (r: bool)
    ensures
        r == ext_eq(*a, *b),
{
    match (a, b) {
        (Extended::NegInf, Extended::NegInf) => true,
        (Extended::PosInf, Extended::PosInf) => true,
        (Extended::Fin(x), Extended::Fin(y)) => exec_rat_eq(x, y),
        _ => false,
    }
}

pub fn exec_ext_le(a: &Extended, b: &Extended) -> (r: bool)
    ensures
        r == ext_le(*a, *b),
{
    match (a, b) {
        (Extended::Nan, _) => false,
        (_, Extended::Nan) => false,
        (Extended::NegInf, Extended::NegInf) => true,
        (Extended::NegInf, _) => true,
        (_, Extended::NegInf) => false,
        (Extended::PosInf, Extended::PosInf) => true,
        (Extended::PosInf, _) => false,
        (_, Extended::PosInf) => true,
        (Extended::Fin(x), Extended::Fin(y)) => exec_rat_le(x, y),
    }
}

// ------------------------------------------------------------------
// Ring operations on endpoints.
// ------------------------------------------------------------------

/// Signed fraction to endpoint: splits off the sign and normalizes.
pub open spec fn spec_make_signed(n: int, d: int) -> Extended
    recommends
        d >= 1,
{
    spec_make(n < 0, spec_abs(n), d as nat)
}

/// As `spec_make_signed`, but tolerates a negative denominator.
pub open spec fn spec_make_frac(n: int, d: int) -> Extended
    recommends
        d != 0,
{
    if d < 0 {
        spec_make_signed(-n, -d)
    } else {
        spec_make_signed(n, d)
    }
}

pub open spec fn spec_rat_add(a: Rat, b: Rat) -> Extended {
    spec_make_signed(a.num * b.den + b.num * a.den, a.den * b.den)
}

pub open spec fn spec_rat_sub(a: Rat, b: Rat) -> Extended {
    spec_make_signed(a.num * b.den - b.num * a.den, a.den * b.den)
}

pub open spec fn spec_rat_mul(a: Rat, b: Rat) -> Extended {
    spec_make_signed(a.num * b.num, a.den * b.den)
}

pub open spec fn spec_rat_div(a: Rat, b: Rat) -> Extended
    recommends
        b.num != 0,
{
    spec_make_frac(a.num * b.den, a.den * b.num)
}

/// The sign an infinite factor takes from the other operand.
pub open spec fn ext_sign_pos(a: Extended) -> bool {
    match a {
        Extended::PosInf => true,
        Extended::NegInf => false,
        Extended::Fin(r) => r.num > 0,
        Extended::Nan => true,
    }
}

pub open spec fn spec_ext_add(a: Extended, b: Extended) -> Extended {
    match (a, b) {
        (Extended::Nan, _) => Extended::Nan,
        (_, Extended::Nan) => Extended::Nan,
        (Extended::NegInf, Extended::PosInf) => Extended::Nan,
        (Extended::PosInf, Extended::NegInf) => Extended::Nan,
        (Extended::NegInf, _) => Extended::NegInf,
        (_, Extended::NegInf) => Extended::NegInf,
        (Extended::PosInf, _) => Extended::PosInf,
        (_, Extended::PosInf) => Extended::PosInf,
        (Extended::Fin(x), Extended::Fin(y)) => spec_rat_add(x, y),
    }
}

pub open spec fn spec_ext_sub(a: Extended, b: Extended) -> Extended {
    match (a, b) {
        (Extended::Nan, _) => Extended::Nan,
        (_, Extended::Nan) => Extended::Nan,
        (Extended::NegInf, Extended::NegInf) => Extended::Nan,
        (Extended::PosInf, Extended::PosInf) => Extended::Nan,
        (Extended::NegInf, _) => Extended::NegInf,
        (_, Extended::PosInf) => Extended::NegInf,
        (Extended::PosInf, _) => Extended::PosInf,
        (_, Extended::NegInf) => Extended::PosInf,
        (Extended::Fin(x), Extended::Fin(y)) => spec_rat_sub(x, y),
    }
}

pub open spec fn spec_ext_mul(a: Extended, b: Extended) -> Extended {
    match (a, b) {
        (Extended::Nan, _) => Extended::Nan,
        (_, Extended::Nan) => Extended::Nan,
        (Extended::PosInf, y) => if ext_is_zero(y) {
            Extended::Nan
        } else if ext_sign_pos(y) {
            Extended::PosInf
        } else {
            Extended::NegInf
        },
        (x, Extended::PosInf) => if ext_is_zero(x) {
            Extended::Nan
        } else if ext_sign_pos(x) {
            Extended::PosInf
        } else {
            Extended::NegInf
        },
        (Extended::NegInf, y) => if ext_is_zero(y) {
            Extended::Nan
        } else if ext_sign_pos(y) {
            Extended::NegInf
        } else {
            Extended::PosInf
        },
        (x, Extended::NegInf) => if ext_is_zero(x) {
            Extended::Nan
        } else if ext_sign_pos(x) {
            Extended::NegInf
        } else {
            Extended::PosInf
        },
        (Extended::Fin(x), Extended::Fin(y)) => spec_rat_mul(x, y),
    }
}

pub open spec fn spec_ext_div(a: Extended, b: Extended) -> Extended {
    match (a, b) {
        (Extended::Nan, _) => Extended::Nan,
        (_, Extended::Nan) => Extended::Nan,
        (Extended::PosInf, Extended::PosInf) => Extended::Nan,
        (Extended::PosInf, Extended::NegInf) => Extended::Nan,
        (Extended::NegInf, Extended::PosInf) => Extended::Nan,
        (Extended::NegInf, Extended::NegInf) => Extended::Nan,
        (Extended::Fin(_), Extended::PosInf) => Extended::Fin(rat_zero()),
        (Extended::Fin(_), Extended::NegInf) => Extended::Fin(rat_zero()),
        (Extended::PosInf, Extended::Fin(y)) => if y.num == 0 || y.num > 0 {
            Extended::PosInf
        } else {
            Extended::NegInf
        },
        (Extended::NegInf, Extended::Fin(y)) => if y.num == 0 || y.num > 0 {
            Extended::NegInf
        } else {
            Extended::PosInf
        },
        (Extended::Fin(x), Extended::Fin(y)) => if y.num == 0 {
            if x.num == 0 {
                Extended::Nan
            } else if x.num > 0 {
                Extended::PosInf
            } else {
                Extended::NegInf
            }
        } else {
            spec_rat_div(x, y)
        },
    }
}

pub open spec fn spec_ext_neg(a: Extended) -> Extended {
    match a {
        Extended::Nan => Extended::Nan,
        Extended::NegInf => Extended::PosInf,
        Extended::PosInf => Extended::NegInf,
        Extended::Fin(r) => Extended::Fin(Rat { num: -r.num as i64, den: r.den }),
    }
}

pub open spec fn spec_ext_abs(a: Extended) -> Extended {
    match a {
        Extended::Nan => Extended::Nan,
        Extended::NegInf => Extended::PosInf,
        Extended::PosInf => Extended::PosInf,
        Extended::Fin(r) => Extended::Fin(
            Rat {
                num: (if r.num < 0 {
                    -r.num as int
                } else {
                    r.num as int
                }) as i64,
                den: r.den,
            },
        ),
    }
}

/// `x` raised to the natural power `n`; `x^0` is one for every `x`.
pub open spec fn spec_ext_pow_n(x: Extended, n: nat) -> Extended
    decreases n,
{
    if n == 0 {
        Extended::Fin(rat_one())
    } else {
        spec_ext_mul(x, spec_ext_pow_n(x, (n - 1) as nat))
    }
}

/// `x` raised to an integer power; a negative power is the reciprocal of
/// the positive one.
pub open spec fn spec_ext_powi(x: Extended, e: int) -> Extended {
    if e >= 0 {
        spec_ext_pow_n(x, e as nat)
    } else {
        spec_ext_div(Extended::Fin(rat_one()), spec_ext_pow_n(x, (-e) as nat))
    }
}

/// Bound on products of well-formed coefficients, tight enough that two of
/// them can be added inside `i128`.
proof fn lemma_mul_coeff_fits(x: int, y: int)
    by (nonlinear_arith)
    requires
        -0x7fff_ffff_ffff_ffff <= x <= 0x7fff_ffff_ffff_ffff,
        -0x7fff_ffff_ffff_ffff <= y <= 0x7fff_ffff_ffff_ffff,
    ensures
        -(0x7fff_ffff_ffff_ffff * 0x7fff_ffff_ffff_ffff) <= x * y <= 0x7fff_ffff_ffff_ffff
            * 0x7fff_ffff_ffff_ffff,
{
}

proof fn lemma_den_product(x: int, y: int)
    by (nonlinear_arith)
    requires
        1 <= x,
        1 <= y,
    ensures
        1 <= x * y,
{
}

proof fn lemma_product_nonzero(x: int, y: int)
    by (nonlinear_arith)
    requires
        1 <= x,
        y != 0,
    ensures
        y > 0 ==> x * y >= 1,
        y < 0 ==> x * y <= -1,
{
}

/// Executable twin of `spec_make_signed`.
fn exec_make_signed(n: i128, d: i128) -> (r: Extended)
    requires
        1 <= d,
        -0x7fff_ffff_ffff_ffff_ffff_ffff_ffff_ffff <= n,
    ensures
        r == spec_make_signed(n as int, d as int),
        ext_wf(r),
{
    if n < 0 {
        exec_make(true, (-n) as u128, d as u128)
    } else {
        exec_make(false, n as u128, d as u128)
    }
}

pub fn exec_ext_add(a: &Extended, b: &Extended) -> (r: Extended)
    requires
        ext_wf(*a),
        ext_wf(*b),
    ensures
        r == spec_ext_add(*a, *b),
        ext_wf(r),
{
    match (a, b) {
        (Extended::Nan, _) => Extended::Nan,
        (_, Extended::Nan) => Extended::Nan,
        (Extended::NegInf, Extended::PosInf) => Extended::Nan,
        (Extended::PosInf, Extended::NegInf) => Extended::Nan,
        (Extended::NegInf, _) => Extended::NegInf,
        (_, Extended::NegInf) => Extended::NegInf,
        (Extended::PosInf, _) => Extended::PosInf,
        (_, Extended::PosInf) => Extended::PosInf,
        (Extended::Fin(x), Extended::Fin(y)) => {
            proof {
                lemma_mul_coeff_fits(x.num as int, y.den as int);
                lemma_mul_coeff_fits(y.num as int, x.den as int);
                lemma_mul_coeff_fits(x.den as int, y.den as int);
                lemma_den_product(x.den as int, y.den as int);
            }
            let n = mul_wide(x.num, y.den) + mul_wide(y.num, x.den);
            let d = mul_wide(x.den, y.den);
            exec_make_signed(n, d)
        },
    }
}

pub fn exec_ext_sub(a: &Extended, b: &Extended) -> (r: Extended)
    requires
        ext_wf(*a),
        ext_wf(*b),
    ensures
        r == spec_ext_sub(*a, *b),
        ext_wf(r),
{
    match (a, b) {
        (Extended::Nan, _) => Extended::Nan,
        (_, Extended::Nan) => Extended::Nan,
        (Extended::NegInf, Extended::NegInf) => Extended::Nan,
        (Extended::PosInf, Extended::PosInf) => Extended::Nan,
        (Extended::NegInf, _) => Extended::NegInf,
        (_, Extended::PosInf) => Extended::NegInf,
        (Extended::PosInf, _) => Extended::PosInf,
        (_, Extended::NegInf) => Extended::PosInf,
        (Extended::Fin(x), Extended::Fin(y)) => {
            proof {
                lemma_mul_coeff_fits(x.num as int, y.den as int);
                lemma_mul_coeff_fits(y.num as int, x.den as int);
                lemma_mul_coeff_fits(x.den as int, y.den as int);
                lemma_den_product(x.den as int, y.den as int);
            }
            let n = mul_wide(x.num, y.den) - mul_wide(y.num, x.den);
            let d = mul_wide(x.den, y.den);
            exec_make_signed(n, d)
        },
    }
}

fn exec_is_zero(r: &Rat) -> (b: bool)
    ensures
        b == (r.num == 0),
{
    r.num == 0
}

pub fn exec_ext_mul(a: &Extended, b: &Extended) -> (r: Extended)
    requires
        ext_wf(*a),
        ext_wf(*b),
    ensures
        r == spec_ext_mul(*a, *b),
        ext_wf(r),
{
    match (a, b) {
        (Extended::Nan, _) => Extended::Nan,
        (_, Extended::Nan) => Extended::Nan,
        (Extended::PosInf, _) => if exec_ext_zero(b) {
            Extended::Nan
        } else if exec_ext_sign_pos(b) {
            Extended::PosInf
        } else {
            Extended::NegInf
        },
        (_, Extended::PosInf) => if exec_ext_zero(a) {
            Extended::Nan
        } else if exec_ext_sign_pos(a) {
            Extended::PosInf
        } else {
            Extended::NegInf
        },
        (Extended::NegInf, _) => if exec_ext_zero(b) {
            Extended::Nan
        } else if exec_ext_sign_pos(b) {
            Extended::NegInf
        } else {
            Extended::PosInf
        },
        (_, Extended::NegInf) => if exec_ext_zero(a) {
            Extended::Nan
        } else if exec_ext_sign_pos(a) {
            Extended::NegInf
        } else {
            Extended::PosInf
        },
        (Extended::Fin(x), Extended::Fin(y)) => {
            proof {
                lemma_mul_coeff_fits(x.num as int, y.num as int);
                lemma_mul_coeff_fits(x.den as int, y.den as int);
                lemma_den_product(x.den as int, y.den as int);
            }
            let n = mul_wide(x.num, y.num);
            let d = mul_wide(x.den, y.den);
            exec_make_signed(n, d)
        },
    }
}

pub fn exec_ext_zero(a: &Extended) -> (r: bool)
    ensures
        r == ext_is_zero(*a),
{
    match a {
        Extended::Fin(x) => x.num == 0,
        _ => false,
    }
}

fn exec_ext_sign_pos(a: &Extended) -> (r: bool)
    ensures
        r == ext_sign_pos(*a),
{
    match a {
        Extended::PosInf => true,
        Extended::NegInf => false,
        Extended::Fin(x) => x.num > 0,
        Extended::Nan => true,
    }
}

pub fn exec_ext_div(a: &Extended, b: &Extended) -> (r: Extended)
    requires
        ext_wf(*a),
        ext_wf(*b),
    ensures
        r == spec_ext_div(*a, *b),
        ext_wf(r),
{
    match (a, b) {
        (Extended::Nan, _) => Extended::Nan,
        (_, Extended::Nan) => Extended::Nan,
        (Extended::PosInf, Extended::PosInf) => Extended::Nan,
        (Extended::PosInf, Extended::NegInf) => Extended::Nan,
        (Extended::NegInf, Extended::PosInf) => Extended::Nan,
        (Extended::NegInf, Extended::NegInf) => Extended::Nan,
        (Extended::Fin(_), Extended::PosInf) => Extended::Fin(Rat { num: 0, den: 1 }),
        (Extended::Fin(_), Extended::NegInf) => Extended::Fin(Rat { num: 0, den: 1 }),
        (Extended::PosInf, Extended::Fin(y)) => if y.num >= 0 {
            Extended::PosInf
        } else {
            Extended::NegInf
        },
        (Extended::NegInf, Extended::Fin(y)) => if y.num >= 0 {
            Extended::NegInf
        } else {
            Extended::PosInf
        },
        (Extended::Fin(x), Extended::Fin(y)) => {
            if y.num == 0 {
                if x.num == 0 {
                    Extended::Nan
                } else if x.num > 0 {
                    Extended::PosInf
                } else {
                    Extended::NegInf
                }
            } else {
                proof {
                    lemma_mul_coeff_fits(x.num as int, y.den as int);
                    lemma_mul_coeff_fits(x.den as int, y.num as int);
                    lemma_product_nonzero(x.den as int, y.num as int);
                }
                let n = mul_wide(x.num, y.den);
                let d = mul_wide(x.den, y.num);
                if d < 0 {
                    exec_make_signed(-n, -d)
                } else {
                    exec_make_signed(n, d)
                }
            }
        },
    }
}

pub fn exec_ext_neg(a: &Extended) -> (r: Extended)
    requires
        ext_wf(*a),
    ensures
        r == spec_ext_neg(*a),
        ext_wf(r),
{
    match a {
        Extended::Nan => Extended::Nan,
        Extended::NegInf => Extended::PosInf,
        Extended::PosInf => Extended::NegInf,
        Extended::Fin(x) => Extended::Fin(Rat { num: -x.num, den: x.den }),
    }
}

pub fn exec_ext_abs(a: &Extended) -> (r: Extended)
    requires
        ext_wf(*a),
    ensures
        r == spec_ext_abs(*a),
        ext_wf(r),
{
    match a {
        Extended::Nan => Extended::Nan,
        Extended::NegInf => Extended::PosInf,
        Extended::PosInf => Extended::PosInf,
        Extended::Fin(x) => Extended::Fin(
            Rat { num: if x.num < 0 { -x.num } else { x.num }, den: x.den },
        ),
    }
}

pub fn exec_ext_powi(x: &Extended, e: i32) -> (r: Extended)
    requires
        ext_wf(*x),
    ensures
        r == spec_ext_powi(*x, e as int),
        ext_wf(r),
{
    let n: u64 = if e < 0 {
        (-(e as i64)) as u64
    } else {
        e as u64
    };
    let mut acc = Extended::Fin(Rat { num: 1, den: 1 });
    let mut i: u64 = 0;
    while i < n
        invariant
            0 <= i <= n,
            ext_wf(*x),
            ext_wf(acc),
            acc == spec_ext_pow_n(*x, i as nat),
        decreases n - i,
    {
        acc = exec_ext_mul(x, &acc);
        i = i + 1;
    }
    if e < 0 {
        exec_ext_div(&Extended::Fin(Rat { num: 1, den: 1 }), &acc)
    } else {
        acc
    }
}

pub fn exec_ext_min(a: &Extended, b: &Extended) -> (r: Extended)
    ensures
        r == ext_min(*a, *b),
{
    match a {
        Extended::Nan => *b,
        _ => match b {
            Extended::Nan => *a,
            _ => if exec_ext_le(a, b) {
                *a
            } else {
                *b
            },
        },
    }
}

pub fn exec_ext_max(a: &Extended, b: &Extended) -> (r: Extended)
    ensures
        r == ext_max(*a, *b),
{
    match a {
        Extended::Nan => *b,
        _ => match b {
            Extended::Nan => *a,
            _ => if exec_ext_le(b, a) {
                *a
            } else {
                *b
            },
        },
    }
}

} // verus!
