use crate::float::{Double, INFINITY};
use crate::rounding::{lemma_units_increase, nearest, rounded, units};
use vstd::arithmetic::power2::{lemma_pow2_pos, pow2};
use vstd::prelude::*;

verus! {

// ---------------------------------------------------------------------
// What a bit pattern stands for.
// ---------------------------------------------------------------------

/// The bit pattern of a double without its sign bit.
pub open spec fn unsigned_pattern(x: Double) -> int {
    x.bits as int % 0x8000_0000_0000_0000
}

/// Whether a double's sign bit is set.
pub open spec fn signed_pattern(x: Double) -> bool {
    x.bits as int >= 0x8000_0000_0000_0000
}

/// Whether a double is no number: all bits of its exponent are set, and
/// one of its fraction.
pub open spec fn no_number(x: Double) -> bool {
    unsigned_pattern(x) > 0x7ff0_0000_0000_0000
}

/// Whether a double is an infinity.
pub open spec fn endless(x: Double) -> bool {
    unsigned_pattern(x) == 0x7ff0_0000_0000_0000
}

/// How far from zero a double lies, in units of the smallest positive
/// double: its fraction, with a leading one unless its exponent is zero,
/// shifted by its exponent. An infinity lies where the next finite double
/// would.
pub open spec fn distance_from_zero(x: Double) -> int {
    let exponent = unsigned_pattern(x) / 0x10_0000_0000_0000;
    let fraction = unsigned_pattern(x) % 0x10_0000_0000_0000;
    if exponent == 0 {
        fraction
    } else {
        (0x10_0000_0000_0000 + fraction) * pow2((exponent - 1) as nat)
    }
}

/// The value of a double, in units of the smallest positive double.
pub open spec fn measure(x: Double) -> int {
    if signed_pattern(x) {
        -distance_from_zero(x)
    } else {
        distance_from_zero(x)
    }
}

/// How far apart two numbers are.
pub open spec fn apart_by(a: int, b: int) -> int {
    if a < b {
        b - a
    } else {
        a - b
    }
}

/// Whether `r` is the double nearest to `num / den` units, and of two
/// that are equally near the one with an even pattern. It is negative
/// where the number is, even if it comes to zero.
pub open spec fn rounds_to(r: Double, num: int, den: nat) -> bool {
    &&& !no_number(r)
    &&& num > 0 ==> !signed_pattern(r)
    &&& num < 0 ==> signed_pattern(r)
    &&& forall|c: Double|
        !no_number(c) ==> {
            &&& apart_by(measure(r) * den, num) <= apart_by(#[trigger] measure(c) * den, num)
            &&& apart_by(measure(r) * den, num) == apart_by(measure(c) * den, num) && measure(c)
                != measure(r) ==> r.bits % 2 == 0
        }
}

/// The pattern of a double is read alike here and in its arithmetic.
pub proof fn pattern_is_read_alike(x: Double)
    ensures
        unsigned_pattern(x) == x.magnitude(),
        signed_pattern(x) == x.negative(),
        no_number(x) == x.nan(),
        endless(x) == x.infinite(),
        distance_from_zero(x) == x.size(),
        measure(x) == x.value(),
        (unsigned_pattern(x) == 0) == x.zero(),
        unsigned_pattern(x) % 2 == x.bits % 2,
        distance_from_zero(x) >= 0,
        (distance_from_zero(x) == 0) == (unsigned_pattern(x) == 0),
{
    let m = x.magnitude() as nat;
    assert(x.bits as int % 0x8000_0000_0000_0000 == m as int) by (nonlinear_arith)
        requires
            m == (if x.bits >= 0x8000_0000_0000_0000 {
                x.bits - 0x8000_0000_0000_0000
            } else {
                x.bits as int
            }),
            m < 0x8000_0000_0000_0000,
    ;
    assert(m as int / 0x10_0000_0000_0000 == (m / 0x10_0000_0000_0000nat) as int);
    assert(m as int % 0x10_0000_0000_0000 == (m % 0x10_0000_0000_0000nat) as int);
    if m / 0x10_0000_0000_0000nat != 0 {
        let e = (m / 0x10_0000_0000_0000nat - 1) as nat;
        lemma_pow2_pos(e);
        let k = (0x10_0000_0000_0000 + m as int % 0x10_0000_0000_0000);
        assert(k * pow2(e) > 0) by (nonlinear_arith)
            requires
                k > 0,
                pow2(e) > 0,
        ;
        assert(units(m) == k * pow2(e));
    } else {
        vstd::arithmetic::power2::lemma2_to64();
        assert(m * 1 == m);
        assert(units(m) == m * pow2(0));
    }
}

// ---------------------------------------------------------------------
// Rounding.
// ---------------------------------------------------------------------

/// Whether `num / den` units are nearer to magnitude `b` than to the one
/// before.
spec fn past_the_middle(num: nat, den: nat, b: nat) -> bool {
    b > 0 ==> {
        let middle = (units((b - 1) as nat) + units(b)) * den;
        2 * num > middle || (2 * num == middle && b % 2 == 0)
    }
}

proof fn some_magnitude_is_nearest(num: nat, den: nat, c: nat) -> (b: nat)
    requires
        c <= INFINITY,
        c == INFINITY || !past_the_middle(num, den, c + 1),
    ensures
        b <= INFINITY,
        nearest(num, den, b),
    decreases c,
{
    if past_the_middle(num, den, c) {
        c
    } else {
        some_magnitude_is_nearest(num, den, (c - 1) as nat)
    }
}

pub proof fn rounded_is_nearest(num: nat, den: nat)
    ensures
        rounded(num, den) <= INFINITY,
        nearest(num, den, rounded(num, den)),
{
    let b = some_magnitude_is_nearest(num, den, INFINITY as nat);
}

proof fn nearest_of_all(num: nat, den: nat, b: nat, c: nat)
    requires
        den > 0,
        b <= INFINITY,
        c <= INFINITY,
        nearest(num, den, b),
    ensures
        apart_by(units(b) as int * den, num as int) <= apart_by(units(c) as int * den, num as int),
        apart_by(units(b) as int * den, num as int) == apart_by(units(c) as int * den, num as int) && b != c
            ==> b % 2 == 0,
{
    let ub = units(b) as int;
    let uc = units(c) as int;
    let d = den as int;
    if c < b {
        let ul = units((b - 1) as nat) as int;
        lemma_units_increase((b - 1) as nat, b);
        if c < b - 1 {
            lemma_units_increase(c, (b - 1) as nat);
        }
        assert(uc * d <= ul * d) by (nonlinear_arith)
            requires
                uc <= ul,
                d > 0,
        ;
        if c < b - 1 {
            assert(uc * d < ul * d) by (nonlinear_arith)
                requires
                    uc < ul,
                    d > 0,
            ;
        }
        assert(ul * d < ub * d) by (nonlinear_arith)
            requires
                ul < ub,
                d > 0,
        ;
        assert((ul + ub) * d == ul * d + ub * d) by (nonlinear_arith);
    } else if b < c {
        let un = units(b + 1) as int;
        lemma_units_increase(b, b + 1);
        if b + 1 < c {
            lemma_units_increase(b + 1, c);
        }
        assert(un * d <= uc * d) by (nonlinear_arith)
            requires
                un <= uc,
                d > 0,
        ;
        if b + 1 < c {
            assert(un * d < uc * d) by (nonlinear_arith)
                requires
                    un < uc,
                    d > 0,
            ;
        }
        assert(ub * d < un * d) by (nonlinear_arith)
            requires
                ub < un,
                d > 0,
        ;
        assert((ub + un) * d == ub * d + un * d) by (nonlinear_arith);
    }
}

pub proof fn smaller_pattern_is_nearer_to_zero(x: Double, y: Double)
    requires
        unsigned_pattern(x) < unsigned_pattern(y),
    ensures
        distance_from_zero(x) < distance_from_zero(y),
{
    pattern_is_read_alike(x);
    pattern_is_read_alike(y);
    lemma_units_increase(x.magnitude() as nat, y.magnitude() as nat);
}

/// A double with the sign of a number and the magnitude it rounds to is
/// what the number rounds to.
pub proof fn rounding_is_to_the_nearest(r: Double, num: int, den: nat)
    requires
        den > 0,
        r.magnitude() == rounded(if num < 0 {
            (-num) as nat
        } else {
            num as nat
        }, den),
        num < 0 ==> r.negative(),
        num > 0 ==> !r.negative(),
    ensures
        rounds_to(r, num, den),
{
    let n = if num < 0 {
        (-num) as nat
    } else {
        num as nat
    };
    let b = r.magnitude() as nat;
    let d = den as int;
    rounded_is_nearest(n, den);
    pattern_is_read_alike(r);
    assert forall|c: Double| !no_number(c) implies {
        &&& apart_by(measure(r) * den, num) <= apart_by(#[trigger] measure(c) * den, num)
        &&& apart_by(measure(r) * den, num) == apart_by(measure(c) * den, num) && measure(c)
            != measure(r) ==> r.bits % 2 == 0
    } by {
        pattern_is_read_alike(c);
        let m = c.magnitude() as nat;
        nearest_of_all(n, den, b, m);
        nearest_of_all(n, den, b, 0);
        let ub = units(b) as int;
        let um = units(m) as int;
        assert(units(0) == 0) by {
            assert(0 * pow2(0) == 0) by (nonlinear_arith);
        }
        assert(0 * d == 0);
        assert((-ub) * d == -(ub * d)) by (nonlinear_arith);
        assert((-um) * d == -(um * d)) by (nonlinear_arith);
        assert(ub * d >= 0) by (nonlinear_arith)
            requires
                ub >= 0,
                d > 0,
        ;
        assert(um * d >= 0) by (nonlinear_arith)
            requires
                um >= 0,
                d > 0,
        ;
        if um > 0 {
            assert(um * d > 0) by (nonlinear_arith)
                requires
                    um > 0,
                    d > 0,
            ;
        }
        if b == m {
            assert(ub == um);
        }
        if num == 0 {
            if ub > 0 {
                assert(ub * d > 0) by (nonlinear_arith)
                    requires
                        ub > 0,
                        d > 0,
                ;
            }
        }
    }
}

} // verus!
