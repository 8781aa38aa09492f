use crate::float::{Double, INFINITY, SIGN};
use crate::rounding::{
    exponent, lemma_exact, made_up, power, round, rounded, significand, units, STEPS,
};
use vstd::arithmetic::power2::{lemma_pow2_adds, lemma_pow2_pos, lemma_pow2_unfold, pow2};
use vstd::prelude::*;

verus! {

/// The bit pattern of the NaN that every undefined operation gives.
pub const NAN: u64 = 0x7ff8_0000_0000_0000;

/// How many powers of two the number one is above the smallest positive
/// double.
pub const ONE_EXPONENT: u64 = 1074;

/// The double with a sign and a magnitude.
pub open spec fn signed(negative: bool, magnitude: nat) -> Double {
    Double {
        bits: if negative {
            (magnitude + SIGN) as u64
        } else {
            magnitude as u64
        },
    }
}

/// The sum of two numbers of units, rounded; `both_negative` decides the
/// sign of an empty sum.
pub open spec fn rounded_sum(x: int, y: int, both_negative: bool) -> Double {
    if x + y == 0 {
        signed(both_negative, 0)
    } else if x + y < 0 {
        signed(true, rounded((-(x + y)) as nat, 1))
    } else {
        signed(false, rounded((x + y) as nat, 1))
    }
}

/// A number of units with a sign.
pub open spec fn with_sign(negative: bool, size: nat) -> int {
    if negative {
        -(size as int)
    } else {
        size as int
    }
}

impl Double {
    pub open spec fn infinite(self) -> bool {
        self.magnitude() == INFINITY
    }

    pub open spec fn zero(self) -> bool {
        self.magnitude() == 0
    }

    /// The absolute value of a finite double, in units of the smallest
    /// positive double.
    pub open spec fn size(self) -> nat {
        units(self.magnitude() as nat)
    }

    /// The value of a finite double, in the same units.
    pub open spec fn value(self) -> int {
        with_sign(self.negative(), self.size())
    }

    /// The sum of two doubles, rounded to the nearest double.
    pub open spec fn plus(self, other: Double) -> Double {
        if self.nan() || other.nan() {
            Double { bits: NAN }
        } else if self.infinite() && other.infinite() && self.negative() != other.negative() {
            Double { bits: NAN }
        } else if self.infinite() {
            self
        } else if other.infinite() {
            other
        } else {
            rounded_sum(self.value(), other.value(), self.negative() && other.negative())
        }
    }

    /// The difference of two doubles.
    pub open spec fn minus(self, other: Double) -> Double {
        self.plus(other.negated())
    }

    /// The product of two doubles, rounded to the nearest double.
    pub open spec fn times(self, other: Double) -> Double {
        let negative = self.negative() != other.negative();
        if self.nan() || other.nan() {
            Double { bits: NAN }
        } else if (self.infinite() && other.zero()) || (self.zero() && other.infinite()) {
            Double { bits: NAN }
        } else if self.infinite() || other.infinite() {
            signed(negative, INFINITY as nat)
        } else {
            signed(negative, rounded(self.size() * other.size(), pow2(ONE_EXPONENT as nat)))
        }
    }

    /// The quotient of two doubles, rounded to the nearest double.
    pub open spec fn over(self, other: Double) -> Double {
        let negative = self.negative() != other.negative();
        if self.nan() || other.nan() {
            Double { bits: NAN }
        } else if (self.infinite() && other.infinite()) || (self.zero() && other.zero()) {
            Double { bits: NAN }
        } else if self.infinite() || other.zero() {
            signed(negative, INFINITY as nat)
        } else if other.infinite() {
            signed(negative, 0)
        } else {
            signed(negative, rounded(self.size() * pow2(ONE_EXPONENT as nat), other.size()))
        }
    }

    /// What is left of a double once another has been taken out of it as
    /// often as it goes, with the sign of the first.
    pub open spec fn modulo(self, other: Double) -> Double {
        if self.nan() || other.nan() || self.infinite() || other.zero() {
            Double { bits: NAN }
        } else if other.infinite() {
            self
        } else {
            signed(self.negative(), rounded(self.size() % other.size(), 1))
        }
    }
}

/// The significand and exponent of a finite magnitude.
fn parts(magnitude: u64) -> (r: (u64, u64))
    requires
        magnitude < INFINITY,
    ensures
        r.0 == significand(magnitude as nat),
        r.1 == exponent(magnitude as nat),
        r.0 < 2 * STEPS,
        r.1 <= 2045,
        r.1 > 0 ==> r.0 >= STEPS,
        r.0 == 0 <==> magnitude == 0,
        r.0 * pow2(r.1 as nat) == units(magnitude as nat),
{
    let e: u64 = magnitude / STEPS;
    if e == 0 {
        (magnitude, 0)
    } else {
        (magnitude % STEPS + STEPS, e - 1)
    }
}

/// The double with a sign and a magnitude.
fn assemble(negative: bool, magnitude: u64) -> (r: Double)
    requires
        magnitude <= INFINITY,
    ensures
        r == signed(negative, magnitude as nat),
{
    if negative {
        Double { bits: magnitude + SIGN }
    } else {
        Double { bits: magnitude }
    }
}

/// A sum of two numbers of units at the smaller exponent.
proof fn lemma_aligned(ma: nat, ea: nat, mb: nat, eb: nat, d: nat, an: bool, bn: bool, total: int)
    requires
        ea == eb + d,
        total == with_sign(an, ma * pow2(d)) + with_sign(bn, mb),
    ensures
        with_sign(an, ma * pow2(ea)) + with_sign(bn, mb * pow2(eb)) == total * pow2(eb),
        total > 0 ==> total * pow2(eb) > 0,
        total < 0 ==> total * pow2(eb) < 0,
        total == 0 ==> total * pow2(eb) == 0,
        -(total * pow2(eb)) == (-total) * pow2(eb),
{
    lemma_pow2_adds(d, eb);
    lemma_pow2_pos(eb);
    let p = pow2(eb);
    let x = ma * pow2(d);
    assert(ma * pow2(ea) == x * p) by (nonlinear_arith)
        requires
            pow2(ea) == pow2(d) * p,
            x == ma * pow2(d),
    ;
    assert((-(x as int)) * p == -(x * p)) by (nonlinear_arith);
    assert((-(mb as int)) * p == -(mb * p)) by (nonlinear_arith);
    assert((with_sign(an, x) + with_sign(bn, mb)) * p == with_sign(an, x) * p + with_sign(bn, mb)
        * p) by (nonlinear_arith);
    assert(total > 0 ==> total * p > 0) by (nonlinear_arith)
        requires
            p > 0,
    ;
    assert(total < 0 ==> total * p < 0) by (nonlinear_arith)
        requires
            p > 0,
    ;
    assert(-(total * p) == (-total) * p) by (nonlinear_arith);
}

/// Adding far less than a step leaves all the digits that decide the
/// rounding.
proof fn lemma_far(ma: nat, ea: nat, mb: nat, eb: nat)
    requires
        ea >= eb + 64,
        mb < 2 * STEPS,
    ensures
        ma * pow2(ea) == (ma * 1024) * pow2((ea - 10) as nat),
        mb * pow2(eb) < pow2((ea - 10) as nat),
        mb > 0 ==> mb * pow2(eb) > 0,
{
    let p = pow2(eb);
    lemma_pow2_pos(eb);
    vstd::arithmetic::power2::lemma2_to64();
    lemma_pow2_adds(10, (ea - 10) as nat);
    assert(ma * pow2(ea) == (ma * 1024) * pow2((ea - 10) as nat)) by (nonlinear_arith)
        requires
            pow2(ea) == 1024 * pow2((ea - 10) as nat),
    ;
    lemma_pow2_adds(eb, 54);
    crate::rounding::lemma_pow2_at_most(eb + 54, (ea - 10) as nat);
    crate::rounding::lemma_pow2_126();
    lemma_pow2_unfold(54);
    assert(mb * p < p * pow2(54)) by (nonlinear_arith)
        requires
            mb < pow2(54),
            p > 0,
    ;
    assert(mb > 0 ==> mb * p > 0) by (nonlinear_arith)
        requires
            p > 0,
    ;
}

/// The sum of two finite numbers, the first with the larger exponent.
fn sum(an: bool, ma: u64, ea: u64, bn: bool, mb: u64, eb: u64) -> (r: Double)
    requires
        eb <= ea <= 2045,
        ma < 2 * STEPS,
        mb < 2 * STEPS,
        ea > 0 ==> ma >= STEPS,
    ensures
        r == rounded_sum(
            with_sign(an, ma as nat * pow2(ea as nat)),
            with_sign(bn, mb as nat * pow2(eb as nat)),
            an && bn,
        ),
{
    let d: u64 = ea - eb;
    let ghost x = with_sign(an, ma as nat * pow2(ea as nat));
    let ghost y = with_sign(bn, mb as nat * pow2(eb as nat));
    proof {
        vstd::arithmetic::power2::lemma2_to64();
        lemma_pow2_pos(ea as nat);
        lemma_pow2_pos(eb as nat);
    }
    if d < 64 {
        let factor = power(d as u32);
        proof {
            vstd::arithmetic::power2::lemma2_to64_rest();
            crate::rounding::lemma_pow2_at_most(d as nat, 63);
            assert(ma * factor <= 0x20_0000_0000_0000 * 0x8000_0000_0000_0000) by (nonlinear_arith)
                requires
                    ma <= 0x20_0000_0000_0000,
                    factor <= 0x8000_0000_0000_0000,
            ;
        }
        let wide: i128 = (ma as u128 * factor) as i128;
        let total: i128 = (if an {
            -wide
        } else {
            wide
        }) + (if bn {
            -(mb as i128)
        } else {
            mb as i128
        });
        proof {
            lemma_aligned(
                ma as nat,
                ea as nat,
                mb as nat,
                eb as nat,
                d as nat,
                an,
                bn,
                total as int,
            );
        }
        if total == 0 {
            assemble(an && bn, 0)
        } else if total < 0 {
            let ghost num = (-(x + y)) as nat;
            assert(1 * pow2(eb as nat) == pow2(eb as nat));
            let magnitude = round(
                (-total) as u128,
                eb as i64,
                false,
                Ghost(num),
                Ghost(1nat),
                Ghost(eb as nat),
                Ghost(0nat),
            );
            assemble(true, magnitude)
        } else {
            let ghost num = (x + y) as nat;
            assert(1 * pow2(eb as nat) == pow2(eb as nat));
            let magnitude = round(
                total as u128,
                eb as i64,
                false,
                Ghost(num),
                Ghost(1nat),
                Ghost(eb as nat),
                Ghost(0nat),
            );
            assemble(false, magnitude)
        }
    } else {
        let ghost j = (ea - 10) as nat;
        proof {
            lemma_far(ma as nat, ea as nat, mb as nat, eb as nat);
            assert(1 * pow2(j) == pow2(j));
            assert((ma * 1024) * pow2(j) >= pow2(j)) by (nonlinear_arith)
                requires
                    ma >= 1,
                    pow2(j) >= 0,
            ;
            assert((ma * 1024 - 1) * pow2(j) == (ma * 1024) * pow2(j) - pow2(j))
                by (nonlinear_arith);
            assert((ma * 1024 + 1) * pow2(j) == (ma * 1024) * pow2(j) + pow2(j))
                by (nonlinear_arith);
        }
        let whole: u128 = ma as u128 * 1024;
        let sticky = mb > 0;
        let q: u128 = if sticky && an != bn {
            whole - 1
        } else {
            whole
        };
        let ghost num = if an {
            (-(x + y)) as nat
        } else {
            (x + y) as nat
        };
        let magnitude = round(
            q,
            ea as i64 - 10,
            sticky,
            Ghost(num),
            Ghost(1nat),
            Ghost(j),
            Ghost(0nat),
        );
        assemble(an, magnitude)
    }
}

/// The pieces of a product.
proof fn lemma_product(ma: nat, ea: nat, mb: nat, eb: nat, one: nat)
    ensures
        (ma * pow2(ea)) * (mb * pow2(eb)) * pow2(one) == (ma * mb) * (pow2(one) * pow2(ea + eb)),
{
    lemma_pow2_adds(ea, eb);
    assert((ma * pow2(ea)) * (mb * pow2(eb)) * pow2(one) == (ma * mb) * (pow2(one) * (pow2(ea)
        * pow2(eb)))) by (nonlinear_arith);
}

/// The pieces of a quotient.
proof fn lemma_quotient(
    ma: nat,
    ea: nat,
    mb: nat,
    eb: nat,
    one: nat,
    c: nat,
    n: nat,
    q: nat,
    rest: nat,
)
    requires
        mb > 0,
        n == ma * pow2(c) * pow2(64),
        n == q * mb + rest,
        rest < mb,
    ensures
        made_up(
            ma * pow2(ea) * pow2(one),
            mb * pow2(eb),
            q,
            ea + one,
            c + 64 + eb,
            rest > 0,
        ),
{
    let w = pow2(ea + one) * pow2(eb);
    lemma_pow2_pos(ea + one);
    lemma_pow2_pos(eb);
    assert(w > 0) by (nonlinear_arith)
        requires
            w == pow2(ea + one) * pow2(eb),
            pow2(ea + one) > 0,
            pow2(eb) > 0,
    ;
    lemma_pow2_adds(ea, one);
    lemma_pow2_adds(c, 64);
    lemma_pow2_adds(c + 64, eb);
    let num = ma * pow2(ea) * pow2(one);
    let whole = num * pow2(c + 64 + eb);
    let piece = mb * pow2(eb) * pow2(ea + one);
    assert(whole == n * w) by (nonlinear_arith)
        requires
            whole == ma * pow2(ea) * pow2(one) * pow2(c + 64 + eb),
            pow2(c + 64 + eb) == pow2(c) * pow2(64) * pow2(eb),
            w == pow2(ea) * pow2(one) * pow2(eb),
            n == ma * pow2(c) * pow2(64),
    ;
    assert(piece == mb * w) by (nonlinear_arith)
        requires
            piece == mb * pow2(eb) * pow2(ea + one),
            w == pow2(ea + one) * pow2(eb),
    ;
    assert(n * w == q * (mb * w) + rest * w) by (nonlinear_arith)
        requires
            n == q * mb + rest,
    ;
    assert((q + 1) * (mb * w) == q * (mb * w) + mb * w) by (nonlinear_arith);
    assert(rest * w < mb * w) by (nonlinear_arith)
        requires
            rest < mb,
            w > 0,
    ;
    assert(rest > 0 ==> rest * w > 0) by (nonlinear_arith)
        requires
            w > 0,
    ;
}

/// The quotient of two finite numbers that are not zero.
fn quotient(ma: u64, ea: u64, mb: u64, eb: u64) -> (r: u64)
    requires
        0 < ma < 2 * STEPS,
        0 < mb < 2 * STEPS,
        ea <= 2045,
        eb <= 2045,
    ensures
        r <= INFINITY,
        r == rounded(
            ma as nat * pow2(ea as nat) * pow2(ONE_EXPONENT as nat),
            mb as nat * pow2(eb as nat),
        ),
{
    let mut m: u64 = ma;
    let mut c: u64 = 0;
    proof {
        vstd::arithmetic::power2::lemma2_to64();
        crate::rounding::lemma_pow2_126();
    }
    assert(ma * 1 == ma);
    while m < STEPS
        invariant
            0 < m < 2 * STEPS,
            c <= 52,
            m == ma * pow2(c as nat),
            ma > 0,
            pow2(52) == STEPS,
        decreases 2 * STEPS - m,
    {
        proof {
            lemma_pow2_unfold((c + 1) as nat);
            assert(ma * (2 * pow2(c as nat)) == 2 * (ma * pow2(c as nat))) by (nonlinear_arith);
            if c >= 52 {
                assert(ma * pow2(c as nat) >= pow2(c as nat)) by (nonlinear_arith)
                    requires
                        ma >= 1,
                ;
            }
        }
        m = m * 2;
        c = c + 1;
    }
    let n: u128 = m as u128 * 0x1_0000_0000_0000_0000;
    let q: u128 = n / mb as u128;
    let rest: u128 = n % mb as u128;
    let ghost den = mb as nat * pow2(eb as nat);
    proof {
        assert(n == q * mb + rest && rest < mb) by (nonlinear_arith)
            requires
                q == n / mb as u128,
                rest == n % mb as u128,
                mb > 0,
        ;
        assert(q >= 2 * STEPS) by (nonlinear_arith)
            requires
                n == q * mb + rest,
                rest < mb,
                mb < 2 * 0x10_0000_0000_0000,
                n >= 0x10_0000_0000_0000 * 0x1_0000_0000_0000_0000,
                STEPS == 0x10_0000_0000_0000,
        ;
        assert(q <= n) by (nonlinear_arith)
            requires
                n == q * mb + rest,
                mb >= 1,
        ;
        lemma_quotient(
            ma as nat,
            ea as nat,
            mb as nat,
            eb as nat,
            ONE_EXPONENT as nat,
            c as nat,
            n as nat,
            q as nat,
            rest as nat,
        );
        lemma_pow2_pos(eb as nat);
        assert(den > 0) by (nonlinear_arith)
            requires
                den == mb * pow2(eb as nat),
                mb > 0,
                pow2(eb as nat) > 0,
        ;
    }
    round(
        q,
        ea as i64 + 1074 - (c as i64 + 64 + eb as i64),
        rest > 0,
        Ghost(ma as nat * pow2(ea as nat) * pow2(ONE_EXPONENT as nat)),
        Ghost(den),
        Ghost((ea + ONE_EXPONENT) as nat),
        Ghost((c + 64 + eb) as nat),
    )
}

/// Doubling a dividend doubles what is left of it.
proof fn lemma_double_rest(x: nat, m: nat, rest: nat)
    requires
        m > 0,
        rest == x % m,
    ensures
        (2 * x) % m == if 2 * rest >= m {
            (2 * rest - m) as nat
        } else {
            2 * rest
        },
{
    let k = (x / m) as int;
    assert(x == m * k + rest && rest < m) by (nonlinear_arith)
        requires
            k == x / m,
            rest == x % m,
            m > 0,
    ;
    if 2 * rest >= m {
        let left = 2 * rest - m;
        assert((2 * x) == (2 * k + 1) * m + left) by (nonlinear_arith)
            requires
                x == m * k + rest,
                left == 2 * rest - m,
        ;
        vstd::arithmetic::div_mod::lemma_fundamental_div_mod_converse(
            2 * x as int,
            m as int,
            2 * k + 1,
            left,
        );
    } else {
        assert((2 * x) == (2 * k) * m + 2 * rest) by (nonlinear_arith)
            requires
                x == m * k + rest,
        ;
        vstd::arithmetic::div_mod::lemma_fundamental_div_mod_converse(
            2 * x as int,
            m as int,
            2 * k,
            2 * rest as int,
        );
    }
}

/// What is left of a number of pieces is a number of the same pieces.
proof fn lemma_scaled_rest(x: nat, m: nat, p: nat)
    requires
        m > 0,
        p > 0,
    ensures
        (x * p) % (m * p) == (x % m) * p,
{
    let k = (x / m) as int;
    let rest = x % m;
    assert(x == m * k + rest && rest < m) by (nonlinear_arith)
        requires
            k == x / m,
            rest == x % m,
            m > 0,
    ;
    assert(x * p == k * (m * p) + rest * p) by (nonlinear_arith)
        requires
            x == m * k + rest,
    ;
    assert(0 <= rest * p < m * p) by (nonlinear_arith)
        requires
            0 <= rest < m,
            p > 0,
    ;
    vstd::arithmetic::div_mod::lemma_fundamental_div_mod_converse(
        (x * p) as int,
        (m * p) as int,
        k,
        (rest * p) as int,
    );
}

/// What is left of a finite number once another, not zero, has been
/// taken out of it; the first has the larger exponent.
fn rest_of(ma: u64, ea: u64, mb: u64, eb: u64) -> (r: u64)
    requires
        ma < 2 * STEPS,
        0 < mb < 2 * STEPS,
        eb <= ea <= 2045,
    ensures
        r <= INFINITY,
        r == rounded(
            (ma as nat * pow2(ea as nat)) % (mb as nat * pow2(eb as nat)),
            1,
        ),
{
    let d: u64 = ea - eb;
    let mut rest: u64 = ma % mb;
    let mut i: u64 = 0;
    proof {
        vstd::arithmetic::power2::lemma2_to64();
        assert(ma * 1 == ma);
    }
    while i < d
        invariant
            i <= d,
            0 < mb < 2 * STEPS,
            rest < mb,
            rest as nat == (ma as nat * pow2(i as nat)) % (mb as nat),
        decreases d - i,
    {
        proof {
            lemma_double_rest(ma as nat * pow2(i as nat), mb as nat, rest as nat);
            lemma_pow2_unfold((i + 1) as nat);
            assert(ma * (2 * pow2(i as nat)) == 2 * (ma * pow2(i as nat))) by (nonlinear_arith);
        }
        rest = if 2 * rest >= mb {
            2 * rest - mb
        } else {
            2 * rest
        };
        i = i + 1;
    }
    let ghost p = pow2(eb as nat);
    proof {
        lemma_pow2_pos(eb as nat);
        lemma_pow2_adds(d as nat, eb as nat);
        assert(ma * pow2(ea as nat) == (ma * pow2(d as nat)) * p) by (nonlinear_arith)
            requires
                pow2(ea as nat) == pow2(d as nat) * p,
        ;
        lemma_scaled_rest(ma as nat * pow2(d as nat), mb as nat, p);
        assert(1 * p == p);
    }
    round(
        rest as u128,
        eb as i64,
        false,
        Ghost((ma as nat * pow2(ea as nat)) % (mb as nat * pow2(eb as nat))),
        Ghost(1nat),
        Ghost(eb as nat),
        Ghost(0nat),
    )
}

impl Double {
    fn is_negative(self) -> (r: bool)
        ensures
            r == self.negative(),
    {
        self.bits >= SIGN
    }

    fn magnitude_bits(self) -> (r: u64)
        ensures
            r == self.magnitude(),
    {
        if self.bits >= SIGN {
            self.bits - SIGN
        } else {
            self.bits
        }
    }

    /// Adds another double.
    pub fn add_to(self, other: Double) -> (r: Double)
        ensures
            r == self.plus(other),
    {
        let a = self.magnitude_bits();
        let b = other.magnitude_bits();
        if self.is_nan() || other.is_nan() {
            return Double { bits: NAN };
        }
        if a == INFINITY {
            if b == INFINITY && self.is_negative() != other.is_negative() {
                return Double { bits: NAN };
            }
            return self;
        }
        if b == INFINITY {
            return other;
        }
        let (ma, ea) = parts(a);
        let (mb, eb) = parts(b);
        if ea >= eb {
            sum(self.is_negative(), ma, ea, other.is_negative(), mb, eb)
        } else {
            sum(other.is_negative(), mb, eb, self.is_negative(), ma, ea)
        }
    }

    /// Takes another double away.
    pub fn subtract(self, other: Double) -> (r: Double)
        ensures
            r == self.minus(other),
    {
        self.add_to(other.negate())
    }

    /// Multiplies by another double.
    pub fn multiply(self, other: Double) -> (r: Double)
        ensures
            r == self.times(other),
    {
        let a = self.magnitude_bits();
        let b = other.magnitude_bits();
        let negative = self.is_negative() != other.is_negative();
        if self.is_nan() || other.is_nan() {
            return Double { bits: NAN };
        }
        if (a == INFINITY && b == 0) || (a == 0 && b == INFINITY) {
            return Double { bits: NAN };
        }
        if a == INFINITY || b == INFINITY {
            return assemble(negative, INFINITY);
        }
        let (ma, ea) = parts(a);
        let (mb, eb) = parts(b);
        proof {
            assert(ma * mb < 0x40_0000_0000_0000 * 0x40_0000_0000_0000) by (nonlinear_arith)
                requires
                    ma < 2 * STEPS,
                    mb < 2 * STEPS,
                    STEPS == 0x10_0000_0000_0000,
            ;
            lemma_product(
                ma as nat,
                ea as nat,
                mb as nat,
                eb as nat,
                ONE_EXPONENT as nat,
            );
            lemma_pow2_pos(ONE_EXPONENT as nat);
        }
        let magnitude = round(
            ma as u128 * mb as u128,
            ea as i64 + eb as i64 - 1074,
            false,
            Ghost(self.size() * other.size()),
            Ghost(pow2(ONE_EXPONENT as nat)),
            Ghost((ea + eb) as nat),
            Ghost(ONE_EXPONENT as nat),
        );
        assemble(negative, magnitude)
    }

    /// Divides by another double.
    pub fn divide(self, other: Double) -> (r: Double)
        ensures
            r == self.over(other),
    {
        let a = self.magnitude_bits();
        let b = other.magnitude_bits();
        let negative = self.is_negative() != other.is_negative();
        if self.is_nan() || other.is_nan() {
            return Double { bits: NAN };
        }
        if (a == INFINITY && b == INFINITY) || (a == 0 && b == 0) {
            return Double { bits: NAN };
        }
        if a == INFINITY || b == 0 {
            return assemble(negative, INFINITY);
        }
        if b == INFINITY {
            return assemble(negative, 0);
        }
        let (ma, ea) = parts(a);
        let (mb, eb) = parts(b);
        if ma == 0 {
            proof {
                lemma_pow2_pos(eb as nat);
                assert(other.size() > 0) by (nonlinear_arith)
                    requires
                        other.size() == mb * pow2(eb as nat),
                        mb > 0,
                        pow2(eb as nat) > 0,
                ;
                assert(0 * pow2(ea as nat) == 0);
                assert(0 * pow2(ONE_EXPONENT as nat) == 0);
                crate::rounding::lemma_nothing(other.size());
            }
            return assemble(negative, 0);
        }
        assemble(negative, quotient(ma, ea, mb, eb))
    }

    /// What is left after dividing by another double as often as it goes.
    pub fn remainder(self, other: Double) -> (r: Double)
        ensures
            r == self.modulo(other),
    {
        let a = self.magnitude_bits();
        let b = other.magnitude_bits();
        if self.is_nan() || other.is_nan() || a == INFINITY || b == 0 {
            return Double { bits: NAN };
        }
        if b == INFINITY {
            return self;
        }
        let (ma, ea) = parts(a);
        let (mb, eb) = parts(b);
        if ea >= eb {
            assemble(self.is_negative(), rest_of(ma, ea, mb, eb))
        } else {
            proof {
                lemma_pow2_pos(ea as nat);
                lemma_pow2_adds(ea as nat, (eb - ea) as nat);
                lemma_pow2_unfold((eb - ea) as nat);
                lemma_pow2_pos((eb - ea - 1) as nat);
                let p = pow2(ea as nat);
                let f = pow2((eb - ea) as nat);
                assert(ma * p < mb * (p * f)) by (nonlinear_arith)
                    requires
                        ma < 2 * STEPS,
                        mb >= STEPS,
                        f >= 2,
                        p > 0,
                ;
                vstd::arithmetic::div_mod::lemma_small_mod(self.size(), other.size());
                lemma_exact(a as nat);
            }
            self
        }
    }
}

} // verus!
