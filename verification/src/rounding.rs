use crate::float::INFINITY;
use vstd::arithmetic::power2::{lemma_pow2_adds, lemma_pow2_pos, lemma_pow2_unfold, pow2};
use vstd::prelude::*;

verus! {

/// The number of significands of one exponent: two to the 52.
pub const STEPS: u64 = 0x10_0000_0000_0000;

/// The exponent of a magnitude, counted from that of the smallest
/// positive doubles.
pub open spec fn exponent(magnitude: nat) -> nat {
    if magnitude / (STEPS as nat) == 0 {
        0
    } else {
        (magnitude / (STEPS as nat) - 1) as nat
    }
}

/// The significand of a magnitude, with the leading bit that the pattern
/// leaves out.
pub open spec fn significand(magnitude: nat) -> nat {
    if magnitude / (STEPS as nat) == 0 {
        magnitude
    } else {
        magnitude % (STEPS as nat) + STEPS as nat
    }
}

/// The size of a finite double with this magnitude, as a multiple of the
/// smallest positive double. The magnitude of infinity stands for the
/// power of two that follows the largest finite double.
pub open spec fn units(magnitude: nat) -> nat {
    significand(magnitude) * pow2(exponent(magnitude))
}

/// Whether `b` is the magnitude nearest to `num / den` units, where a
/// number halfway between two magnitudes counts as nearer to the even
/// one.
pub open spec fn nearest(num: nat, den: nat, b: nat) -> bool {
    &&& b > 0 ==> {
        let middle = (units((b - 1) as nat) + units(b)) * den;
        2 * num > middle || (2 * num == middle && b % 2 == 0)
    }
    &&& b < INFINITY ==> {
        let middle = (units(b) + units(b + 1)) * den;
        2 * num < middle || (2 * num == middle && b % 2 == 0)
    }
}

/// The magnitude nearest to `num / den` units.
pub open spec fn rounded(num: nat, den: nat) -> nat {
    choose|b: nat| b <= INFINITY && nearest(num, den, b)
}

/// A significand with its exponent has the size it stands for.
proof fn lemma_packed(e: nat, k: nat)
    requires
        k <= 2 * STEPS,
        e == 0 || k >= STEPS,
    ensures
        units(e * STEPS as nat + k) == k * pow2(e),
{
    let steps = STEPS as nat;
    let magnitude = e * steps + k;
    if k < steps {
        assert(magnitude / steps == 0);
    } else if k < 2 * steps {
        assert(magnitude / steps == e + 1 && magnitude % steps == k - steps) by (nonlinear_arith)
            requires
                magnitude == e * steps + k,
                steps <= k < 2 * steps,
                steps > 0,
        ;
    } else {
        assert(magnitude / steps == e + 2 && magnitude % steps == 0) by (nonlinear_arith)
            requires
                magnitude == e * steps + k,
                k == 2 * steps,
                steps > 0,
        ;
        lemma_pow2_unfold(e + 1);
        assert(steps * (2 * pow2(e)) == (2 * steps) * pow2(e)) by (nonlinear_arith);
    }
}

/// A magnitude is made of its exponent and significand.
proof fn lemma_unpacked(b: nat)
    ensures
        b == exponent(b) * STEPS as nat + significand(b),
        significand(b) < 2 * STEPS,
        exponent(b) == 0 || significand(b) >= STEPS,
{
    let steps = STEPS as nat;
    assert(b == (b / steps) * steps + b % steps && b % steps < steps) by (nonlinear_arith)
        requires
            steps > 0,
    ;
    if b / steps > 0 {
        assert(((b / steps) - 1) * steps + steps == (b / steps) * steps) by (nonlinear_arith);
    }
}

/// Each magnitude is followed by a larger one, one step of its exponent
/// away.
proof fn lemma_next(b: nat)
    ensures
        units(b + 1) == units(b) + pow2(exponent(b)),
        units(b + 1) > units(b),
{
    lemma_unpacked(b);
    let e = exponent(b);
    let k = significand(b);
    lemma_packed(e, k + 1);
    lemma_pow2_pos(e);
    assert((k + 1) * pow2(e) == k * pow2(e) + pow2(e)) by (nonlinear_arith);
}

/// Larger magnitudes stand for larger numbers.
pub proof fn lemma_units_increase(b: nat, c: nat)
    requires
        b < c,
    ensures
        units(b) < units(c),
    decreases c - b,
{
    lemma_next(b);
    if b + 1 < c {
        lemma_units_increase(b + 1, c);
    }
}

/// No number has two nearest magnitudes.
proof fn lemma_nearest_unique(num: nat, den: nat, b: nat, c: nat)
    requires
        den > 0,
        b <= INFINITY,
        c <= INFINITY,
        nearest(num, den, b),
        nearest(num, den, c),
    ensures
        b == c,
{
    if b < c {
        lemma_nearest_ordered(num, den, b, c);
    } else if c < b {
        lemma_nearest_ordered(num, den, c, b);
    }
}

proof fn lemma_nearest_ordered(num: nat, den: nat, b: nat, c: nat)
    requires
        den > 0,
        b < c <= INFINITY,
        nearest(num, den, b),
    ensures
        !nearest(num, den, c),
{
    let low = units(b) + units(b + 1);
    let high = units((c - 1) as nat) + units(c);
    if b + 1 < c {
        if b < c - 1 {
            lemma_units_increase(b, (c - 1) as nat);
        }
        lemma_units_increase(b + 1, c);
        assert(low * den < high * den) by (nonlinear_arith)
            requires
                low < high,
                den > 0,
        ;
    }
}

/// The nearest magnitude is the rounded number.
pub proof fn lemma_rounded(num: nat, den: nat, b: nat)
    requires
        den > 0,
        b <= INFINITY,
        nearest(num, den, b),
    ensures
        rounded(num, den) == b,
{
    let c = rounded(num, den);
    lemma_nearest_unique(num, den, b, c);
}

/// A number that is a magnitude already rounds to itself.
pub proof fn lemma_exact(b: nat)
    requires
        b <= INFINITY,
    ensures
        rounded(units(b), 1) == b,
{
    if b > 0 {
        lemma_units_increase((b - 1) as nat, b);
    }
    lemma_units_increase(b, b + 1);
    lemma_rounded(units(b), 1, b);
}

/// A number at least `k` steps and below the middle of the next step, or
/// at it with `k` even, rounds to `k` steps.
proof fn lemma_round_down(num: nat, den: nat, e: nat, k: nat)
    requires
        den > 0,
        k < 2 * STEPS,
        e == 0 || k >= STEPS,
        k * pow2(e) * den <= num,
        2 * num < (2 * k + 1) * pow2(e) * den || (2 * num == (2 * k + 1) * pow2(e) * den && k % 2
            == 0),
    ensures
        rounded(num, den) == if e * STEPS as nat + k <= INFINITY {
            e * STEPS as nat + k
        } else {
            INFINITY as nat
        },
{
    let b = e * STEPS as nat + k;
    lemma_packed(e, k);
    lemma_packed(e, k + 1);
    assert(k * pow2(e) + (k + 1) * pow2(e) == (2 * k + 1) * pow2(e)) by (nonlinear_arith);
    assert(b % 2 == k % 2) by (nonlinear_arith)
        requires
            b == e * 0x10_0000_0000_0000nat + k,
    ;
    if b <= INFINITY {
        if b > 0 {
            lemma_units_increase((b - 1) as nat, b);
            let below = units((b - 1) as nat) + units(b);
            assert(below * den < 2 * (units(b) * den)) by (nonlinear_arith)
                requires
                    below < 2 * units(b),
                    den > 0,
            ;
        }
        lemma_rounded(num, den, b);
    } else {
        lemma_overflow(num, den, b);
    }
}

/// A number below `k + 1` steps and above the middle of that step, or at
/// it with `k` odd, rounds to `k + 1` steps.
proof fn lemma_round_up(num: nat, den: nat, e: nat, k: nat)
    requires
        den > 0,
        k < 2 * STEPS,
        e == 0 || k >= STEPS,
        num < (k + 1) * pow2(e) * den,
        2 * num > (2 * k + 1) * pow2(e) * den || (2 * num == (2 * k + 1) * pow2(e) * den && k % 2
            == 1),
    ensures
        rounded(num, den) == if e * STEPS as nat + k + 1 <= INFINITY {
            e * STEPS as nat + k + 1
        } else {
            INFINITY as nat
        },
{
    let b = e * STEPS as nat + k + 1;
    lemma_packed(e, k);
    lemma_packed(e, k + 1);
    assert(k * pow2(e) + (k + 1) * pow2(e) == (2 * k + 1) * pow2(e)) by (nonlinear_arith);
    assert(b % 2 == (k + 1) % 2) by (nonlinear_arith)
        requires
            b == e * 0x10_0000_0000_0000nat + k + 1,
    ;
    if b <= INFINITY {
        lemma_units_increase(b, b + 1);
        let above = units(b) + units(b + 1);
        assert(2 * (units(b) * den) < above * den) by (nonlinear_arith)
            requires
                2 * units(b) < above,
                den > 0,
        ;
        lemma_rounded(num, den, b);
    } else {
        let c = (b - 1) as nat;
        assert(k * pow2(e) * den <= num) by (nonlinear_arith)
            requires
                2 * num >= (2 * k + 1) * pow2(e) * den,
        ;
        lemma_overflow(num, den, c);
    }
}

/// A number at least as large as what infinity's magnitude stands for
/// rounds to infinity.
proof fn lemma_overflow(num: nat, den: nat, b: nat)
    requires
        den > 0,
        b >= INFINITY,
        units(b) * den <= num,
    ensures
        rounded(num, den) == INFINITY,
{
    let top = INFINITY as nat;
    if top < b {
        lemma_units_increase(top, b);
    }
    lemma_units_increase((top - 1) as nat, top);
    let below = units((top - 1) as nat) + units(top);
    assert(below * den < 2 * (units(b) * den)) by (nonlinear_arith)
        requires
            below < 2 * units(b),
            den > 0,
    ;
    lemma_rounded(num, den, top);
}

/// Whether `q` pieces of size two to the `j - k`, and a bit more where
/// `sticky`, make up `num / den` units.
pub open spec fn made_up(num: nat, den: nat, q: nat, j: nat, k: nat, sticky: bool) -> bool {
    let whole = num * pow2(k);
    let piece = den * pow2(j);
    if sticky {
        q * piece < whole < (q + 1) * piece
    } else {
        whole == q * piece
    }
}

/// Two to the `e`.
pub(crate) fn power(e: u32) -> (r: u128)
    requires
        e <= 127,
    ensures
        r == pow2(e as nat),
{
    let mut r: u128 = 1;
    let mut i: u32 = 0;
    proof {
        vstd::arithmetic::power2::lemma2_to64();
    }
    while i < e
        invariant
            i <= e <= 127,
            r == pow2(i as nat),
        decreases e - i,
    {
        proof {
            lemma_pow2_unfold((i + 1) as nat);
            lemma_pow2_at_most(i as nat, 126);
            lemma_pow2_126();
        }
        r = r * 2;
        i = i + 1;
    }
    r
}

pub proof fn lemma_pow2_at_most(a: nat, b: nat)
    requires
        a <= b,
    ensures
        pow2(a) <= pow2(b),
{
    lemma_pow2_adds(a, (b - a) as nat);
    lemma_pow2_pos((b - a) as nat);
    assert(pow2(a) <= pow2(a) * pow2((b - a) as nat)) by (nonlinear_arith)
        requires
            pow2((b - a) as nat) >= 1,
    ;
}

pub proof fn lemma_pow2_126()
    ensures
        pow2(126) == 0x4000_0000_0000_0000_0000_0000_0000_0000,
        pow2(120) == 0x100_0000_0000_0000_0000_0000_0000_0000,
        pow2(121) == 0x200_0000_0000_0000_0000_0000_0000_0000,
        pow2(53) == 2 * STEPS,
        pow2(52) == STEPS,
{
    vstd::arithmetic::power2::lemma2_to64();
    vstd::arithmetic::power2::lemma2_to64_rest();
    lemma_pow2_adds(63, 63);
    lemma_pow2_adds(60, 60);
    lemma_pow2_unfold(121);
}

/// The number of binary digits of `q`.
fn width(q: u128) -> (r: u32)
    requires
        q < 0x100_0000_0000_0000_0000_0000_0000_0000,
    ensures
        r <= 120,
        q < pow2(r as nat),
        r > 0 ==> pow2((r - 1) as nat) <= q,
{
    let mut r: u32 = 0;
    let mut p: u128 = 1;
    proof {
        vstd::arithmetic::power2::lemma2_to64();
        lemma_pow2_126();
    }
    while p <= q
        invariant
            r <= 120,
            p == pow2(r as nat),
            r > 0 ==> pow2((r - 1) as nat) <= q,
            q < 0x100_0000_0000_0000_0000_0000_0000_0000,
            pow2(120) == 0x100_0000_0000_0000_0000_0000_0000_0000,
        decreases 120 - r,
    {
        proof {
            lemma_pow2_unfold((r + 1) as nat);
            if r == 120 {
                assert(false);
            }
        }
        p = p * 2;
        r = r + 1;
    }
    r
}

/// Where a number lies within the step it falls into, told from the
/// pieces it is made of: `q` pieces are `kept` steps and `low` pieces
/// more, at `t` digits a step.
proof fn lemma_within_step(
    num: nat,
    den: nat,
    q: nat,
    j: nat,
    k: nat,
    sticky: bool,
    e: nat,
    t: nat,
    kept: nat,
    low: nat,
)
    requires
        den > 0,
        made_up(num, den, q, j, k, sticky),
        t >= 1,
        t + j == e + k,
        q == kept * pow2(t) + low,
        low < pow2(t),
    ensures
        kept * pow2(e) * den <= num < (kept + 1) * pow2(e) * den,
        2 * low < pow2(t) ==> 2 * num < (2 * kept + 1) * pow2(e) * den,
        2 * low > pow2(t) || (2 * low == pow2(t) && sticky) ==> 2 * num > (2 * kept + 1) * pow2(e)
            * den,
        2 * low == pow2(t) && !sticky ==> 2 * num == (2 * kept + 1) * pow2(e) * den,
{
    let step = pow2(t);
    let big = pow2(k);
    let piece = den * pow2(j);
    let whole = num * big;
    let size = pow2(e);
    lemma_pow2_adds(t, j);
    lemma_pow2_adds(e, k);
    lemma_pow2_pos(k);
    lemma_pow2_pos(j);
    lemma_pow2_unfold(t);
    assert(step * piece == size * den * big) by (nonlinear_arith)
        requires
            step * pow2(j) == size * big,
            piece == den * pow2(j),
    ;
    assert(piece > 0) by (nonlinear_arith)
        requires
            piece == den * pow2(j),
            den > 0,
            pow2(j) > 0,
    ;
    let x = size * den;
    assert(q * piece == kept * (x * big) + low * piece) by (nonlinear_arith)
        requires
            q == kept * step + low,
            step * piece == x * big,
    ;
    assert((q + 1) * piece == q * piece + piece) by (nonlinear_arith);
    assert(low * piece + piece <= x * big) by (nonlinear_arith)
        requires
            low + 1 <= step,
            step * piece == x * big,
    ;
    assert(2 * low < step ==> 2 * (low * piece) + 2 * piece <= x * big) by (nonlinear_arith)
        requires
            2 * low < step ==> 2 * low + 2 <= step,
            step * piece == x * big,
    ;
    assert(2 * low > step ==> 2 * (low * piece) > x * big) by (nonlinear_arith)
        requires
            step * piece == x * big,
            piece > 0,
    ;
    assert(2 * low == step ==> 2 * (low * piece) == x * big) by (nonlinear_arith)
        requires
            step * piece == x * big,
    ;
    assert(low * piece >= 0) by (nonlinear_arith);
    // Everything so far is scaled by `big`; take that out again.
    assert(kept * x <= num < (kept + 1) * x) by (nonlinear_arith)
        requires
            kept * (x * big) <= num * big,
            num * big < kept * (x * big) + x * big,
            big > 0,
    ;
    assert(2 * (num * big) < 2 * (kept * (x * big)) + x * big ==> 2 * num < (2 * kept + 1) * x)
        by (nonlinear_arith)
        requires
            big > 0,
    ;
    assert(2 * (num * big) > 2 * (kept * (x * big)) + x * big ==> 2 * num > (2 * kept + 1) * x)
        by (nonlinear_arith)
        requires
            big > 0,
    ;
    assert(2 * (num * big) == 2 * (kept * (x * big)) + x * big ==> 2 * num == (2 * kept + 1) * x)
        by (nonlinear_arith)
        requires
            big > 0,
    ;
    assert(kept * size * den == kept * x) by (nonlinear_arith)
        requires
            x == size * den,
    ;
    assert((kept + 1) * size * den == (kept + 1) * x) by (nonlinear_arith)
        requires
            x == size * den,
    ;
    assert((2 * kept + 1) * size * den == (2 * kept + 1) * x) by (nonlinear_arith)
        requires
            x == size * den,
    ;
}

/// A number made of whole steps, at `t` steps a piece, is exactly that.
proof fn lemma_whole_steps(num: nat, den: nat, q: nat, j: nat, k: nat, e: nat, t: nat)
    requires
        den > 0,
        made_up(num, den, q, j, k, false),
        j == e + k + t,
    ensures
        num == q * pow2(t) * pow2(e) * den,
{
    let big = pow2(k);
    lemma_pow2_pos(k);
    lemma_pow2_adds(t, e);
    lemma_pow2_adds(t + e, k);
    let x = q * pow2(t) * pow2(e) * den;
    assert(num * big == x * big) by (nonlinear_arith)
        requires
            num * big == q * (den * pow2(j)),
            pow2(j) == pow2(t + e) * big,
            pow2(t + e) == pow2(t) * pow2(e),
            x == q * pow2(t) * pow2(e) * den,
    ;
    assert(num == x) by (nonlinear_arith)
        requires
            num * big == x * big,
            big > 0,
    ;
}

/// Rounds a number made of `q` pieces of size two to the `s`, and a bit
/// more where `sticky`, to the nearest magnitude.
pub(crate) fn round(
    q: u128,
    s: i64,
    sticky: bool,
    Ghost(num): Ghost<nat>,
    Ghost(den): Ghost<nat>,
    Ghost(j): Ghost<nat>,
    Ghost(k): Ghost<nat>,
) -> (r: u64)
    requires
        q < 0x100_0000_0000_0000_0000_0000_0000_0000,
        -3500 <= s <= 3500,
        s == j - k,
        den > 0,
        made_up(num, den, q as nat, j, k, sticky),
        sticky ==> q >= 2 * STEPS,
    ensures
        r == rounded(num, den),
        r <= INFINITY,
{
    if q == 0 {
        proof {
            lemma_pow2_pos(k);
            assert(0 * (den * pow2(j)) == 0);
            assert(num == 0) by (nonlinear_arith)
                requires
                    num * pow2(k) == 0,
                    pow2(k) > 0,
            ;
            lemma_nothing(den);
        }
        return 0;
    }
    let w = width(q);
    let e: i64 = if s + w as i64 - 53 >= 0 {
        s + w as i64 - 53
    } else {
        0
    };
    let t: i64 = e - s;
    proof {
        lemma_pow2_126();
        vstd::arithmetic::power2::lemma2_to64();
    }
    if t <= 0 {
        proof {
            lemma_pow2_at_most(w as nat, 53);
        }
        let factor = power((-t) as u32);
        proof {
            lemma_pow2_pos((-t) as nat);
            lemma_pow2_adds(w as nat, (-t) as nat);
            lemma_pow2_adds((w - 1) as nat, (-t) as nat);
            lemma_pow2_at_most((w - t) as nat, 53);
            assert(q * factor < pow2(w as nat) * factor) by (nonlinear_arith)
                requires
                    q < pow2(w as nat),
                    factor > 0,
            ;
            assert(q * factor >= pow2((w - 1) as nat) * factor) by (nonlinear_arith)
                requires
                    q >= pow2((w - 1) as nat),
                    factor > 0,
            ;
        }
        let kept: u128 = q * factor;
        proof {
            lemma_whole_steps(num, den, q as nat, j, k, e as nat, (-t) as nat);
            lemma_between(num, den, e as nat, kept as nat);
            lemma_round_down(num, den, e as nat, kept as nat);
        }
        capped(e as u64, kept as u64)
    } else if t <= 121 {
        let step = power(t as u32);
        proof {
            lemma_pow2_pos(t as nat);
        }
        let kept: u128 = q / step;
        let low: u128 = q % step;
        proof {
            assert(q == kept * step + low) by (nonlinear_arith)
                requires
                    kept == q / step,
                    low == q % step,
                    step > 0,
            ;
            lemma_kept_width(q as nat, w as nat, t as nat, e as nat, s as int);
            lemma_within_step(
                num,
                den,
                q as nat,
                j,
                k,
                sticky,
                e as nat,
                t as nat,
                kept as nat,
                low as nat,
            );
            lemma_pow2_unfold(t as nat);
            lemma_pow2_at_most(t as nat, 121);
        }
        let up = if 2 * low == step {
            sticky || kept % 2 == 1
        } else {
            2 * low > step
        };
        if up {
            proof {
                lemma_round_up(num, den, e as nat, kept as nat);
            }
            capped(e as u64, kept as u64 + 1)
        } else {
            proof {
                lemma_round_down(num, den, e as nat, kept as nat);
            }
            capped(e as u64, kept as u64)
        }
    } else {
        proof {
            lemma_pow2_at_most(121, t as nat);
            lemma_within_step(
                num,
                den,
                q as nat,
                j,
                k,
                sticky,
                e as nat,
                t as nat,
                0,
                q as nat,
            );
            lemma_round_down(num, den, e as nat, 0);
        }
        0
    }
}

pub proof fn lemma_nothing(den: nat)
    requires
        den > 0,
    ensures
        rounded(0, den) == 0,
{
    lemma_pow2_pos(0);
    assert(0 < pow2(0) * den) by (nonlinear_arith)
        requires
            pow2(0) > 0,
            den > 0,
    ;
    assert((2 * 0 + 1) * pow2(0) * den == pow2(0) * den) by (nonlinear_arith);
    assert(0 * pow2(0) * den == 0) by (nonlinear_arith);
    lemma_round_down(0, den, 0, 0);
}

proof fn lemma_between(num: nat, den: nat, e: nat, kept: nat)
    requires
        den > 0,
        num == kept * pow2(e) * den,
    ensures
        2 * num < (2 * kept + 1) * pow2(e) * den,
{
    lemma_pow2_pos(e);
    let x = pow2(e) * den;
    assert(x > 0) by (nonlinear_arith)
        requires
            x == pow2(e) * den,
            pow2(e) > 0,
            den > 0,
    ;
    assert((2 * kept + 1) * pow2(e) * den == 2 * (kept * pow2(e) * den) + x) by (nonlinear_arith)
        requires
            x == pow2(e) * den,
    ;
}

/// Leaving out the last digits of a number of `w` digits leaves a
/// significand of the right size.
proof fn lemma_kept_width(q: nat, w: nat, t: nat, e: nat, s: int)
    requires
        0 < w,
        pow2((w - 1) as nat) <= q < pow2(w),
        t >= 1,
        t == e - s,
        e == (if s + w - 53 >= 0 {
            s + w - 53
        } else {
            0
        }),
    ensures
        q / pow2(t) < 2 * STEPS,
        e == 0 || q / pow2(t) >= STEPS,
{
    let step = pow2(t);
    lemma_pow2_pos(t);
    lemma_pow2_126();
    lemma_pow2_adds(53, t);
    lemma_pow2_at_most(w, 53 + t);
    assert(q / step < 2 * STEPS) by (nonlinear_arith)
        requires
            q < pow2(53) * step,
            pow2(53) == 2 * STEPS,
            step > 0,
    ;
    if e > 0 {
        lemma_pow2_adds(52, t);
        assert(q / step >= STEPS) by (nonlinear_arith)
            requires
                q >= pow2(52) * step,
                pow2(52) == STEPS,
                step > 0,
        ;
    }
}

/// The magnitude of `kept` steps at exponent `e`, or infinity where
/// there is none.
fn capped(e: u64, kept: u64) -> (r: u64)
    requires
        e <= 4000,
        kept <= 2 * STEPS,
    ensures
        r <= INFINITY,
        r == if e * STEPS + kept <= INFINITY {
            e * STEPS + kept
        } else {
            INFINITY as int
        },
{
    let bits: u64 = e * STEPS + kept;
    if bits <= INFINITY {
        bits
    } else {
        INFINITY
    }
}

} // verus!
