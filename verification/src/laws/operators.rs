use crate::float::Double;
use crate::frame::evaluation;
use crate::ids::ValueId;
use crate::interpreter::StateView;
use crate::laws::number::{
    distance_from_zero, endless, measure, no_number, pattern_is_read_alike, rounded_is_nearest,
    rounding_is_to_the_nearest, rounds_to, signed_pattern, smaller_pattern_is_nearer_to_zero,
    unsigned_pattern,
};
use crate::ops::byte_order;
use crate::program::{Const, Module, ValueKind};
use crate::types::{EvidenceView, TyView};
use crate::value::{ErrorView, ValueView};
use vstd::arithmetic::power2::{lemma_pow2_pos, pow2};
use vstd::prelude::*;
use vstd::utf8::encode_utf8;

verus! {

/// What a value kind is evaluated in.
pub struct Scene {
    pub module: Module,
    pub state: StateView,
    pub values: Map<u32, ValueView>,
    pub evidence: Seq<EvidenceView>,
    pub subst: Map<u32, TyView>,
    pub depth: nat,
}

impl Scene {
    /// What evaluating `kind` comes to.
    pub open spec fn outcome(self, kind: ValueKind) -> (StateView, Result<ValueView, ErrorView>) {
        evaluation(
            self.module,
            self.state,
            kind,
            self.values,
            self.evidence,
            self.subst,
            self.depth,
        )
    }

    /// Whether evaluating `kind` gives `value` and changes nothing.
    pub open spec fn gives(self, kind: ValueKind, value: ValueView) -> bool {
        self.outcome(kind) == (self.state, Ok::<ValueView, ErrorView>(value))
    }

    /// Whether evaluating `kind` is refused and changes nothing.
    pub open spec fn refuses(self, kind: ValueKind) -> bool {
        self.outcome(kind).0 == self.state && self.outcome(kind).1 is Err
    }

    /// Whether `id` holds `value`.
    pub open spec fn holds(self, id: ValueId, value: ValueView) -> bool {
        self.values.contains_key(id.0) && self.values[id.0] == value
    }
}

// ---------------------------------------------------------------------
// Constants, slots and loads.
// ---------------------------------------------------------------------

/// A literal denotes itself; a number too large for the signed range
/// stands for the one with the same bits.
pub proof fn literal_denotes_itself(at: Scene, c: Const) -> (value: ValueView)
    ensures
        at.gives(ValueKind::Const(c), value),
        match c {
            Const::Int(n) => value matches ValueView::Int(x) && x as u128 == n,
            Const::Float(x) => value == ValueView::Float(x),
            Const::Bool(b) => value == ValueView::Bool(b),
            Const::Char(x) => value == ValueView::Char(x),
            Const::Str(text) => value == ValueView::Str(text@),
            Const::Unit => value == ValueView::Unit,
        },
{
    if let Const::Int(n) = c {
        assert(((n as i128) as u128) == n) by (bit_vector);
    }
    at.outcome(ValueKind::Const(c)).1->Ok_0
}

/// A fresh slot holds nothing of note, and a load gives what its slot
/// holds, or is refused where it holds nothing.
pub proof fn slot_is_read(at: Scene, slot: ValueId)
    ensures
        at.gives(ValueKind::Alloc, ValueView::Unit),
        at.values.contains_key(slot.0) ==> at.gives(ValueKind::Load(slot), at.values[slot.0]),
        !at.values.contains_key(slot.0) ==> at.refuses(ValueKind::Load(slot)),
{
}

// ---------------------------------------------------------------------
// Integers.
// ---------------------------------------------------------------------

/// How many integers there are.
pub open spec fn turn() -> int {
    0x1_0000_0000_0000_0000_0000_0000_0000_0000int
}

/// Whether two numbers are the same up to whole turns of the integer
/// range.
pub open spec fn congruent(a: int, b: int) -> bool {
    (a - b) % turn() == 0
}

proof fn whole_turns(r: int, exact: int, k: int)
    ensures
        r == exact - turn() * k ==> congruent(r, exact),
{
    if r == exact - turn() * k {
        assert((-k) * turn() == -(turn() * k)) by (nonlinear_arith);
        vstd::arithmetic::div_mod::lemma_mod_multiples_basic(-k, turn());
    }
}

/// Sums, differences and products of integers are exact up to whole turns
/// of the integer range, and so are negatives.
pub proof fn integers_wrap_around(at: Scene, a: ValueId, b: ValueId, x: i128, y: i128) -> (results: (
    i128,
    i128,
    i128,
    i128,
))
    requires
        at.holds(a, ValueView::Int(x)),
        at.holds(b, ValueView::Int(y)),
    ensures
        at.gives(ValueKind::Add(a, b), ValueView::Int(results.0)),
        congruent(results.0 as int, x + y),
        at.gives(ValueKind::Sub(a, b), ValueView::Int(results.1)),
        congruent(results.1 as int, x - y),
        at.gives(ValueKind::Mul(a, b), ValueView::Int(results.2)),
        congruent(results.2 as int, x * y),
        at.gives(ValueKind::Neg(a), ValueView::Int(results.3)),
        congruent(results.3 as int, -x),
{
    let sum = at.outcome(ValueKind::Add(a, b)).1->Ok_0->Int_0;
    let difference = at.outcome(ValueKind::Sub(a, b)).1->Ok_0->Int_0;
    let product = at.outcome(ValueKind::Mul(a, b)).1->Ok_0->Int_0;
    let negative = at.outcome(ValueKind::Neg(a)).1->Ok_0->Int_0;
    let exact = x * y;
    vstd::arithmetic::div_mod::lemma_fundamental_div_mod(exact, turn());
    whole_turns(product as int, exact, exact / turn());
    whole_turns(product as int, exact, exact / turn() + 1);
    (sum, difference, product, negative)
}

/// Dividing integers rounds toward zero and leaves the rest: the dividend
/// is the quotient times the divisor and the remainder, and the remainder
/// is smaller than the divisor and has the sign of the dividend. The one
/// quotient outside the range turns into the dividend. A divisor of zero
/// is refused as such.
pub proof fn integers_divide_with_rest(at: Scene, a: ValueId, b: ValueId, x: i128, y: i128) -> (results:
    (i128, i128))
    requires
        at.holds(a, ValueView::Int(x)),
        at.holds(b, ValueView::Int(y)),
    ensures
        y == 0 ==> at.outcome(ValueKind::Div(a, b)) == (
            at.state,
            Err::<ValueView, ErrorView>(ErrorView::DivisionByZero),
        ) && at.outcome(ValueKind::Rem(a, b)) == (
            at.state,
            Err::<ValueView, ErrorView>(ErrorView::DivisionByZero),
        ),
        y != 0 ==> at.gives(ValueKind::Div(a, b), ValueView::Int(results.0)) && at.gives(
            ValueKind::Rem(a, b),
            ValueView::Int(results.1),
        ),
        y != 0 && !(x == i128::MIN && y == -1) ==> {
            &&& x == results.0 * y + results.1
            &&& -results.1 < (if y < 0 {
                -y
            } else {
                y as int
            })
            &&& results.1 < (if y < 0 {
                -y
            } else {
                y as int
            })
            &&& results.1 > 0 ==> x > 0
            &&& results.1 < 0 ==> x < 0
        },
        x == i128::MIN && y == -1 ==> results.0 == i128::MIN && results.1 == 0,
{
    if y == 0 {
        (0, 0)
    } else {
        let q = at.outcome(ValueKind::Div(a, b)).1->Ok_0->Int_0;
        let r = at.outcome(ValueKind::Rem(a, b)).1->Ok_0->Int_0;
        let n = if x < 0 {
            -x
        } else {
            x as int
        };
        let d = if y < 0 {
            -y
        } else {
            y as int
        };
        let whole = n / d;
        let rest = n % d;
        vstd::arithmetic::div_mod::lemma_fundamental_div_mod(n, d);
        vstd::arithmetic::div_mod::lemma_mod_bound(n, d);
        assert(0 <= whole <= n) by (nonlinear_arith)
            requires
                n == d * whole + rest,
                0 <= rest < d,
                n >= 0,
                d > 0,
        ;
        if d >= 2 {
            assert(2 * whole <= n) by (nonlinear_arith)
                requires
                    n == d * whole + rest,
                    0 <= rest,
                    whole >= 0,
                    d >= 2,
            ;
        }
        assert(whole * d == d * whole) by (nonlinear_arith);
        assert((-whole) * d == -(d * whole)) by (nonlinear_arith);
        assert(whole * (-d) == -(d * whole)) by (nonlinear_arith);
        assert((-whole) * (-d) == d * whole) by (nonlinear_arith);
        (q, r)
    }
}

/// The bits of integers are combined one by one: `and` keeps what both
/// have, `or` what either has, `xor` what one of them has, and `not`
/// turns every bit over.
pub proof fn bits_are_combined(at: Scene, a: ValueId, b: ValueId, x: i128, y: i128) -> (results: (
    i128,
    i128,
    i128,
    i128,
))
    requires
        at.holds(a, ValueView::Int(x)),
        at.holds(b, ValueView::Int(y)),
    ensures
        at.gives(ValueKind::And(a, b), ValueView::Int(results.0)),
        results.0 == x & y,
        at.gives(ValueKind::Or(a, b), ValueView::Int(results.1)),
        results.1 == x | y,
        at.gives(ValueKind::Xor(a, b), ValueView::Int(results.2)),
        results.2 == x ^ y,
        results.0 + results.1 == x + y,
        results.1 - results.0 == results.2,
        at.gives(ValueKind::Not(a), ValueView::Int(results.3)),
        x + results.3 == -1,
{
    let both = x & y;
    let either = x | y;
    let one = x ^ y;
    assert((x & y) + (x | y) == x + y) by (bit_vector);
    assert((x | y) - (x & y) == (x ^ y)) by (bit_vector);
    (both, either, one, (-1 - x) as i128)
}

/// Shifting an integer by a number of places below its width moves its
/// bits that far: by no place it stays as it is, one place more to the
/// left doubles it up to whole turns, and one place more to the right
/// halves it, rounded down. By any other number it is refused.
pub proof fn integers_shift_by_places(
    at: Scene,
    a: ValueId,
    b: ValueId,
    further: ValueId,
    x: i128,
    n: i128,
) -> (results: (i128, i128, i128, i128))
    requires
        at.holds(a, ValueView::Int(x)),
        at.holds(b, ValueView::Int(n)),
        at.holds(further, ValueView::Int((n + 1) as i128)),
        n < i128::MAX,
    ensures
        n < 0 || n >= 128 ==> at.refuses(ValueKind::Shl(a, b)) && at.refuses(ValueKind::Shr(a, b)),
        0 <= n < 128 ==> at.gives(ValueKind::Shl(a, b), ValueView::Int(results.0)) && at.gives(
            ValueKind::Shr(a, b),
            ValueView::Int(results.1),
        ),
        n == 0 ==> results.0 == x && results.1 == x,
        0 <= n < 127 ==> {
            &&& at.gives(ValueKind::Shl(a, further), ValueView::Int(results.2))
            &&& congruent(results.2 as int, 2 * results.0)
            &&& at.gives(ValueKind::Shr(a, further), ValueView::Int(results.3))
            &&& 2 * results.3 <= results.1 < 2 * results.3 + 2
        },
{
    if 0 <= n < 128 {
        let k = n as u32;
        let left = x << k;
        let right = x >> k;
        assert((x << 0u32) == x) by (bit_vector);
        assert((x >> 0u32) == x) by (bit_vector);
        if n < 127 {
            let m = (n + 1) as u32;
            assert(m == k + 1);
            let left_m = x << m;
            let right_m = x >> m;
            assert((x >> m) == ((x >> k) >> 1u32)) by (bit_vector)
                requires
                    k < 127,
                    m == k + 1,
            ;
            assert((x << m) == ((x << k) << 1u32)) by (bit_vector)
                requires
                    k < 127,
                    m == k + 1,
            ;
            assert(2 * (right >> 1u32) <= right && right < 2 * (right >> 1u32) + 2) by (bit_vector);
            let half = 0x4000_0000_0000_0000_0000_0000_0000_0000i128;
            assert((left << 1u32) == 2 * left || (left << 1u32) == 2 * left - 4 * half || (left
                << 1u32) == 2 * left + 4 * half) by (bit_vector)
                requires
                    half == 0x4000_0000_0000_0000_0000_0000_0000_0000i128,
            ;
            (left, right, left_m, right_m)
        } else {
            (left, right, 0, 0)
        }
    } else {
        (0, 0, 0, 0)
    }
}

// ---------------------------------------------------------------------
// Doubles.
// ---------------------------------------------------------------------

proof fn flipping_the_sign(x: Double)
    ensures
        x.negated().magnitude() == x.magnitude(),
        x.negated().negative() == !x.negative(),
        x.negated().value() == -x.value(),
{
}

/// The sum of two finite doubles is the double nearest to their exact
/// sum, ties to even; one of zero is negative only where both are.
pub proof fn doubles_add_to_the_nearest(at: Scene, a: ValueId, b: ValueId, x: Double, y: Double) -> (r:
    Double)
    requires
        at.holds(a, ValueView::Float(x)),
        at.holds(b, ValueView::Float(y)),
        !no_number(x) && !endless(x),
        !no_number(y) && !endless(y),
    ensures
        at.gives(ValueKind::Add(a, b), ValueView::Float(r)),
        rounds_to(r, measure(x) + measure(y), 1),
        measure(x) + measure(y) == 0 ==> signed_pattern(r) == (signed_pattern(x) && signed_pattern(
            y,
        )),
{
    pattern_is_read_alike(x);
    pattern_is_read_alike(y);
    let r = at.outcome(ValueKind::Add(a, b)).1->Ok_0->Float_0;
    rounded_sum_is_nearest(r, x.value(), y.value(), x.negative() && y.negative());
    r
}

proof fn rounded_sum_is_nearest(r: Double, x: int, y: int, both_negative: bool)
    requires
        r == crate::float_arith::rounded_sum(x, y, both_negative),
    ensures
        rounds_to(r, x + y, 1),
        x + y == 0 ==> signed_pattern(r) == both_negative,
{
    let sum = x + y;
    let n = if sum < 0 {
        (-sum) as nat
    } else {
        sum as nat
    };
    rounded_is_nearest(n, 1);
    crate::rounding::lemma_nothing(1);
    rounding_is_to_the_nearest(r, sum, 1);
    pattern_is_read_alike(r);
}

/// The difference of two finite doubles is the double nearest to their
/// exact difference, ties to even; one of zero is negative only where the
/// first is and the second is not.
pub proof fn doubles_subtract_to_the_nearest(
    at: Scene,
    a: ValueId,
    b: ValueId,
    x: Double,
    y: Double,
) -> (r: Double)
    requires
        at.holds(a, ValueView::Float(x)),
        at.holds(b, ValueView::Float(y)),
        !no_number(x) && !endless(x),
        !no_number(y) && !endless(y),
    ensures
        at.gives(ValueKind::Sub(a, b), ValueView::Float(r)),
        rounds_to(r, measure(x) - measure(y), 1),
        measure(x) == measure(y) ==> signed_pattern(r) == (signed_pattern(x) && !signed_pattern(y)),
{
    pattern_is_read_alike(x);
    pattern_is_read_alike(y);
    flipping_the_sign(y);
    let r = at.outcome(ValueKind::Sub(a, b)).1->Ok_0->Float_0;
    rounded_sum_is_nearest(r, x.value(), -y.value(), x.negative() && !y.negative());
    r
}

/// The product of two finite doubles is the double nearest to their exact
/// product, ties to even, and is negative where one of them is.
pub proof fn doubles_multiply_to_the_nearest(
    at: Scene,
    a: ValueId,
    b: ValueId,
    x: Double,
    y: Double,
) -> (r: Double)
    requires
        at.holds(a, ValueView::Float(x)),
        at.holds(b, ValueView::Float(y)),
        !no_number(x) && !endless(x),
        !no_number(y) && !endless(y),
    ensures
        at.gives(ValueKind::Mul(a, b), ValueView::Float(r)),
        rounds_to(r, measure(x) * measure(y), pow2(1074)),
        signed_pattern(r) == (signed_pattern(x) != signed_pattern(y)),
{
    pattern_is_read_alike(x);
    pattern_is_read_alike(y);
    let r = at.outcome(ValueKind::Mul(a, b)).1->Ok_0->Float_0;
    let size = x.size() * y.size();
    let exact = measure(x) * measure(y);
    lemma_pow2_pos(1074);
    assert(exact == size || exact == -size) by (nonlinear_arith)
        requires
            measure(x) == x.size() || measure(x) == -x.size(),
            measure(y) == y.size() || measure(y) == -y.size(),
            exact == measure(x) * measure(y),
            size == x.size() * y.size(),
    ;
    signs_multiply(x.negative(), x.size() as int, y.negative(), y.size() as int);
    rounded_is_nearest(size, pow2(1074));
    rounding_is_to_the_nearest(r, exact, pow2(1074));
    pattern_is_read_alike(r);
    r
}

proof fn signs_multiply(m: bool, x: int, n: bool, y: int)
    requires
        x >= 0,
        y >= 0,
    ensures
        x * y >= 0,
        ({
            let product = (if m {
                -x
            } else {
                x
            }) * (if n {
                -y
            } else {
                y
            });
            product == if m != n {
                -(x * y)
            } else {
                x * y
            }
        }),
{
    assert(x * y >= 0) by (nonlinear_arith)
        requires
            x >= 0,
            y >= 0,
    ;
    assert((-x) * y == -(x * y)) by (nonlinear_arith);
    assert(x * (-y) == -(x * y)) by (nonlinear_arith);
    assert((-x) * (-y) == x * y) by (nonlinear_arith);
}

/// The quotient of two finite doubles, the second not zero, is the double
/// nearest to their exact quotient, ties to even, and is negative where
/// one of them is.
pub proof fn doubles_divide_to_the_nearest(
    at: Scene,
    a: ValueId,
    b: ValueId,
    x: Double,
    y: Double,
) -> (r: Double)
    requires
        at.holds(a, ValueView::Float(x)),
        at.holds(b, ValueView::Float(y)),
        !no_number(x) && !endless(x),
        !no_number(y) && !endless(y),
        measure(y) != 0,
    ensures
        at.gives(ValueKind::Div(a, b), ValueView::Float(r)),
        rounds_to(
            r,
            if signed_pattern(y) {
                -measure(x) * pow2(1074)
            } else {
                measure(x) * pow2(1074)
            },
            distance_from_zero(y) as nat,
        ),
        signed_pattern(r) == (signed_pattern(x) != signed_pattern(y)),
{
    pattern_is_read_alike(x);
    pattern_is_read_alike(y);
    let r = at.outcome(ValueKind::Div(a, b)).1->Ok_0->Float_0;
    let one = pow2(1074) as int;
    lemma_pow2_pos(1074);
    let exact = if signed_pattern(y) {
        -measure(x) * pow2(1074)
    } else {
        measure(x) * pow2(1074)
    };
    assert(exact == (if signed_pattern(y) {
        (-measure(x)) * one
    } else {
        measure(x) * one
    }));
    signs_multiply(x.negative() != y.negative(), x.size() as int, false, one);
    rounded_is_nearest((x.size() * pow2(1074)) as nat, y.size());
    rounding_is_to_the_nearest(r, exact, y.size());
    pattern_is_read_alike(r);
    r
}

/// The remainder of two finite doubles, the second not zero, is what is
/// left of the first once the second was taken out of it as often as it
/// goes, rounded to the nearest double, with the sign of the first.
pub proof fn doubles_leave_a_rest(at: Scene, a: ValueId, b: ValueId, x: Double, y: Double) -> (r:
    Double)
    requires
        at.holds(a, ValueView::Float(x)),
        at.holds(b, ValueView::Float(y)),
        !no_number(x) && !endless(x),
        !no_number(y) && !endless(y),
        measure(y) != 0,
    ensures
        at.gives(ValueKind::Rem(a, b), ValueView::Float(r)),
        rounds_to(
            r,
            if signed_pattern(x) {
                -(distance_from_zero(x) % distance_from_zero(y))
            } else {
                distance_from_zero(x) % distance_from_zero(y)
            },
            1,
        ),
        signed_pattern(r) == signed_pattern(x),
{
    pattern_is_read_alike(x);
    pattern_is_read_alike(y);
    let r = at.outcome(ValueKind::Rem(a, b)).1->Ok_0->Float_0;
    let rest = x.size() as int % y.size() as int;
    vstd::arithmetic::div_mod::lemma_mod_bound(x.size() as int, y.size() as int);
    let exact = if signed_pattern(x) {
        -rest
    } else {
        rest
    };
    rounded_is_nearest(rest as nat, 1);
    rounding_is_to_the_nearest(r, exact, 1);
    pattern_is_read_alike(r);
    r
}

/// The negative of a double has the other sign and nothing else changed.
pub proof fn double_is_negated(at: Scene, a: ValueId, x: Double) -> (r: Double)
    requires
        at.holds(a, ValueView::Float(x)),
    ensures
        at.gives(ValueKind::Neg(a), ValueView::Float(r)),
        signed_pattern(r) == !signed_pattern(x),
        unsigned_pattern(r) == unsigned_pattern(x),
{
    let r = at.outcome(ValueKind::Neg(a)).1->Ok_0->Float_0;
    flipping_the_sign(x);
    pattern_is_read_alike(x);
    pattern_is_read_alike(r);
    r
}

/// Arithmetic with what is no number, or with infinities, never refuses:
/// it gives no number where an operand is none or where the result would
/// be undetermined, and the infinity or zero of the right sign elsewhere.
pub proof fn doubles_go_on_past_their_range(
    at: Scene,
    a: ValueId,
    b: ValueId,
    x: Double,
    y: Double,
) -> (results: (Double, Double, Double, Double, Double))
    requires
        at.holds(a, ValueView::Float(x)),
        at.holds(b, ValueView::Float(y)),
    ensures
        at.gives(ValueKind::Add(a, b), ValueView::Float(results.0)),
        at.gives(ValueKind::Sub(a, b), ValueView::Float(results.1)),
        at.gives(ValueKind::Mul(a, b), ValueView::Float(results.2)),
        at.gives(ValueKind::Div(a, b), ValueView::Float(results.3)),
        at.gives(ValueKind::Rem(a, b), ValueView::Float(results.4)),
        no_number(results.0) == (no_number(x) || no_number(y) || (endless(x) && endless(y)
            && signed_pattern(x) != signed_pattern(y))),
        no_number(results.1) == (no_number(x) || no_number(y) || (endless(x) && endless(y)
            && signed_pattern(x) == signed_pattern(y))),
        no_number(results.2) == (no_number(x) || no_number(y) || (endless(x) && unsigned_pattern(y)
            == 0) || (endless(y) && unsigned_pattern(x) == 0)),
        no_number(results.3) == (no_number(x) || no_number(y) || (endless(x) && endless(y)) || (
        unsigned_pattern(x) == 0 && unsigned_pattern(y) == 0)),
        no_number(results.4) == (no_number(x) || no_number(y) || endless(x) || unsigned_pattern(y)
            == 0),
        endless(x) && !no_number(results.0) ==> results.0 == x,
        endless(y) && !no_number(results.0) ==> results.0 == y,
        endless(x) && !no_number(results.1) ==> results.1 == x,
        endless(y) && !no_number(results.1) ==> endless(results.1) && signed_pattern(results.1)
            != signed_pattern(y),
        (endless(x) || endless(y)) && !no_number(results.2) ==> endless(results.2)
            && signed_pattern(results.2) == (signed_pattern(x) != signed_pattern(y)),
        (endless(x) || unsigned_pattern(y) == 0) && !no_number(results.3) ==> endless(results.3)
            && signed_pattern(results.3) == (signed_pattern(x) != signed_pattern(y)),
        endless(y) && !no_number(results.3) ==> unsigned_pattern(results.3) == 0 && signed_pattern(
            results.3,
        ) == (signed_pattern(x) != signed_pattern(y)),
        endless(y) && !no_number(results.4) ==> results.4 == x,
{
    pattern_is_read_alike(x);
    pattern_is_read_alike(y);
    flipping_the_sign(y);
    let sum = at.outcome(ValueKind::Add(a, b)).1->Ok_0->Float_0;
    let difference = at.outcome(ValueKind::Sub(a, b)).1->Ok_0->Float_0;
    let product = at.outcome(ValueKind::Mul(a, b)).1->Ok_0->Float_0;
    let quotient = at.outcome(ValueKind::Div(a, b)).1->Ok_0->Float_0;
    let rest = at.outcome(ValueKind::Rem(a, b)).1->Ok_0->Float_0;
    pattern_is_read_alike(sum);
    pattern_is_read_alike(difference);
    pattern_is_read_alike(product);
    pattern_is_read_alike(quotient);
    pattern_is_read_alike(rest);
    pattern_is_read_alike(y.negated());
    if !no_number(x) && !endless(x) && !no_number(y) && !endless(y) {
        let r = doubles_add_to_the_nearest(at, a, b, x, y);
        let r = doubles_subtract_to_the_nearest(at, a, b, x, y);
        let r = doubles_multiply_to_the_nearest(at, a, b, x, y);
        if measure(y) != 0 {
            let r = doubles_divide_to_the_nearest(at, a, b, x, y);
            let r = doubles_leave_a_rest(at, a, b, x, y);
        }
    }
    (sum, difference, product, quotient, rest)
}

// ---------------------------------------------------------------------
// Comparisons.
// ---------------------------------------------------------------------

/// Whether the six comparisons of `a` and `b` give what `less`, `equal`
/// and their opposites say.
pub open spec fn compare_as(at: Scene, a: ValueId, b: ValueId, less: bool, equal: bool) -> bool {
    &&& at.gives(ValueKind::Lt(a, b), ValueView::Bool(less))
    &&& at.gives(ValueKind::Le(a, b), ValueView::Bool(less || equal))
    &&& at.gives(ValueKind::Gt(a, b), ValueView::Bool(!less && !equal))
    &&& at.gives(ValueKind::Ge(a, b), ValueView::Bool(!less))
    &&& at.gives(ValueKind::Eq(a, b), ValueView::Bool(equal))
    &&& at.gives(ValueKind::Ne(a, b), ValueView::Bool(!equal))
}

/// Integers, characters and truth values compare as numbers do, a false
/// one counting less than a true one.
pub proof fn plain_values_compare(at: Scene, a: ValueId, b: ValueId)
    ensures
        forall|x: i128, y: i128|
            #![trigger at.holds(a, ValueView::Int(x)), at.holds(b, ValueView::Int(y))]
            at.holds(a, ValueView::Int(x)) && at.holds(b, ValueView::Int(y)) ==> compare_as(
                at,
                a,
                b,
                x < y,
                x == y,
            ),
        forall|x: char, y: char|
            #![trigger at.holds(a, ValueView::Char(x)), at.holds(b, ValueView::Char(y))]
            at.holds(a, ValueView::Char(x)) && at.holds(b, ValueView::Char(y)) ==> compare_as(
                at,
                a,
                b,
                (x as u32) < (y as u32),
                x == y,
            ),
        forall|x: bool, y: bool|
            #![trigger at.holds(a, ValueView::Bool(x)), at.holds(b, ValueView::Bool(y))]
            at.holds(a, ValueView::Bool(x)) && at.holds(b, ValueView::Bool(y)) ==> compare_as(
                at,
                a,
                b,
                !x && y,
                x == y,
            ),
{
}

/// A truth value is turned over by `not`.
pub proof fn truth_is_turned_over(at: Scene, a: ValueId, x: bool)
    requires
        at.holds(a, ValueView::Bool(x)),
    ensures
        at.gives(ValueKind::Not(a), ValueView::Bool(!x)),
{
}

/// Doubles compare by their values, so that both zeros are equal. What is
/// no number equals nothing and has no place in the order.
pub proof fn doubles_compare_by_value(at: Scene, a: ValueId, b: ValueId, x: Double, y: Double)
    requires
        at.holds(a, ValueView::Float(x)),
        at.holds(b, ValueView::Float(y)),
    ensures
        !no_number(x) && !no_number(y) ==> compare_as(
            at,
            a,
            b,
            measure(x) < measure(y),
            measure(x) == measure(y),
        ),
        no_number(x) || no_number(y) ==> {
            &&& at.gives(ValueKind::Eq(a, b), ValueView::Bool(false))
            &&& at.gives(ValueKind::Ne(a, b), ValueView::Bool(true))
            &&& at.refuses(ValueKind::Lt(a, b))
            &&& at.refuses(ValueKind::Le(a, b))
            &&& at.refuses(ValueKind::Gt(a, b))
            &&& at.refuses(ValueKind::Ge(a, b))
        },
{
    pattern_is_read_alike(x);
    pattern_is_read_alike(y);
    if unsigned_pattern(x) < unsigned_pattern(y) {
        smaller_pattern_is_nearer_to_zero(x, y);
    } else if unsigned_pattern(y) < unsigned_pattern(x) {
        smaller_pattern_is_nearer_to_zero(y, x);
    }
}

/// Whether `a` comes before `b` in the order of words: they agree up to
/// some position, and there `a` ends or has the smaller byte.
pub open spec fn comes_before(a: Seq<u8>, b: Seq<u8>) -> bool {
    exists|n: int|
        0 <= n <= a.len() && n < b.len() && #[trigger] a.take(n) == b.take(n) && (n == a.len()
            || a[n] < b[n])
}

proof fn byte_order_is_that_of_words(a: Seq<u8>, b: Seq<u8>, i: nat)
    requires
        i <= a.len(),
        i <= b.len(),
        a.take(i as int) == b.take(i as int),
    ensures
        byte_order(a, b, i) is Less ==> comes_before(a, b),
        byte_order(a, b, i) is Greater ==> comes_before(b, a),
        byte_order(a, b, i) is Equal <==> a == b,
    decreases a.len() - i,
{
    if i < a.len() && i < b.len() {
        if a[i as int] == b[i as int] {
            assert(a.take((i + 1) as int) =~= a.take(i as int).push(a[i as int]));
            assert(b.take((i + 1) as int) =~= b.take(i as int).push(b[i as int]));
            byte_order_is_that_of_words(a, b, i + 1);
        } else {
            assert(a.take(i as int) == b.take(i as int) && i < b.len());
            assert(b.take(i as int) == a.take(i as int));
        }
    } else if i == a.len() && i == b.len() {
        assert(a =~= a.take(i as int));
        assert(b =~= b.take(i as int));
    } else {
        assert(a.take(i as int) == b.take(i as int));
        assert(b.take(i as int) == a.take(i as int));
    }
}

proof fn order_of_words_is_strict(a: Seq<u8>, b: Seq<u8>)
    requires
        comes_before(a, b),
    ensures
        a != b,
        !comes_before(b, a),
{
    let n = choose|n: int|
        0 <= n <= a.len() && n < b.len() && #[trigger] a.take(n) == b.take(n) && (n == a.len()
            || a[n] < b[n]);
    if comes_before(b, a) {
        let m = choose|m: int|
            0 <= m <= b.len() && m < a.len() && #[trigger] b.take(m) == a.take(m) && (m == b.len()
                || b[m] < a[m]);
        if m < n {
            assert(a.take(n)[m] == b.take(n)[m]);
        } else if n < m {
            assert(a.take(m)[n] == b.take(m)[n]);
        }
    }
}

/// Text compares as words do, byte by byte.
pub proof fn text_compares_as_words_do(at: Scene, a: ValueId, b: ValueId, x: Seq<char>, y: Seq<char>)
    requires
        at.holds(a, ValueView::Str(x)),
        at.holds(b, ValueView::Str(y)),
    ensures
        at.gives(ValueKind::Lt(a, b), ValueView::Bool(comes_before(encode_utf8(x), encode_utf8(y)))),
        at.gives(ValueKind::Ge(a, b), ValueView::Bool(!comes_before(encode_utf8(x), encode_utf8(y)))),
        at.gives(ValueKind::Gt(a, b), ValueView::Bool(comes_before(encode_utf8(y), encode_utf8(x)))),
        at.gives(ValueKind::Le(a, b), ValueView::Bool(!comes_before(encode_utf8(y), encode_utf8(x)))),
        at.gives(ValueKind::Eq(a, b), ValueView::Bool(x == y)),
        at.gives(ValueKind::Ne(a, b), ValueView::Bool(x != y)),
{
    let p = encode_utf8(x);
    let q = encode_utf8(y);
    assert(p.take(0) =~= q.take(0));
    byte_order_is_that_of_words(p, q, 0);
    if comes_before(p, q) {
        order_of_words_is_strict(p, q);
    }
    if comes_before(q, p) {
        order_of_words_is_strict(q, p);
    }
}

/// Nothing equals nothing.
pub proof fn units_are_equal(at: Scene, a: ValueId, b: ValueId)
    requires
        at.holds(a, ValueView::Unit),
        at.holds(b, ValueView::Unit),
    ensures
        at.gives(ValueKind::Eq(a, b), ValueView::Bool(true)),
        at.gives(ValueKind::Ne(a, b), ValueView::Bool(false)),
        at.refuses(ValueKind::Lt(a, b)),
        at.refuses(ValueKind::Le(a, b)),
        at.refuses(ValueKind::Gt(a, b)),
        at.refuses(ValueKind::Ge(a, b)),
{
}

// ---------------------------------------------------------------------
// What operators refuse.
// ---------------------------------------------------------------------

/// What arithmetic operators are made of.
pub open spec fn calculation(kind: ValueKind, a: ValueId, b: ValueId) -> bool {
    kind == ValueKind::Add(a, b) || kind == ValueKind::Sub(a, b) || kind == ValueKind::Mul(a, b)
        || kind == ValueKind::Div(a, b) || kind == ValueKind::Rem(a, b)
}

/// The operators on the bits of integers.
pub open spec fn on_bits(kind: ValueKind, a: ValueId, b: ValueId) -> bool {
    kind == ValueKind::And(a, b) || kind == ValueKind::Or(a, b) || kind == ValueKind::Xor(a, b)
        || kind == ValueKind::Shl(a, b) || kind == ValueKind::Shr(a, b)
}

/// The comparisons.
pub open spec fn comparison(kind: ValueKind, a: ValueId, b: ValueId) -> bool {
    kind == ValueKind::Eq(a, b) || kind == ValueKind::Ne(a, b) || kind == ValueKind::Lt(a, b)
        || kind == ValueKind::Le(a, b) || kind == ValueKind::Gt(a, b) || kind == ValueKind::Ge(a, b)
}

/// Whether two values are of one kind that comparisons know.
pub open spec fn comparable(x: ValueView, y: ValueView) -> bool {
    (x is Int && y is Int) || (x is Float && y is Float) || (x is Bool && y is Bool) || (x is Char
        && y is Char) || (x is Str && y is Str) || (x is Unit && y is Unit)
}

/// An operator is refused on a value that was never computed, and on
/// values of kinds that it does not fit; nothing changes.
pub proof fn operators_refuse_what_does_not_fit(
    at: Scene,
    kind: ValueKind,
    a: ValueId,
    b: ValueId,
)
    ensures
        (calculation(kind, a, b) || on_bits(kind, a, b) || comparison(kind, a, b)) && (
        !at.values.contains_key(a.0) || !at.values.contains_key(b.0)) ==> at.refuses(kind),
        (kind == ValueKind::Neg(a) || kind == ValueKind::Not(a)) && !at.values.contains_key(a.0)
            ==> at.refuses(kind),
        calculation(kind, a, b) && !(at.values[a.0] is Int && at.values[b.0] is Int) && !(
        at.values[a.0] is Float && at.values[b.0] is Float) ==> at.refuses(kind),
        on_bits(kind, a, b) && !(at.values[a.0] is Int && at.values[b.0] is Int) ==> at.refuses(
            kind,
        ),
        comparison(kind, a, b) && !comparable(at.values[a.0], at.values[b.0]) ==> at.refuses(kind),
        kind == ValueKind::Neg(a) && !(at.values[a.0] is Int) && !(at.values[a.0] is Float)
            ==> at.refuses(kind),
        kind == ValueKind::Not(a) && !(at.values[a.0] is Int) && !(at.values[a.0] is Bool)
            ==> at.refuses(kind),
{
}

} // verus!
