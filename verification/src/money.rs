//! Exact decimal amounts of money.
//!
//! An amount is a signed integer mantissa together with a scale: the number
//! `mantissa / 10^scale`. Sums, differences and quotients are computed by the
//! `rust_decimal` crate; every result it hands back is confirmed here, in
//! integer arithmetic, to be exact before it is accepted. An amount that
//! cannot be confirmed is refused, never rounded.

use core::cmp::Ordering;
use rust_decimal::Decimal;
use vstd::prelude::*;
use vstd::std_specs::cmp::PartialEqSpecImpl;

verus! {

/// The largest number of fractional digits an amount can carry.
pub const MAX_SCALE: u32 = 28;

/// The largest mantissa an amount can carry: `2^96 - 1`.
pub const MAX_MANTISSA: i128 = 79_228_162_514_264_337_593_543_950_335;

/// Ten to the power `k`.
pub open spec fn pow10(k: nat) -> int
    decreases k,
{
    if k == 0 {
        1
    } else {
        10 * pow10((k - 1) as nat)
    }
}

/// Whether `mantissa / 10^scale` is a value that an amount can hold.
pub open spec fn representable(mantissa: int, scale: int) -> bool {
    &&& -MAX_MANTISSA <= mantissa <= MAX_MANTISSA
    &&& 0 <= scale <= MAX_SCALE
}

/// The value `mantissa / 10^scale` counted in units of `10^-28`, the finest
/// step any amount can resolve. Two amounts are the same number exactly when
/// their unit counts agree.
pub open spec fn units(mantissa: int, scale: int) -> int {
    mantissa * pow10((MAX_SCALE - scale) as nat)
}

/// The mantissa that `mantissa / 10^scale` has when written at the scale
/// `top >= scale`.
pub open spec fn lifted(mantissa: int, scale: int, top: int) -> int {
    mantissa * pow10((top - scale) as nat)
}

/// Whether `x` fits a signed 128-bit word.
pub open spec fn in_word(x: int) -> bool {
    i128::MIN <= x <= i128::MAX
}

/// The largest of three scales.
pub open spec fn top_scale(a: int, b: int, c: int) -> int {
    if a >= b && a >= c {
        a
    } else if b >= c {
        b
    } else {
        c
    }
}

/// Whether a 128-bit mantissa and a 32-bit scale give a value that an amount
/// can hold.
pub open spec fn holds(mantissa: i128, scale: u32) -> bool {
    representable(mantissa as int, scale as int)
}

/// The unit count of the value given by a 128-bit mantissa and a 32-bit scale.
pub open spec fn word_units(mantissa: i128, scale: u32) -> int {
    units(mantissa as int, scale as int)
}

/// How two unit counts compare.
pub open spec fn order_of(x: int, y: int) -> Ordering {
    if x < y {
        Ordering::Less
    } else if x == y {
        Ordering::Equal
    } else {
        Ordering::Greater
    }
}

/// What `Decimal::checked_add` returns for `am / 10^asc + bm / 10^bsc`, as
/// mantissa and scale.
pub uninterp spec fn decimal_sum(am: i128, asc: u32, bm: i128, bsc: u32) -> Option<(i128, u32)>;

/// What `Decimal::checked_sub` returns for `am / 10^asc - bm / 10^bsc`, as
/// mantissa and scale.
pub uninterp spec fn decimal_difference(am: i128, asc: u32, bm: i128, bsc: u32) -> Option<
    (i128, u32),
>;

/// What `Decimal::checked_div` returns for `(am / 10^asc) / (bm / 10^bsc)`, as
/// mantissa and scale.
pub uninterp spec fn decimal_quotient(am: i128, asc: u32, bm: i128, bsc: u32) -> Option<
    (i128, u32),
>;

/// The text that `Decimal`'s `Display` writes for `mantissa / 10^scale`.
pub uninterp spec fn decimal_text(mantissa: i128, scale: u32) -> Seq<char>;

/// Calls `Decimal::checked_add` on the two decimals given by mantissa and
/// scale. Not proved: that the result is the one named `decimal_sum`, which
/// is to say that it depends on the two operands alone. Nothing is claimed
/// about the result being the true sum, nor about its size.
#[verifier::external_body]
fn decimal_checked_add(am: i128, asc: u32, bm: i128, bsc: u32) -> (r: Option<(i128, u32)>)
    requires
        holds(am, asc),
        holds(bm, bsc),
    ensures
        r == decimal_sum(am, asc, bm, bsc),
{
    let a = Decimal::from_i128_with_scale(am, asc);
    let b = Decimal::from_i128_with_scale(bm, bsc);
    match a.checked_add(b) {
        Some(d) => Some((d.mantissa(), d.scale())),
        None => None,
    }
}

/// Calls `Decimal::checked_sub` on the two decimals given by mantissa and
/// scale. Not proved: that the result is the one named `decimal_difference`,
/// which is to say that it depends on the two operands alone. Nothing is
/// claimed about the result being the true difference, nor about its size.
#[verifier::external_body]
fn decimal_checked_sub(am: i128, asc: u32, bm: i128, bsc: u32) -> (r: Option<(i128, u32)>)
    requires
        holds(am, asc),
        holds(bm, bsc),
    ensures
        r == decimal_difference(am, asc, bm, bsc),
{
    let a = Decimal::from_i128_with_scale(am, asc);
    let b = Decimal::from_i128_with_scale(bm, bsc);
    match a.checked_sub(b) {
        Some(d) => Some((d.mantissa(), d.scale())),
        None => None,
    }
}

/// Calls `Decimal::checked_div` on the two decimals given by mantissa and
/// scale. Not proved: that the result is the one named `decimal_quotient`,
/// which is to say that it depends on the two operands alone. Nothing is
/// claimed about the result being the true quotient, nor about its size.
#[verifier::external_body]
fn decimal_checked_div(am: i128, asc: u32, bm: i128, bsc: u32) -> (r: Option<(i128, u32)>)
    requires
        holds(am, asc),
        holds(bm, bsc),
    ensures
        r == decimal_quotient(am, asc, bm, bsc),
{
    let a = Decimal::from_i128_with_scale(am, asc);
    let b = Decimal::from_i128_with_scale(bm, bsc);
    match a.checked_div(b) {
        Some(d) => Some((d.mantissa(), d.scale())),
        None => None,
    }
}

/// Calls `Decimal`'s `Ord::cmp` on the two decimals given by mantissa and
/// scale. Not proved: that `Decimal` orders by numeric value, so that `1.0`
/// and `1.00` compare equal.
#[verifier::external_body]
fn decimal_order(am: i128, asc: u32, bm: i128, bsc: u32) -> (r: Ordering)
    requires
        holds(am, asc),
        holds(bm, bsc),
    ensures
        r == order_of(word_units(am, asc), word_units(bm, bsc)),
{
    let a = Decimal::from_i128_with_scale(am, asc);
    let b = Decimal::from_i128_with_scale(bm, bsc);
    a.cmp(&b)
}

/// Formats the decimal given by mantissa and scale with `Decimal`'s `Display`.
/// Not proved: that the text is the one named `decimal_text`.
#[verifier::external_body]
fn decimal_to_string(mantissa: i128, scale: u32) -> (r: String)
    requires
        holds(mantissa, scale),
    ensures
        r@ == decimal_text(mantissa, scale),
{
    Decimal::from_i128_with_scale(mantissa, scale).to_string()
}

/// Powers of ten are positive.
pub proof fn lemma_pow10_positive(k: nat)
    ensures
        pow10(k) >= 1,
    decreases k,
{
    if k > 0 {
        lemma_pow10_positive((k - 1) as nat);
    }
}

/// Powers of ten multiply as their exponents add.
pub proof fn lemma_pow10_adds(a: nat, b: nat)
    ensures
        pow10(a + b) == pow10(a) * pow10(b),
    decreases a,
{
    if a == 0 {
        assert(pow10(0) == 1);
        assert(pow10(b) == 1 * pow10(b));
    } else {
        lemma_pow10_adds((a - 1) as nat, b);
        assert(pow10(a + b) == 10 * pow10((a + b - 1) as nat));
        assert((a + b - 1) as nat == (a - 1) as nat + b);
        assert(10 * (pow10((a - 1) as nat) * pow10(b)) == (10 * pow10((a - 1) as nat)) * pow10(b))
            by (nonlinear_arith);
    }
}

/// A value written at the scale `top` counts the same units as before.
pub proof fn lemma_lifted_units(mantissa: int, scale: int, top: int)
    requires
        0 <= scale <= top <= MAX_SCALE,
    ensures
        lifted(mantissa, scale, top) * pow10((MAX_SCALE - top) as nat) == units(mantissa, scale),
{
    let up = (top - scale) as nat;
    let rest = (MAX_SCALE - top) as nat;
    lemma_pow10_adds(up, rest);
    assert(up + rest == (MAX_SCALE - scale) as nat);
    assert((mantissa * pow10(up)) * pow10(rest) == mantissa * (pow10(up) * pow10(rest)))
        by (nonlinear_arith);
}

/// Multiplying by a larger power of ten moves a number no closer to zero.
proof fn lemma_lift_grows(m: int, j: nat, k: nat)
    requires
        j <= k,
    ensures
        m >= 0 ==> 0 <= m * pow10(j) <= m * pow10(k),
        m <= 0 ==> m * pow10(k) <= m * pow10(j) <= 0,
        !in_word(m * pow10(j)) ==> !in_word(m * pow10(k)),
{
    let d = (k - j) as nat;
    lemma_pow10_adds(j, d);
    lemma_pow10_positive(j);
    lemma_pow10_positive(d);
    let p = pow10(j);
    let q = pow10(d);
    assert(pow10(k) == p * q);
    assert(m >= 0 ==> 0 <= m * p <= m * (p * q)) by (nonlinear_arith)
        requires
            p >= 1,
            q >= 1,
    ;
    assert(m <= 0 ==> m * (p * q) <= m * p <= 0) by (nonlinear_arith)
        requires
            p >= 1,
            q >= 1,
    ;
}

/// `m * 10^k`, where that fits a signed 128-bit word.
fn lift(m: i128, k: u32) -> (r: Option<i128>)
    ensures
        match r {
            Some(v) => v == m * pow10(k as nat),
            None => !in_word(m * pow10(k as nat)),
        },
{
    let mut acc: i128 = m;
    let mut i: u32 = 0;
    assert(m * pow10(0) == m);
    while i < k
        invariant
            i <= k,
            acc == m * pow10(i as nat),
        decreases k - i,
    {
        proof {
            assert(pow10((i + 1) as nat) == 10 * pow10(i as nat));
            assert(m * (10 * pow10(i as nat)) == (m * pow10(i as nat)) * 10) by (nonlinear_arith);
        }
        match acc.checked_mul(10) {
            Some(v) => {
                acc = v;
            },
            None => {
                proof {
                    lemma_lift_grows(m as int, (i + 1) as nat, k as nat);
                }
                return None;
            },
        }
        i = i + 1;
    }
    Some(acc)
}

/// Whether `mantissa / 10^scale` is written with no more fractional digits
/// than it needs: it has none, or the last one is not a zero.
pub open spec fn trimmed(mantissa: int, scale: int) -> bool {
    scale == 0 || mantissa % 10 != 0
}

/// A value written at a larger scale has a mantissa that ends in zero; at
/// its own scale it has its own mantissa.
proof fn lemma_lifted_ends_in_zero(mantissa: int, scale: int, top: int)
    requires
        0 <= scale <= top,
    ensures
        top > scale ==> lifted(mantissa, scale, top) % 10 == 0,
        top == scale ==> lifted(mantissa, scale, top) == mantissa,
{
    if top > scale {
        let rest = pow10((top - scale - 1) as nat);
        assert(pow10((top - scale) as nat) == 10 * rest);
        assert(mantissa * (10 * rest) == 10 * (mantissa * rest)) by (nonlinear_arith);
    } else {
        assert(pow10(0) == 1);
    }
}

/// Three values whose lifted mantissas add up are a sum: the unit counts of
/// the first two add up to that of the third.
proof fn lemma_lifted_sum_is_exact(am: int, asc: int, bm: int, bsc: int, cm: int, csc: int)
    requires
        representable(am, asc),
        representable(bm, bsc),
        representable(cm, csc),
        lifted(am, asc, top_scale(asc, bsc, csc)) + lifted(bm, bsc, top_scale(asc, bsc, csc))
            == lifted(cm, csc, top_scale(asc, bsc, csc)),
    ensures
        units(cm, csc) == units(am, asc) + units(bm, bsc),
{
    let top = top_scale(asc, bsc, csc);
    let x = lifted(am, asc, top);
    let y = lifted(bm, bsc, top);
    let p = pow10((MAX_SCALE - top) as nat);
    lemma_lifted_units(am, asc, top);
    lemma_lifted_units(bm, bsc, top);
    lemma_lifted_units(cm, csc, top);
    assert((x + y) * p == x * p + y * p) by (nonlinear_arith);
}

/// A sum of trimmed values can be checked in 128 bits: where the unit
/// counts of two trimmed values add up to that of a third, the three
/// mantissas, lifted to the largest of the three scales, fit a signed
/// 128-bit word, and the first two add up to the third.
proof fn lemma_exact_sum_fits(am: int, asc: int, bm: int, bsc: int, cm: int, csc: int)
    requires
        representable(am, asc),
        representable(bm, bsc),
        representable(cm, csc),
        trimmed(am, asc),
        trimmed(bm, bsc),
        trimmed(cm, csc),
        units(cm, csc) == units(am, asc) + units(bm, bsc),
    ensures
        in_word(lifted(am, asc, top_scale(asc, bsc, csc))),
        in_word(lifted(bm, bsc, top_scale(asc, bsc, csc))),
        in_word(lifted(cm, csc, top_scale(asc, bsc, csc))),
        lifted(am, asc, top_scale(asc, bsc, csc)) + lifted(bm, bsc, top_scale(asc, bsc, csc))
            == lifted(cm, csc, top_scale(asc, bsc, csc)),
{
    let top = top_scale(asc, bsc, csc);
    let x = lifted(am, asc, top);
    let y = lifted(bm, bsc, top);
    let z = lifted(cm, csc, top);
    let p = pow10((MAX_SCALE - top) as nat);
    lemma_lifted_units(am, asc, top);
    lemma_lifted_units(bm, bsc, top);
    lemma_lifted_units(cm, csc, top);
    lemma_pow10_positive((MAX_SCALE - top) as nat);
    assert(x + y == z) by (nonlinear_arith)
        requires
            x * p + y * p == z * p,
            p >= 1,
    ;
    // Of the three, the one at the largest scale stands as it is. If it
    // were the only one, the other two would end in zero, and so would it:
    // but it is trimmed. So two stand as they are, and the third is their
    // sum or difference.
    lemma_lifted_ends_in_zero(am, asc, top);
    lemma_lifted_ends_in_zero(bm, bsc, top);
    lemma_lifted_ends_in_zero(cm, csc, top);
}

/// Strips the trailing zeros off the fractional digits of a decimal.
fn trim(mantissa: i128, scale: u32) -> (r: (i128, u32))
    requires
        holds(mantissa, scale),
    ensures
        holds(r.0, r.1),
        word_units(r.0, r.1) == word_units(mantissa, scale),
        trimmed(r.0 as int, r.1 as int),
{
    let negative = mantissa < 0;
    let mut magnitude: u128 = if negative {
        (-mantissa) as u128
    } else {
        mantissa as u128
    };
    let mut digits: u32 = scale;
    proof {
        let p = pow10((MAX_SCALE - scale) as nat);
        assert((-(mantissa as int)) * p == -(mantissa * p)) by (nonlinear_arith);
    }
    while digits > 0 && magnitude % 10 == 0
        invariant
            digits <= scale <= MAX_SCALE,
            magnitude <= MAX_MANTISSA,
            magnitude * pow10((MAX_SCALE - digits) as nat) == (if negative {
                -units(mantissa as int, scale as int)
            } else {
                units(mantissa as int, scale as int)
            }),
        decreases digits,
    {
        proof {
            let p = pow10((MAX_SCALE - digits) as nat);
            let q = (magnitude / 10) as int;
            assert(pow10((MAX_SCALE - digits + 1) as nat) == 10 * p);
            assert(magnitude == 10 * q);
            assert(q * (10 * p) == (10 * q) * p) by (nonlinear_arith);
        }
        magnitude = magnitude / 10;
        digits = digits - 1;
    }
    let stripped: i128 = if negative {
        -(magnitude as i128)
    } else {
        magnitude as i128
    };
    proof {
        let p = pow10((MAX_SCALE - digits) as nat);
        assert((-(magnitude as int)) * p == -(magnitude * p)) by (nonlinear_arith);
    }
    (stripped, digits)
}

/// The exact result of a calculation is not an amount that could be
/// confirmed: it does not fit, or the arithmetic behind it was refused.
#[derive(Clone, Copy, Debug, PartialEq, Eq, Structural)]
pub struct OutOfRange {}

/// An exact decimal amount: the number `mantissa / 10^scale`, with a mantissa
/// of at most 96 bits and a scale of at most 28.
#[derive(Clone, Copy, Debug)]
pub struct Money {
    mantissa: i128,
    scale: u32,
}

impl View for Money {
    type V = int;

    /// The amount counted in units of `10^-28`.
    open spec fn view(&self) -> int {
        word_units(self.spec_mantissa(), self.spec_scale())
    }
}

impl Money {

    /// The mantissa of the amount.
    pub closed spec fn spec_mantissa(self) -> i128 {
        self.mantissa
    }

    /// The number of fractional digits of the amount.
    pub closed spec fn spec_scale(self) -> u32 {
        self.scale
    }

    /// The amount with the given mantissa and scale.
    pub closed spec fn of(mantissa: i128, scale: u32) -> Money {
        Money { mantissa, scale }
    }

    /// Whether mantissa and scale are within what an amount can hold. Every
    /// amount that exists at run time is; of a bare value in a specification
    /// it has to be said.
    #[verifier::type_invariant]
    pub open spec fn wf(self) -> bool {
        holds(self.spec_mantissa(), self.spec_scale())
    }

    /// `Money::of` builds the amount with exactly that mantissa and scale.
    pub proof fn lemma_of(mantissa: i128, scale: u32)
        ensures
            Money::of(mantissa, scale).spec_mantissa() == mantissa,
            Money::of(mantissa, scale).spec_scale() == scale,
            Money::of(mantissa, scale)@ == word_units(mantissa, scale),
            Money::of(mantissa, scale).wf() == holds(mantissa, scale),
    {
    }

    /// The amount with mantissa 0 and scale 0 is zero, and well formed.
    pub proof fn lemma_zero()
        ensures
            Money::of(0, 0)@ == 0,
            Money::of(0, 0).wf(),
    {
        assert(0 * pow10(MAX_SCALE as nat) == 0);
    }

    /// Two amounts with the same mantissa and scale are the same amount.
    pub proof fn lemma_determined(a: Money, b: Money)
        requires
            a.spec_mantissa() == b.spec_mantissa(),
            a.spec_scale() == b.spec_scale(),
        ensures
            a == b,
    {
    }

    /// The sign of an amount is the sign of its mantissa.
    pub proof fn lemma_sign(self)
        requires
            self.wf(),
        ensures
            self@ > 0 <==> self.spec_mantissa() > 0,
            self@ == 0 <==> self.spec_mantissa() == 0,
            self@ < 0 <==> self.spec_mantissa() < 0,
    {
        let p = pow10((MAX_SCALE - self.spec_scale()) as nat);
        lemma_pow10_positive((MAX_SCALE - self.spec_scale()) as nat);
        let m = self.spec_mantissa() as int;
        assert(m > 0 ==> m * p > 0) by (nonlinear_arith)
            requires
                p >= 1,
        ;
        assert(m < 0 ==> m * p < 0) by (nonlinear_arith)
            requires
                p >= 1,
        ;
        assert(m == 0 ==> m * p == 0) by (nonlinear_arith);
    }

    /// The amount `num / 10^scale`.
    pub fn new(num: i64, scale: u32) -> (r: Money)
        requires
            scale <= MAX_SCALE,
        ensures
            r == Money::of(num as i128, scale),
            r.spec_mantissa() == num,
            r.spec_scale() == scale,
            r@ == word_units(num as i128, scale),
            (r@ > 0 <==> num > 0) && (r@ == 0 <==> num == 0) && (r@ < 0 <==> num < 0),
            r.wf(),
    {
        proof {
            Money::of(num as i128, scale).lemma_sign();
        }
        Money { mantissa: num as i128, scale }
    }

    /// The amount zero, with no fractional digits.
    pub fn zero() -> (r: Money)
        ensures
            r == Money::of(0, 0),
            r.spec_mantissa() == 0,
            r.spec_scale() == 0,
            r@ == 0,
            r.wf(),
    {
        assert(0 * pow10(MAX_SCALE as nat) == 0);
        Money { mantissa: 0, scale: 0 }
    }

    /// The amount `mantissa / 10^scale`, if an amount can hold it.
    pub fn from_parts(mantissa: i128, scale: u32) -> (r: Option<Money>)
        ensures
            r is Some <==> representable(mantissa as int, scale as int),
            r matches Some(v) ==> v == Money::of(mantissa, scale) && v.spec_mantissa() == mantissa
                && v.spec_scale() == scale && v@ == word_units(mantissa, scale) && v.wf(),
            r matches Some(v) ==> (v@ > 0 <==> mantissa > 0) && (v@ == 0 <==> mantissa == 0) && (v@
                < 0 <==> mantissa < 0),
    {
        if scale <= MAX_SCALE && -MAX_MANTISSA <= mantissa && mantissa <= MAX_MANTISSA {
            proof {
                Money::of(mantissa, scale).lemma_sign();
            }
            Some(Money { mantissa, scale })
        } else {
            None
        }
    }

    /// The mantissa of the amount.
    pub fn mantissa(&self) -> (r: i128)
        ensures
            r == self.spec_mantissa(),
            -MAX_MANTISSA <= r <= MAX_MANTISSA,
    {
        proof {
            use_type_invariant(self);
        }
        self.mantissa
    }

    /// The number of fractional digits of the amount.
    pub fn scale(&self) -> (r: u32)
        ensures
            r == self.spec_scale(),
            r <= MAX_SCALE,
    {
        proof {
            use_type_invariant(self);
        }
        self.scale
    }

    /// Whether the amount is zero.
    pub fn is_zero(&self) -> (r: bool)
        ensures
            r == (self@ == 0),
    {
        proof {
            use_type_invariant(self);
            self.lemma_sign();
        }
        self.mantissa == 0
    }

    /// Whether the amount is greater than zero.
    pub fn is_positive(&self) -> (r: bool)
        ensures
            r == (self@ > 0),
    {
        proof {
            use_type_invariant(self);
            self.lemma_sign();
        }
        self.mantissa > 0
    }

    /// Whether the amount is less than zero.
    pub fn is_negative(&self) -> (r: bool)
        ensures
            r == (self@ < 0),
    {
        proof {
            use_type_invariant(self);
            self.lemma_sign();
        }
        self.mantissa < 0
    }

    /// The amount with its sign reversed, at the same scale.
    pub fn neg(self) -> (r: Money)
        ensures
            r == self.negated(),
            r.spec_mantissa() == -self.spec_mantissa(),
            r.spec_scale() == self.spec_scale(),
            r@ == -self@,
            r.wf(),
    {
        proof {
            use_type_invariant(self);
            let p = pow10((MAX_SCALE - self.scale) as nat);
            assert((-self.mantissa) * p == -(self.mantissa * p)) by (nonlinear_arith);
        }
        Money { mantissa: -self.mantissa, scale: self.scale }
    }

    /// The magnitude of the amount, at the same scale.
    pub fn abs(self) -> (r: Money)
        ensures
            r == self.magnitude(),
            r.spec_mantissa() == (if self.spec_mantissa() < 0 {
                -self.spec_mantissa()
            } else {
                self.spec_mantissa() as int
            }),
            r.spec_scale() == self.spec_scale(),
            r@ == (if self@ >= 0 {
                self@
            } else {
                -self@
            }),
            r.wf(),
    {
        proof {
            use_type_invariant(self);
            self.lemma_sign();
        }
        if self.mantissa < 0 {
            self.neg()
        } else {
            self
        }
    }

    /// The amount with its sign reversed, at the same scale.
    pub open spec fn negated(self) -> Money {
        Money::of((-self.spec_mantissa()) as i128, self.spec_scale())
    }

    /// The magnitude of the amount, at the same scale.
    pub open spec fn magnitude(self) -> Money {
        if self.spec_mantissa() < 0 {
            self.negated()
        } else {
            self
        }
    }

    /// Reversing the sign of an amount reverses the sign of its value.
    pub proof fn lemma_negated(self)
        requires
            self.wf(),
        ensures
            self.negated()@ == -self@,
            self.negated().wf(),
    {
        let p = pow10((MAX_SCALE - self.spec_scale()) as nat);
        assert((-self.spec_mantissa()) * p == -(self.spec_mantissa() * p)) by (nonlinear_arith);
    }

    /// Whether `m / 10^s` is an amount and is exactly `self + other`.
    pub open spec fn confirms_sum(self, other: Money, m: i128, s: u32) -> bool {
        holds(m, s) && word_units(m, s) == self@ + other@
    }

    /// The amount that a candidate for `self + other` is accepted as: the
    /// candidate itself where it is confirmed, nothing otherwise.
    pub open spec fn confirmed_sum(self, other: Money, candidate: Option<(i128, u32)>) -> Option<
        Money,
    > {
        match candidate {
            Some((m, s)) => if self.confirms_sum(other, m, s) {
                Some(Money::of(m, s))
            } else {
                None
            },
            None => None,
        }
    }

    /// Whether `m / 10^s` is confirmed to be `self / other`: the candidate
    /// times the divisor and the dividend, written at a common scale, fit a
    /// signed 128-bit word and are equal.
    pub open spec fn confirms_quotient(self, other: Money, m: i128, s: u32) -> bool {
        let left_scale = s + other.spec_scale();
        let top = if left_scale >= self.spec_scale() {
            left_scale
        } else {
            self.spec_scale() as int
        };
        let product = m * other.spec_mantissa();
        let x = lifted(product, left_scale, top);
        let y = lifted(self.spec_mantissa() as int, self.spec_scale() as int, top);
        &&& holds(m, s)
        &&& other.spec_mantissa() != 0
        &&& in_word(product)
        &&& in_word(x)
        &&& in_word(y)
        &&& x == y
    }

    /// The amount that a candidate for `self / other` is accepted as.
    pub open spec fn confirmed_quotient(
        self,
        other: Money,
        candidate: Option<(i128, u32)>,
    ) -> Option<Money> {
        match candidate {
            Some((m, s)) => if self.confirms_quotient(other, m, s) {
                Some(Money::of(m, s))
            } else {
                None
            },
            None => None,
        }
    }

    /// What `checked_add` returns.
    pub open spec fn sum(self, other: Money) -> Option<Money> {
        self.confirmed_sum(
            other,
            decimal_sum(
                self.spec_mantissa(),
                self.spec_scale(),
                other.spec_mantissa(),
                other.spec_scale(),
            ),
        )
    }

    /// What `checked_sub` returns.
    pub open spec fn difference(self, other: Money) -> Option<Money> {
        self.confirmed_sum(
            other.negated(),
            decimal_difference(
                self.spec_mantissa(),
                self.spec_scale(),
                other.spec_mantissa(),
                other.spec_scale(),
            ),
        )
    }

    /// What `checked_div` returns.
    pub open spec fn quotient(self, other: Money) -> Option<Money> {
        self.confirmed_quotient(
            other,
            decimal_quotient(
                self.spec_mantissa(),
                self.spec_scale(),
                other.spec_mantissa(),
                other.spec_scale(),
            ),
        )
    }

    /// A confirmed sum is the exact sum.
    pub proof fn lemma_confirmed_sum(self, other: Money, m: i128, s: u32)
        requires
            self.confirms_sum(other, m, s),
        ensures
            Money::of(m, s)@ == self@ + other@,
            Money::of(m, s).wf(),
    {
    }

    /// A confirmed quotient, multiplied back by the divisor, is exactly the
    /// dividend. (A product of two unit counts is in units of `10^-56`.)
    pub proof fn lemma_confirmed_quotient(self, other: Money, m: i128, s: u32)
        requires
            self.wf(),
            other.wf(),
            self.confirms_quotient(other, m, s),
        ensures
            Money::of(m, s)@ * other@ == self@ * pow10(MAX_SCALE as nat),
            other@ != 0,
            Money::of(m, s).wf(),
    {
        let sb = other.spec_scale() as int;
        let sa = self.spec_scale() as int;
        let ma = self.spec_mantissa() as int;
        let mb = other.spec_mantissa() as int;
        let left_scale = s + sb;
        let top = if left_scale >= sa {
            left_scale
        } else {
            sa
        };
        let x = lifted(m * mb, left_scale, top);
        let y = lifted(ma, sa, top);
        // Both sides of the claim, written in units of 10^-56, are x and y
        // times the same power of ten.
        let rest = (2 * MAX_SCALE - top) as nat;
        let p_rest = pow10(rest);
        let pq = pow10((MAX_SCALE - s) as nat);
        let pb = pow10((MAX_SCALE - sb) as nat);
        let pa = pow10((MAX_SCALE - sa) as nat);
        let p28 = pow10(MAX_SCALE as nat);
        lemma_pow10_adds((MAX_SCALE - s) as nat, (MAX_SCALE - sb) as nat);
        lemma_pow10_adds((top - left_scale) as nat, rest);
        lemma_pow10_adds((MAX_SCALE - sa) as nat, MAX_SCALE as nat);
        lemma_pow10_adds((top - sa) as nat, rest);
        assert((MAX_SCALE - s) as nat + (MAX_SCALE - sb) as nat == (top - left_scale) as nat
            + rest);
        assert((MAX_SCALE - sa) as nat + MAX_SCALE as nat == (top - sa) as nat + rest);
        let ux = pow10((top - left_scale) as nat);
        let uy = pow10((top - sa) as nat);
        assert(pq * pb == ux * p_rest);
        assert(pa * p28 == uy * p_rest);
        assert((m * pq) * (mb * pb) == ((m * mb) * ux) * p_rest) by (nonlinear_arith)
            requires
                pq * pb == ux * p_rest,
        ;
        assert((ma * pa) * p28 == (ma * uy) * p_rest) by (nonlinear_arith)
            requires
                pa * p28 == uy * p_rest,
        ;
        other.lemma_sign();
    }

    /// Accepts a candidate for `self + other` exactly where it is the sum.
    /// The candidate may come from anywhere: it is checked in integer
    /// arithmetic, with the trailing zeros of all three values stripped,
    /// which is enough to decide every case.
    pub fn confirm_sum(self, other: Money, candidate: Option<(i128, u32)>) -> (r: Option<Money>)
        ensures
            r == self.confirmed_sum(other, candidate),
            r matches Some(v) ==> v@ == self@ + other@,
    {
        proof {
            use_type_invariant(self);
            use_type_invariant(other);
        }
        let (m, s) = match candidate {
            Some(pair) => pair,
            None => {
                return None;
            },
        };
        if !(s <= MAX_SCALE && -MAX_MANTISSA <= m && m <= MAX_MANTISSA) {
            return None;
        }
        let (am, asc) = trim(self.mantissa, self.scale);
        let (bm, bsc) = trim(other.mantissa, other.scale);
        let (cm, csc) = trim(m, s);
        let wider: u32 = if asc >= bsc {
            asc
        } else {
            bsc
        };
        let top: u32 = if wider >= csc {
            wider
        } else {
            csc
        };
        proof {
            assert(top == top_scale(asc as int, bsc as int, csc as int));
            if word_units(m, s) == self@ + other@ {
                lemma_exact_sum_fits(
                    am as int,
                    asc as int,
                    bm as int,
                    bsc as int,
                    cm as int,
                    csc as int,
                );
            }
        }
        let x = match lift(am, top - asc) {
            Some(v) => v,
            None => {
                return None;
            },
        };
        let y = match lift(bm, top - bsc) {
            Some(v) => v,
            None => {
                return None;
            },
        };
        let z = match lift(cm, top - csc) {
            Some(v) => v,
            None => {
                return None;
            },
        };
        let total = match x.checked_add(y) {
            Some(v) => v,
            None => {
                return None;
            },
        };
        if total == z {
            proof {
                lemma_lifted_sum_is_exact(
                    am as int,
                    asc as int,
                    bm as int,
                    bsc as int,
                    cm as int,
                    csc as int,
                );
            }
            Some(Money { mantissa: m, scale: s })
        } else {
            None
        }
    }

    /// Accepts a candidate for `self / other` exactly where it is confirmed.
    pub fn confirm_quotient(self, other: Money, candidate: Option<(i128, u32)>) -> (r: Option<
        Money,
    >)
        ensures
            r == self.confirmed_quotient(other, candidate),
            r matches Some(v) ==> v@ * other@ == self@ * pow10(MAX_SCALE as nat) && other@ != 0,
    {
        proof {
            use_type_invariant(self);
            use_type_invariant(other);
        }
        let (m, s) = match candidate {
            Some(pair) => pair,
            None => {
                return None;
            },
        };
        if !(s <= MAX_SCALE && -MAX_MANTISSA <= m && m <= MAX_MANTISSA) {
            return None;
        }
        if other.mantissa == 0 {
            return None;
        }
        let left_scale: u32 = s + other.scale;
        let top: u32 = if left_scale >= self.scale {
            left_scale
        } else {
            self.scale
        };
        let product = match m.checked_mul(other.mantissa) {
            Some(v) => v,
            None => {
                return None;
            },
        };
        let x = match lift(product, top - left_scale) {
            Some(v) => v,
            None => {
                return None;
            },
        };
        let y = match lift(self.mantissa, top - self.scale) {
            Some(v) => v,
            None => {
                return None;
            },
        };
        if x == y {
            proof {
                self.lemma_confirmed_quotient(other, m, s);
            }
            Some(Money { mantissa: m, scale: s })
        } else {
            None
        }
    }

    /// `self + other`, computed by `Decimal::checked_add` and accepted only
    /// where the result is confirmed to be exact.
    pub fn checked_add(self, other: Money) -> (r: Option<Money>)
        ensures
            r == self.sum(other),
            r matches Some(v) ==> v@ == self@ + other@,
    {
        proof {
            use_type_invariant(self);
            use_type_invariant(other);
        }
        let candidate = decimal_checked_add(self.mantissa, self.scale, other.mantissa, other.scale);
        self.confirm_sum(other, candidate)
    }

    /// `self - other`, computed by `Decimal::checked_sub` and accepted only
    /// where the result is confirmed to be exact.
    pub fn checked_sub(self, other: Money) -> (r: Option<Money>)
        ensures
            r == self.difference(other),
            r matches Some(v) ==> v@ == self@ - other@,
    {
        proof {
            use_type_invariant(self);
            use_type_invariant(other);
        }
        let candidate = decimal_checked_sub(self.mantissa, self.scale, other.mantissa, other.scale);
        let reversed = other.neg();
        proof {
            Money::lemma_determined(reversed, other.negated());
        }
        self.confirm_sum(reversed, candidate)
    }

    /// `self / other`, computed by `Decimal::checked_div` and accepted only
    /// where the result, multiplied back, is confirmed to give `self` exactly.
    pub fn checked_div(self, other: Money) -> (r: Option<Money>)
        ensures
            r == self.quotient(other),
            r matches Some(v) ==> v@ * other@ == self@ * pow10(MAX_SCALE as nat) && other@ != 0,
    {
        proof {
            use_type_invariant(self);
            use_type_invariant(other);
        }
        let candidate = decimal_checked_div(self.mantissa, self.scale, other.mantissa, other.scale);
        self.confirm_quotient(other, candidate)
    }

    /// The text of the amount, as `Decimal` displays it.
    pub fn to_text(&self) -> (r: String)
        ensures
            r@ == decimal_text(self.spec_mantissa(), self.spec_scale()),
    {
        proof {
            use_type_invariant(self);
        }
        decimal_to_string(self.mantissa, self.scale)
    }

    /// How the amount compares with another, by numeric value.
    pub fn compare(&self, other: &Money) -> (r: Ordering)
        ensures
            r == order_of(self@, other@),
    {
        proof {
            use_type_invariant(self);
            use_type_invariant(other);
        }
        decimal_order(self.mantissa, self.scale, other.mantissa, other.scale)
    }

    /// Whether the amount is less than another.
    pub fn lt(&self, other: &Money) -> (r: bool)
        ensures
            r == (self@ < other@),
    {
        matches!(self.compare(other), Ordering::Less)
    }

    /// Whether the amount is at most another.
    pub fn le(&self, other: &Money) -> (r: bool)
        ensures
            r == (self@ <= other@),
    {
        !matches!(self.compare(other), Ordering::Greater)
    }

    /// Whether the amount is greater than another.
    pub fn gt(&self, other: &Money) -> (r: bool)
        ensures
            r == (self@ > other@),
    {
        matches!(self.compare(other), Ordering::Greater)
    }

    /// Whether the amount is at least another.
    pub fn ge(&self, other: &Money) -> (r: bool)
        ensures
            r == (self@ >= other@),
    {
        !matches!(self.compare(other), Ordering::Less)
    }

    /// The greater of two amounts; `other` where they are the same number.
    pub fn max(self, other: Money) -> (r: Money)
        ensures
            r == (if self@ > other@ {
                self
            } else {
                other
            }),
    {
        if self.gt(&other) {
            self
        } else {
            other
        }
    }
}

/// The exact sum of a sequence of amounts, in units of `10^-28`.
pub open spec fn total_units(amounts: Seq<Money>) -> int
    decreases amounts.len(),
{
    if amounts.len() == 0 {
        0
    } else {
        total_units(amounts.drop_last()) + amounts.last()@
    }
}

/// The amount reached by adding up a sequence from left to right, starting
/// at zero: nothing as soon as one of the sums is refused.
pub open spec fn checked_total(amounts: Seq<Money>) -> Option<Money>
    decreases amounts.len(),
{
    if amounts.len() == 0 {
        Some(Money::of(0, 0))
    } else {
        match checked_total(amounts.drop_last()) {
            Some(t) => t.sum(amounts.last()),
            None => None,
        }
    }
}

/// Whether every amount of a sequence is well formed.
pub open spec fn all_wf(amounts: Seq<Money>) -> bool {
    forall|i: int| 0 <= i < amounts.len() ==> (#[trigger] amounts[i]).wf()
}

/// A sum that `checked_add` hands out is the exact sum.
pub proof fn lemma_sum_exact(a: Money, b: Money)
    requires
        a.wf(),
        b.wf(),
        a.sum(b) is Some,
    ensures
        a.sum(b)->0@ == a@ + b@,
        a.sum(b)->0.wf(),
{
    let candidate = decimal_sum(a.spec_mantissa(), a.spec_scale(), b.spec_mantissa(), b.spec_scale());
    let (m, s) = candidate->0;
    a.lemma_confirmed_sum(b, m, s);
}

/// A difference that `checked_sub` hands out is the exact difference.
pub proof fn lemma_difference_exact(a: Money, b: Money)
    requires
        a.wf(),
        b.wf(),
        a.difference(b) is Some,
    ensures
        a.difference(b)->0@ == a@ - b@,
        a.difference(b)->0.wf(),
{
    let candidate = decimal_difference(
        a.spec_mantissa(),
        a.spec_scale(),
        b.spec_mantissa(),
        b.spec_scale(),
    );
    let (m, s) = candidate->0;
    let p = pow10((MAX_SCALE - b.spec_scale()) as nat);
    assert((-b.spec_mantissa()) * p == -(b.spec_mantissa() * p)) by (nonlinear_arith);
    a.lemma_confirmed_sum(b.negated(), m, s);
}

/// A total that adding up left to right reaches is the exact total.
pub proof fn lemma_checked_total_exact(amounts: Seq<Money>)
    requires
        all_wf(amounts),
        checked_total(amounts) is Some,
    ensures
        checked_total(amounts)->0@ == total_units(amounts),
        checked_total(amounts)->0.wf(),
    decreases amounts.len(),
{
    if amounts.len() == 0 {
        assert(0 * pow10(MAX_SCALE as nat) == 0);
    } else {
        let front = amounts.drop_last();
        assert(all_wf(front)) by {
            assert forall|i: int| 0 <= i < front.len() implies (#[trigger] front[i]).wf() by {
                assert(front[i] == amounts[i]);
            }
        }
        lemma_checked_total_exact(front);
        lemma_sum_exact(checked_total(front)->0, amounts.last());
    }
}

/// Adds up the amounts from left to right, starting at zero.
pub fn total(amounts: &Vec<Money>) -> (r: Option<Money>)
    ensures
        r == checked_total(amounts@),
        r matches Some(t) ==> t@ == total_units(amounts@),
{
    let mut running = Money::zero();
    let mut i: usize = 0;
    proof {
        Money::lemma_determined(running, Money::of(0, 0));
        assert(amounts@.take(0) =~= Seq::<Money>::empty());
    }
    while i < amounts.len()
        invariant
            i <= amounts.len(),
            checked_total(amounts@.take(i as int)) == Some(running),
            running@ == total_units(amounts@.take(i as int)),
        decreases amounts.len() - i,
    {
        let next = amounts[i];
        proof {
            assert(amounts@.take(i + 1).drop_last() =~= amounts@.take(i as int));
            assert(amounts@.take(i + 1).last() == next);
        }
        match running.checked_add(next) {
            Some(t) => {
                running = t;
            },
            None => {
                proof {
                    lemma_checked_total_none_extends(amounts@, i + 1);
                }
                return None;
            },
        }
        i = i + 1;
    }
    proof {
        assert(amounts@.take(i as int) =~= amounts@);
    }
    Some(running)
}

/// Once adding up has been refused on a prefix, it is refused on the whole.
pub proof fn lemma_checked_total_none_extends(amounts: Seq<Money>, k: int)
    requires
        0 <= k <= amounts.len(),
        checked_total(amounts.take(k)) is None,
    ensures
        checked_total(amounts) is None,
    decreases amounts.len() - k,
{
    if k < amounts.len() {
        assert(amounts.take(k + 1).drop_last() =~= amounts.take(k));
        lemma_checked_total_none_extends(amounts, k + 1);
    } else {
        assert(amounts.take(k) =~= amounts);
    }
}

impl PartialEq for Money {
    /// Two amounts are equal when they are the same number, whatever their
    /// scales: `1.0 == 1.00`.
    fn eq(&self, other: &Money) -> (r: bool) {
        matches!(self.compare(other), Ordering::Equal)
    }
}

impl PartialEqSpecImpl for Money {
    open spec fn obeys_eq_spec() -> bool {
        true
    }

    open spec fn eq_spec(&self, other: &Money) -> bool {
        self@ == other@
    }
}

} // verus!
